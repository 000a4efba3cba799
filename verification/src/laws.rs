//! The behavioral laws of the slicing engine, stated over the same spec
//! functions that the public contracts use: [`sliced`] for range slicing and
//! `encode_utf8` for the byte-level text of a character sequence.

use vstd::prelude::*;
use vstd::utf8::decode_utf8;
use vstd::utf8::encode_utf8;
use vstd::utf8::encode_utf8_decode_utf8;

use crate::indexed::sliced;
use crate::indexed::IndexedSlice;
use crate::indexed::IndexedString;

verus! {

/// For every valid character range `[a, b)`, the slice covers exactly the
/// characters `a..b`: its length is `b - a`, and its characters are those
/// found by re-decoding the text of `s` and cutting at the same positions.
pub proof fn lemma_slice_in_range(s: Seq<char>, a: int, b: int)
    requires
        0 <= a <= b <= s.len(),
    ensures
        sliced(s, a, b) == s.subrange(a, b),
        sliced(s, a, b).len() == b - a,
        sliced(s, a, b) == decode_utf8(encode_utf8(s)).subrange(a, b),
{
    encode_utf8_decode_utf8(s);
}

/// Clamping: an upper bound past the end behaves exactly like the length
/// itself.
pub proof fn lemma_slice_clamps(s: Seq<char>, a: int, b: int)
    requires
        0 <= a,
        b > s.len(),
    ensures
        sliced(s, a, b) == sliced(s, a, s.len() as int),
{
}

/// A reversed range yields the empty slice: no swapping, no panic.
pub proof fn lemma_slice_reversed(s: Seq<char>, a: int, b: int)
    requires
        0 <= a < b,
    ensures
        sliced(s, b, a).len() == 0,
        sliced(s, b, a) == Seq::<char>::empty(),
{
    assert(sliced(s, b, a) =~= Seq::<char>::empty());
}

/// Nested slicing composes: slicing a slice covers the same characters as a
/// single slice of the original with translated bounds, whenever the outer
/// range stays within the inner one (`p + t <= q`).
pub proof fn lemma_slice_compose(s: Seq<char>, p: int, q: int, r: int, t: int)
    requires
        0 <= p,
        0 <= r,
        0 <= t,
        p + t <= q,
    ensures
        sliced(sliced(s, p, q), r, t) == sliced(s, p + r, p + t),
{
    assert(sliced(sliced(s, p, q), r, t) =~= sliced(s, p + r, p + t));
}

/// Round trip: materializing a view into an owned copy preserves both the
/// character count and the text, byte for byte.
pub proof fn lemma_round_trip(view: IndexedSlice<'_>, owned: IndexedString)
    requires
        owned@ == view@,
    ensures
        owned@.len() == view@.len(),
        encode_utf8(owned@) == encode_utf8(view@),
{
}

} // verus!
