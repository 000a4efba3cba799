//! The byte-level model of character-indexed text: how a character sequence
//! maps to its UTF-8 byte encoding, and which byte positions are character
//! boundaries. The owned buffer's offset table is specified with
//! [`byte_offset`], and slicing is justified by the boundary lemmas here.

use vstd::prelude::*;
use vstd::utf8::char_is_scalar;
use vstd::utf8::char_u32_cast;
use vstd::utf8::decode_utf8;
use vstd::utf8::encode_scalar;
use vstd::utf8::encode_utf8;
use vstd::utf8::encode_utf8_decode_utf8;
use vstd::utf8::encode_utf8_first_scalar;
use vstd::utf8::encode_utf8_valid_utf8;
use vstd::utf8::is_char_boundary;
use vstd::utf8::is_char_boundary_iff_not_is_continuation_byte;
use vstd::utf8::is_char_boundary_start_end_of_seq;
use vstd::utf8::is_continuation_byte;
use vstd::utf8::valid_first_scalar;
use vstd::string::StringSliceAdditionalSpecFns;

verus! {

broadcast use vstd::slice::group_slice_axioms;

/// Number of bytes in the UTF-8 encoding of one character (1 to 4).
pub open spec fn char_len(c: char) -> int {
    encode_scalar(c as u32).len() as int
}

/// Number of bytes in the UTF-8 encoding of a character sequence.
pub open spec fn text_len(s: Seq<char>) -> int {
    encode_utf8(s).len() as int
}

/// Starting byte position of character `i` within the UTF-8 encoding of `s`:
/// the length of the encoding of the first `i` characters. For `i == s.len()`
/// this is the total byte length.
pub open spec fn byte_offset(s: Seq<char>, i: int) -> int {
    encode_utf8(s.take(i)).len() as int
}

/// The byte length of one character, computed from its scalar value.
pub fn utf8_len(c: char) -> (r: usize)
    ensures
        r as int == char_len(c),
        1 <= r <= 4,
{
    proof {
        char_is_scalar(c);
    }
    let u = c as u32;
    if u < 0x80 {
        1
    } else if u < 0x800 {
        2
    } else if u < 0x10000 {
        3
    } else {
        4
    }
}

/// The exact byte length of a string slice, as a mathematical fact about its
/// character sequence (in particular, the byte length fits in `usize`).
pub fn str_byte_len(s: &str) -> (r: usize)
    ensures
        r as int == text_len(s@),
{
    let b = s.as_bytes();
    proof {
        assert(b@ == encode_utf8(s@));
    }
    b.len()
}

/// Byte-for-byte equality of two slices.
pub fn bytes_eq(a: &[u8], b: &[u8]) -> (r: bool)
    ensures
        r == (a@ == b@),
{
    if a.len() != b.len() {
        proof {
            assert(a@.len() != b@.len());
        }
        return false;
    }
    let n = a.len();
    let mut i: usize = 0;
    while i < n
        invariant
            n == a@.len() == b@.len(),
            0 <= i <= n,
            forall|j: int| 0 <= j < i ==> a@[j] == b@[j],
        decreases n - i,
    {
        if a[i] != b[i] {
            return false;
        }
        i = i + 1;
    }
    proof {
        assert(a@ =~= b@);
    }
    true
}

/// Content equality of two string slices, as equality of their character
/// sequences.
pub fn str_eq(a: &str, b: &str) -> (r: bool)
    ensures
        r == (a@ == b@),
{
    let r = bytes_eq(a.as_bytes(), b.as_bytes());
    proof {
        if a.spec_bytes() == b.spec_bytes() {
            lemma_encode_injective(a@, b@);
        }
    }
    r
}

/// Encoding a concatenation concatenates the encodings.
pub proof fn lemma_encode_concat(a: Seq<char>, b: Seq<char>)
    ensures
        encode_utf8(a + b) == encode_utf8(a) + encode_utf8(b),
    decreases a.len(),
{
    if a.len() == 0 {
        assert(a + b =~= b);
        assert(encode_utf8(a) + encode_utf8(b) =~= encode_utf8(b));
    } else {
        assert((a + b).len() > 0);
        assert((a + b)[0] == a[0]);
        assert((a + b).drop_first() =~= a.drop_first() + b);
        lemma_encode_concat(a.drop_first(), b);
        assert(encode_utf8(a + b) == encode_scalar(a[0] as u32) + (encode_utf8(a.drop_first())
            + encode_utf8(b)));
        assert(encode_scalar(a[0] as u32) + (encode_utf8(a.drop_first()) + encode_utf8(b)) =~= (
        encode_scalar(a[0] as u32) + encode_utf8(a.drop_first())) + encode_utf8(b));
    }
}

/// The encoding of a single character is the encoding of its scalar value.
pub proof fn lemma_encode_singleton(c: char)
    ensures
        encode_utf8(seq![c]) == encode_scalar(c as u32),
{
    let s = seq![c];
    assert(s.len() == 1);
    assert(s[0] == c);
    assert(s.drop_first() =~= Seq::<char>::empty());
    assert(encode_utf8(s.drop_first()) =~= Seq::<u8>::empty());
    assert(encode_utf8(s) == encode_scalar(c as u32) + encode_utf8(s.drop_first()));
    assert(encode_scalar(c as u32) + Seq::<u8>::empty() =~= encode_scalar(c as u32));
}

/// Advancing one character advances the byte offset by that character's
/// encoded length.
pub proof fn lemma_byte_offset_step(s: Seq<char>, i: int)
    requires
        0 <= i < s.len(),
    ensures
        byte_offset(s, i + 1) == byte_offset(s, i) + char_len(s[i]),
{
    assert(s.take(i + 1) =~= s.take(i) + seq![s[i]]);
    lemma_encode_concat(s.take(i), seq![s[i]]);
    lemma_encode_singleton(s[i]);
}

/// The encoding of `s` splits at any prefix: the bytes of `s` are the bytes
/// of the first `i` characters followed by the bytes of the rest.
pub proof fn lemma_encode_split(s: Seq<char>, i: int)
    requires
        0 <= i <= s.len(),
    ensures
        encode_utf8(s) == encode_utf8(s.take(i)) + encode_utf8(s.skip(i)),
        byte_offset(s, i) <= text_len(s),
{
    assert(s =~= s.take(i) + s.skip(i));
    lemma_encode_concat(s.take(i), s.skip(i));
}

/// Byte offsets are monotone in the character position, and the bytes of the
/// characters between two positions sit between the two offsets.
pub proof fn lemma_encode_between(s: Seq<char>, i: int, j: int)
    requires
        0 <= i <= j <= s.len(),
    ensures
        encode_utf8(s.take(j)) == encode_utf8(s.take(i)) + encode_utf8(s.subrange(i, j)),
        byte_offset(s, i) + text_len(s.subrange(i, j)) == byte_offset(s, j),
        byte_offset(s, i) <= byte_offset(s, j),
{
    assert(s.take(j) =~= s.take(i) + s.subrange(i, j));
    lemma_encode_concat(s.take(i), s.subrange(i, j));
}

/// Encoding is injective: equal encodings decode to equal character
/// sequences.
pub proof fn lemma_encode_injective(a: Seq<char>, b: Seq<char>)
    requires
        encode_utf8(a) == encode_utf8(b),
    ensures
        a == b,
{
    encode_utf8_decode_utf8(a);
    encode_utf8_decode_utf8(b);
}

/// The byte offset of every character position is a character boundary of the
/// encoded text.
pub proof fn lemma_offset_is_boundary(s: Seq<char>, i: int)
    requires
        0 <= i <= s.len(),
    ensures
        is_char_boundary(encode_utf8(s), byte_offset(s, i)),
{
    let bytes = encode_utf8(s);
    encode_utf8_valid_utf8(s);
    lemma_encode_split(s, i);
    if i == s.len() {
        assert(s.take(i) =~= s);
        is_char_boundary_start_end_of_seq(bytes);
    } else {
        let rest = s.skip(i);
        assert(rest.len() > 0);
        encode_utf8_first_scalar(rest);
        assert(valid_first_scalar(encode_utf8(rest)));
        // the byte at the offset is the leading byte of the next character,
        // hence not a continuation byte
        assert(encode_utf8(rest).len() > 0);
        assert(bytes[byte_offset(s, i)] == encode_utf8(rest)[0]);
        assert(!is_continuation_byte(encode_utf8(rest)[0]));
        assert(0 <= byte_offset(s, i) < bytes.len());
        is_char_boundary_iff_not_is_continuation_byte(bytes, byte_offset(s, i));
    }
}

/// A character sequence is a prefix of another exactly when its encoding is a
/// byte prefix of the other's encoding.
pub proof fn lemma_encode_prefix(a: Seq<char>, b: Seq<char>)
    ensures
        encode_utf8(a).is_prefix_of(encode_utf8(b)) <==> a.is_prefix_of(b),
    decreases a.len(),
{
    if a.len() == 0 {
        assert(a =~= b.take(0));
        assert(encode_utf8(a) =~= Seq::<u8>::empty());
    } else if b.len() == 0 {
        assert(encode_utf8(b) =~= Seq::<u8>::empty());
        assert(encode_scalar(a[0] as u32).len() > 0);
        assert(encode_utf8(a).len() > 0);
    } else {
        lemma_encode_prefix(a.drop_first(), b.drop_first());
        let ea = encode_utf8(a);
        let eb = encode_utf8(b);
        let sa = encode_scalar(a[0] as u32);
        let sb = encode_scalar(b[0] as u32);
        if ea.is_prefix_of(eb) {
            // the first scalar of both encodings is determined by the bytes
            encode_utf8_first_scalar(a);
            encode_utf8_first_scalar(b);
            assert(ea =~= eb.take(ea.len() as int));
            lemma_first_scalar_of_prefix(a, b);
            assert(a[0] == b[0]);
            assert(sa == sb);
            assert(encode_utf8(a.drop_first()) =~= ea.skip(sa.len() as int));
            assert(encode_utf8(b.drop_first()) =~= eb.skip(sb.len() as int));
            assert(encode_utf8(a.drop_first()).is_prefix_of(encode_utf8(b.drop_first())));
            assert(a.drop_first().is_prefix_of(b.drop_first()));
            assert(a =~= seq![a[0]] + a.drop_first());
            assert(b.take(a.len() as int) =~= seq![b[0]] + b.drop_first().take(
                a.drop_first().len() as int,
            ));
            assert(a =~= b.take(a.len() as int));
        }
        if a.is_prefix_of(b) {
            assert(a == b.take(a.len() as int));
            lemma_encode_between(b, a.len() as int, b.len() as int);
            assert(b.take(b.len() as int) =~= b);
            assert(encode_utf8(b) == encode_utf8(a) + encode_utf8(
                b.subrange(a.len() as int, b.len() as int),
            ));
            assert(ea =~= eb.take(ea.len() as int));
        }
    }
}

// When the encoding of nonempty `a` is a byte prefix of the encoding of
// nonempty `b`, both begin with the same character.
proof fn lemma_first_scalar_of_prefix(a: Seq<char>, b: Seq<char>)
    requires
        a.len() > 0,
        b.len() > 0,
        encode_utf8(a).is_prefix_of(encode_utf8(b)),
    ensures
        a[0] == b[0],
        encode_scalar(a[0] as u32) == encode_scalar(b[0] as u32),
{
    let ea = encode_utf8(a);
    let eb = encode_utf8(b);
    encode_utf8_first_scalar(a);
    encode_utf8_first_scalar(b);
    // decoding looks only at the first four bytes, which agree
    assert(ea[0] == eb[0]);
    let la = vstd::utf8::length_of_first_scalar(ea);
    let lb = vstd::utf8::length_of_first_scalar(eb);
    assert(la == lb);
    assert forall|k: int| 0 <= k < la implies ea[k] == eb[k] by {
        assert(ea.len() >= la);
    }
    assert(vstd::utf8::decode_first_scalar(ea) == vstd::utf8::decode_first_scalar(eb));
    assert(a[0] as u32 == b[0] as u32);
    char_u32_cast(a[0], a[0] as u32);
    char_u32_cast(b[0], b[0] as u32);
}

/// A character sequence is a suffix of another exactly when its encoding is a
/// byte suffix of the other's encoding.
pub proof fn lemma_encode_suffix(a: Seq<char>, b: Seq<char>)
    ensures
        encode_utf8(a).is_suffix_of(encode_utf8(b)) <==> a.is_suffix_of(b),
{
    let ea = encode_utf8(a);
    let eb = encode_utf8(b);
    if ea.is_suffix_of(eb) {
        let cut = eb.len() - ea.len();
        assert(ea =~= eb.skip(cut));
        encode_utf8_valid_utf8(a);
        encode_utf8_valid_utf8(b);
        if a.len() == 0 {
            assert(a =~= b.skip(b.len() as int));
        } else {
            // the cut point starts the leading byte of a's first character,
            // so it is a character boundary of b's encoding
            encode_utf8_first_scalar(a);
            assert(eb[cut] == ea[0]);
            assert(!is_continuation_byte(ea[0]));
            assert(ea.len() > 0);
            is_char_boundary_iff_not_is_continuation_byte(eb, cut);
            assert(is_char_boundary(eb, cut));
            vstd::utf8::decode_utf8_split(eb, cut);
            encode_utf8_decode_utf8(b);
            let head = decode_utf8(eb.take(cut));
            let tail = decode_utf8(eb.skip(cut));
            assert(eb.subrange(0, cut) =~= eb.take(cut));
            assert(eb.subrange(cut, eb.len() as int) =~= eb.skip(cut));
            assert(b == head + tail);
            vstd::utf8::valid_utf8_split(eb, cut);
            encode_utf8_decode_utf8(a);
            assert(tail == a);
            assert(a =~= b.skip(b.len() - a.len()));
        }
    }
    if a.is_suffix_of(b) {
        let cut = b.len() - a.len();
        assert(a =~= b.skip(cut));
        lemma_encode_split(b, cut);
        assert(eb == encode_utf8(b.take(cut)) + ea);
        assert(ea =~= eb.skip(eb.len() - ea.len()));
    }
}

} // verus!
