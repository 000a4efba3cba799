//! The owned buffer, the view, and the line iterator.
//!
//! [`IndexedString`] holds the decoded character sequence, a parallel table
//! of byte offsets, and the backing `String`; its abstract value (the view
//! `@`) is the character sequence. [`IndexedSlice`] is a reference to an
//! owned buffer plus a half-open character range; its abstract value is the
//! covered subsequence, empty whenever the range is reversed. Both implement
//! [`IndexedStr`]; none of the operations panic.

use vstd::prelude::*;
use vstd::slice::slice_subrange;
use vstd::std_specs::iter::IteratorSpec;
use vstd::string::StrSliceExecFns;
use vstd::string::StringExecFns;
use vstd::string::StringSliceAdditionalSpecFns;
use vstd::utf8::encode_utf8;

use crate::encoding::byte_offset;
use crate::encoding::bytes_eq;
use crate::encoding::lemma_byte_offset_step;
use crate::encoding::lemma_encode_between;
use crate::encoding::lemma_encode_concat;
use crate::encoding::lemma_encode_injective;
use crate::encoding::lemma_encode_prefix;
use crate::encoding::lemma_encode_split;
use crate::encoding::lemma_encode_suffix;
use crate::encoding::lemma_offset_is_boundary;
use crate::encoding::str_byte_len;
use crate::encoding::str_eq;
use crate::encoding::text_len;
use crate::encoding::utf8_len;
use crate::ranges::clamp_pos;
use crate::ranges::CharRange;

verus! {

/// The characters covered by slicing `s` with the resolved (pre-clamp)
/// bounds `lo` and `hi`: both bounds are clamped to `[0, s.len()]`, and a
/// reversed pair yields the empty sequence.
pub open spec fn sliced(s: Seq<char>, lo: int, hi: int) -> Seq<char> {
    let l = clamp_pos(lo, s.len() as int);
    let h = clamp_pos(hi, s.len() as int);
    if 0 <= l && l <= h {
        s.subrange(l, h)
    } else {
        Seq::empty()
    }
}

/// First position at or after `c` holding a line feed, or `s.len()` if there
/// is none.
pub open spec fn line_break(s: Seq<char>, c: int) -> int
    decreases s.len() - c when 0 <= c <= s.len()
{
    if c >= s.len() {
        s.len() as int
    } else if s[c] == '\n' {
        c
    } else {
        line_break(s, c + 1)
    }
}

/// The sequence of characters an uppercase conversion yields; it depends on
/// the input characters alone.
pub uninterp spec fn upper_of(s: Seq<char>) -> Seq<char>;

/// The sequence of characters a lowercase conversion yields; it depends on
/// the input characters alone.
pub uninterp spec fn lower_of(s: Seq<char>) -> Seq<char>;

/// Relies on String::push: appends one character at the end of the string.
#[verifier::external_body]
fn push_char(s: &mut String, c: char)
    ensures
        final(s)@ == old(s)@ + seq![c],
{
    s.push(c);
}

/// Relies on str::to_lowercase: the result depends on the characters alone.
#[verifier::external_body]
fn lowercase_str(s: &str) -> (r: String)
    ensures
        r@ == lower_of(s@),
{
    s.to_lowercase()
}

/// Relies on str::to_uppercase: the result depends on the characters alone.
#[verifier::external_body]
fn uppercase_str(s: &str) -> (r: String)
    ensures
        r@ == upper_of(s@),
{
    s.to_uppercase()
}

/// A `String` replacement that is indexed and sliced by character position,
/// never panicking: the owned, allocating form.
///
/// The buffer holds the decoded characters, the starting byte offset of each
/// character within the backing string, and the backing string itself; the
/// offsets make character-addressed byte lookups constant-time.
#[derive(Debug, Eq, Hash)]
pub struct IndexedString {
    chars: Vec<char>,
    offsets: Vec<usize>,
    string: String,
}

impl View for IndexedString {
    type V = Seq<char>;

    closed spec fn view(&self) -> Seq<char> {
        self.chars@
    }
}

impl IndexedString {
    /// The backing string decodes to exactly the stored characters, and
    /// every stored offset is the byte position where that character's
    /// encoding starts.
    #[verifier::type_invariant]
    spec fn wf(&self) -> bool {
        &&& self.string@ == self.chars@
        &&& self.offsets@.len() == self.chars@.len()
        &&& forall|i: int|
            0 <= i < self.offsets@.len() ==> (#[trigger] self.offsets@[i]) as int == byte_offset(
                self.chars@,
                i,
            )
    }

    /// Creates a new [`IndexedString`] from a borrowed `&str`, copying it.
    pub fn from_str(s: &str) -> (r: Self)
        ensures
            r@ == s@,
    {
        IndexedString::from_string(String::from_str(s))
    }

    /// Creates a new [`IndexedString`] from a [`String`], taking ownership
    /// of it: the string is stored unchanged as the backing text.
    pub fn from_string(s: String) -> (r: Self)
        ensures
            r@ == s@,
    {
        let ghost cs = s@;
        let mut chars: Vec<char> = Vec::new();
        let mut offsets: Vec<usize> = Vec::new();
        let mut pos: usize = 0;
        let mut i: usize = 0;
        let n = s.as_str().unicode_len();
        let total = str_byte_len(s.as_str());
        proof {
            assert(chars@ =~= cs.take(0));
        }
        while i < n
            invariant
                s@ == cs,
                n as int == cs.len(),
                total as int == text_len(cs),
                i <= n,
                chars@ == cs.take(i as int),
                offsets@.len() == i as int,
                forall|j: int|
                    0 <= j < i ==> (#[trigger] offsets@[j]) as int == byte_offset(cs, j),
                pos as int == byte_offset(cs, i as int),
            decreases n - i,
        {
            let c = s.as_str().get_char(i);
            proof {
                lemma_byte_offset_step(cs, i as int);
                lemma_encode_split(cs, i as int + 1);
            }
            offsets.push(pos);
            chars.push(c);
            pos = pos + utf8_len(c);
            i = i + 1;
            proof {
                assert(chars@ =~= cs.take(i as int));
            }
        }
        proof {
            assert(cs.take(n as int) =~= cs);
        }
        IndexedString { chars, offsets, string: s }
    }

    /// Creates a new [`IndexedString`] from an iterator of [`char`]s,
    /// re-encoding them to produce the backing string.
    pub fn from_chars<I: core::iter::Iterator<Item = char>>(chars: I) -> (r: Self)
        requires
            chars.obeys_prophetic_iter_laws(),
            chars.decrease() is Some,
        ensures
            r@ == chars.remaining(),
    {
        let ghost all = chars.remaining();
        let mut it = chars;
        let mut cs: Vec<char> = Vec::new();
        loop
            invariant
                it.obeys_prophetic_iter_laws(),
                it.decrease() is Some,
                all == cs@ + it.remaining(),
            ensures
                all == cs@,
            decreases it.decrease()->0,
        {
            match it.next() {
                Some(c) => {
                    cs.push(c);
                    proof {
                        assert(cs@ + it.remaining() =~= all);
                    }
                },
                None => {
                    proof {
                        assert(cs@ + it.remaining() =~= cs@);
                    }
                    break;
                },
            }
        }
        IndexedString::from_char_vec(cs)
    }

    // Builds the owned buffer for a given character sequence, re-encoding
    // each character to produce the backing string and the offset table.
    fn from_char_vec(cs: Vec<char>) -> (r: Self)
        ensures
            r@ == cs@,
    {
        let mut string = String::new();
        let mut offsets: Vec<usize> = Vec::new();
        let mut i: usize = 0;
        let n = cs.len();
        proof {
            assert(string@ =~= cs@.take(0));
        }
        while i < n
            invariant
                n == cs@.len(),
                i <= n,
                string@ == cs@.take(i as int),
                offsets@.len() == i as int,
                forall|j: int|
                    0 <= j < i ==> (#[trigger] offsets@[j]) as int == byte_offset(cs@, j),
            decreases n - i,
        {
            let off = str_byte_len(string.as_str());
            offsets.push(off);
            push_char(&mut string, cs[i]);
            i = i + 1;
            proof {
                assert(string@ =~= cs@.take(i as int));
            }
        }
        proof {
            assert(cs@.take(n as int) =~= cs@);
        }
        IndexedString { chars: cs, offsets, string }
    }

    /// The backing string as an owned copy.
    pub fn to_string(&self) -> (r: String)
        ensures
            r@ == self@,
    {
        proof {
            use_type_invariant(self);
        }
        self.string.clone()
    }

    // Byte position where character `i` starts; for `i == len`, the total
    // byte length.
    fn byte_pos_at(&self, i: usize) -> (r: usize)
        requires
            i as int <= self@.len(),
        ensures
            r as int == byte_offset(self@, i as int),
    {
        proof {
            use_type_invariant(self);
        }
        if i == self.offsets.len() {
            proof {
                assert(self.chars@.take(i as int) =~= self.chars@);
            }
            str_byte_len(self.string.as_str())
        } else {
            self.offsets[i]
        }
    }

    // The byte-range lookup at the heart of every text materialization: the
    // substring covering characters `[start, end)`, found by slicing the
    // backing string between the two byte offsets.
    fn substring(&self, start: usize, end: usize) -> (r: &str)
        requires
            start <= end,
            end as int <= self@.len(),
        ensures
            r@ == self@.subrange(start as int, end as int),
    {
        proof {
            use_type_invariant(self);
        }
        let sb = self.byte_pos_at(start);
        let eb = self.byte_pos_at(end);
        let st = self.string.as_str();
        proof {
            lemma_encode_between(self@, start as int, end as int);
            lemma_offset_is_boundary(self@, start as int);
            assert(st.spec_bytes() == encode_utf8(self@));
        }
        let (_, tail) = st.split_at(sb);
        proof {
            lemma_encode_split(self@, start as int);
            assert(tail.spec_bytes() =~= encode_utf8(self@.skip(start as int)));
            assert(self@.skip(start as int).take(end - start) =~= self@.subrange(
                start as int,
                end as int,
            ));
            lemma_offset_is_boundary(self@.skip(start as int), end - start);
            assert(is_char_boundary_of(tail, (eb - sb) as int));
        }
        let (mid, _) = tail.split_at(eb - sb);
        proof {
            lemma_encode_concat(
                self@.subrange(start as int, end as int),
                self@.skip(start as int).skip(end - start),
            );
            assert(self@.skip(start as int) =~= self@.subrange(start as int, end as int)
                + self@.skip(start as int).skip(end - start));
            assert(mid.spec_bytes() =~= encode_utf8(self@.subrange(start as int, end as int)));
            lemma_encode_injective(mid@, self@.subrange(start as int, end as int));
        }
        mid
    }
}

// Whether byte position `i` of the string's UTF-8 bytes is a character
// boundary.
spec fn is_char_boundary_of(s: &str, i: int) -> bool {
    vstd::utf8::is_char_boundary(s.spec_bytes(), i)
}

impl Clone for IndexedString {
    /// An owned duplicate covering the same characters: a logically
    /// distinct buffer, so existing views keep referring to the buffer they
    /// were made from.
    fn clone(&self) -> (r: Self)
        ensures
            r@ == self@,
    {
        proof {
            use_type_invariant(self);
        }
        let chars = self.chars.clone();
        let offsets = self.offsets.clone();
        proof {
            assert(chars@ =~= self.chars@);
            assert(offsets@ =~= self.offsets@);
        }
        IndexedString { chars, offsets, string: self.string.clone() }
    }
}

/// A source of borrowed text: the argument type of the prefix and suffix
/// checks, covering plain strings as well as indexed ones.
pub trait AsText {
    /// The character sequence of the text.
    spec fn text(&self) -> Seq<char>;

    /// The text as a borrowed string slice.
    fn as_text(&self) -> (r: &str)
        ensures
            r@ == self.text(),
    ;
}

impl AsText for &str {
    open spec fn text(&self) -> Seq<char> {
        (*self)@
    }

    fn as_text(&self) -> (r: &str) {
        *self
    }
}

impl AsText for String {
    open spec fn text(&self) -> Seq<char> {
        self@
    }

    fn as_text(&self) -> (r: &str) {
        self.as_str()
    }
}

impl AsText for IndexedString {
    open spec fn text(&self) -> Seq<char> {
        self@
    }

    fn as_text(&self) -> (r: &str) {
        proof {
            use_type_invariant(self);
        }
        self.string.as_str()
    }
}

// Whether `pat` is a character-sequence prefix of `hay`, decided on the
// UTF-8 bytes: a byte prefix that is itself valid UTF-8 always ends on a
// character boundary.
fn str_starts_with(hay: &str, pat: &str) -> (r: bool)
    ensures
        r == pat@.is_prefix_of(hay@),
{
    let hb = hay.as_bytes();
    let pb = pat.as_bytes();
    proof {
        lemma_encode_prefix(pat@, hay@);
    }
    if pb.len() > hb.len() {
        false
    } else {
        let r = bytes_eq(slice_subrange(hb, 0, pb.len()), pb);
        proof {
            assert(encode_utf8(pat@).is_prefix_of(encode_utf8(hay@)) <==> hb@.subrange(
                0,
                pb@.len() as int,
            ) =~= pb@);
        }
        r
    }
}

// Whether `pat` is a character-sequence suffix of `hay`, decided on the
// UTF-8 bytes.
fn str_ends_with(hay: &str, pat: &str) -> (r: bool)
    ensures
        r == pat@.is_suffix_of(hay@),
{
    let hb = hay.as_bytes();
    let pb = pat.as_bytes();
    proof {
        lemma_encode_suffix(pat@, hay@);
    }
    if pb.len() > hb.len() {
        false
    } else {
        let cut = hb.len() - pb.len();
        let r = bytes_eq(slice_subrange(hb, cut, hb.len()), pb);
        proof {
            assert(encode_utf8(pat@).is_suffix_of(encode_utf8(hay@)) <==> hb@.subrange(
                cut as int,
                hb@.len() as int,
            ) =~= pb@);
        }
        r
    }
}

/// The capability interface shared by the owned buffer and the view: length,
/// lookup and slicing by character position, conversion, and line iteration.
/// No operation panics; out-of-range positions are clamped or answered with
/// `None`, and a reversed range denotes the empty range.
pub trait IndexedStr: View<V = Seq<char>> + Sized {
    /// The full character sequence of the underlying owned buffer.
    spec fn buffer(&self) -> Seq<char>;

    /// This value's own start position within the underlying buffer.
    spec fn start_pos(&self) -> int;

    /// Returns a `&str` of exactly the covered text.
    fn as_str(&self) -> (r: &str)
        ensures
            r@ == self@,
    ;

    /// Returns a view covering the entire contents: the same buffer, the
    /// same start position.
    fn as_slice(&self) -> (r: IndexedSlice<'_>)
        ensures
            r@ == self@,
            r.buf() == self.buffer(),
            r.start_at() == self.start_pos(),
    ;

    /// Returns the length in characters, not bytes.
    fn len(&self) -> (r: usize)
        ensures
            r as int == self@.len(),
    ;

    /// Returns the length in bytes of the covered text.
    fn byte_len(&self) -> (r: usize)
        ensures
            r as int == text_len(self@),
    ;

    /// Returns `true` when the covered text has no characters.
    fn is_empty(&self) -> (r: bool)
        ensures
            r == (self@.len() == 0),
    ;

    /// Returns the character at the given position, or `None` past the end.
    fn char_at(&self, index: usize) -> (r: Option<char>)
        ensures
            r == if (index as int) < self@.len() {
                Some(self@[index as int])
            } else {
                None::<char>
            },
    ;

    /// Returns the sub-view covering the given character range, clamped to
    /// the bounds; a reversed range yields an empty view. The sub-view
    /// refers to the same underlying buffer, its start translated into that
    /// buffer's addressing space, so slices of slices compose.
    fn slice<R: CharRange>(&self, range: R) -> (r: IndexedSlice<'_>)
        ensures
            r@ == sliced(self@, range.lower(self@.len() as int), range.upper(self@.len() as int)),
            r.buf() == self.buffer(),
            r.start_at() == self.start_pos() + clamp_pos(
                range.lower(self@.len() as int),
                self@.len() as int,
            ),
    ;

    /// Returns the covered characters, borrowed and in order.
    fn chars(&self) -> (r: &[char])
        ensures
            r@ == self@,
    ;

    /// Materializes an owned copy of exactly the covered characters.
    fn to_indexed_string(&self) -> (r: IndexedString)
        ensures
            r@ == self@,
    ;

    /// Returns an owned lowercase conversion of the covered text.
    fn to_lowercase(&self) -> (r: IndexedString)
        ensures
            r@ == lower_of(self@),
    ;

    /// Returns an owned uppercase conversion of the covered text.
    fn to_uppercase(&self) -> (r: IndexedString)
        ensures
            r@ == upper_of(self@),
    ;

    /// Returns `true` when the covered text starts with the given text.
    fn starts_with<S: AsText>(&self, s: S) -> (r: bool)
        ensures
            r == s.text().is_prefix_of(self@),
    ;

    /// Returns `true` when the covered text ends with the given text.
    fn ends_with<S: AsText>(&self, s: S) -> (r: bool)
        ensures
            r == s.text().is_suffix_of(self@),
    ;

    /// Returns a line iterator starting at this value's own start position.
    fn lines(&self) -> (r: IndexedLines<'_>)
        ensures
            r.buf() == self.buffer(),
            r.pos() == self.start_pos(),
    ;
}

/// A `&str` replacement that is indexed and sliced by character position,
/// never panicking: a lightweight view into an [`IndexedString`], holding a
/// reference to the owned buffer and a half-open character range.
///
/// Views never nest: slicing a view translates the range into the addressing
/// space of the same underlying buffer.
#[derive(Debug, Clone, Copy, Eq)]
pub struct IndexedSlice<'a> {
    source: &'a IndexedString,
    start: usize,
    end: usize,
}

impl<'a> View for IndexedSlice<'a> {
    type V = Seq<char>;

    closed spec fn view(&self) -> Seq<char> {
        if self.start <= self.end && self.end as int <= self.source@.len() {
            self.source@.subrange(self.start as int, self.end as int)
        } else {
            Seq::empty()
        }
    }
}

impl<'a> IndexedSlice<'a> {
    /// Both endpoints lie within the source buffer; a reversed pair is
    /// allowed and denotes the empty range.
    #[verifier::type_invariant]
    spec fn wf(&self) -> bool {
        self.start as int <= self.source@.len() && self.end as int <= self.source@.len()
    }

    /// The full character sequence of the owned buffer this view refers to.
    pub closed spec fn buf(&self) -> Seq<char> {
        self.source@
    }

    /// The view's own start position within that buffer.
    pub closed spec fn start_at(&self) -> int {
        self.start as int
    }

    /// The covered text as an owned copy.
    pub fn to_string(&self) -> (r: String)
        ensures
            r@ == self@,
    {
        String::from_str(self.as_str())
    }
}

/// An iterator over the lines of an [`IndexedStr`]: produces successive
/// views delimited by a line feed, without copying. A trailing line feed
/// yields one final empty line, and an empty source yields exactly one empty
/// line.
pub struct IndexedLines<'a> {
    source: &'a IndexedString,
    start: usize,
    done: bool,
}

// Scans forward from `from` to the first line feed, or to the end of the
// buffer if there is none.
fn scan_line_break(src: &IndexedString, from: usize) -> (r: usize)
    requires
        from as int <= src@.len(),
    ensures
        from <= r,
        r as int <= src@.len(),
        r as int == line_break(src@, from as int),
{
    let n = src.chars.len();
    let mut e = from;
    while e < n
        invariant
            from <= e <= n,
            n as int == src@.len(),
            line_break(src@, from as int) == line_break(src@, e as int),
        decreases n - e,
    {
        if src.chars[e] == '\n' {
            return e;
        }
        e = e + 1;
    }
    e
}

impl<'a> IndexedLines<'a> {
    /// The cursor never runs past the end of the buffer while scanning.
    #[verifier::type_invariant]
    spec fn wf(&self) -> bool {
        self.start as int <= self.source@.len()
    }

    /// The full character sequence of the buffer the iterator walks.
    pub closed spec fn buf(&self) -> Seq<char> {
        self.source@
    }

    /// The cursor: the position where the next line starts, or one past the
    /// buffer length once the iterator is exhausted.
    pub closed spec fn pos(&self) -> int {
        if self.done {
            self.buf().len() as int + 1
        } else {
            self.start as int
        }
    }

    /// Produces the next line: the view from the cursor to the next line
    /// feed (or to the end of the buffer), then advances the cursor past the
    /// line feed. At the very end one final, possibly empty line is
    /// produced; after that, `None` forever.
    pub fn next(&mut self) -> (r: Option<IndexedSlice<'a>>)
        ensures
            final(self).buf() == old(self).buf(),
            old(self).pos() > old(self).buf().len() ==> r is None && final(self).pos() == old(
                self,
            ).pos(),
            old(self).pos() <= old(self).buf().len() ==> ({
                let e = line_break(old(self).buf(), old(self).pos());
                &&& r is Some
                &&& (r matches Some(line) ==> line@ == old(self).buf().subrange(
                    old(self).pos(),
                    e,
                ))
                &&& final(self).pos() == if e < old(self).buf().len() {
                    e + 1
                } else {
                    old(self).buf().len() as int + 1
                }
            }),
    {
        proof {
            use_type_invariant(&*self);
        }
        if self.done {
            return None;
        }
        let e = scan_line_break(self.source, self.start);
        let n = self.source.chars.len();
        let line = IndexedSlice { source: self.source, start: self.start, end: e };
        if e < n {
            self.start = e + 1;
        } else {
            self.done = true;
        }
        Some(line)
    }
}

impl IndexedStr for IndexedString {
    open spec fn buffer(&self) -> Seq<char> {
        self@
    }

    open spec fn start_pos(&self) -> int {
        0
    }

    fn as_str(&self) -> (r: &str) {
        proof {
            use_type_invariant(self);
        }
        self.string.as_str()
    }

    fn as_slice(&self) -> (r: IndexedSlice<'_>) {
        let r = IndexedSlice { source: self, start: 0, end: self.chars.len() };
        proof {
            assert(r@ =~= self@);
        }
        r
    }

    fn len(&self) -> (r: usize) {
        self.chars.len()
    }

    fn byte_len(&self) -> (r: usize) {
        proof {
            use_type_invariant(self);
        }
        str_byte_len(self.string.as_str())
    }

    fn is_empty(&self) -> (r: bool) {
        self.chars.len() == 0
    }

    fn char_at(&self, index: usize) -> (r: Option<char>) {
        if index < self.chars.len() {
            Some(self.chars[index])
        } else {
            None
        }
    }

    fn slice<R: CharRange>(&self, range: R) -> (r: IndexedSlice<'_>) {
        let (lo, hi) = range.resolve(self.chars.len());
        let r = IndexedSlice { source: self, start: lo, end: hi };
        proof {
            assert(r@ =~= sliced(
                self@,
                range.lower(self@.len() as int),
                range.upper(self@.len() as int),
            ));
        }
        r
    }

    fn chars(&self) -> (r: &[char]) {
        self.chars.as_slice()
    }

    fn to_indexed_string(&self) -> (r: IndexedString) {
        self.clone()
    }

    fn to_lowercase(&self) -> (r: IndexedString) {
        proof {
            use_type_invariant(self);
        }
        IndexedString::from_string(lowercase_str(self.string.as_str()))
    }

    fn to_uppercase(&self) -> (r: IndexedString) {
        proof {
            use_type_invariant(self);
        }
        IndexedString::from_string(uppercase_str(self.string.as_str()))
    }

    fn starts_with<S: AsText>(&self, s: S) -> (r: bool) {
        proof {
            use_type_invariant(self);
        }
        str_starts_with(self.string.as_str(), s.as_text())
    }

    fn ends_with<S: AsText>(&self, s: S) -> (r: bool) {
        proof {
            use_type_invariant(self);
        }
        str_ends_with(self.string.as_str(), s.as_text())
    }

    fn lines(&self) -> (r: IndexedLines<'_>) {
        IndexedLines { source: self, start: 0, done: false }
    }
}

impl<'a> IndexedStr for IndexedSlice<'a> {
    open spec fn buffer(&self) -> Seq<char> {
        self.buf()
    }

    open spec fn start_pos(&self) -> int {
        self.start_at()
    }

    fn as_str(&self) -> (r: &str) {
        proof {
            use_type_invariant(self);
            use_type_invariant(self.source);
        }
        let n = self.source.offsets.len();
        if self.start >= n || self.end > n || self.start > self.end {
            proof {
                reveal_strlit("");
                assert(""@ =~= self@);
            }
            ""
        } else {
            self.source.substring(self.start, self.end)
        }
    }

    fn as_slice(&self) -> (r: IndexedSlice<'_>) {
        *self
    }

    fn len(&self) -> (r: usize) {
        proof {
            use_type_invariant(self);
        }
        if self.end >= self.start {
            self.end - self.start
        } else {
            0
        }
    }

    fn byte_len(&self) -> (r: usize) {
        proof {
            use_type_invariant(self);
        }
        if self.start > self.end {
            0
        } else {
            let sb = self.source.byte_pos_at(self.start);
            let eb = self.source.byte_pos_at(self.end);
            proof {
                lemma_encode_between(self.source@, self.start as int, self.end as int);
            }
            eb - sb
        }
    }

    fn is_empty(&self) -> (r: bool) {
        proof {
            use_type_invariant(self);
        }
        self.end <= self.start
    }

    fn char_at(&self, index: usize) -> (r: Option<char>) {
        proof {
            use_type_invariant(self);
        }
        let l = if self.end >= self.start {
            self.end - self.start
        } else {
            0
        };
        if index < l {
            Some(self.source.chars[self.start + index])
        } else {
            None
        }
    }

    fn slice<R: CharRange>(&self, range: R) -> (r: IndexedSlice<'_>) {
        proof {
            use_type_invariant(self);
        }
        let l = if self.end >= self.start {
            self.end - self.start
        } else {
            0
        };
        let (lo, hi) = range.resolve(l);
        let r = IndexedSlice { source: self.source, start: self.start + lo, end: self.start + hi };
        proof {
            assert(r@ =~= sliced(
                self@,
                range.lower(self@.len() as int),
                range.upper(self@.len() as int),
            ));
        }
        r
    }

    fn chars(&self) -> (r: &[char]) {
        proof {
            use_type_invariant(self);
        }
        if self.start <= self.end {
            let r = slice_subrange(self.source.chars.as_slice(), self.start, self.end);
            proof {
                assert(r@ =~= self@);
            }
            r
        } else {
            let r = slice_subrange(self.source.chars.as_slice(), 0, 0);
            proof {
                assert(r@ =~= self@);
            }
            r
        }
    }

    fn to_indexed_string(&self) -> (r: IndexedString) {
        let cs = vstd::slice::slice_to_vec(self.chars());
        IndexedString::from_char_vec(cs)
    }

    fn to_lowercase(&self) -> (r: IndexedString) {
        IndexedString::from_string(lowercase_str(self.as_str()))
    }

    fn to_uppercase(&self) -> (r: IndexedString) {
        IndexedString::from_string(uppercase_str(self.as_str()))
    }

    fn starts_with<S: AsText>(&self, s: S) -> (r: bool) {
        str_starts_with(self.as_str(), s.as_text())
    }

    fn ends_with<S: AsText>(&self, s: S) -> (r: bool) {
        str_ends_with(self.as_str(), s.as_text())
    }

    fn lines(&self) -> (r: IndexedLines<'_>) {
        proof {
            use_type_invariant(self);
        }
        IndexedLines { source: self.source, start: self.start, done: false }
    }
}

impl IndexedStr for &IndexedString {
    open spec fn buffer(&self) -> Seq<char> {
        (**self).buffer()
    }

    open spec fn start_pos(&self) -> int {
        (**self).start_pos()
    }

    fn as_str(&self) -> (r: &str) {
        (*self).as_str()
    }

    fn as_slice(&self) -> (r: IndexedSlice<'_>) {
        (*self).as_slice()
    }

    fn len(&self) -> (r: usize) {
        (*self).len()
    }

    fn byte_len(&self) -> (r: usize) {
        (*self).byte_len()
    }

    fn is_empty(&self) -> (r: bool) {
        (*self).is_empty()
    }

    fn char_at(&self, index: usize) -> (r: Option<char>) {
        (*self).char_at(index)
    }

    fn slice<R: CharRange>(&self, range: R) -> (r: IndexedSlice<'_>) {
        (*self).slice(range)
    }

    fn chars(&self) -> (r: &[char]) {
        (*self).chars()
    }

    fn to_indexed_string(&self) -> (r: IndexedString) {
        (*self).to_indexed_string()
    }

    fn to_lowercase(&self) -> (r: IndexedString) {
        (*self).to_lowercase()
    }

    fn to_uppercase(&self) -> (r: IndexedString) {
        (*self).to_uppercase()
    }

    fn starts_with<S: AsText>(&self, s: S) -> (r: bool) {
        (*self).starts_with(s)
    }

    fn ends_with<S: AsText>(&self, s: S) -> (r: bool) {
        (*self).ends_with(s)
    }

    fn lines(&self) -> (r: IndexedLines<'_>) {
        (*self).lines()
    }
}

impl<'a> IndexedStr for &IndexedSlice<'a> {
    open spec fn buffer(&self) -> Seq<char> {
        (**self).buffer()
    }

    open spec fn start_pos(&self) -> int {
        (**self).start_pos()
    }

    fn as_str(&self) -> (r: &str) {
        (*self).as_str()
    }

    fn as_slice(&self) -> (r: IndexedSlice<'_>) {
        (*self).as_slice()
    }

    fn len(&self) -> (r: usize) {
        (*self).len()
    }

    fn byte_len(&self) -> (r: usize) {
        (*self).byte_len()
    }

    fn is_empty(&self) -> (r: bool) {
        (*self).is_empty()
    }

    fn char_at(&self, index: usize) -> (r: Option<char>) {
        (*self).char_at(index)
    }

    fn slice<R: CharRange>(&self, range: R) -> (r: IndexedSlice<'_>) {
        (*self).slice(range)
    }

    fn chars(&self) -> (r: &[char]) {
        (*self).chars()
    }

    fn to_indexed_string(&self) -> (r: IndexedString) {
        (*self).to_indexed_string()
    }

    fn to_lowercase(&self) -> (r: IndexedString) {
        (*self).to_lowercase()
    }

    fn to_uppercase(&self) -> (r: IndexedString) {
        (*self).to_uppercase()
    }

    fn starts_with<S: AsText>(&self, s: S) -> (r: bool) {
        (*self).starts_with(s)
    }

    fn ends_with<S: AsText>(&self, s: S) -> (r: bool) {
        (*self).ends_with(s)
    }

    fn lines(&self) -> (r: IndexedLines<'_>) {
        (*self).lines()
    }
}

// Conversions from plain text and between the owned and the borrowed form.
// The trait-level `from_spec` says nothing (an owned buffer cannot be built
// in spec land); each impl instead states its own contract on `from`.
impl<'a> From<&'a str> for IndexedString {
    fn from(s: &'a str) -> (r: Self)
        ensures
            r@ == s@,
    {
        IndexedString::from_str(s)
    }
}

impl<'a> vstd::std_specs::convert::FromSpecImpl<&'a str> for IndexedString {
    open spec fn obeys_from_spec() -> bool {
        false
    }

    open spec fn from_spec(s: &'a str) -> IndexedString {
        arbitrary()
    }
}

impl From<String> for IndexedString {
    fn from(s: String) -> (r: Self)
        ensures
            r@ == s@,
    {
        IndexedString::from_string(s)
    }
}

impl vstd::std_specs::convert::FromSpecImpl<String> for IndexedString {
    open spec fn obeys_from_spec() -> bool {
        false
    }

    open spec fn from_spec(s: String) -> IndexedString {
        arbitrary()
    }
}

impl<'a> From<&'a String> for IndexedString {
    fn from(s: &'a String) -> (r: Self)
        ensures
            r@ == s@,
    {
        IndexedString::from_string(s.clone())
    }
}

impl<'a> vstd::std_specs::convert::FromSpecImpl<&'a String> for IndexedString {
    open spec fn obeys_from_spec() -> bool {
        false
    }

    open spec fn from_spec(s: &'a String) -> IndexedString {
        arbitrary()
    }
}

impl<'a> From<&'a IndexedString> for IndexedSlice<'a> {
    fn from(s: &'a IndexedString) -> (r: Self)
        ensures
            r@ == s@,
            r.buf() == s@,
            r.start_at() == 0,
    {
        s.as_slice()
    }
}

impl<'a> vstd::std_specs::convert::FromSpecImpl<&'a IndexedString> for IndexedSlice<'a> {
    open spec fn obeys_from_spec() -> bool {
        false
    }

    open spec fn from_spec(s: &'a IndexedString) -> IndexedSlice<'a> {
        arbitrary()
    }
}

impl<'a> From<IndexedSlice<'a>> for IndexedString {
    fn from(s: IndexedSlice<'a>) -> (r: Self)
        ensures
            r@ == s@,
    {
        s.to_indexed_string()
    }
}

impl<'a> vstd::std_specs::convert::FromSpecImpl<IndexedSlice<'a>> for IndexedString {
    open spec fn obeys_from_spec() -> bool {
        false
    }

    open spec fn from_spec(s: IndexedSlice<'a>) -> IndexedString {
        arbitrary()
    }
}

// Equality of indexed text, owned or borrowed, is textual: two values are
// equal exactly when their materialized texts are, that is, when they cover
// the same character sequences.
impl PartialEq<IndexedString> for IndexedString {
    fn eq(&self, other: &IndexedString) -> (r: bool) {
        proof {
            use_type_invariant(self);
            use_type_invariant(other);
        }
        str_eq(self.string.as_str(), other.string.as_str())
    }
}

impl vstd::std_specs::cmp::PartialEqSpecImpl<IndexedString> for IndexedString {
    open spec fn obeys_eq_spec() -> bool {
        true
    }

    open spec fn eq_spec(&self, other: &IndexedString) -> bool {
        self@ == other@
    }
}

impl PartialEq<&str> for IndexedString {
    fn eq(&self, other: &&str) -> (r: bool) {
        proof {
            use_type_invariant(self);
        }
        str_eq(self.string.as_str(), *other)
    }
}

impl vstd::std_specs::cmp::PartialEqSpecImpl<&str> for IndexedString {
    open spec fn obeys_eq_spec() -> bool {
        true
    }

    open spec fn eq_spec(&self, other: &&str) -> bool {
        self@ == (*other)@
    }
}

impl PartialEq<String> for IndexedString {
    fn eq(&self, other: &String) -> (r: bool) {
        proof {
            use_type_invariant(self);
        }
        str_eq(self.string.as_str(), other.as_str())
    }
}

impl vstd::std_specs::cmp::PartialEqSpecImpl<String> for IndexedString {
    open spec fn obeys_eq_spec() -> bool {
        true
    }

    open spec fn eq_spec(&self, other: &String) -> bool {
        self@ == other@
    }
}

impl<'a> PartialEq<String> for IndexedSlice<'a> {
    fn eq(&self, other: &String) -> (r: bool) {
        str_eq(self.as_str(), other.as_str())
    }
}

impl<'a> vstd::std_specs::cmp::PartialEqSpecImpl<String> for IndexedSlice<'a> {
    open spec fn obeys_eq_spec() -> bool {
        true
    }

    open spec fn eq_spec(&self, other: &String) -> bool {
        self@ == other@
    }
}

impl<'a> PartialEq<IndexedSlice<'a>> for IndexedString {
    fn eq(&self, other: &IndexedSlice<'a>) -> (r: bool) {
        proof {
            use_type_invariant(self);
        }
        str_eq(self.string.as_str(), other.as_str())
    }
}

impl<'a> vstd::std_specs::cmp::PartialEqSpecImpl<IndexedSlice<'a>> for IndexedString {
    open spec fn obeys_eq_spec() -> bool {
        true
    }

    open spec fn eq_spec(&self, other: &IndexedSlice<'a>) -> bool {
        self@ == other@
    }
}

impl<'a, 'b> PartialEq<IndexedSlice<'b>> for IndexedSlice<'a> {
    fn eq(&self, other: &IndexedSlice<'b>) -> (r: bool) {
        str_eq(self.as_str(), other.as_str())
    }
}

impl<'a, 'b> vstd::std_specs::cmp::PartialEqSpecImpl<IndexedSlice<'b>> for IndexedSlice<'a> {
    open spec fn obeys_eq_spec() -> bool {
        true
    }

    open spec fn eq_spec(&self, other: &IndexedSlice<'b>) -> bool {
        self@ == other@
    }
}

impl<'a> PartialEq<&str> for IndexedSlice<'a> {
    fn eq(&self, other: &&str) -> (r: bool) {
        str_eq(self.as_str(), *other)
    }
}

impl<'a> vstd::std_specs::cmp::PartialEqSpecImpl<&str> for IndexedSlice<'a> {
    open spec fn obeys_eq_spec() -> bool {
        true
    }

    open spec fn eq_spec(&self, other: &&str) -> bool {
        self@ == (*other)@
    }
}

impl<'a> PartialEq<IndexedString> for IndexedSlice<'a> {
    fn eq(&self, other: &IndexedString) -> (r: bool) {
        proof {
            use_type_invariant(other);
        }
        str_eq(self.as_str(), other.string.as_str())
    }
}

impl<'a> vstd::std_specs::cmp::PartialEqSpecImpl<IndexedString> for IndexedSlice<'a> {
    open spec fn obeys_eq_spec() -> bool {
        true
    }

    open spec fn eq_spec(&self, other: &IndexedString) -> bool {
        self@ == other@
    }
}

impl PartialEq<IndexedString> for &str {
    fn eq(&self, other: &IndexedString) -> (r: bool) {
        proof {
            use_type_invariant(other);
        }
        str_eq(*self, other.string.as_str())
    }
}

impl vstd::std_specs::cmp::PartialEqSpecImpl<IndexedString> for &str {
    open spec fn obeys_eq_spec() -> bool {
        true
    }

    open spec fn eq_spec(&self, other: &IndexedString) -> bool {
        (*self)@ == other@
    }
}

impl<'a> PartialEq<IndexedSlice<'a>> for &str {
    fn eq(&self, other: &IndexedSlice<'a>) -> (r: bool) {
        str_eq(*self, other.as_str())
    }
}

impl<'a> vstd::std_specs::cmp::PartialEqSpecImpl<IndexedSlice<'a>> for &str {
    open spec fn obeys_eq_spec() -> bool {
        true
    }

    open spec fn eq_spec(&self, other: &IndexedSlice<'a>) -> bool {
        (*self)@ == other@
    }
}

impl PartialEq<IndexedString> for String {
    fn eq(&self, other: &IndexedString) -> (r: bool) {
        proof {
            use_type_invariant(other);
        }
        str_eq(self.as_str(), other.string.as_str())
    }
}

impl vstd::std_specs::cmp::PartialEqSpecImpl<IndexedString> for String {
    open spec fn obeys_eq_spec() -> bool {
        true
    }

    open spec fn eq_spec(&self, other: &IndexedString) -> bool {
        self@ == other@
    }
}

impl<'a> PartialEq<IndexedSlice<'a>> for String {
    fn eq(&self, other: &IndexedSlice<'a>) -> (r: bool) {
        str_eq(self.as_str(), other.as_str())
    }
}

impl<'a> vstd::std_specs::cmp::PartialEqSpecImpl<IndexedSlice<'a>> for String {
    open spec fn obeys_eq_spec() -> bool {
        true
    }

    open spec fn eq_spec(&self, other: &IndexedSlice<'a>) -> bool {
        self@ == other@
    }
}

} // verus!
