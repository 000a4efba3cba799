//! Character-addressable text: an owned buffer and a zero-copy view over it,
//! both indexed and sliced by character position rather than byte position.
//!
//! [`IndexedString`] owns the decoded character sequence, a parallel table of
//! byte offsets, and the backing `String`; [`IndexedSlice`] is a lightweight
//! view into an owned buffer given by a half-open character range. Both
//! implement [`IndexedStr`], whose operations never panic: out-of-range
//! positions are clamped or answered with `None`.

pub mod encoding;
pub mod indexed;
pub mod laws;
pub mod ranges;

pub use indexed::AsText;
pub use indexed::IndexedLines;
pub use indexed::IndexedSlice;
pub use indexed::IndexedStr;
pub use indexed::IndexedString;
pub use ranges::CharRange;
