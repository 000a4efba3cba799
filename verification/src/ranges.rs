//! Range resolution: every slice operation turns a user-supplied range
//! expression over character positions into a clamped, valid `[start, end)`
//! pair. The one resolution algorithm is shared by the owned buffer and the
//! view, so clamping behaves identically everywhere.

use vstd::prelude::*;

verus! {

#[verifier::external_type_specification]
#[verifier::reject_recursive_types(Idx)]
pub struct ExRangeFrom<Idx>(core::ops::RangeFrom<Idx>);

#[verifier::external_type_specification]
#[verifier::reject_recursive_types(Idx)]
pub struct ExRangeTo<Idx>(core::ops::RangeTo<Idx>);

#[verifier::external_type_specification]
#[verifier::reject_recursive_types(Idx)]
pub struct ExRangeToInclusive<Idx>(core::ops::RangeToInclusive<Idx>);

#[verifier::external_type_specification]
pub struct ExRangeFull(core::ops::RangeFull);

#[verifier::external_type_specification]
#[verifier::reject_recursive_types(T)]
pub struct ExBound<T>(core::ops::Bound<T>);

/// Relies on RangeInclusive::start: returns the range's lower bound.
pub assume_specification<Idx>[ core::ops::RangeInclusive::<Idx>::start ](
    r: &core::ops::RangeInclusive<Idx>,
) -> (s: &Idx)
    ensures
        *s == r@.start,
;

/// Relies on RangeInclusive::end: returns the range's upper bound.
pub assume_specification<Idx>[ core::ops::RangeInclusive::<Idx>::end ](
    r: &core::ops::RangeInclusive<Idx>,
) -> (e: &Idx)
    ensures
        *e == r@.end,
;

/// Clamp a resolved character position to `[0, len]`: positions past the end
/// are pulled back to `len`.
pub open spec fn clamp_pos(i: int, len: int) -> int {
    if i > len {
        len
    } else {
        i
    }
}

/// A range expression over character positions. An inclusive lower bound and
/// an exclusive upper bound resolve to themselves, an inclusive upper bound
/// to the bound plus one, and a missing bound to `0` below and to the length
/// above; both resolved bounds are then clamped to `[0, len]` independently.
/// A reversed pair is returned as given, never swapped: downstream consumers
/// treat it as an empty range.
pub trait CharRange {
    /// The resolved lower bound, before clamping.
    spec fn lower(&self, len: int) -> int;

    /// The resolved upper bound, before clamping.
    spec fn upper(&self, len: int) -> int;

    /// Resolve this range against a character length, clamping both bounds.
    fn resolve(&self, len: usize) -> (r: (usize, usize))
        ensures
            r.0 as int == clamp_pos(self.lower(len as int), len as int),
            r.1 as int == clamp_pos(self.upper(len as int), len as int),
    ;
}

impl CharRange for core::ops::Range<usize> {
    open spec fn lower(&self, len: int) -> int {
        self.start as int
    }

    open spec fn upper(&self, len: int) -> int {
        self.end as int
    }

    fn resolve(&self, len: usize) -> (r: (usize, usize)) {
        let lo = if self.start > len {
            len
        } else {
            self.start
        };
        let hi = if self.end > len {
            len
        } else {
            self.end
        };
        (lo, hi)
    }
}

impl CharRange for core::ops::RangeFrom<usize> {
    open spec fn lower(&self, len: int) -> int {
        self.start as int
    }

    open spec fn upper(&self, len: int) -> int {
        len
    }

    fn resolve(&self, len: usize) -> (r: (usize, usize)) {
        let lo = if self.start > len {
            len
        } else {
            self.start
        };
        (lo, len)
    }
}

impl CharRange for core::ops::RangeTo<usize> {
    open spec fn lower(&self, len: int) -> int {
        0
    }

    open spec fn upper(&self, len: int) -> int {
        self.end as int
    }

    fn resolve(&self, len: usize) -> (r: (usize, usize)) {
        let hi = if self.end > len {
            len
        } else {
            self.end
        };
        (0, hi)
    }
}

impl CharRange for core::ops::RangeToInclusive<usize> {
    open spec fn lower(&self, len: int) -> int {
        0
    }

    open spec fn upper(&self, len: int) -> int {
        self.end + 1
    }

    fn resolve(&self, len: usize) -> (r: (usize, usize)) {
        let hi = if self.end >= len {
            len
        } else {
            self.end + 1
        };
        (0, hi)
    }
}

impl CharRange for core::ops::RangeFull {
    open spec fn lower(&self, len: int) -> int {
        0
    }

    open spec fn upper(&self, len: int) -> int {
        len
    }

    fn resolve(&self, len: usize) -> (r: (usize, usize)) {
        (0, len)
    }
}

impl CharRange for core::ops::RangeInclusive<usize> {
    open spec fn lower(&self, len: int) -> int {
        self@.start as int
    }

    open spec fn upper(&self, len: int) -> int {
        self@.end as int + 1
    }

    fn resolve(&self, len: usize) -> (r: (usize, usize)) {
        let a = *self.start();
        let b = *self.end();
        let lo = if a > len {
            len
        } else {
            a
        };
        let hi = if b >= len {
            len
        } else {
            b + 1
        };
        (lo, hi)
    }
}

impl CharRange for (core::ops::Bound<usize>, core::ops::Bound<usize>) {
    open spec fn lower(&self, len: int) -> int {
        match self.0 {
            core::ops::Bound::Included(x) => x as int,
            core::ops::Bound::Excluded(x) => x as int + 1,
            core::ops::Bound::Unbounded => 0,
        }
    }

    open spec fn upper(&self, len: int) -> int {
        match self.1 {
            core::ops::Bound::Included(x) => x as int + 1,
            core::ops::Bound::Excluded(x) => x as int,
            core::ops::Bound::Unbounded => len,
        }
    }

    fn resolve(&self, len: usize) -> (r: (usize, usize)) {
        let lo = match self.0 {
            core::ops::Bound::Included(x) => if x > len {
                len
            } else {
                x
            },
            core::ops::Bound::Excluded(x) => if x >= len {
                len
            } else {
                x + 1
            },
            core::ops::Bound::Unbounded => 0,
        };
        let hi = match self.1 {
            core::ops::Bound::Included(x) => if x >= len {
                len
            } else {
                x + 1
            },
            core::ops::Bound::Excluded(x) => if x > len {
                len
            } else {
                x
            },
            core::ops::Bound::Unbounded => len,
        };
        (lo, hi)
    }
}

} // verus!
