//! Ranges of item positions, as the vector's range-taking methods accept
//! them, and how they resolve to a start and a stop.
use vstd::prelude::*;
use core::ops::{Bound, Range, RangeFrom, RangeFull, RangeInclusive, RangeTo, RangeToInclusive};
use core::ops::RangeBounds;

verus! {

/// `core::ops::Bound`, with its variants, which the range logic reads.
#[verifier::external_type_specification]
#[verifier::reject_recursive_types(T)]
pub struct ExBound<T>(core::ops::Bound<T>);

/// `core::ops::RangeFrom`, with its public field `start`.
#[verifier::external_type_specification]
#[verifier::reject_recursive_types(Idx)]
pub struct ExRangeFrom<Idx>(core::ops::RangeFrom<Idx>);

/// `core::ops::RangeTo`, with its public field `end`.
#[verifier::external_type_specification]
#[verifier::reject_recursive_types(Idx)]
pub struct ExRangeTo<Idx>(core::ops::RangeTo<Idx>);

/// `core::ops::RangeToInclusive`, with its public field `end`.
#[verifier::external_type_specification]
#[verifier::reject_recursive_types(Idx)]
pub struct ExRangeToInclusive<Idx>(core::ops::RangeToInclusive<Idx>);

/// `core::ops::RangeFull`, which has no fields.
#[verifier::external_type_specification]
pub struct ExRangeFull(core::ops::RangeFull);

/// A range of item positions given by its two ends, as `RangeBounds<usize>`
/// gives one.
pub trait IndexRange {
    /// The lower end of the range.
    spec fn lower_spec(&self) -> Bound<usize>;

    /// The upper end of the range.
    spec fn upper_spec(&self) -> Bound<usize>;

    /// The lower end of the range.
    fn lower_bound(&self) -> (b: Bound<usize>)
        ensures
            b == self.lower_spec(),
    ;

    /// The upper end of the range.
    fn upper_bound(&self) -> (b: Bound<usize>)
        ensures
            b == self.upper_spec(),
    ;
}

impl IndexRange for Range<usize> {
    open spec fn lower_spec(&self) -> Bound<usize> {
        Bound::Included(self.start)
    }

    open spec fn upper_spec(&self) -> Bound<usize> {
        Bound::Excluded(self.end)
    }

    fn lower_bound(&self) -> (b: Bound<usize>) {
        Bound::Included(self.start)
    }

    fn upper_bound(&self) -> (b: Bound<usize>) {
        Bound::Excluded(self.end)
    }
}

/// Calls `RangeBounds::start_bound` on an inclusive range: its start,
/// included.
#[verifier::external_body]
fn inclusive_start(r: &RangeInclusive<usize>) -> (b: Bound<usize>)
    ensures
        b == Bound::Included(r@.start),
{
    RangeBounds::start_bound(r).cloned()
}

/// Calls `RangeBounds::end_bound` on an inclusive range: its end, included,
/// or excluded once the range has been iterated to exhaustion.
#[verifier::external_body]
fn inclusive_end(r: &RangeInclusive<usize>) -> (b: Bound<usize>)
    ensures
        b == (if r@.exhausted {
            Bound::Excluded(r@.end)
        } else {
            Bound::Included(r@.end)
        }),
{
    RangeBounds::end_bound(r).cloned()
}

impl IndexRange for RangeInclusive<usize> {
    open spec fn lower_spec(&self) -> Bound<usize> {
        Bound::Included(self@.start)
    }

    open spec fn upper_spec(&self) -> Bound<usize> {
        if self@.exhausted {
            Bound::Excluded(self@.end)
        } else {
            Bound::Included(self@.end)
        }
    }

    fn lower_bound(&self) -> (b: Bound<usize>) {
        inclusive_start(self)
    }

    fn upper_bound(&self) -> (b: Bound<usize>) {
        inclusive_end(self)
    }
}

impl IndexRange for RangeFrom<usize> {
    open spec fn lower_spec(&self) -> Bound<usize> {
        Bound::Included(self.start)
    }

    open spec fn upper_spec(&self) -> Bound<usize> {
        Bound::Unbounded
    }

    fn lower_bound(&self) -> (b: Bound<usize>) {
        Bound::Included(self.start)
    }

    fn upper_bound(&self) -> (b: Bound<usize>) {
        Bound::Unbounded
    }
}

impl IndexRange for RangeTo<usize> {
    open spec fn lower_spec(&self) -> Bound<usize> {
        Bound::Unbounded
    }

    open spec fn upper_spec(&self) -> Bound<usize> {
        Bound::Excluded(self.end)
    }

    fn lower_bound(&self) -> (b: Bound<usize>) {
        Bound::Unbounded
    }

    fn upper_bound(&self) -> (b: Bound<usize>) {
        Bound::Excluded(self.end)
    }
}

impl IndexRange for RangeToInclusive<usize> {
    open spec fn lower_spec(&self) -> Bound<usize> {
        Bound::Unbounded
    }

    open spec fn upper_spec(&self) -> Bound<usize> {
        Bound::Included(self.end)
    }

    fn lower_bound(&self) -> (b: Bound<usize>) {
        Bound::Unbounded
    }

    fn upper_bound(&self) -> (b: Bound<usize>) {
        Bound::Included(self.end)
    }
}

impl IndexRange for RangeFull {
    open spec fn lower_spec(&self) -> Bound<usize> {
        Bound::Unbounded
    }

    open spec fn upper_spec(&self) -> Bound<usize> {
        Bound::Unbounded
    }

    fn lower_bound(&self) -> (b: Bound<usize>) {
        Bound::Unbounded
    }

    fn upper_bound(&self) -> (b: Bound<usize>) {
        Bound::Unbounded
    }
}

impl IndexRange for (Bound<usize>, Bound<usize>) {
    open spec fn lower_spec(&self) -> Bound<usize> {
        self.0
    }

    open spec fn upper_spec(&self) -> Bound<usize> {
        self.1
    }

    fn lower_bound(&self) -> (b: Bound<usize>) {
        match self.0 {
            Bound::Included(n) => Bound::Included(n),
            Bound::Excluded(n) => Bound::Excluded(n),
            Bound::Unbounded => Bound::Unbounded,
        }
    }

    fn upper_bound(&self) -> (b: Bound<usize>) {
        match self.1 {
            Bound::Included(n) => Bound::Included(n),
            Bound::Excluded(n) => Bound::Excluded(n),
            Bound::Unbounded => Bound::Unbounded,
        }
    }
}

/// `n + 1`, saturating at `usize::MAX`.
pub open spec fn after(n: usize) -> nat {
    if n == usize::MAX {
        n as nat
    } else {
        (n + 1) as nat
    }
}

/// The first position a range covers: an excluded lower end covers from the
/// position after it.
pub open spec fn first_index(start: Bound<usize>) -> nat {
    match start {
        Bound::Included(n) => n as nat,
        Bound::Excluded(n) => after(n),
        Bound::Unbounded => 0,
    }
}

/// The position after the last one a range covers, in a vector of `len`
/// items: an included upper end covers its own position, a missing one runs
/// to the end.
pub open spec fn stop_index(end: Bound<usize>, len: nat) -> nat {
    match end {
        Bound::Included(n) => after(n),
        Bound::Excluded(n) => n as nat,
        Bound::Unbounded => len,
    }
}

/// The range's start position in a vector of `len` items.
pub open spec fn range_start<R: IndexRange>(range: R) -> nat {
    first_index(range.lower_spec())
}

/// The range's stop position in a vector of `len` items.
pub open spec fn range_stop<R: IndexRange>(range: R, len: nat) -> nat {
    stop_index(range.upper_spec(), len)
}

/// Whether the range lies within a vector of `len` items, start before stop.
pub open spec fn range_fits<R: IndexRange>(range: R, len: nat) -> bool {
    range_start(range) <= range_stop(range, len) <= len
}

/// Resolves the range to its start and stop positions in a vector of `len`
/// items.
pub fn resolve<R: IndexRange>(range: &R, len: usize) -> (r: (usize, usize))
    ensures
        r.0 == range_start(*range),
        r.1 == range_stop(*range, len as nat),
{
    let start: usize = match range.lower_bound() {
        Bound::Excluded(n) => n.saturating_add(1),
        Bound::Included(n) => n,
        Bound::Unbounded => 0,
    };
    let stop: usize = match range.upper_bound() {
        Bound::Excluded(n) => n,
        Bound::Included(n) => n.saturating_add(1),
        Bound::Unbounded => len,
    };
    (start, stop)
}

} // verus!
