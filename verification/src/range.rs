//! Ranges of block and transaction numbers.

use std::ops::RangeInclusive;
use vstd::prelude::*;

verus! {

/// One end of a range of numbers.
#[derive(Debug, Clone, Copy, PartialEq, Eq, Structural)]
pub enum Bound {
    /// The range ends with this number.
    Included(u64),
    /// The range ends just short of this number.
    Excluded(u64),
    /// The range has no end.
    Unbounded,
}

/// A range of numbers, given by its lower and its upper end.
#[derive(Debug, Clone, Copy, PartialEq, Eq, Structural)]
pub struct NumberRange {
    pub start: Bound,
    pub end: Bound,
}

impl NumberRange {
    /// Whether a number lies in the range.
    pub open spec fn holds(self, number: u64) -> bool {
        &&& match self.start {
            Bound::Included(start) => start <= number,
            Bound::Excluded(start) => start < number,
            Bound::Unbounded => true,
        }
        &&& match self.end {
            Bound::Included(end) => number <= end,
            Bound::Excluded(end) => number < end,
            Bound::Unbounded => true,
        }
    }

    /// The range that holds every number.
    pub fn full() -> (range: NumberRange)
        ensures
            forall|number: u64| range.holds(number),
    {
        NumberRange { start: Bound::Unbounded, end: Bound::Unbounded }
    }

    /// The numbers from `start` up to but not including `end`.
    pub fn half_open(start: u64, end: u64) -> (range: NumberRange)
        ensures
            forall|number: u64| range.holds(number) <==> start <= number < end,
    {
        NumberRange { start: Bound::Included(start), end: Bound::Excluded(end) }
    }

    /// Tells whether a number lies in the range.
    pub fn contains(&self, number: u64) -> (inside: bool)
        ensures
            inside == self.holds(number),
    {
        let from_start = match self.start {
            Bound::Included(start) => start <= number,
            Bound::Excluded(start) => start < number,
            Bound::Unbounded => true,
        };
        let to_end = match self.end {
            Bound::Included(end) => number <= end,
            Bound::Excluded(end) => number < end,
            Bound::Unbounded => true,
        };
        from_start && to_end
    }
}

/// Whether a number lies in an inclusive range; one that an iteration has used up no longer holds
/// its last number.
pub open spec fn inclusive_holds(range: RangeInclusive<u64>, number: u64) -> bool {
    &&& range@.start <= number
    &&& if range@.exhausted {
        number < range@.end
    } else {
        number <= range@.end
    }
}

/// Tells whether a number lies in an inclusive range.
pub fn inclusive_contains(range: &RangeInclusive<u64>, number: u64) -> (inside: bool)
    ensures
        inside == inclusive_holds(*range, number),
{
    range.contains(&number)
}

} // verus!
