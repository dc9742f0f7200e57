//! A time window: two moments, a start and an end.

use crate::calendar::{LocalDateTime, Moment};
use vstd::prelude::*;

verus! {

/// The mathematical value of a [`NaiveDateTimeRange`].
pub struct Span {
    pub start: Moment,
    pub end: Moment,
}

/// A start and an end. Nothing orders the two: the end may lie before the
/// start.
#[derive(Debug, Clone, Copy, PartialEq, Eq)]
pub struct NaiveDateTimeRange {
    /// Start of the range
    start: LocalDateTime,
    /// End of the range
    end: LocalDateTime,
}

impl View for NaiveDateTimeRange {
    type V = Span;

    closed spec fn view(&self) -> Span {
        Span { start: self.start@, end: self.end@ }
    }
}

impl NaiveDateTimeRange {
    /// Create a [`NaiveDateTimeRange`] using two [`LocalDateTime`].
    pub fn new_from_range(start: LocalDateTime, end: LocalDateTime) -> (range: Self)
        ensures
            range@ == (Span { start: start@, end: end@ }),
    {
        Self { start, end }
    }

    /// Returns the starting moment.
    pub fn get_start(&self) -> (start: LocalDateTime)
        ensures
            start@ == self@.start,
            start@.is_valid(),
    {
        proof {
            use_type_invariant(&self.start);
        }
        self.start
    }

    /// Returns the ending moment.
    pub fn get_end(&self) -> (end: LocalDateTime)
        ensures
            end@ == self@.end,
            end@.is_valid(),
    {
        proof {
            use_type_invariant(&self.end);
        }
        self.end
    }

    /// Set the range's start date & time
    pub fn set_start(&mut self, start: LocalDateTime)
        ensures
            final(self)@ == (Span { start: start@, end: old(self)@.end }),
    {
        self.start = start;
    }

    /// Set the range's end date & time
    pub fn set_end(&mut self, end: LocalDateTime)
        ensures
            final(self)@ == (Span { start: old(self)@.start, end: end@ }),
    {
        self.end = end;
    }
}

} // verus!
