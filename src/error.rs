use vstd::prelude::*;

verus! {

/// Why a period could not be built, read or stepped.
#[derive(Clone, Copy, Debug, PartialEq, Eq, Structural, Hash)]
pub enum PeriodError {
    /// An index lies outside the bounds of its granularity in its year.
    OutOfRange,
    /// The text does not have the shape `YYYYT[n]`.
    InvalidFormat,
    /// A quarter, month or day tag is not followed by an index.
    MissingIndex,
    /// Stepping back would leave year 0.
    NoPredecessor,
    /// Stepping forward would pass the largest year a period can hold.
    NoSuccessor,
    /// A day of the period lies outside the years that dates cover.
    CalendarOverflow,
}

} // verus!
