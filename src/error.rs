//! Errors that the library reports.

use vstd::prelude::*;

verus! {

/// Why an input was rejected.
#[derive(Clone, Debug, PartialEq, Eq)]
pub enum Error {
    /// The issue id text is not a decimal `i32`; carries the whole input.
    InvalidIssueId(String),
    /// No activity carries the requested name; carries that name.
    InvalidActivityName(String),
    /// A range expression does not follow the grammar; carries the whole input.
    InvalidTimeRangeFormat(String),
    /// A month offset leads to a year or month that has no date; carries the offset.
    InvalidMonthOffset(i32),
    /// A week offset leads outside the representable dates; carries the offset.
    InvalidWeekOffset(i32),
}

} // verus!
