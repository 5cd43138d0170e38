//! Failure kinds of the fetch-parse-normalize-persist pipeline.

use vstd::prelude::*;

verus! {

/// What can go wrong while building or persisting calendar data.
#[derive(Clone, Copy, Debug, PartialEq, Eq, Structural)]
pub enum CalendarError {
    /// A date or year outside the supported bounds, or unparsable input.
    InvalidInput,
    /// The network fetch failed after retries, or failed permanently.
    FetchFailed,
    /// A section yielded no usable content for a date.
    IncompleteSource,
    /// Reading, writing or decoding persisted state failed.
    PersistenceFailure,
}

impl CalendarError {
    /// A short fixed description of the error kind.
    pub fn describe(&self) -> (r: &'static str)
        ensures
            r@ == match self {
                CalendarError::InvalidInput => "invalid input"@,
                CalendarError::FetchFailed => "fetch failed"@,
                CalendarError::IncompleteSource => "incomplete source"@,
                CalendarError::PersistenceFailure => "persistence failure"@,
            },
    {
        match self {
            CalendarError::InvalidInput => "invalid input",
            CalendarError::FetchFailed => "fetch failed",
            CalendarError::IncompleteSource => "incomplete source",
            CalendarError::PersistenceFailure => "persistence failure",
        }
    }
}

} // verus!
