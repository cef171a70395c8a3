//! Date types with uncertainty support.
//!
//! [`UncertainDate`] models epistemic uncertainty about a single instant in
//! time. "Built in the 1920s" means "construction started at some unknown
//! instant within \[1920, 1929\]", not "construction spanned the entire
//! decade".
//!
//! An interval is a pair of optional [`DateBound`] endpoints, each carrying a
//! day and a [`DatePrecision`] for the granularity of the boundary itself:
//! "before 1950" has a year-granularity upper bound, distinct from "before
//! January 1, 1950" with a day-granularity bound. An [`UncertainDate`] is a
//! canonical union of such intervals: usually one, but a disjunction ("1925 or
//! 1935") holds several disjoint ones. The fully unbounded single interval is
//! `unknown`, the top; the empty union is `empty`, the bottom.
use vstd::prelude::*;
use vstd::string::*;

pub mod canonical;
pub mod overlap;
pub mod precision;
pub mod range;
pub mod uncertain;

pub use precision::DatePrecision;
pub use range::{DateBound, TimeRange, TimeRangeError};
pub use uncertain::UncertainDate;

verus! {

/// Errors from date construction.
#[derive(Debug, Clone, Copy, PartialEq, Eq, Structural)]
pub enum DateError {
    /// Year 0 does not exist in historical convention (use -1 for 1 BCE).
    Year0,
    /// Range endpoints are inverted (earliest > latest).
    InvertedRange,
}

impl DateError {
    /// The message shown for this error.
    pub open spec fn says(self) -> Seq<char> {
        match self {
            DateError::Year0 =>
                "year 0 does not exist in historical convention (use -1 for 1 BCE)"@,
            DateError::InvertedRange => "range: earliest must be <= latest"@,
        }
    }

    /// The message shown for this error.
    pub fn to_string(&self) -> (r: String)
        ensures
            r@ == self.says(),
            *self is Year0 ==> r@
                == "year 0 does not exist in historical convention (use -1 for 1 BCE)"@,
            *self is InvertedRange ==> r@ == "range: earliest must be <= latest"@,
    {
        let message = match self {
            DateError::Year0 =>
                "year 0 does not exist in historical convention (use -1 for 1 BCE)",
            DateError::InvertedRange => "range: earliest must be <= latest",
        };
        message.to_owned()
    }
}

} // verus!
