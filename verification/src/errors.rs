//! Per-row parse failures. Each is recoverable: the offending row is
//! reported by the caller and excluded, the run continues.

use vstd::prelude::*;

verus! {

/// A malformed field in a raw record: the variant names the field kind
/// that failed to parse.
#[derive(Debug, Clone, Copy, PartialEq, Eq, Structural)]
pub enum ParseError {
    /// A date field that is not an eight-digit `YYYYMMDD` calendar day.
    Date,
    /// An amount field that is not a well-formed decimal string.
    Amount,
    /// A direction field that is none of the accepted textual values.
    Direction,
}

} // verus!
