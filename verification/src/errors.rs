//! The error taxonomy: every operation validates its arguments up front and
//! fails fast, before any output is produced.

use vstd::prelude::*;

verus! {

/// Why an indicator computation refused its arguments.
#[derive(Clone, Copy, Debug, PartialEq, Eq, Structural)]
pub enum IndicatorError {
    /// The window is zero, or too long for the available history.
    InvalidWindow,
    /// An auxiliary series does not match the primary series' length.
    LengthMismatch,
}

impl IndicatorError {
    /// A short name for the error, for callers that report it.
    pub fn describe(&self) -> (r: &'static str)
    {
        match self {
            IndicatorError::InvalidWindow => "invalid window",
            IndicatorError::LengthMismatch => "length mismatch",
        }
    }
}

} // verus!
