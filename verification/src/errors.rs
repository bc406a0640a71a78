//! The errors of the engine.

use vstd::prelude::*;

verus! {

/// Why an operation of the engine could not be carried out.
///
/// None of these is recoverable: a run that meets one stops, since going on
/// with an undefined rule would give silently wrong statistics.
#[derive(Debug, Clone, Copy, PartialEq, Eq, Structural)]
pub enum StrikerError {
    /// Rule or strategy data is missing or cannot be played with.
    Configuration,
    /// A strategy chart has no row for a key that play reached.
    Lookup,
    /// An operation was asked for in a state that does not admit it,
    /// such as splitting a hand that is not a pair.
    InvalidOperation,
    /// A counter or an amount would leave the range of its machine type.
    Overflow,
}

impl StrikerError {
    pub open spec fn spec_message(self) -> Seq<char> {
        match self {
            StrikerError::Configuration => "Error: Missing or invalid rule or strategy data"@,
            StrikerError::Lookup => "Error: Cannot find value in strategy chart"@,
            StrikerError::InvalidOperation => "Error: Trying to split a non-pair"@,
            StrikerError::Overflow => "Error: Counter out of range"@,
        }
    }

    /// The text shown for this error.
    pub fn message(&self) -> (text: &'static str)
        ensures
            text@ == self.spec_message(),
    {
        match self {
            StrikerError::Configuration => "Error: Missing or invalid rule or strategy data",
            StrikerError::Lookup => "Error: Cannot find value in strategy chart",
            StrikerError::InvalidOperation => "Error: Trying to split a non-pair",
            StrikerError::Overflow => "Error: Counter out of range",
        }
    }
}

} // verus!
