//! How a simulation can fail, as opposed to how a retirement can.
use vstd::prelude::*;

verus! {

/// A failure of the run itself. A portfolio that runs dry is no error: it is
/// an outcome.
#[derive(Clone, Copy, Debug, PartialEq, Eq, Structural)]
pub enum SimulationError {
    /// The tax schedule does not end in a bracket without a ceiling, so that
    /// not every income falls in a bracket.
    TaxBracketMissing,
    /// The marginal rate is 100% or more, so no withdrawal pays its own tax.
    TaxRateTooHigh,
    /// The month after the current one lies past the end of the calendar.
    DateOverflow,
    /// A scenario ended before its first month, so it has no ending balance.
    NothingSimulated,
}

impl SimulationError {
    /// A sentence for the person at the terminal.
    pub fn message(&self) -> (r: &'static str)
        ensures
            r@ == (match *self {
                SimulationError::TaxBracketMissing => "Tax rate too high!"@,
                SimulationError::TaxRateTooHigh => "Marginal tax rate of 100% or more"@,
                SimulationError::DateOverflow => "Date out of range"@,
                SimulationError::NothingSimulated => "Nobody left to simulate"@,
            }),
    {
        match self {
            SimulationError::TaxBracketMissing => "Tax rate too high!",
            SimulationError::TaxRateTooHigh => "Marginal tax rate of 100% or more",
            SimulationError::DateOverflow => "Date out of range",
            SimulationError::NothingSimulated => "Nobody left to simulate",
        }
    }
}

} // verus!
