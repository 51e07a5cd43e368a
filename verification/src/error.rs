use vstd::prelude::*;

verus! {

/// Why a call was refused.
#[derive(Clone, Copy, Debug, PartialEq, Eq, Structural)]
pub enum RlError {
    /// A state, action or reward index lies outside the declared bounds, or
    /// two tables that must agree in size do not.
    IndexOutOfRange,
    /// A row that must be a probability distribution is not one.
    InvalidDistribution,
    /// A training parameter lies outside its admissible range.
    InvalidParameter,
    /// An environment behind a foreign boundary could not be brought up.
    EnvironmentUnavailable,
}

} // verus!
