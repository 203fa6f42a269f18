//! The ways in which an evaluation or a round of the protocol can fail.

use vstd::prelude::*;

verus! {

/// Why an evaluation or a round's check did not go through.
#[derive(Clone, Copy, Debug, PartialEq, Eq, Structural)]
pub enum SumcheckError {
    /// A point had `found` coordinates where the polynomial has `expected` variables.
    DimensionMismatch { expected: usize, found: usize },
    /// In round `round` the two endpoint values of the round's polynomial did not add up
    /// to the value the verifier expected.
    SumCheckViolation { round: usize },
}

} // verus!
