//! The sum-check interactive proof for multilinear polynomials over a 64-bit prime field.
//!
//! A prover convinces a verifier that the values of a multilinear polynomial over the
//! boolean hypercube add up to a claimed total. The claim about `n` variables is reduced
//! to `n` checks of one-variable polynomials, one per round, each followed by a random
//! challenge that binds the round's variable.

pub mod error;
pub mod extension;
pub mod field;
pub mod polynomial;
pub mod protocol;
pub mod prover;
pub mod random;
pub mod round_check;
pub mod sums;

pub use error::SumcheckError;
pub use field::{Fr, MODULUS};
pub use polynomial::MultilinearPolynomial;
pub use protocol::{run_with_challenges, start_protocol, Verdict};
pub use prover::Prover;
pub use random::random_binary_coefficients;
pub use round_check::Verifier;
