//! The verifier: the party that checks each round polynomial against the running claim
//! and answers with a random challenge.

use crate::error::SumcheckError;
use crate::extension::evaluation;
use crate::field::{modulus, values, Fr};
use crate::polynomial::MultilinearPolynomial;
use crate::random::random_element;
use vstd::prelude::*;

verus! {

/// What the two endpoint values of a round polynomial add up to.
pub open spec fn endpoint_sum(poly: Seq<int>) -> int {
    (evaluation(poly, seq![0int]) + evaluation(poly, seq![1int])) % modulus()
}

/// What the next round is checked against: twice the value of a round polynomial at the
/// challenge that followed it.
pub open spec fn doubled_claim(poly: Seq<int>, challenge: int) -> int {
    (2 * evaluation(poly, seq![challenge])) % modulus()
}

/// The verifier's side of one run of the protocol.
pub struct Verifier {
    /// The sum that the prover claims.
    pub sum: Fr,
    /// The round polynomials received so far, one for each round.
    pub univariate_polys: Vec<MultilinearPolynomial>,
    /// The challenges drawn so far, one for each completed round.
    pub random_values: Vec<Fr>,
}

impl Verifier {
    /// What the endpoint values of the polynomial of round `index` must add up to: in
    /// round 0 the claimed sum, later twice the previous round polynomial at the previous
    /// challenge.
    pub open spec fn expected(&self, index: int) -> int {
        if index == 0 {
            self.sum@
        } else {
            doubled_claim(self.univariate_polys[index - 1]@, self.random_values[index - 1]@)
        }
    }

    /// The outcome of the check of round `index`.
    pub open spec fn check(&self, index: int) -> Result<(), SumcheckError> {
        let previous = self.univariate_polys[index - 1];
        let current = self.univariate_polys[index];
        if index > 0 && previous.num_vars_spec() != 1 {
            Err(
                SumcheckError::DimensionMismatch {
                    expected: previous.num_vars_spec() as usize,
                    found: 1,
                },
            )
        } else if current.num_vars_spec() != 1 {
            Err(
                SumcheckError::DimensionMismatch {
                    expected: current.num_vars_spec() as usize,
                    found: 1,
                },
            )
        } else if endpoint_sum(current@) != self.expected(index) {
            Err(SumcheckError::SumCheckViolation { round: index as usize })
        } else {
            Ok(())
        }
    }

    /// A verifier that has received nothing yet.
    pub fn new() -> (r: Verifier)
        ensures
            r.sum@ == 0,
            r.univariate_polys@.len() == 0,
            r.random_values@.len() == 0,
    {
        Verifier { sum: Fr::zero(), univariate_polys: Vec::new(), random_values: Vec::new() }
    }

    /// Checks the polynomial of round `index` against the running claim.
    ///
    /// The check fails with `SumCheckViolation` when the endpoint values do not add up
    /// to what is expected, and with `DimensionMismatch` when one of the polynomials
    /// involved does not have exactly one variable.
    pub fn round(&self, index: usize) -> (r: Result<(), SumcheckError>)
        requires
            index < self.univariate_polys.len(),
            index > 0 ==> index - 1 < self.random_values.len(),
        ensures
            r == self.check(index as int),
    {
        let expected = if index == 0 {
            self.sum
        } else {
            let point = vec![self.random_values[index - 1]];
            assert(values(point@) =~= seq![self.random_values[index - 1]@]);
            match self.univariate_polys[index - 1].evaluate(&point) {
                Ok(value) => value.double(),
                Err(error) => {
                    return Err(error);
                },
            }
        };
        let at_zero = vec![Fr::zero()];
        let at_one = vec![Fr::one()];
        assert(values(at_zero@) =~= seq![0int]);
        assert(values(at_one@) =~= seq![1int]);
        let eval1 = match self.univariate_polys[index].evaluate(&at_zero) {
            Ok(value) => value,
            Err(error) => {
                return Err(error);
            },
        };
        let eval2 = match self.univariate_polys[index].evaluate(&at_one) {
            Ok(value) => value,
            Err(error) => {
                return Err(error);
            },
        };
        let sum = eval1.add(&eval2);
        if sum.eq(&expected) {
            Ok(())
        } else {
            Err(SumcheckError::SumCheckViolation { round: index })
        }
    }

    /// Adds a challenge to those drawn.
    pub fn record_challenge(&mut self, challenge: Fr)
        ensures
            final(self).random_values@ == old(self).random_values@.push(challenge),
            final(self).sum == old(self).sum,
            final(self).univariate_polys == old(self).univariate_polys,
    {
        self.random_values.push(challenge);
    }

    /// Draws a fresh random challenge, adds it to those drawn and returns it.
    pub fn pick_random(&mut self) -> (r: Fr)
        ensures
            final(self).random_values@ == old(self).random_values@.push(r),
            final(self).sum == old(self).sum,
            final(self).univariate_polys == old(self).univariate_polys,
    {
        let random = random_element();
        self.record_challenge(random);
        random
    }
}

} // verus!
