//! The prover: the party that holds the polynomial and answers each round with a
//! one-variable polynomial.

use crate::extension::boolean_point;
use crate::field::{modulus, values, Fr};
use crate::polynomial::{hypercube_vertex, MultilinearPolynomial};
use crate::random::random_binary_coefficients;
use crate::sums::{
    hypercube_sum, lemma_total_sum_is_table_sum, round_polynomial, table_sum, total_sum,
};
use vstd::arithmetic::div_mod::{lemma_add_mod_noop_right, lemma_small_mod};
use vstd::arithmetic::power2::{
    lemma2_to64, lemma_pow2_strictly_increases, lemma_pow2_unfold, pow2,
};
use vstd::prelude::*;

verus! {

/// The prover's side of one run of the protocol.
pub struct Prover {
    /// The polynomial whose sum over the hypercube is claimed.
    pub polynomial: MultilinearPolynomial,
    /// The claimed sum, once `start_round` has computed it.
    pub sum: Fr,
    /// The round polynomials sent so far, one for each round.
    pub univariate_polys: Vec<MultilinearPolynomial>,
    /// The challenges received so far, one for each completed round.
    pub random_values: Vec<Fr>,
}

impl Prover {
    /// A prover for a polynomial with `num_coefs` random boolean values, filled up with
    /// zeros to the next power of two.
    pub fn new(num_coefs: usize) -> (r: Prover)
        requires
            num_coefs <= usize::MAX / 2,
        ensures
            r.polynomial@.len() == pow2(r.polynomial.num_vars_spec()),
            num_coefs <= r.polynomial@.len(),
            r.polynomial.num_vars_spec() > 0 ==> pow2((r.polynomial.num_vars_spec() - 1) as nat)
                < num_coefs,
            forall|i: int|
                0 <= i < r.polynomial@.len() ==> (#[trigger] r.polynomial@[i]) == 0
                    || r.polynomial@[i] == 1,
            forall|i: int| num_coefs <= i < r.polynomial@.len() ==> (#[trigger] r.polynomial@[i]) == 0,
            r.sum@ == 0,
            r.univariate_polys@.len() == 0,
            r.random_values@.len() == 0,
    {
        let coefs = random_binary_coefficients(num_coefs);
        Prover::from_polynomial(MultilinearPolynomial::new(coefs))
    }

    /// A prover for the given polynomial, before the first round.
    pub fn from_polynomial(polynomial: MultilinearPolynomial) -> (r: Prover)
        ensures
            r.polynomial == polynomial,
            r.sum@ == 0,
            r.univariate_polys@.len() == 0,
            r.random_values@.len() == 0,
    {
        Prover {
            polynomial,
            sum: Fr::zero(),
            univariate_polys: Vec::new(),
            random_values: Vec::new(),
        }
    }

    /// The sum of the polynomial's values over the whole hypercube, found by evaluating
    /// it at every vertex.
    pub fn evaluate_sum(&self) -> (r: Fr)
        ensures
            r@ == total_sum(self.polynomial@, self.polynomial.num_vars_spec()),
            r@ == table_sum(self.polynomial@),
    {
        let num_vars = self.polynomial.num_vars();
        let num_combinations = self.polynomial.len();
        let ghost table = self.polynomial@;
        let ghost empty = Seq::<int>::empty();
        let mut sum = Fr::zero();
        let mut i: usize = 0;
        proof {
            lemma_small_mod(0, modulus() as nat);
        }
        while i < num_combinations
            invariant
                i <= num_combinations,
                num_combinations == pow2(num_vars as nat),
                num_vars == self.polynomial.num_vars_spec(),
                table == self.polynomial@,
                empty == Seq::<int>::empty(),
                sum@ == hypercube_sum(table, empty, num_vars as nat, i as nat) % modulus(),
            decreases num_combinations - i,
        {
            let point = hypercube_vertex(i, num_vars);
            match self.polynomial.evaluate(&point) {
                Ok(result) => {
                    proof {
                        assert(empty + boolean_point(i as nat, num_vars as nat) =~= values(
                            point@,
                        ));
                        lemma_add_mod_noop_right(
                            result@,
                            hypercube_sum(table, empty, num_vars as nat, i as nat),
                            modulus(),
                        );
                    }
                    sum = sum.add(&result);
                },
                Err(_) => {},
            }
            i = i + 1;
        }
        proof {
            self.polynomial.lemma_view_is_field_table();
            lemma_total_sum_is_table_sum(table, num_vars as nat);
        }
        sum
    }

    /// The point of round `index` for the `combination`-th assignment of the variables
    /// that are still free: the challenges received for the earlier rounds, then 0 for
    /// the round's own variable, then the bits of `combination`.
    fn round_point(&self, index: usize, combination: usize) -> (r: Vec<Fr>)
        requires
            index < self.polynomial.num_vars_spec(),
            index <= self.random_values.len(),
        ensures
            r.len() == self.polynomial.num_vars_spec(),
            values(r@) == values(self.random_values@).take(index as int).push(0) + boolean_point(
                combination as nat,
                (self.polynomial.num_vars_spec() - index - 1) as nat,
            ),
    {
        let num_vars = self.polynomial.num_vars();
        let ghost challenges = values(self.random_values@).take(index as int);
        let mut point: Vec<Fr> = Vec::with_capacity(num_vars);
        let mut j: usize = 0;
        while j < index
            invariant
                j <= index <= self.random_values.len(),
                point.len() == j,
                challenges == values(self.random_values@).take(index as int),
                values(point@) == challenges.take(j as int),
            decreases index - j,
        {
            point.push(self.random_values[j]);
            assert(values(point@) =~= challenges.take(j + 1));
            j = j + 1;
        }
        let ghost before = values(point@);
        point.push(Fr::zero());
        let bits = hypercube_vertex(combination, num_vars - index - 1);
        let ghost head = challenges.push(0);
        assert(before =~= challenges);
        assert(values(point@) =~= before.push(0));
        assert(bits.len() == values(bits@).len());
        let mut k: usize = 0;
        while k < bits.len()
            invariant
                k <= bits.len(),
                point.len() == index + 1 + k,
                values(point@) == head + values(bits@).take(k as int),
            decreases bits.len() - k,
        {
            let ghost before = values(point@);
            point.push(bits[k]);
            assert(values(point@) =~= before.push(bits[k as int]@));
            assert(values(point@) =~= head + values(bits@).take(k + 1));
            k = k + 1;
        }
        assert(values(bits@).take(bits.len() as int) =~= values(bits@));
        point
    }

    /// The round polynomial of round `index`: its value at 0 and at 1 is the sum of the
    /// polynomial's values at the points that have the earlier variables bound to the
    /// challenges received, variable `index` bound to 0 or to 1, and the later variables
    /// running through all their boolean assignments.
    pub fn evaluate_sum_at_point(&self, index: usize) -> (r: MultilinearPolynomial)
        requires
            index < self.polynomial.num_vars_spec(),
            index <= self.random_values.len(),
        ensures
            r.num_vars_spec() == 1,
            r@ == round_polynomial(
                self.polynomial@,
                self.polynomial.num_vars_spec(),
                values(self.random_values@).take(index as int),
            ),
    {
        let num_vars = self.polynomial.num_vars();
        let ghost table = self.polynomial@;
        let ghost challenges = values(self.random_values@).take(index as int);
        let ghost free = (num_vars - index - 1) as nat;
        // One combination for each assignment of the variables after `index`.
        let mut num_combinations: usize = self.polynomial.len();
        let mut halved: usize = 0;
        while halved <= index
            invariant
                halved <= index + 1,
                index < num_vars,
                num_combinations == pow2((num_vars - halved) as nat),
            decreases index + 1 - halved,
        {
            proof {
                lemma_pow2_unfold((num_vars - halved) as nat);
            }
            num_combinations = num_combinations / 2;
            halved = halved + 1;
        }
        let mut at_zero = Fr::zero();
        let mut at_one = Fr::zero();
        let mut i: usize = 0;
        proof {
            lemma_small_mod(0, modulus() as nat);
        }
        while i < num_combinations
            invariant
                i <= num_combinations,
                index < num_vars,
                index <= self.random_values.len(),
                num_vars == self.polynomial.num_vars_spec(),
                table == self.polynomial@,
                challenges == values(self.random_values@).take(index as int),
                free == num_vars - index - 1,
                at_zero@ == hypercube_sum(table, challenges.push(0), free, i as nat) % modulus(),
                at_one@ == hypercube_sum(table, challenges.push(1), free, i as nat) % modulus(),
            decreases num_combinations - i,
        {
            let mut point = self.round_point(index, i);
            let eval = self.polynomial.evaluate(&point).unwrap();
            proof {
                lemma_add_mod_noop_right(
                    eval@,
                    hypercube_sum(table, challenges.push(0), free, i as nat),
                    modulus(),
                );
            }
            at_zero = at_zero.add(&eval);

            let ghost before = values(point@);
            point.set(index, Fr::one());
            assert(values(point@) =~= before.update(index as int, 1));
            assert(values(point@) =~= challenges.push(1) + boolean_point(i as nat, free));
            let eval = self.polynomial.evaluate(&point).unwrap();
            proof {
                lemma_add_mod_noop_right(
                    eval@,
                    hypercube_sum(table, challenges.push(1), free, i as nat),
                    modulus(),
                );
            }
            at_one = at_one.add(&eval);
            i = i + 1;
        }
        let univariate_poly = vec![at_zero, at_one];
        let ghost endpoints = values(univariate_poly@);
        let r = MultilinearPolynomial::new(univariate_poly);
        proof {
            lemma2_to64();
            if r.num_vars_spec() > 1 {
                lemma_pow2_strictly_increases(1, (r.num_vars_spec() - 1) as nat);
            }
            assert(r@ =~= endpoints);
            assert(endpoints =~= round_polynomial(table, num_vars as nat, challenges));
        }
        r
    }

    /// Computes the sum that the prover claims.
    pub fn start_round(&mut self)
        ensures
            final(self).sum@ == table_sum(old(self).polynomial@),
            final(self).polynomial == old(self).polynomial,
            final(self).univariate_polys == old(self).univariate_polys,
            final(self).random_values == old(self).random_values,
    {
        let sum = self.evaluate_sum();
        self.sum = sum;
    }

    /// Computes the round polynomial of round `index` and adds it to those sent.
    pub fn round(&mut self, index: usize)
        requires
            index < old(self).polynomial.num_vars_spec(),
            index <= old(self).random_values.len(),
        ensures
            final(self).univariate_polys@.len() == old(self).univariate_polys@.len() + 1,
            final(self).univariate_polys@.drop_last() == old(self).univariate_polys@,
            final(self).univariate_polys@.last().num_vars_spec() == 1,
            final(self).univariate_polys@.last()@ == round_polynomial(
                old(self).polynomial@,
                old(self).polynomial.num_vars_spec(),
                values(old(self).random_values@).take(index as int),
            ),
            final(self).polynomial == old(self).polynomial,
            final(self).sum == old(self).sum,
            final(self).random_values == old(self).random_values,
    {
        let univariate_poly = self.evaluate_sum_at_point(index);
        self.univariate_polys.push(univariate_poly);
        assert(self.univariate_polys@.drop_last() =~= old(self).univariate_polys@);
    }
}

} // verus!
