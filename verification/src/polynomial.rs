//! Multilinear polynomials held as the table of their values on the boolean hypercube.

use crate::error::SumcheckError;
use crate::extension::{
    bit, boolean_point, evaluation, fix_variables, fold, interpolate, is_field_table,
};
use crate::field::{is_residue, modulus, values, Fr};
use vstd::arithmetic::div_mod::{
    lemma_add_mod_noop_right, lemma_div_denominator, lemma_mul_mod_noop_right, lemma_small_mod,
};
use vstd::arithmetic::power2::{lemma2_to64, lemma_pow2_pos, lemma_pow2_unfold, pow2};
use vstd::prelude::*;

verus! {

/// `low + c * (high - low)` in the field.
pub fn interpolate_elements(low: &Fr, high: &Fr, c: &Fr) -> (r: Fr)
    ensures
        r@ == interpolate(low@, high@, c@),
{
    let difference = high.sub(low);
    let scaled = c.mul(&difference);
    proof {
        lemma_mul_mod_noop_right(c@, high@ - low@, modulus());
        lemma_add_mod_noop_right(low@, c@ * (high@ - low@), modulus());
    }
    low.add(&scaled)
}

/// Fixes variable 0 of a table to `c`.
pub fn fold_table(table: &Vec<Fr>, c: &Fr) -> (r: Vec<Fr>)
    ensures
        values(r@) == fold(values(table@), c@),
{
    let half: usize = table.len() / 2;
    let mut folded: Vec<Fr> = Vec::with_capacity(half);
    let mut i: usize = 0;
    while i < half
        invariant
            half == table.len() / 2,
            i <= half,
            folded.len() == i,
            forall|k: int|
                0 <= k < i ==> (#[trigger] folded[k])@ == interpolate(
                    table[2 * k]@,
                    table[2 * k + 1]@,
                    c@,
                ),
        decreases half - i,
    {
        let entry = interpolate_elements(&table[2 * i], &table[2 * i + 1], c);
        folded.push(entry);
        i += 1;
    }
    assert(values(folded@) =~= fold(values(table@), c@));
    folded
}

/// The vertex of the hypercube in `num_vars` dimensions with the given index, as field
/// elements: coordinate `j` is bit `j` of `index`.
pub fn hypercube_vertex(index: usize, num_vars: usize) -> (r: Vec<Fr>)
    ensures
        values(r@) == boolean_point(index as nat, num_vars as nat),
{
    let mut point: Vec<Fr> = Vec::new();
    let mut rest: usize = index;
    let mut j: usize = 0;
    proof {
        lemma2_to64();
    }
    while j < num_vars
        invariant
            j <= num_vars,
            point.len() == j,
            rest == index as nat / pow2(j as nat),
            forall|k: int| 0 <= k < j ==> (#[trigger] point[k])@ == bit(index as nat, k as nat),
        decreases num_vars - j,
    {
        let coordinate = Fr::from_u64((rest % 2) as u64);
        proof {
            lemma_small_mod((rest % 2) as nat, modulus() as nat);
            lemma_pow2_pos(j as nat);
            lemma_pow2_unfold((j + 1) as nat);
            lemma_div_denominator(index as int, pow2(j as nat) as int, 2);
        }
        point.push(coordinate);
        rest = rest / 2;
        j = j + 1;
    }
    assert(values(point@) =~= boolean_point(index as nat, num_vars as nat));
    point
}

/// A multilinear polynomial, held as the table of its values on the boolean hypercube.
///
/// Its view is that table, as residues; the table of a polynomial in `n` variables has
/// `2^n` entries.
#[derive(Debug)]
pub struct MultilinearPolynomial {
    num_vars: usize,
    evaluations: Vec<Fr>,
}

impl View for MultilinearPolynomial {
    type V = Seq<int>;

    closed spec fn view(&self) -> Seq<int> {
        values(self.evaluations@)
    }
}

impl MultilinearPolynomial {
    #[verifier::type_invariant]
    spec fn table_matches_variables(&self) -> bool {
        self.evaluations.len() == pow2(self.num_vars as nat)
    }

    /// The number of variables.
    pub closed spec fn num_vars_spec(&self) -> nat {
        self.num_vars as nat
    }

    /// The entries of the table are residues.
    pub proof fn lemma_view_is_field_table(&self)
        ensures
            is_field_table(self@),
    {
        assert forall|i: int| 0 <= i < self@.len() implies is_residue(#[trigger] self@[i]) by {
            self.evaluations[i].lemma_view_is_residue();
        }
    }

    /// The polynomial whose table is `evaluations`, filled up with zeros to the next
    /// power of two. An empty vector gives the constant polynomial zero.
    ///
    /// The filled table has to fit in memory: `evaluations` has at most `usize::MAX / 2`
    /// entries.
    pub fn new(evaluations: Vec<Fr>) -> (r: MultilinearPolynomial)
        requires
            evaluations.len() <= usize::MAX / 2,
        ensures
            r@.len() == pow2(r.num_vars_spec()),
            evaluations.len() <= r@.len(),
            r.num_vars_spec() > 0 ==> pow2((r.num_vars_spec() - 1) as nat) < evaluations.len(),
            r@ == values(evaluations@) + Seq::new(
                (r@.len() - evaluations.len()) as nat,
                |i: int| 0int,
            ),
    {
        let ghost given = values(evaluations@);
        let mut table = evaluations;
        let mut size: usize = 1;
        let mut num_vars: usize = 0;
        proof {
            lemma_pow2_unfold(1);
            assert(pow2(0) == 1) by {
                lemma2_to64();
            }
        }
        while size < table.len()
            invariant
                size == pow2(num_vars as nat),
                num_vars < size,
                table.len() <= usize::MAX / 2,
                num_vars > 0 ==> pow2((num_vars - 1) as nat) < table.len(),
            decreases usize::MAX - size,
        {
            proof {
                lemma_pow2_unfold((num_vars + 1) as nat);
            }
            size = size * 2;
            num_vars = num_vars + 1;
        }
        while table.len() < size
            invariant
                given.len() <= table.len() <= size,
                values(table@) == given + Seq::new(
                    (table.len() - given.len()) as nat,
                    |i: int| 0int,
                ),
            decreases size - table.len(),
        {
            let ghost before = values(table@);
            table.push(Fr::zero());
            assert(values(table@) =~= before.push(0int));
            assert(values(table@) =~= given + Seq::new(
                (table.len() - given.len()) as nat,
                |i: int| 0int,
            ));
        }
        MultilinearPolynomial { num_vars, evaluations: table }
    }

    /// The number of variables.
    pub fn num_vars(&self) -> (r: usize)
        ensures
            r == self.num_vars_spec(),
            self@.len() == pow2(r as nat),
    {
        proof {
            use_type_invariant(self);
        }
        self.num_vars
    }

    /// The length of the table, `2^n` for `n` variables.
    pub fn len(&self) -> (r: usize)
        ensures
            r == self@.len(),
            r == pow2(self.num_vars_spec()),
    {
        proof {
            use_type_invariant(self);
        }
        self.evaluations.len()
    }

    /// The table of values on the hypercube.
    pub fn evaluations(&self) -> (r: &Vec<Fr>)
        ensures
            values(r@) == self@,
    {
        &self.evaluations
    }

    /// The value of the polynomial at `point`, by fixing one variable after the other.
    ///
    /// A point that does not have one coordinate for each variable is refused.
    pub fn evaluate(&self, point: &Vec<Fr>) -> (r: Result<Fr, SumcheckError>)
        ensures
            point.len() == self.num_vars_spec() ==> r is Ok && r.unwrap()@ == evaluation(
                self@,
                values(point@),
            ),
            point.len() != self.num_vars_spec() ==> r == Err::<Fr, SumcheckError>(
                (SumcheckError::DimensionMismatch {
                    expected: self.num_vars_spec() as usize,
                    found: point.len(),
                }),
            ),
    {
        proof {
            use_type_invariant(self);
        }
        let num_vars = self.num_vars;
        if point.len() != num_vars {
            return Err(SumcheckError::DimensionMismatch { expected: num_vars, found: point.len() });
        }
        let ghost coordinates = values(point@);
        if num_vars == 0 {
            proof {
                lemma2_to64();
            }
            return Ok(self.evaluations[0]);
        }
        let mut current = fold_table(&self.evaluations, &point[0]);
        let mut fixed: usize = 1;
        proof {
            assert(coordinates.take(1).drop_last() =~= Seq::<int>::empty());
            assert(fix_variables(self@, Seq::<int>::empty()) == self@);
            assert(fix_variables(self@, coordinates.take(1)) == fold(self@, coordinates[0]));
            lemma_pow2_unfold(num_vars as nat);
            assert(current.len() == values(current@).len());
        }
        while fixed < num_vars
            invariant
                1 <= fixed <= num_vars,
                num_vars == point.len(),
                coordinates == values(point@),
                values(current@) == fix_variables(self@, coordinates.take(fixed as int)),
                current.len() == pow2((num_vars - fixed) as nat),
            decreases num_vars - fixed,
        {
            proof {
                assert(coordinates.take(fixed + 1).drop_last() =~= coordinates.take(fixed as int));
                lemma_pow2_unfold((num_vars - fixed) as nat);
            }
            let ghost before = values(current@);
            current = fold_table(&current, &point[fixed]);
            assert(current.len() == fold(before, coordinates[fixed as int]).len());
            fixed = fixed + 1;
        }
        proof {
            assert(coordinates.take(num_vars as int) =~= coordinates);
            lemma2_to64();
        }
        Ok(current[0])
    }
}

impl Clone for MultilinearPolynomial {
    /// A copy with the same table.
    fn clone(&self) -> (r: MultilinearPolynomial)
        ensures
            r@ == self@,
            r.num_vars_spec() == self.num_vars_spec(),
    {
        proof {
            use_type_invariant(self);
        }
        let mut evaluations: Vec<Fr> = Vec::with_capacity(self.evaluations.len());
        let mut i: usize = 0;
        while i < self.evaluations.len()
            invariant
                i <= self.evaluations.len(),
                evaluations@ == self.evaluations@.take(i as int),
            decreases self.evaluations.len() - i,
        {
            evaluations.push(self.evaluations[i]);
            assert(evaluations@ =~= self.evaluations@.take(i + 1));
            i = i + 1;
        }
        assert(evaluations@ =~= self.evaluations@);
        MultilinearPolynomial { num_vars: self.num_vars, evaluations }
    }
}

} // verus!
