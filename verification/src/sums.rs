//! Sums of a polynomial's values over the boolean hypercube, whole and partial.
//!
//! The prover's messages are such sums. This module says what they are and how they
//! relate to the table of the polynomial with its leading variables fixed.

use crate::extension::{
    boolean_point, evaluation, fix_variables, fold, is_field_table,
    lemma_evaluation_at_vertex, lemma_fix_first_variable, lemma_fix_variables_concat,
    lemma_fix_variables_shape, lemma_fold_at_bit,
};
use crate::field::{
    congruent, lemma_congruent_add, lemma_congruent_mul, lemma_congruent_sub,
    lemma_residue_congruent, modulus,
};
use vstd::arithmetic::div_mod::{lemma_add_mod_noop, lemma_mod_twice};
use vstd::arithmetic::power2::{lemma_pow2_unfold, pow2};
use vstd::prelude::*;

verus! {

/// The sum of the entries of a table, as an integer.
pub open spec fn sum(table: Seq<int>) -> int
    decreases table.len(),
{
    if table.len() == 0 {
        0
    } else {
        sum(table.drop_last()) + table.last()
    }
}

/// The sum of the entries of a table in the field.
pub open spec fn table_sum(table: Seq<int>) -> int {
    sum(table) % modulus()
}

/// The sum of the polynomial's values at the points `prefix + v`, where `v` runs through
/// the first `count` vertices of the hypercube in `free` dimensions, as an integer.
pub open spec fn hypercube_sum(table: Seq<int>, prefix: Seq<int>, free: nat, count: nat) -> int
    decreases count,
{
    if count == 0 {
        0
    } else {
        hypercube_sum(table, prefix, free, (count - 1) as nat) + evaluation(
            table,
            prefix + boolean_point((count - 1) as nat, free),
        )
    }
}

/// The sum of the polynomial's values over the whole hypercube, in the field.
pub open spec fn total_sum(table: Seq<int>, num_vars: nat) -> int {
    hypercube_sum(table, Seq::<int>::empty(), num_vars, pow2(num_vars)) % modulus()
}

/// The value at `b` of the round polynomial that follows the challenges `challenges`:
/// the sum of the polynomial's values at the points that have the leading variables
/// bound to the challenges, the next variable to `b`, and the remaining ones running
/// through all their boolean assignments.
pub open spec fn round_value(table: Seq<int>, num_vars: nat, challenges: Seq<int>, b: int) -> int {
    let free = (num_vars - challenges.len() - 1) as nat;
    hypercube_sum(table, challenges.push(b), free, pow2(free)) % modulus()
}

/// The table of the round polynomial that follows the challenges `challenges`: its
/// values at 0 and at 1.
pub open spec fn round_polynomial(table: Seq<int>, num_vars: nat, challenges: Seq<int>) -> Seq<int> {
    seq![round_value(table, num_vars, challenges, 0), round_value(table, num_vars, challenges, 1)]
}

/// With the leading variables bound to `prefix`, the values at the first `count`
/// vertices of the remaining hypercube are the first `count` entries of the table with
/// those variables fixed.
pub proof fn lemma_hypercube_sum_is_sum_of_fixed_table(
    table: Seq<int>,
    num_vars: nat,
    prefix: Seq<int>,
    count: nat,
)
    requires
        table.len() == pow2(num_vars),
        is_field_table(table) || prefix.len() > 0,
        prefix.len() <= num_vars,
        count <= pow2((num_vars - prefix.len()) as nat),
    ensures
        hypercube_sum(table, prefix, (num_vars - prefix.len()) as nat, count) == sum(
            fix_variables(table, prefix).take(count as int),
        ),
    decreases count,
{
    let free = (num_vars - prefix.len()) as nat;
    let fixed = fix_variables(table, prefix);
    lemma_fix_variables_shape(table, num_vars, prefix);
    if count == 0 {
        assert(fixed.take(0).len() == 0);
    } else {
        let index = (count - 1) as nat;
        lemma_hypercube_sum_is_sum_of_fixed_table(table, num_vars, prefix, index);
        lemma_fix_variables_concat(table, prefix, boolean_point(index, free));
        lemma_evaluation_at_vertex(fixed, free, index);
        assert(fixed.take(count as int).drop_last() =~= fixed.take(index as int));
    }
}

/// The sum of a polynomial's values over the whole hypercube is the sum of its table.
pub proof fn lemma_total_sum_is_table_sum(table: Seq<int>, num_vars: nat)
    requires
        table.len() == pow2(num_vars),
        is_field_table(table),
    ensures
        total_sum(table, num_vars) == table_sum(table),
{
    lemma_hypercube_sum_is_sum_of_fixed_table(table, num_vars, Seq::<int>::empty(), pow2(num_vars));
    assert(fix_variables(table, Seq::<int>::empty()).take(pow2(num_vars) as int) =~= table);
}

/// Fixing variable 0 to 0 and to 1 splits the entries of a table between the two folds:
/// their sums add up to the sum of the table.
pub proof fn lemma_sum_splits_by_first_variable(table: Seq<int>)
    requires
        is_field_table(table),
        table.len() % 2 == 0,
    ensures
        sum(fold(table, 0)) + sum(fold(table, 1)) == sum(table),
    decreases table.len(),
{
    if table.len() == 0 {
        assert(fold(table, 0).len() == 0);
        assert(fold(table, 1).len() == 0);
    } else {
        let shorter = table.take(table.len() - 2);
        let half = (table.len() / 2) as int;
        lemma_sum_splits_by_first_variable(shorter);
        assert(fold(table, 0).drop_last() =~= fold(shorter, 0));
        assert(fold(table, 1).drop_last() =~= fold(shorter, 1));
        assert(table.drop_last().drop_last() =~= shorter);
        assert(sum(table.drop_last()) == sum(shorter) + table[table.len() - 2]);
        assert(sum(table) == sum(shorter) + table[table.len() - 2] + table[table.len() - 1]);
        lemma_fold_at_bit(table, 0, half - 1);
        lemma_fold_at_bit(table, 1, half - 1);
    }
}

/// The sum of the table with variable 0 fixed to `c` lies on the line through the sums
/// with that variable fixed to 0 and to 1.
pub proof fn lemma_sum_of_fold_interpolates(table: Seq<int>, c: int)
    requires
        table.len() % 2 == 0,
    ensures
        congruent(
            sum(fold(table, c)),
            sum(fold(table, 0)) + c * (sum(fold(table, 1)) - sum(fold(table, 0))),
        ),
    decreases table.len(),
{
    if table.len() == 0 {
        assert(fold(table, 0).len() == 0);
        assert(fold(table, 1).len() == 0);
        assert(fold(table, c).len() == 0);
        assert(c * (0 - 0) == 0);
    } else {
        let shorter = table.take(table.len() - 2);
        let half = (table.len() / 2) as int;
        lemma_sum_of_fold_interpolates(shorter, c);
        assert(fold(table, 0).drop_last() =~= fold(shorter, 0));
        assert(fold(table, 1).drop_last() =~= fold(shorter, 1));
        assert(fold(table, c).drop_last() =~= fold(shorter, c));
        let low = table[2 * (half - 1)];
        let high = table[2 * (half - 1) + 1];
        let s0 = sum(fold(shorter, 0));
        let s1 = sum(fold(shorter, 1));
        let sc = sum(fold(shorter, c));
        let f0 = fold(table, 0).last();
        let f1 = fold(table, 1).last();
        let fc = fold(table, c).last();
        // The last entries of the three folds, up to congruence.
        assert(low + 0 * (high - low) == low);
        assert(low + 1 * (high - low) == high);
        lemma_residue_congruent(low);
        lemma_residue_congruent(high);
        lemma_residue_congruent(low + c * (high - low));
        assert(congruent(f0, low));
        assert(congruent(f1, high));
        assert(congruent(fc, low + c * (high - low)));
        // The line through the last entries.
        lemma_congruent_sub(f1, high, f0, low);
        lemma_congruent_mul(c, c, f1 - f0, high - low);
        lemma_congruent_add(f0, low, c * (f1 - f0), c * (high - low));
        // The line through the sums.
        lemma_congruent_add(sc, s0 + c * (s1 - s0), fc, f0 + c * (f1 - f0));
        assert((s0 + c * (s1 - s0)) + (f0 + c * (f1 - f0)) == (s0 + f0) + c * ((s1 + f1) - (s0
            + f0))) by (nonlinear_arith);
    }
}

/// The two values of a round polynomial are the sums of the table with the challenges
/// fixed and the round's variable fixed to 0 and to 1.
pub proof fn lemma_round_value_is_sum_of_fold(
    table: Seq<int>,
    num_vars: nat,
    challenges: Seq<int>,
    b: int,
)
    requires
        table.len() == pow2(num_vars),
        challenges.len() < num_vars,
    ensures
        round_value(table, num_vars, challenges, b) == table_sum(
            fold(fix_variables(table, challenges), b),
        ),
{
    let free = (num_vars - challenges.len() - 1) as nat;
    let bound = challenges.push(b);
    lemma_hypercube_sum_is_sum_of_fixed_table(table, num_vars, bound, pow2(free));
    lemma_fix_variables_shape(table, num_vars, bound);
    assert(bound.drop_last() =~= challenges);
    assert(fix_variables(table, bound).take(pow2(free) as int) =~= fix_variables(table, bound));
}

/// The two values of a round polynomial add up to the sum of the table with the
/// challenges fixed.
pub proof fn lemma_round_values_add_up(table: Seq<int>, num_vars: nat, challenges: Seq<int>)
    requires
        table.len() == pow2(num_vars),
        is_field_table(table),
        challenges.len() < num_vars,
    ensures
        (round_value(table, num_vars, challenges, 0) + round_value(table, num_vars, challenges, 1))
            % modulus() == table_sum(fix_variables(table, challenges)),
{
    let fixed = fix_variables(table, challenges);
    lemma_round_value_is_sum_of_fold(table, num_vars, challenges, 0);
    lemma_round_value_is_sum_of_fold(table, num_vars, challenges, 1);
    lemma_fix_variables_shape(table, num_vars, challenges);
    lemma_pow2_unfold((num_vars - challenges.len()) as nat);
    lemma_sum_splits_by_first_variable(fixed);
    lemma_add_mod_noop(sum(fold(fixed, 0)), sum(fold(fixed, 1)), modulus());
}

/// The round polynomial at a challenge `c` is the sum of the table with the earlier
/// challenges and `c` fixed: the claim that the next round starts from.
pub proof fn lemma_round_polynomial_at_challenge(
    table: Seq<int>,
    num_vars: nat,
    challenges: Seq<int>,
    c: int,
)
    requires
        table.len() == pow2(num_vars),
        challenges.len() < num_vars,
    ensures
        evaluation(round_polynomial(table, num_vars, challenges), seq![c]) == table_sum(
            fix_variables(table, challenges.push(c)),
        ),
{
    let fixed = fix_variables(table, challenges);
    let v0 = round_value(table, num_vars, challenges, 0);
    let v1 = round_value(table, num_vars, challenges, 1);
    let s0 = sum(fold(fixed, 0));
    let s1 = sum(fold(fixed, 1));
    lemma_round_value_is_sum_of_fold(table, num_vars, challenges, 0);
    lemma_round_value_is_sum_of_fold(table, num_vars, challenges, 1);
    lemma_fix_variables_shape(table, num_vars, challenges);
    lemma_pow2_unfold((num_vars - challenges.len()) as nat);
    lemma_sum_of_fold_interpolates(fixed, c);
    lemma_fix_first_variable(round_polynomial(table, num_vars, challenges), c);
    assert(challenges.push(c).drop_last() =~= challenges);
    // v0 and v1 are the residues of s0 and s1.
    lemma_residue_congruent(s0);
    lemma_residue_congruent(s1);
    lemma_congruent_sub(v1, s1, v0, s0);
    lemma_congruent_mul(c, c, v1 - v0, s1 - s0);
    lemma_congruent_add(v0, s0, c * (v1 - v0), c * (s1 - s0));
    lemma_mod_twice(v0 + c * (v1 - v0), modulus());
}

} // verus!
