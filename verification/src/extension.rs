//! The multilinear extension of a table of values on the boolean hypercube.
//!
//! A table of `2^n` residues gives the values of a function at the vertices of the
//! hypercube in `n` dimensions. Bit `j` of an index into the table is the value of
//! variable `j` at that vertex. The multilinear extension is the one polynomial, of
//! degree at most 1 in each variable, that takes those values at the vertices. Here it
//! is defined by fixing one variable after the other, and shown to take the table's
//! values at the vertices and to be affine in each variable.

use crate::field::{
    congruent, is_residue, lemma_congruent_add, lemma_congruent_mul,
    lemma_congruent_residues_equal, lemma_congruent_sub, lemma_residue_congruent, modulus,
};
use vstd::arithmetic::div_mod::{lemma_div_denominator, lemma_small_mod};
use vstd::arithmetic::power2::{lemma2_to64, lemma_pow2_pos, lemma_pow2_unfold, pow2};
use vstd::prelude::*;

verus! {

/// Every entry of the table is a residue in `0..MODULUS`.
pub open spec fn is_field_table(table: Seq<int>) -> bool {
    forall|i: int| 0 <= i < table.len() ==> is_residue(#[trigger] table[i])
}

/// The value at `c` of the line through `low` at 0 and `high` at 1: `low + c * (high - low)`.
pub open spec fn interpolate(low: int, high: int, c: int) -> int {
    (low + c * (high - low)) % modulus()
}

/// The table of half the length in which variable 0 is fixed to `c`: each pair of
/// entries that differ only in bit 0 of their index is replaced by its interpolation at `c`.
pub open spec fn fold(table: Seq<int>, c: int) -> Seq<int> {
    Seq::new(
        (table.len() / 2) as nat,
        |i: int| interpolate(table[2 * i], table[2 * i + 1], c),
    )
}

/// The table that is left when the leading variables are fixed to `prefix`, one fold for
/// each coordinate in turn.
pub open spec fn fix_variables(table: Seq<int>, prefix: Seq<int>) -> Seq<int>
    decreases prefix.len(),
{
    if prefix.len() == 0 {
        table
    } else {
        fold(fix_variables(table, prefix.drop_last()), prefix.last())
    }
}

/// The value of the multilinear extension of `table` at `point`: the one entry that is
/// left once every variable is fixed.
pub open spec fn evaluation(table: Seq<int>, point: Seq<int>) -> int {
    fix_variables(table, point)[0]
}

/// Bit `j` of `index`.
pub open spec fn bit(index: nat, j: nat) -> int {
    ((index / pow2(j)) % 2) as int
}

/// The vertex of the hypercube in `num_vars` dimensions with the given index: coordinate
/// `j` is bit `j` of `index`.
pub open spec fn boolean_point(index: nat, num_vars: nat) -> Seq<int> {
    Seq::new(num_vars, |j: int| bit(index, j as nat))
}

/// A vertex of the hypercube starts with bit 0 of its index; the other coordinates are
/// the vertex of half the index in one dimension less.
pub proof fn lemma_boolean_point_unfold(index: nat, num_vars: nat)
    requires
        num_vars > 0,
    ensures
        boolean_point(index, num_vars) == seq![(index % 2) as int] + boolean_point(
            index / 2,
            (num_vars - 1) as nat,
        ),
{
    let rest = boolean_point(index / 2, (num_vars - 1) as nat);
    assert(pow2(0) == 1) by {
        lemma2_to64();
    }
    let whole = boolean_point(index, num_vars);
    let split = seq![(index % 2) as int] + rest;
    assert forall|j: int| 0 <= j < num_vars implies #[trigger] whole[j] == split[j] by {
        if j > 0 {
            let lower = pow2((j - 1) as nat) as int;
            lemma_pow2_pos((j - 1) as nat);
            lemma_pow2_unfold(j as nat);
            lemma_div_denominator(index as int, 2, lower);
            assert((index as int / 2) / lower == index as int / (2 * lower));
            assert(pow2(j as nat) as int == 2 * lower);
            assert(split[j] == rest[j - 1]);
            assert(rest[j - 1] == bit(index / 2, (j - 1) as nat));
            assert(whole[j] == bit(index, j as nat));
        } else {
            assert(whole[0] == bit(index, 0));
            assert(index as int / 1 == index as int);
        }
    }
    assert(whole =~= split);
}

/// Fixing the variables of `first + second` is fixing those of `first` and then, in
/// the table that is left, those of `second`.
pub proof fn lemma_fix_variables_concat(table: Seq<int>, first: Seq<int>, second: Seq<int>)
    ensures
        fix_variables(table, first + second) == fix_variables(
            fix_variables(table, first),
            second,
        ),
    decreases second.len(),
{
    if second.len() == 0 {
        assert(first + second =~= first);
    } else {
        lemma_fix_variables_concat(table, first, second.drop_last());
        assert((first + second).drop_last() =~= first + second.drop_last());
    }
}

/// Fixing only variable 0 is one fold.
pub proof fn lemma_fix_first_variable(table: Seq<int>, c: int)
    ensures
        fix_variables(table, seq![c]) == fold(table, c),
{
    assert(seq![c].drop_last() =~= Seq::<int>::empty());
    assert(fix_variables(table, Seq::<int>::empty()) == table);
}

/// A table with `2^n` entries and `k <= n` of its variables fixed has `2^(n - k)` entries,
/// all of them residues if those of the table are.
pub proof fn lemma_fix_variables_shape(table: Seq<int>, num_vars: nat, prefix: Seq<int>)
    requires
        table.len() == pow2(num_vars),
        prefix.len() <= num_vars,
    ensures
        fix_variables(table, prefix).len() == pow2((num_vars - prefix.len()) as nat),
        is_field_table(table) || prefix.len() > 0 ==> is_field_table(
            fix_variables(table, prefix),
        ),
    decreases prefix.len(),
{
    if prefix.len() > 0 {
        lemma_fix_variables_shape(table, num_vars, prefix.drop_last());
        lemma_pow2_unfold((num_vars - prefix.len() + 1) as nat);
    }
}

/// Fixing variable 0 to 0 or to 1 selects the entries whose index has that bit 0.
pub proof fn lemma_fold_at_bit(table: Seq<int>, b: int, k: int)
    requires
        is_field_table(table),
        b == 0 || b == 1,
        0 <= k < table.len() / 2,
    ensures
        fold(table, b)[k] == table[2 * k + b],
{
    lemma_small_mod(table[2 * k + b] as nat, modulus() as nat);
    if b == 1 {
        assert(table[2 * k] + 1 * (table[2 * k + 1] - table[2 * k]) == table[2 * k + 1]);
    } else {
        assert(table[2 * k] + 0 * (table[2 * k + 1] - table[2 * k]) == table[2 * k]);
    }
}

/// At a vertex of the hypercube the multilinear extension takes the table's entry: the
/// value at the vertex with index `index` is `table[index]`.
pub proof fn lemma_evaluation_at_vertex(table: Seq<int>, num_vars: nat, index: nat)
    requires
        table.len() == pow2(num_vars),
        is_field_table(table),
        index < pow2(num_vars),
    ensures
        evaluation(table, boolean_point(index, num_vars)) == table[index as int],
    decreases num_vars,
{
    if num_vars == 0 {
        assert(pow2(0) == 1) by {
            lemma2_to64();
        }
        assert(boolean_point(index, num_vars) =~= Seq::<int>::empty());
    } else {
        let b = (index % 2) as int;
        let rest = boolean_point(index / 2, (num_vars - 1) as nat);
        let folded = fold(table, b);
        lemma_boolean_point_unfold(index, num_vars);
        lemma_fix_variables_concat(table, seq![b], rest);
        lemma_fix_first_variable(table, b);
        lemma_pow2_unfold(num_vars);
        lemma_fold_at_bit(table, b, (index / 2) as int);
        lemma_evaluation_at_vertex(folded, (num_vars - 1) as nat, index / 2);
    }
}

/// Entry by entry, `combined` is `alpha` times `first` plus `beta` times `second` in the
/// field.
pub open spec fn is_combination(
    combined: Seq<int>,
    first: Seq<int>,
    second: Seq<int>,
    alpha: int,
    beta: int,
) -> bool {
    &&& combined.len() == first.len()
    &&& combined.len() == second.len()
    &&& forall|i: int|
        0 <= i < combined.len() ==> congruent(
            #[trigger] combined[i],
            alpha * first[i] + beta * second[i],
        )
}

/// Fixing variable 0 commutes with linear combinations of tables.
proof fn lemma_fold_preserves_combination(
    combined: Seq<int>,
    first: Seq<int>,
    second: Seq<int>,
    alpha: int,
    beta: int,
    c: int,
)
    requires
        is_combination(combined, first, second, alpha, beta),
    ensures
        is_combination(fold(combined, c), fold(first, c), fold(second, c), alpha, beta),
{
    assert forall|i: int| 0 <= i < fold(combined, c).len() implies congruent(
        #[trigger] fold(combined, c)[i],
        alpha * fold(first, c)[i] + beta * fold(second, c)[i],
    ) by {
        let (c0, c1) = (combined[2 * i], combined[2 * i + 1]);
        let (a0, a1) = (first[2 * i], first[2 * i + 1]);
        let (b0, b1) = (second[2 * i], second[2 * i + 1]);
        let line_a = a0 + c * (a1 - a0);
        let line_b = b0 + c * (b1 - b0);
        let mix0 = alpha * a0 + beta * b0;
        let mix1 = alpha * a1 + beta * b1;
        // The combined entry, from the combinations at both ends of its line.
        lemma_congruent_sub(c1, mix1, c0, mix0);
        lemma_congruent_mul(c, c, c1 - c0, mix1 - mix0);
        lemma_congruent_add(c0, mix0, c * (c1 - c0), c * (mix1 - mix0));
        lemma_residue_congruent(c0 + c * (c1 - c0));
        assert(mix0 + c * (mix1 - mix0) == alpha * line_a + beta * line_b) by (nonlinear_arith)
            requires
                mix0 == alpha * a0 + beta * b0,
                mix1 == alpha * a1 + beta * b1,
                line_a == a0 + c * (a1 - a0),
                line_b == b0 + c * (b1 - b0),
        ;
        // The combination of the two folded entries.
        lemma_residue_congruent(line_a);
        lemma_residue_congruent(line_b);
        lemma_congruent_mul(alpha, alpha, fold(first, c)[i], line_a);
        lemma_congruent_mul(beta, beta, fold(second, c)[i], line_b);
        lemma_congruent_add(
            alpha * fold(first, c)[i],
            alpha * line_a,
            beta * fold(second, c)[i],
            beta * line_b,
        );
    }
}

/// Fixing leading variables commutes with linear combinations of tables.
proof fn lemma_fix_variables_preserves_combination(
    combined: Seq<int>,
    first: Seq<int>,
    second: Seq<int>,
    alpha: int,
    beta: int,
    prefix: Seq<int>,
)
    requires
        is_combination(combined, first, second, alpha, beta),
    ensures
        is_combination(
            fix_variables(combined, prefix),
            fix_variables(first, prefix),
            fix_variables(second, prefix),
            alpha,
            beta,
        ),
    decreases prefix.len(),
{
    if prefix.len() > 0 {
        lemma_fix_variables_preserves_combination(
            combined,
            first,
            second,
            alpha,
            beta,
            prefix.drop_last(),
        );
        lemma_fold_preserves_combination(
            fix_variables(combined, prefix.drop_last()),
            fix_variables(first, prefix.drop_last()),
            fix_variables(second, prefix.drop_last()),
            alpha,
            beta,
            prefix.last(),
        );
    }
}

/// The table with variable 0 fixed to `x` lies, entry by entry, on the line through the
/// tables with that variable fixed to 0 and to 1.
proof fn lemma_fold_is_combination_of_endpoints(table: Seq<int>, x: int)
    ensures
        is_combination(fold(table, x), fold(table, 0), fold(table, 1), 1 - x, x),
{
    assert forall|i: int| 0 <= i < fold(table, x).len() implies congruent(
        #[trigger] fold(table, x)[i],
        (1 - x) * fold(table, 0)[i] + x * fold(table, 1)[i],
    ) by {
        let low = table[2 * i];
        let high = table[2 * i + 1];
        assert(low + 0 * (high - low) == low);
        assert(low + 1 * (high - low) == high);
        lemma_residue_congruent(low);
        lemma_residue_congruent(high);
        lemma_residue_congruent(low + x * (high - low));
        lemma_congruent_mul(1 - x, 1 - x, fold(table, 0)[i], low);
        lemma_congruent_mul(x, x, fold(table, 1)[i], high);
        lemma_congruent_add(
            (1 - x) * fold(table, 0)[i],
            (1 - x) * low,
            x * fold(table, 1)[i],
            x * high,
        );
        assert(low + x * (high - low) == (1 - x) * low + x * high) by (nonlinear_arith);
    }
}

/// The multilinear extension is affine in each variable: with the other coordinates
/// held fixed, its value with coordinate `k` set to `x` is `(1 - x) * v0 + x * v1`, where
/// `v0` and `v1` are its values with that coordinate set to 0 and to 1.
pub proof fn lemma_evaluation_is_affine_in_each_variable(
    table: Seq<int>,
    num_vars: nat,
    point: Seq<int>,
    k: int,
    x: int,
)
    requires
        table.len() == pow2(num_vars),
        point.len() == num_vars,
        0 <= k < num_vars,
    ensures
        evaluation(table, point.update(k, x)) == ((1 - x) * evaluation(table, point.update(k, 0))
            + x * evaluation(table, point.update(k, 1))) % modulus(),
{
    let before = point.take(k);
    let after = point.skip(k + 1);
    let fixed = fix_variables(table, before);
    let remaining = (num_vars - k - 1) as nat;
    lemma_fix_variables_shape(table, num_vars, before);
    lemma_pow2_unfold((num_vars - k) as nat);
    assert forall|y: int|
        #![trigger point.update(k, y)]
        evaluation(table, point.update(k, y)) == fix_variables(fold(fixed, y), after)[0] by {
        assert(point.update(k, y) =~= (before + seq![y]) + after);
        lemma_fix_variables_concat(table, before + seq![y], after);
        lemma_fix_variables_concat(table, before, seq![y]);
        lemma_fix_first_variable(fixed, y);
    }
    lemma_fold_is_combination_of_endpoints(fixed, x);
    lemma_fix_variables_preserves_combination(
        fold(fixed, x),
        fold(fixed, 0),
        fold(fixed, 1),
        1 - x,
        x,
        after,
    );
    lemma_fix_variables_shape(fold(fixed, x), remaining, after);
    assert(pow2(0) == 1) by {
        lemma2_to64();
    }
    let value = evaluation(table, point.update(k, x));
    let line = (1 - x) * evaluation(table, point.update(k, 0)) + x * evaluation(
        table,
        point.update(k, 1),
    );
    assert(value == fix_variables(fold(fixed, x), after)[0]);
    assert(congruent(value, line));
    lemma_residue_congruent(line);
    lemma_congruent_residues_equal(value, line % modulus());
}

} // verus!
