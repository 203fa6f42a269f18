//! The run of the protocol: round by round, the prover's polynomial goes to the
//! verifier and the verifier's challenge goes back to the prover.

use crate::error::SumcheckError;
use crate::extension::{
    fix_variables, is_field_table, lemma_fix_first_variable, lemma_fold_at_bit,
};
use crate::field::{is_residue, lemma_residue_congruent, modulus, values, Fr};
use crate::polynomial::MultilinearPolynomial;
use crate::prover::Prover;
use crate::round_check::{doubled_claim, endpoint_sum, Verifier};
use crate::sums::{
    lemma_round_polynomial_at_challenge, lemma_round_values_add_up, round_polynomial, table_sum,
};
use vstd::arithmetic::div_mod::{lemma_mod_sub_multiples_vanish, lemma_small_mod};
use vstd::arithmetic::power2::pow2;
use vstd::prelude::*;

verus! {

/// How a run of the protocol ended.
#[derive(Clone, Copy, Debug, PartialEq, Eq, Structural)]
pub enum Verdict {
    /// Every round's check passed.
    Accepted,
    /// The check of round `round` failed, and the run stopped there.
    Rejected { round: usize },
}

/// Whether the check of round `round` passes when the prover answers for `table` as the
/// protocol prescribes, the claimed sum is `claim`, and the challenges of the earlier
/// rounds are the first `round` entries of `challenges`.
pub open spec fn honest_round_passes(
    table: Seq<int>,
    num_vars: nat,
    claim: int,
    challenges: Seq<int>,
    round: int,
) -> bool {
    let expected = if round == 0 {
        claim
    } else {
        doubled_claim(
            round_polynomial(table, num_vars, challenges.take(round - 1)),
            challenges[round - 1],
        )
    };
    endpoint_sum(round_polynomial(table, num_vars, challenges.take(round))) == expected
}

/// The checks of the rounds before `rounds` all pass.
pub open spec fn honest_rounds_pass(
    table: Seq<int>,
    num_vars: nat,
    claim: int,
    challenges: Seq<int>,
    rounds: int,
) -> bool {
    forall|k: int|
        0 <= k < rounds ==> #[trigger] honest_round_passes(table, num_vars, claim, challenges, k)
}

/// `verdict` is how the run ends in which `challenges` are the challenges drawn: it is
/// accepted after `num_vars` rounds that all pass, with one challenge drawn in each, or
/// rejected in the first round whose check fails, before that round's challenge is drawn.
pub open spec fn is_outcome(
    table: Seq<int>,
    num_vars: nat,
    claim: int,
    challenges: Seq<int>,
    verdict: Verdict,
) -> bool {
    match verdict {
        Verdict::Accepted => {
            &&& challenges.len() == num_vars
            &&& honest_rounds_pass(table, num_vars, claim, challenges, num_vars as int)
        },
        Verdict::Rejected { round } => {
            &&& round < num_vars
            &&& challenges.len() == round
            &&& honest_rounds_pass(table, num_vars, claim, challenges, round as int)
            &&& !honest_round_passes(table, num_vars, claim, challenges, round as int)
        },
    }
}

/// The first round from `from` on whose check fails, if there is one among the
/// `num_vars` rounds.
pub open spec fn first_failing_round(
    table: Seq<int>,
    num_vars: nat,
    claim: int,
    challenges: Seq<int>,
    from: int,
) -> Option<int>
    decreases num_vars - from,
{
    if from >= num_vars {
        None
    } else if !honest_round_passes(table, num_vars, claim, challenges, from) {
        Some(from)
    } else {
        first_failing_round(table, num_vars, claim, challenges, from + 1)
    }
}

/// How the run ends in which round `k` is followed by the challenge `challenges[k]`:
/// rejected in the first round whose check fails, accepted if there is none.
pub open spec fn outcome(table: Seq<int>, num_vars: nat, claim: int, challenges: Seq<int>) -> Verdict {
    match first_failing_round(table, num_vars, claim, challenges, 0) {
        Some(round) => Verdict::Rejected { round: round as usize },
        None => Verdict::Accepted,
    }
}

/// The polynomials are the round polynomials that the protocol prescribes for `table`
/// and the challenges, one for each round from round 0 on.
pub open spec fn is_honest_transcript(
    table: Seq<int>,
    num_vars: nat,
    challenges: Seq<int>,
    polys: Seq<MultilinearPolynomial>,
) -> bool {
    forall|k: int|
        0 <= k < polys.len() ==> (#[trigger] polys[k]).num_vars_spec() == 1 && polys[k]@
            == round_polynomial(table, num_vars, challenges.take(k))
}

/// A residue that equals its own double is zero.
proof fn lemma_own_double_is_zero(s: int)
    requires
        is_residue(s),
    ensures
        (2 * s) % modulus() == s <==> s == 0,
{
    if 2 * s < modulus() {
        lemma_small_mod((2 * s) as nat, modulus() as nat);
    } else {
        lemma_small_mod((2 * s - modulus()) as nat, modulus() as nat);
        lemma_mod_sub_multiples_vanish(2 * s, modulus());
    }
}

/// The endpoint values of a round polynomial add up to the sum of the table with the
/// round's challenges fixed.
pub proof fn lemma_endpoint_sum_of_round_polynomial(
    table: Seq<int>,
    num_vars: nat,
    challenges: Seq<int>,
)
    requires
        table.len() == pow2(num_vars),
        is_field_table(table),
        challenges.len() < num_vars,
    ensures
        endpoint_sum(round_polynomial(table, num_vars, challenges)) == table_sum(
            fix_variables(table, challenges),
        ),
{
    let poly = round_polynomial(table, num_vars, challenges);
    assert(is_field_table(poly));
    lemma_fix_first_variable(poly, 0);
    lemma_fix_first_variable(poly, 1);
    lemma_fold_at_bit(poly, 0, 0);
    lemma_fold_at_bit(poly, 1, 0);
    lemma_round_values_add_up(table, num_vars, challenges);
}

/// When a round's check passes. Round 0 passes exactly when the claim is the sum of the
/// table. A later round passes exactly when the sum of the table with the challenges so
/// far fixed is zero: the check compares that sum with its double.
pub proof fn lemma_honest_round_passes(
    table: Seq<int>,
    num_vars: nat,
    claim: int,
    challenges: Seq<int>,
    round: int,
)
    requires
        table.len() == pow2(num_vars),
        is_field_table(table),
        is_residue(claim),
        0 <= round < num_vars,
        round <= challenges.len(),
    ensures
        round == 0 ==> (honest_round_passes(table, num_vars, claim, challenges, round) <==> claim
            == table_sum(table)),
        round > 0 ==> (honest_round_passes(table, num_vars, claim, challenges, round)
            <==> table_sum(fix_variables(table, challenges.take(round))) == 0),
{
    lemma_endpoint_sum_of_round_polynomial(table, num_vars, challenges.take(round));
    if round == 0 {
        assert(challenges.take(0) =~= Seq::<int>::empty());
        assert(fix_variables(table, Seq::<int>::empty()) == table);
    } else {
        let earlier = challenges.take(round - 1);
        lemma_round_polynomial_at_challenge(table, num_vars, earlier, challenges[round - 1]);
        assert(earlier.push(challenges[round - 1]) =~= challenges.take(round));
        lemma_own_double_is_zero(table_sum(fix_variables(table, challenges.take(round))));
    }
}

/// Where the run of an honest prover ends. It is accepted exactly when, for each round
/// after round 0, the sum of the table with the challenges of the earlier rounds fixed is
/// zero; otherwise it is rejected in the first round for which that sum is not zero.
///
/// A run for a polynomial in at most one variable has no such round and is always
/// accepted.
pub proof fn lemma_outcome_of_honest_run(
    table: Seq<int>,
    num_vars: nat,
    challenges: Seq<int>,
    verdict: Verdict,
)
    requires
        table.len() == pow2(num_vars),
        is_field_table(table),
        is_outcome(table, num_vars, table_sum(table), challenges, verdict),
    ensures
        verdict == Verdict::Accepted <==> (forall|k: int|
            0 < k < num_vars && k <= challenges.len() ==> table_sum(
                #[trigger] fix_variables(table, challenges.take(k)),
            ) == 0),
        verdict is Rejected ==> verdict->round > 0 && table_sum(
            fix_variables(table, challenges.take(verdict->round as int)),
        ) != 0,
{
    let claim = table_sum(table);
    lemma_residue_congruent(crate::sums::sum(table));
    match verdict {
        Verdict::Accepted => {
            assert forall|k: int| 0 < k < num_vars && k <= challenges.len() implies table_sum(
                #[trigger] fix_variables(table, challenges.take(k)),
            ) == 0 by {
                assert(honest_round_passes(table, num_vars, claim, challenges, k));
                lemma_honest_round_passes(table, num_vars, claim, challenges, k);
            }
        },
        Verdict::Rejected { round } => {
            lemma_honest_round_passes(table, num_vars, claim, challenges, round as int);
        },
    }
}

/// An honest run is accepted whenever the sum of the table vanishes with the challenges
/// of the earlier rounds fixed, for each round after round 0.
pub proof fn lemma_honest_run_is_accepted(
    table: Seq<int>,
    num_vars: nat,
    challenges: Seq<int>,
    verdict: Verdict,
)
    requires
        table.len() == pow2(num_vars),
        is_field_table(table),
        is_outcome(table, num_vars, table_sum(table), challenges, verdict),
        forall|k: int|
            0 < k < num_vars && k <= challenges.len() ==> table_sum(
                #[trigger] fix_variables(table, challenges.take(k)),
            ) == 0,
    ensures
        verdict == Verdict::Accepted,
{
    lemma_outcome_of_honest_run(table, num_vars, challenges, verdict);
}

/// A verifier that holds a claim other than the sum of the table rejects the honest
/// polynomial of round 0.
pub proof fn lemma_wrong_claim_is_rejected_in_round_zero(
    verifier: Verifier,
    table: Seq<int>,
    num_vars: nat,
)
    requires
        table.len() == pow2(num_vars),
        is_field_table(table),
        num_vars > 0,
        verifier.univariate_polys.len() > 0,
        verifier.univariate_polys[0].num_vars_spec() == 1,
        verifier.univariate_polys[0]@ == round_polynomial(table, num_vars, Seq::<int>::empty()),
        verifier.sum@ != table_sum(table),
    ensures
        verifier.check(0) == Err::<(), SumcheckError>(
            (SumcheckError::SumCheckViolation { round: 0 }),
        ),
{
    let challenges = Seq::<int>::empty();
    verifier.sum.lemma_view_is_residue();
    assert(challenges.take(0) =~= challenges);
    lemma_honest_round_passes(table, num_vars, verifier.sum@, challenges, 0);
}

/// Whether a round's check passes depends only on the challenges of the earlier rounds.
proof fn lemma_round_depends_on_earlier_challenges(
    table: Seq<int>,
    num_vars: nat,
    claim: int,
    a: Seq<int>,
    b: Seq<int>,
    round: int,
)
    requires
        0 <= round <= a.len(),
        round <= b.len(),
        a.take(round) == b.take(round),
    ensures
        honest_round_passes(table, num_vars, claim, a, round) == honest_round_passes(
            table,
            num_vars,
            claim,
            b,
            round,
        ),
{
    if round > 0 {
        assert(a.take(round - 1) =~= a.take(round).take(round - 1));
        assert(b.take(round - 1) =~= b.take(round).take(round - 1));
        assert(a[round - 1] == a.take(round)[round - 1]);
        assert(b[round - 1] == b.take(round)[round - 1]);
    }
}

/// Where the rounds from `from` up to `stop` pass and round `stop` is the end of the run
/// or fails, `stop` is where the search for the first failing round ends.
proof fn lemma_first_failing_round(
    table: Seq<int>,
    num_vars: nat,
    claim: int,
    challenges: Seq<int>,
    from: int,
    stop: int,
)
    requires
        0 <= from <= stop <= num_vars,
        forall|k: int|
            from <= k < stop ==> #[trigger] honest_round_passes(
                table,
                num_vars,
                claim,
                challenges,
                k,
            ),
        stop < num_vars ==> !honest_round_passes(table, num_vars, claim, challenges, stop),
    ensures
        first_failing_round(table, num_vars, claim, challenges, from) == (if stop < num_vars {
            Some(stop)
        } else {
            None
        }),
    decreases stop - from,
{
    if from < stop {
        lemma_first_failing_round(table, num_vars, claim, challenges, from + 1, stop);
    }
}

/// A run that ends as `is_outcome` says for the challenges it drew, which were the
/// leading entries of `challenges`, ends as `outcome` says for `challenges`.
proof fn lemma_outcome_from_drawn_challenges(
    table: Seq<int>,
    num_vars: nat,
    claim: int,
    challenges: Seq<int>,
    drawn: Seq<int>,
    verdict: Verdict,
)
    requires
        is_outcome(table, num_vars, claim, drawn, verdict),
        drawn.len() <= challenges.len(),
        drawn == challenges.take(drawn.len() as int),
    ensures
        verdict == outcome(table, num_vars, claim, challenges),
{
    let stop = drawn.len() as int;
    assert forall|k: int| 0 <= k <= stop implies honest_round_passes(
        table,
        num_vars,
        claim,
        drawn,
        k,
    ) == #[trigger] honest_round_passes(table, num_vars, claim, challenges, k) by {
        assert(drawn.take(k) =~= challenges.take(k));
        lemma_round_depends_on_earlier_challenges(table, num_vars, claim, drawn, challenges, k);
    }
    assert forall|k: int| 0 <= k < stop implies #[trigger] honest_round_passes(
        table,
        num_vars,
        claim,
        challenges,
        k,
    ) by {
        assert(honest_round_passes(table, num_vars, claim, drawn, k));
    }
    lemma_first_failing_round(table, num_vars, claim, challenges, 0, stop);
}

/// Runs the rounds. The challenge of each round is drawn at random, or taken from
/// `fixed` where that is given.
fn run(prover: &mut Prover, verifier: &mut Verifier, fixed: Option<&Vec<Fr>>) -> (r: Verdict)
    requires
        old(prover).univariate_polys.len() == 0,
        old(prover).random_values.len() == 0,
        old(verifier).univariate_polys.len() == 0,
        old(verifier).random_values.len() == 0,
        fixed is Some ==> fixed.unwrap().len() >= old(prover).polynomial.num_vars_spec(),
    ensures
        final(prover).polynomial == old(prover).polynomial,
        final(prover).sum@ == table_sum(old(prover).polynomial@),
        final(verifier).sum == final(prover).sum,
        final(prover).random_values@ == final(verifier).random_values@,
        final(prover).univariate_polys@.len() == final(verifier).univariate_polys@.len(),
        final(verifier).univariate_polys@.len() == (match r {
            Verdict::Accepted => old(prover).polynomial.num_vars_spec(),
            Verdict::Rejected { round } => (round + 1) as nat,
        }),
        final(verifier).random_values@.len() == (match r {
            Verdict::Accepted => old(prover).polynomial.num_vars_spec(),
            Verdict::Rejected { round } => round as nat,
        }),
        is_honest_transcript(
            old(prover).polynomial@,
            old(prover).polynomial.num_vars_spec(),
            values(final(verifier).random_values@),
            final(prover).univariate_polys@,
        ),
        is_honest_transcript(
            old(prover).polynomial@,
            old(prover).polynomial.num_vars_spec(),
            values(final(verifier).random_values@),
            final(verifier).univariate_polys@,
        ),
        is_outcome(
            old(prover).polynomial@,
            old(prover).polynomial.num_vars_spec(),
            table_sum(old(prover).polynomial@),
            values(final(verifier).random_values@),
            r,
        ),
        fixed is Some ==> values(final(verifier).random_values@) == values(fixed.unwrap()@).take(
            final(verifier).random_values@.len() as int,
        ),
{
    prover.start_round();
    verifier.sum = prover.sum;

    let num_vars = prover.polynomial.num_vars();
    let ghost table = prover.polynomial@;
    let ghost claim = table_sum(table);
    proof {
        prover.polynomial.lemma_view_is_field_table();
        lemma_residue_congruent(crate::sums::sum(table));
        if fixed is Some {
            assert(values(verifier.random_values@) =~= values(fixed.unwrap()@).take(0));
        }
    }
    let mut i: usize = 0;
    while i < num_vars
        invariant
            i <= num_vars,
            num_vars == prover.polynomial.num_vars_spec(),
            prover.polynomial == old(prover).polynomial,
            table == prover.polynomial@,
            table.len() == pow2(num_vars as nat),
            is_field_table(table),
            claim == table_sum(table),
            is_residue(claim),
            prover.sum@ == claim,
            verifier.sum == prover.sum,
            prover.random_values@ == verifier.random_values@,
            verifier.random_values.len() == i,
            prover.univariate_polys.len() == i,
            verifier.univariate_polys.len() == i,
            is_honest_transcript(
                table,
                num_vars as nat,
                values(verifier.random_values@),
                prover.univariate_polys@,
            ),
            is_honest_transcript(
                table,
                num_vars as nat,
                values(verifier.random_values@),
                verifier.univariate_polys@,
            ),
            honest_rounds_pass(
                table,
                num_vars as nat,
                claim,
                values(verifier.random_values@),
                i as int,
            ),
            fixed is Some ==> fixed.unwrap().len() >= num_vars,
            fixed is Some ==> values(verifier.random_values@) == values(fixed.unwrap()@).take(
                i as int,
            ),
        decreases num_vars - i,
    {
        let ghost challenges = values(verifier.random_values@);
        let ghost sent = prover.univariate_polys@;
        let ghost received = verifier.univariate_polys@;
        assert(challenges.take(i as int) =~= challenges);
        assert(values(prover.random_values@).take(i as int) =~= challenges);

        prover.round(i);
        let univariate_poly = prover.univariate_polys[i].clone();
        verifier.univariate_polys.push(univariate_poly);
        proof {
            assert(prover.univariate_polys@[i as int] == prover.univariate_polys@.last());
            assert forall|k: int| 0 <= k < prover.univariate_polys@.len() implies (
            #[trigger] prover.univariate_polys@[k]).num_vars_spec() == 1
                && prover.univariate_polys@[k]@ == round_polynomial(
                table,
                num_vars as nat,
                challenges.take(k),
            ) by {
                if k < i {
                    assert(prover.univariate_polys@[k] == sent[k]);
                }
            }
            assert forall|k: int| 0 <= k < verifier.univariate_polys@.len() implies (
            #[trigger] verifier.univariate_polys@[k]).num_vars_spec() == 1
                && verifier.univariate_polys@[k]@ == round_polynomial(
                table,
                num_vars as nat,
                challenges.take(k),
            ) by {
                if k < i {
                    assert(verifier.univariate_polys@[k] == received[k]);
                }
            }
        }

        match verifier.round(i) {
            Ok(()) => {},
            Err(_) => {
                return Verdict::Rejected { round: i };
            },
        }
        assert(honest_round_passes(table, num_vars as nat, claim, challenges, i as int));

        let random = match fixed {
            Some(given) => {
                let challenge = given[i];
                verifier.record_challenge(challenge);
                challenge
            },
            None => verifier.pick_random(),
        };
        prover.random_values.push(random);
        proof {
            let extended = values(verifier.random_values@);
            assert(extended =~= challenges.push(random@));
            assert forall|k: int| 0 <= k <= i implies #[trigger] honest_round_passes(
                table,
                num_vars as nat,
                claim,
                extended,
                k,
            ) by {
                assert(extended.take(k) =~= challenges.take(k));
                lemma_round_depends_on_earlier_challenges(
                    table,
                    num_vars as nat,
                    claim,
                    challenges,
                    extended,
                    k,
                );
            }
            assert forall|k: int| 0 <= k <= i implies extended.take(k) == challenges.take(k) by {
                assert(extended.take(k) =~= challenges.take(k));
            }
            if fixed is Some {
                assert(extended =~= values(fixed.unwrap()@).take(i + 1));
            }
        }
        i = i + 1;
    }
    Verdict::Accepted
}

/// Runs the protocol between a prover and a verifier that have not yet exchanged
/// anything. The prover computes the sum it claims and hands it to the verifier; then,
/// round by round, the prover's polynomial goes to the verifier, which checks it and
/// draws a random challenge that goes back to the prover. The run stops at the first
/// check that fails.
///
/// Whatever challenges are drawn, the verdict is the outcome that `is_outcome`
/// describes for them, and both parties end with the same polynomials and challenges.
pub fn start_protocol(prover: &mut Prover, verifier: &mut Verifier) -> (r: Verdict)
    requires
        old(prover).univariate_polys.len() == 0,
        old(prover).random_values.len() == 0,
        old(verifier).univariate_polys.len() == 0,
        old(verifier).random_values.len() == 0,
    ensures
        final(prover).polynomial == old(prover).polynomial,
        final(prover).sum@ == table_sum(old(prover).polynomial@),
        final(verifier).sum == final(prover).sum,
        final(prover).random_values@ == final(verifier).random_values@,
        final(prover).univariate_polys@.len() == final(verifier).univariate_polys@.len(),
        final(verifier).univariate_polys@.len() == (match r {
            Verdict::Accepted => old(prover).polynomial.num_vars_spec(),
            Verdict::Rejected { round } => (round + 1) as nat,
        }),
        final(verifier).random_values@.len() == (match r {
            Verdict::Accepted => old(prover).polynomial.num_vars_spec(),
            Verdict::Rejected { round } => round as nat,
        }),
        is_honest_transcript(
            old(prover).polynomial@,
            old(prover).polynomial.num_vars_spec(),
            values(final(verifier).random_values@),
            final(prover).univariate_polys@,
        ),
        is_honest_transcript(
            old(prover).polynomial@,
            old(prover).polynomial.num_vars_spec(),
            values(final(verifier).random_values@),
            final(verifier).univariate_polys@,
        ),
        is_outcome(
            old(prover).polynomial@,
            old(prover).polynomial.num_vars_spec(),
            table_sum(old(prover).polynomial@),
            values(final(verifier).random_values@),
            r,
        ),
{
    run(prover, verifier, None)
}

/// Runs the protocol as `start_protocol` does, with the challenge of round `k` taken
/// from `challenges[k]` in place of a random one.
pub fn run_with_challenges(
    prover: &mut Prover,
    verifier: &mut Verifier,
    challenges: &Vec<Fr>,
) -> (r: Verdict)
    requires
        old(prover).univariate_polys.len() == 0,
        old(prover).random_values.len() == 0,
        old(verifier).univariate_polys.len() == 0,
        old(verifier).random_values.len() == 0,
        challenges.len() >= old(prover).polynomial.num_vars_spec(),
    ensures
        final(prover).polynomial == old(prover).polynomial,
        final(prover).sum@ == table_sum(old(prover).polynomial@),
        final(verifier).sum == final(prover).sum,
        final(prover).random_values@ == final(verifier).random_values@,
        final(prover).univariate_polys@.len() == final(verifier).univariate_polys@.len(),
        final(verifier).univariate_polys@.len() == (match r {
            Verdict::Accepted => old(prover).polynomial.num_vars_spec(),
            Verdict::Rejected { round } => (round + 1) as nat,
        }),
        final(verifier).random_values@.len() == (match r {
            Verdict::Accepted => old(prover).polynomial.num_vars_spec(),
            Verdict::Rejected { round } => round as nat,
        }),
        r == outcome(
            old(prover).polynomial@,
            old(prover).polynomial.num_vars_spec(),
            table_sum(old(prover).polynomial@),
            values(challenges@),
        ),
        values(final(verifier).random_values@) == values(challenges@).take(
            final(verifier).random_values@.len() as int,
        ),
        is_honest_transcript(
            old(prover).polynomial@,
            old(prover).polynomial.num_vars_spec(),
            values(final(verifier).random_values@),
            final(prover).univariate_polys@,
        ),
        is_honest_transcript(
            old(prover).polynomial@,
            old(prover).polynomial.num_vars_spec(),
            values(final(verifier).random_values@),
            final(verifier).univariate_polys@,
        ),
        is_outcome(
            old(prover).polynomial@,
            old(prover).polynomial.num_vars_spec(),
            table_sum(old(prover).polynomial@),
            values(final(verifier).random_values@),
            r,
        ),
{
    let verdict = run(prover, verifier, Some(challenges));
    proof {
        lemma_outcome_from_drawn_challenges(
            old(prover).polynomial@,
            old(prover).polynomial.num_vars_spec(),
            table_sum(old(prover).polynomial@),
            values(challenges@),
            values(verifier.random_values@),
            verdict,
        );
    }
    verdict
}

} // verus!
