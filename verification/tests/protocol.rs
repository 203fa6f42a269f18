use naive_sumcheck::random::{binary_coefficient, challenge_from_word, random_element};
use naive_sumcheck::{
    random_binary_coefficients, run_with_challenges, start_protocol, Fr, MultilinearPolynomial,
    Prover, SumcheckError, Verdict, Verifier, MODULUS,
};

fn elements(values: &[u64]) -> Vec<Fr> {
    values.iter().map(|value| Fr::from_u64(*value)).collect()
}

fn residues(elements: &[Fr]) -> Vec<u64> {
    elements.iter().map(|element| element.value()).collect()
}

fn prover_for(table: &[u64]) -> Prover {
    Prover::from_polynomial(MultilinearPolynomial::new(elements(table)))
}

#[test]
fn binary_coefficient_is_the_lowest_bit() {
    assert_eq!(binary_coefficient(0).value(), 0);
    assert_eq!(binary_coefficient(1).value(), 1);
    assert_eq!(binary_coefficient(6).value(), 0);
    assert_eq!(binary_coefficient(u64::MAX).value(), 1);
}

#[test]
fn challenge_from_word_reduces_the_word() {
    assert_eq!(challenge_from_word(MODULUS + 9).value(), 9);
    assert_eq!(challenge_from_word(12).value(), 12);
}

#[test]
fn random_element_is_a_residue() {
    for _ in 0..100 {
        assert!(random_element().value() < MODULUS);
    }
}

#[test]
fn random_binary_coefficients_are_zeros_and_ones() {
    let coefficients = random_binary_coefficients(1000);
    assert_eq!(coefficients.len(), 1000);
    assert!(coefficients.iter().all(|c| c.value() == 0 || c.value() == 1));
    // A thousand equal coin flips do not happen.
    assert!(coefficients.iter().any(|c| c.value() == 0));
    assert!(coefficients.iter().any(|c| c.value() == 1));
    assert_eq!(random_binary_coefficients(0).len(), 0);
}

#[test]
fn new_prover_holds_a_random_boolean_table() {
    let prover = Prover::new(8);
    assert_eq!(prover.polynomial.num_vars(), 3);
    assert!(prover.polynomial.evaluations().iter().all(|c| c.value() <= 1));
    assert_eq!(prover.sum, Fr::zero());
    assert!(prover.univariate_polys.is_empty());
    assert!(prover.random_values.is_empty());

    let prover = Prover::new(5);
    assert_eq!(prover.polynomial.num_vars(), 3);
    assert_eq!(residues(&prover.polynomial.evaluations()[5..]), vec![0, 0, 0]);
}

#[test]
fn evaluate_sum_adds_up_the_table() {
    assert_eq!(prover_for(&[1, 0, 1, 0]).evaluate_sum().value(), 2);
    assert_eq!(prover_for(&[3, 1, 4, 1, 5, 9, 2, 6]).evaluate_sum().value(), 31);
    assert_eq!(prover_for(&[7]).evaluate_sum().value(), 7);
    // The sum is taken in the field.
    assert_eq!(prover_for(&[MODULUS - 1, 5]).evaluate_sum().value(), 4);
}

#[test]
fn start_round_stores_the_sum() {
    let mut prover = prover_for(&[3, 1, 4, 1]);
    prover.start_round();
    assert_eq!(prover.sum.value(), 9);
    assert!(prover.univariate_polys.is_empty());
}

#[test]
fn example_with_two_variables() {
    let mut prover = prover_for(&[1, 0, 1, 0]);
    let mut verifier = Verifier::new();

    prover.start_round();
    assert_eq!(prover.sum.value(), 2);
    verifier.sum = prover.sum;

    prover.round(0);
    let round_poly = &prover.univariate_polys[0];
    assert_eq!(round_poly.num_vars(), 1);
    assert_eq!(residues(round_poly.evaluations()), vec![2, 0]);

    verifier.univariate_polys.push(round_poly.clone());
    assert_eq!(verifier.round(0), Ok(()));
}

#[test]
fn round_polynomial_binds_earlier_variables_to_the_challenges() {
    // f(x0, x1, x2) with f(2, x1, x2) given by the table of variable 0 fixed to 2:
    // [3 + 2 (1 - 3), 4 + 2 (1 - 4), 5 + 2 (9 - 5), 2 + 2 (6 - 2)] = [-1, -2, 13, 10]
    let mut prover = prover_for(&[3, 1, 4, 1, 5, 9, 2, 6]);
    prover.random_values.push(Fr::from_u64(2));

    // Round 0 does not look at the challenges: [3 + 4 + 5 + 2, 1 + 1 + 9 + 6].
    let round0 = prover.evaluate_sum_at_point(0);
    assert_eq!(residues(round0.evaluations()), vec![14, 17]);

    // Round 1: variable 1 at 0 gives -1 + 13, at 1 gives -2 + 10.
    let round1 = prover.evaluate_sum_at_point(1);
    assert_eq!(residues(round1.evaluations()), vec![12, 8]);

    // Round 2 after the challenges 2 and 3: variable 1 fixed to 3 leaves
    // [-1 + 3 (-2 + 1), 13 + 3 (10 - 13)] = [-4, 4].
    prover.random_values.push(Fr::from_u64(3));
    let round2 = prover.evaluate_sum_at_point(2);
    assert_eq!(residues(round2.evaluations()), vec![MODULUS - 4, 4]);
}

#[test]
fn round_adds_the_round_polynomial_to_those_sent() {
    let mut prover = prover_for(&[3, 1, 4, 1]);
    prover.round(0);
    assert_eq!(prover.univariate_polys.len(), 1);
    assert_eq!(residues(prover.univariate_polys[0].evaluations()), vec![7, 2]);
    assert!(prover.random_values.is_empty());
}

#[test]
fn a_wrong_claim_fails_in_round_zero() {
    let mut prover = prover_for(&[3, 1, 4, 1, 5, 9, 2, 6]);
    prover.start_round();
    prover.round(0);

    let mut verifier = Verifier::new();
    verifier.sum = prover.sum.add(&Fr::one());
    verifier.univariate_polys.push(prover.univariate_polys[0].clone());
    assert_eq!(verifier.round(0), Err(SumcheckError::SumCheckViolation { round: 0 }));

    verifier.sum = prover.sum;
    assert_eq!(verifier.round(0), Ok(()));
}

#[test]
fn later_rounds_are_checked_against_twice_the_previous_value() {
    let mut verifier = Verifier::new();
    verifier.sum = Fr::from_u64(10);
    // Round 0: 4 + 6 = 10. At the challenge 3 the polynomial is 4 + 3 (6 - 4) = 10.
    verifier.univariate_polys.push(MultilinearPolynomial::new(elements(&[4, 6])));
    assert_eq!(verifier.round(0), Ok(()));
    verifier.record_challenge(Fr::from_u64(3));

    // Round 1 is held against 2 * 10 = 20.
    verifier.univariate_polys.push(MultilinearPolynomial::new(elements(&[12, 8])));
    assert_eq!(verifier.round(1), Ok(()));

    verifier.univariate_polys[1] = MultilinearPolynomial::new(elements(&[4, 6]));
    assert_eq!(verifier.round(1), Err(SumcheckError::SumCheckViolation { round: 1 }));
}

#[test]
fn a_round_polynomial_in_two_variables_is_a_dimension_mismatch() {
    let mut verifier = Verifier::new();
    verifier.sum = Fr::from_u64(10);
    verifier.univariate_polys.push(MultilinearPolynomial::new(elements(&[1, 2, 3, 4])));
    assert_eq!(
        verifier.round(0),
        Err(SumcheckError::DimensionMismatch { expected: 2, found: 1 })
    );

    verifier.record_challenge(Fr::from_u64(3));
    verifier.univariate_polys.push(MultilinearPolynomial::new(elements(&[12, 8])));
    assert_eq!(
        verifier.round(1),
        Err(SumcheckError::DimensionMismatch { expected: 2, found: 1 })
    );
}

#[test]
fn pick_random_records_the_challenge_it_returns() {
    let mut verifier = Verifier::new();
    let first = verifier.pick_random();
    let second = verifier.pick_random();
    assert_eq!(verifier.random_values, vec![first, second]);
    assert!(first.value() < MODULUS);
}

#[test]
fn a_polynomial_in_one_variable_is_always_accepted() {
    for _ in 0..20 {
        let mut prover = prover_for(&[12345, 67890]);
        let mut verifier = Verifier::new();
        assert_eq!(start_protocol(&mut prover, &mut verifier), Verdict::Accepted);
        assert_eq!(verifier.sum.value(), 80235);
        assert_eq!(prover.univariate_polys.len(), 1);
        assert_eq!(verifier.univariate_polys.len(), 1);
        assert_eq!(prover.random_values.len(), 1);
        assert_eq!(verifier.random_values, prover.random_values);
    }
}

#[test]
fn a_constant_is_accepted_without_a_round() {
    let mut prover = prover_for(&[5]);
    let mut verifier = Verifier::new();
    assert_eq!(start_protocol(&mut prover, &mut verifier), Verdict::Accepted);
    assert_eq!(verifier.sum.value(), 5);
    assert!(verifier.univariate_polys.is_empty());
    assert!(verifier.random_values.is_empty());
}

#[test]
fn the_zero_polynomial_is_accepted_in_every_round() {
    let mut prover = prover_for(&[0; 16]);
    let mut verifier = Verifier::new();
    assert_eq!(start_protocol(&mut prover, &mut verifier), Verdict::Accepted);
    assert_eq!(prover.univariate_polys.len(), 4);
    assert_eq!(verifier.univariate_polys.len(), 4);
    assert_eq!(verifier.random_values.len(), 4);
    assert_eq!(prover.random_values, verifier.random_values);
}

#[test]
fn a_run_is_accepted_when_the_running_sums_vanish() {
    // With variable 0 fixed to 1 the table [1, 0, 1, 0] becomes [0, 0].
    let mut prover = prover_for(&[1, 0, 1, 0]);
    let mut verifier = Verifier::new();
    let challenges = elements(&[1, 77]);
    assert_eq!(run_with_challenges(&mut prover, &mut verifier, &challenges), Verdict::Accepted);
    assert_eq!(verifier.random_values, challenges);
    assert_eq!(prover.random_values, challenges);
    assert_eq!(residues(verifier.univariate_polys[0].evaluations()), vec![2, 0]);
    assert_eq!(residues(verifier.univariate_polys[1].evaluations()), vec![0, 0]);
}

#[test]
fn a_run_stops_at_the_first_round_whose_running_sum_does_not_vanish() {
    // With variable 0 fixed to 0 the table [1, 0, 1, 0] becomes [1, 1]: round 1 has the
    // endpoint sum 2 and is held against 2 * 2.
    let mut prover = prover_for(&[1, 0, 1, 0]);
    let mut verifier = Verifier::new();
    let challenges = elements(&[0, 77]);
    assert_eq!(
        run_with_challenges(&mut prover, &mut verifier, &challenges),
        Verdict::Rejected { round: 1 }
    );
    assert_eq!(verifier.random_values, elements(&[0]));
    assert_eq!(prover.univariate_polys.len(), 2);
    assert_eq!(verifier.univariate_polys.len(), 2);
    assert_eq!(residues(verifier.univariate_polys[1].evaluations()), vec![1, 1]);
}

#[test]
fn an_honest_run_is_never_rejected_in_round_zero() {
    for _ in 0..10 {
        let mut prover = Prover::new(16);
        let mut verifier = Verifier::new();
        let verdict = start_protocol(&mut prover, &mut verifier);
        assert_eq!(verifier.sum, prover.evaluate_sum());
        assert_eq!(verifier.random_values, prover.random_values);
        match verdict {
            Verdict::Accepted => {
                assert_eq!(verifier.univariate_polys.len(), 4);
                assert_eq!(verifier.random_values.len(), 4);
            }
            Verdict::Rejected { round } => {
                assert!(0 < round && round < 4);
                assert_eq!(verifier.univariate_polys.len(), round + 1);
                assert_eq!(prover.univariate_polys.len(), round + 1);
                assert_eq!(verifier.random_values.len(), round);
                assert_eq!(
                    verifier.round(round),
                    Err(SumcheckError::SumCheckViolation { round })
                );
            }
        }
        assert_eq!(verifier.round(0), Ok(()));
    }
}

#[test]
fn the_endpoints_of_a_round_add_up_to_the_previous_polynomial_at_the_challenge() {
    let challenges = elements(&[11, 22, 33]);
    let mut prover = prover_for(&[3, 1, 4, 1, 5, 9, 2, 6]);
    prover.random_values = challenges.clone();
    let polys: Vec<MultilinearPolynomial> =
        (0..3).map(|index| prover.evaluate_sum_at_point(index)).collect();
    assert_eq!(
        polys[0].evaluations()[0].add(&polys[0].evaluations()[1]),
        prover.evaluate_sum()
    );
    for index in 1..3 {
        let endpoints = polys[index].evaluations();
        let previous = polys[index - 1].evaluate(&vec![challenges[index - 1]]).unwrap();
        assert_eq!(endpoints[0].add(&endpoints[1]), previous);
    }
}
