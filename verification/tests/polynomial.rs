use naive_sumcheck::polynomial::{fold_table, hypercube_vertex, interpolate_elements};
use naive_sumcheck::{Fr, MultilinearPolynomial, SumcheckError, MODULUS};

fn elements(values: &[u64]) -> Vec<Fr> {
    values.iter().map(|value| Fr::from_u64(*value)).collect()
}

fn residues(elements: &[Fr]) -> Vec<u64> {
    elements.iter().map(|element| element.value()).collect()
}

#[test]
fn new_keeps_a_table_whose_length_is_a_power_of_two() {
    let poly = MultilinearPolynomial::new(elements(&[3, 5, 7, 11]));
    assert_eq!(poly.num_vars(), 2);
    assert_eq!(poly.len(), 4);
    assert_eq!(residues(poly.evaluations()), vec![3, 5, 7, 11]);
}

#[test]
fn new_fills_up_with_zeros_to_the_next_power_of_two() {
    let poly = MultilinearPolynomial::new(elements(&[1, 2, 3]));
    assert_eq!(poly.num_vars(), 2);
    assert_eq!(residues(poly.evaluations()), vec![1, 2, 3, 0]);

    let poly = MultilinearPolynomial::new(elements(&[1, 2, 3, 4, 5]));
    assert_eq!(poly.num_vars(), 3);
    assert_eq!(residues(poly.evaluations()), vec![1, 2, 3, 4, 5, 0, 0, 0]);
}

#[test]
fn new_of_nothing_is_the_constant_zero() {
    let poly = MultilinearPolynomial::new(Vec::new());
    assert_eq!(poly.num_vars(), 0);
    assert_eq!(residues(poly.evaluations()), vec![0]);
    assert_eq!(poly.evaluate(&Vec::new()), Ok(Fr::zero()));
}

#[test]
fn a_single_entry_is_a_constant() {
    let poly = MultilinearPolynomial::new(elements(&[42]));
    assert_eq!(poly.num_vars(), 0);
    assert_eq!(poly.len(), 1);
    assert_eq!(poly.evaluate(&Vec::new()), Ok(Fr::from_u64(42)));
}

#[test]
fn clone_keeps_the_table() {
    let poly = MultilinearPolynomial::new(elements(&[3, 5, 7, 11]));
    let copy = poly.clone();
    assert_eq!(copy.num_vars(), 2);
    assert_eq!(residues(copy.evaluations()), vec![3, 5, 7, 11]);
}

#[test]
fn hypercube_vertex_lists_the_bits_from_the_lowest() {
    assert_eq!(residues(&hypercube_vertex(6, 3)), vec![0, 1, 1]);
    assert_eq!(residues(&hypercube_vertex(1, 3)), vec![1, 0, 0]);
    assert_eq!(residues(&hypercube_vertex(5, 2)), vec![1, 0]);
    assert_eq!(residues(&hypercube_vertex(9, 0)), Vec::<u64>::new());
}

#[test]
fn interpolate_elements_is_low_plus_c_times_the_difference() {
    let low = Fr::from_u64(10);
    let high = Fr::from_u64(4);
    assert_eq!(interpolate_elements(&low, &high, &Fr::zero()), low);
    assert_eq!(interpolate_elements(&low, &high, &Fr::one()), high);
    // 10 + 3 * (4 - 10) = -8
    assert_eq!(interpolate_elements(&low, &high, &Fr::from_u64(3)).value(), MODULUS - 8);
}

#[test]
fn fold_table_fixes_variable_zero() {
    let table = elements(&[3, 5, 7, 11]);
    assert_eq!(residues(&fold_table(&table, &Fr::zero())), vec![3, 7]);
    assert_eq!(residues(&fold_table(&table, &Fr::one())), vec![5, 11]);
    // 3 + 2 * (5 - 3) = 7 and 7 + 2 * (11 - 7) = 15
    assert_eq!(residues(&fold_table(&table, &Fr::from_u64(2))), vec![7, 15]);
}

#[test]
fn evaluate_at_every_vertex_is_the_table_entry() {
    let table: Vec<u64> = vec![3, 1, 4, 1, 5, 9, 2, 6, 5, 3, 5, 8, 9, 7, 9, 3];
    let poly = MultilinearPolynomial::new(elements(&table));
    assert_eq!(poly.num_vars(), 4);
    for index in 0..16 {
        let vertex = hypercube_vertex(index, 4);
        assert_eq!(poly.evaluate(&vertex), Ok(Fr::from_u64(table[index])));
    }
}

#[test]
fn bit_zero_of_the_index_is_variable_zero() {
    let poly = MultilinearPolynomial::new(elements(&[10, 20, 30, 40]));
    // f(1, 0) is the entry with index 1, f(0, 1) the entry with index 2.
    assert_eq!(poly.evaluate(&elements(&[1, 0])), Ok(Fr::from_u64(20)));
    assert_eq!(poly.evaluate(&elements(&[0, 1])), Ok(Fr::from_u64(30)));
}

#[test]
fn evaluate_away_from_the_vertices() {
    // f(x0, x1) = 3 (1 - x0)(1 - x1) + 5 x0 (1 - x1) + 7 (1 - x0) x1 + 11 x0 x1
    // f(2, 3) = 6 - 20 - 21 + 66 = 31
    let poly = MultilinearPolynomial::new(elements(&[3, 5, 7, 11]));
    assert_eq!(poly.evaluate(&elements(&[2, 3])), Ok(Fr::from_u64(31)));

    // f(x0, x1) = 1 - x0 for the table [1, 0, 1, 0]
    let poly = MultilinearPolynomial::new(elements(&[1, 0, 1, 0]));
    assert_eq!(poly.evaluate(&elements(&[5, 7])).unwrap().value(), MODULUS - 4);
}

#[test]
fn evaluate_is_affine_in_each_variable() {
    let poly = MultilinearPolynomial::new(elements(&[3, 1, 4, 1, 5, 9, 2, 6]));
    let x = Fr::from_u64(123456);
    let one_minus_x = Fr::one().sub(&x);
    for k in 0..3 {
        let mut point = elements(&[17, 29, 31]);
        point[k] = Fr::zero();
        let v0 = poly.evaluate(&point).unwrap();
        point[k] = Fr::one();
        let v1 = poly.evaluate(&point).unwrap();
        point[k] = x;
        let value = poly.evaluate(&point).unwrap();
        assert_eq!(value, one_minus_x.mul(&v0).add(&x.mul(&v1)));
    }
}

#[test]
fn evaluate_refuses_a_point_of_the_wrong_dimension() {
    let poly = MultilinearPolynomial::new(elements(&[1, 2, 3, 4, 5, 6, 7, 8]));
    assert_eq!(poly.num_vars(), 3);
    assert_eq!(
        poly.evaluate(&elements(&[1, 0])),
        Err(SumcheckError::DimensionMismatch { expected: 3, found: 2 })
    );
    assert_eq!(
        poly.evaluate(&elements(&[1, 0, 1, 0])),
        Err(SumcheckError::DimensionMismatch { expected: 3, found: 4 })
    );
    assert_eq!(
        poly.evaluate(&Vec::new()),
        Err(SumcheckError::DimensionMismatch { expected: 3, found: 0 })
    );
}
