use naive_sumcheck::{Fr, MODULUS};

#[test]
fn from_u64_reduces_modulo_the_order() {
    assert_eq!(Fr::from_u64(7).value(), 7);
    assert_eq!(Fr::from_u64(MODULUS).value(), 0);
    assert_eq!(Fr::from_u64(MODULUS + 5).value(), 5);
    assert_eq!(Fr::from_u64(u64::MAX).value(), u64::MAX % MODULUS);
}

#[test]
fn the_order_is_the_documented_prime() {
    assert_eq!(MODULUS, 9347661577);
}

#[test]
fn zero_and_one_are_the_identities() {
    let x = Fr::from_u64(123456789);
    assert_eq!(Fr::zero().value(), 0);
    assert_eq!(Fr::one().value(), 1);
    assert_eq!(x.add(&Fr::zero()), x);
    assert_eq!(x.mul(&Fr::one()), x);
    assert_eq!(x.mul(&Fr::zero()), Fr::zero());
}

#[test]
fn add_wraps_around_the_order() {
    let a = Fr::from_u64(MODULUS - 1);
    let b = Fr::from_u64(3);
    assert_eq!(a.add(&b).value(), 2);
    assert_eq!(Fr::from_u64(10).add(&Fr::from_u64(20)).value(), 30);
}

#[test]
fn sub_wraps_below_zero() {
    let a = Fr::from_u64(3);
    let b = Fr::from_u64(5);
    assert_eq!(a.sub(&b).value(), MODULUS - 2);
    assert_eq!(b.sub(&a).value(), 2);
    assert_eq!(a.sub(&a).value(), 0);
}

#[test]
fn mul_reduces_products_wider_than_64_bits() {
    // (p - 1)^2 = 1 modulo p
    let a = Fr::from_u64(MODULUS - 1);
    assert_eq!(a.mul(&a).value(), 1);
    // 100000 * 100000 = 10^10 = 10^10 - 9347661577 modulo p
    let b = Fr::from_u64(100_000);
    assert_eq!(b.mul(&b).value(), 10_000_000_000 - 9_347_661_577);
    assert_eq!(Fr::from_u64(6).mul(&Fr::from_u64(7)).value(), 42);
}

#[test]
fn double_is_adding_an_element_to_itself() {
    assert_eq!(Fr::from_u64(21).double().value(), 42);
    assert_eq!(Fr::from_u64(MODULUS - 1).double().value(), MODULUS - 2);
    assert_eq!(Fr::zero().double().value(), 0);
}

#[test]
fn equality_compares_residues() {
    assert_eq!(Fr::from_u64(5), Fr::from_u64(MODULUS + 5));
    assert_ne!(Fr::from_u64(5), Fr::from_u64(6));
    assert!(Fr::from_u64(0) == Fr::zero());
    assert!(Fr::from_u64(1) != Fr::zero());
}
