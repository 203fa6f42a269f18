//! Elements of the prime field and their arithmetic.
//!
//! The arithmetic itself is done by `lambdaworks_math`, on its `FieldElement` over
//! `U64PrimeField<MODULUS>`. This module states what each operation returns as a residue
//! modulo [`MODULUS`]; those statements are taken on trust, and everything else in the
//! library is proved from them.

use lambdaworks_math::field::element::FieldElement;
use lambdaworks_math::field::fields::u64_prime_field::U64PrimeField;
use vstd::arithmetic::div_mod::{
    lemma_add_mod_noop, lemma_mod_add_multiples_vanish, lemma_mod_twice, lemma_mul_mod_noop,
    lemma_small_mod, lemma_sub_mod_noop,
};
use vstd::prelude::*;
use vstd::std_specs::cmp::PartialEqSpecImpl;

verus! {

/// The order of the field, a prime.
pub const MODULUS: u64 = 9347661577;

/// The order of the field as a mathematical integer.
pub open spec fn modulus() -> int {
    MODULUS as int
}

/// `x` is the canonical representative of a residue: `0 <= x < MODULUS`.
pub open spec fn is_residue(x: int) -> bool {
    0 <= x < modulus()
}

/// Two integers stand for the same element of the field.
pub open spec fn congruent(a: int, b: int) -> bool {
    a % modulus() == b % modulus()
}

/// An integer and its residue stand for the same element.
pub proof fn lemma_residue_congruent(a: int)
    ensures
        congruent(a % modulus(), a),
        is_residue(a % modulus()),
{
    lemma_mod_twice(a, modulus());
}

/// Congruent residues are equal.
pub proof fn lemma_congruent_residues_equal(a: int, b: int)
    requires
        congruent(a, b),
        is_residue(a),
        is_residue(b),
    ensures
        a == b,
{
    lemma_small_mod(a as nat, modulus() as nat);
    lemma_small_mod(b as nat, modulus() as nat);
}

/// Sums of congruent integers are congruent.
pub proof fn lemma_congruent_add(a: int, b: int, c: int, d: int)
    requires
        congruent(a, b),
        congruent(c, d),
    ensures
        congruent(a + c, b + d),
{
    lemma_add_mod_noop(a, c, modulus());
    lemma_add_mod_noop(b, d, modulus());
}

/// Differences of congruent integers are congruent.
pub proof fn lemma_congruent_sub(a: int, b: int, c: int, d: int)
    requires
        congruent(a, b),
        congruent(c, d),
    ensures
        congruent(a - c, b - d),
{
    lemma_sub_mod_noop(a, c, modulus());
    lemma_sub_mod_noop(b, d, modulus());
}

/// Products of congruent integers are congruent.
pub proof fn lemma_congruent_mul(a: int, b: int, c: int, d: int)
    requires
        congruent(a, b),
        congruent(c, d),
    ensures
        congruent(a * c, b * d),
{
    lemma_mul_mod_noop(a, c, modulus());
    lemma_mul_mod_noop(b, d, modulus());
}

/// An element of the field of integers modulo [`MODULUS`], held as a representative of
/// its residue class.
///
/// Its view is the residue it stands for, an integer in `0..MODULUS`.
#[derive(Clone, Copy, Debug)]
pub struct Fr {
    value: u64,
}

/// The residues that a sequence of field elements stands for.
pub open spec fn values(elements: Seq<Fr>) -> Seq<int> {
    Seq::new(elements.len(), |i: int| elements[i]@)
}

/// `lambdaworks_math`'s `FieldElement::from(u64)`, read back with `FieldElement::value`:
/// the representative of the new element is `x` reduced modulo the field's order.
#[verifier::external_body]
fn field_from(x: u64) -> (r: u64)
    ensures
        r == x % MODULUS,
{
    *FieldElement::<U64PrimeField<MODULUS>>::from(x).value()
}

/// `lambdaworks_math`'s `FieldElement::zero`: the additive identity, whose representative
/// is 0.
#[verifier::external_body]
fn field_zero() -> (r: u64)
    ensures
        r == 0,
{
    *FieldElement::<U64PrimeField<MODULUS>>::zero().value()
}

/// `lambdaworks_math`'s `FieldElement::one`: the multiplicative identity, whose
/// representative is 1.
#[verifier::external_body]
fn field_one() -> (r: u64)
    ensures
        r == 1,
{
    *FieldElement::<U64PrimeField<MODULUS>>::one().value()
}

/// `lambdaworks_math`'s `+` on `FieldElement`: with both operands reduced on the way in,
/// the field adds the two residues and reduces the sum.
#[verifier::external_body]
fn field_add(a: u64, b: u64) -> (r: u64)
    ensures
        r == ((a % MODULUS) + (b % MODULUS)) % (MODULUS as int),
{
    let x = FieldElement::<U64PrimeField<MODULUS>>::from(a);
    let y = FieldElement::<U64PrimeField<MODULUS>>::from(b);
    *(x + y).value()
}

/// `lambdaworks_math`'s `-` on `FieldElement`: with both operands reduced on the way in,
/// the field adds its order to the first residue, takes the second away and reduces the
/// result.
#[verifier::external_body]
fn field_sub(a: u64, b: u64) -> (r: u64)
    ensures
        r == ((a % MODULUS) + MODULUS - (b % MODULUS)) % (MODULUS as int),
{
    let x = FieldElement::<U64PrimeField<MODULUS>>::from(a);
    let y = FieldElement::<U64PrimeField<MODULUS>>::from(b);
    *(x - y).value()
}

/// `lambdaworks_math`'s `*` on `FieldElement`: with both operands reduced on the way in,
/// the field multiplies the two residues and reduces the product.
#[verifier::external_body]
fn field_mul(a: u64, b: u64) -> (r: u64)
    ensures
        r == ((a % MODULUS) * (b % MODULUS)) % (MODULUS as int),
{
    let x = FieldElement::<U64PrimeField<MODULUS>>::from(a);
    let y = FieldElement::<U64PrimeField<MODULUS>>::from(b);
    *(x * y).value()
}

/// `lambdaworks_math`'s `FieldElement::double`: with the operand reduced on the way in,
/// the field adds the residue to itself and reduces the sum.
#[verifier::external_body]
fn field_double(a: u64) -> (r: u64)
    ensures
        r == ((a % MODULUS) + (a % MODULUS)) % (MODULUS as int),
{
    *FieldElement::<U64PrimeField<MODULUS>>::from(a).double().value()
}

/// `lambdaworks_math`'s `==` on `FieldElement`: with both operands reduced on the way
/// in, the field compares the two residues.
#[verifier::external_body]
fn field_eq(a: u64, b: u64) -> (r: bool)
    ensures
        r == (a % MODULUS == b % MODULUS),
{
    let x = FieldElement::<U64PrimeField<MODULUS>>::from(a);
    let y = FieldElement::<U64PrimeField<MODULUS>>::from(b);
    x == y
}

impl View for Fr {
    type V = int;

    closed spec fn view(&self) -> int {
        self.value as int % modulus()
    }
}

impl Fr {
    /// Every element stands for a residue in `0..MODULUS`.
    pub proof fn lemma_view_is_residue(self)
        ensures
            is_residue(self@),
    {
    }

    /// The element that `x` reduces to.
    pub fn from_u64(x: u64) -> (r: Fr)
        ensures
            r@ == x as int % modulus(),
    {
        Fr { value: field_from(x) }
    }

    /// The additive identity.
    pub fn zero() -> (r: Fr)
        ensures
            r@ == 0,
    {
        proof {
            lemma_small_mod(0, MODULUS as nat);
        }
        Fr { value: field_zero() }
    }

    /// The multiplicative identity.
    pub fn one() -> (r: Fr)
        ensures
            r@ == 1,
    {
        proof {
            lemma_small_mod(1, MODULUS as nat);
        }
        Fr { value: field_one() }
    }

    /// The canonical representative, in `0..MODULUS`.
    pub fn value(&self) -> (r: u64)
        ensures
            r as int == self@,
    {
        field_from(self.value)
    }

    /// The sum of two elements.
    pub fn add(&self, other: &Fr) -> (r: Fr)
        ensures
            r@ == (self@ + other@) % modulus(),
    {
        Fr { value: field_add(self.value, other.value) }
    }

    /// The difference of two elements.
    pub fn sub(&self, other: &Fr) -> (r: Fr)
        ensures
            r@ == (self@ - other@) % modulus(),
    {
        proof {
            lemma_mod_add_multiples_vanish(self@ - other@, modulus());
        }
        Fr { value: field_sub(self.value, other.value) }
    }

    /// The product of two elements.
    pub fn mul(&self, other: &Fr) -> (r: Fr)
        ensures
            r@ == (self@ * other@) % modulus(),
    {
        Fr { value: field_mul(self.value, other.value) }
    }

    /// Twice the element.
    pub fn double(&self) -> (r: Fr)
        ensures
            r@ == (2 * self@) % modulus(),
    {
        Fr { value: field_double(self.value) }
    }
}

impl PartialEq for Fr {
    /// Two elements are equal when they stand for the same residue.
    fn eq(&self, other: &Fr) -> (r: bool) {
        field_eq(self.value, other.value)
    }
}

impl Eq for Fr {

}

impl PartialEqSpecImpl for Fr {
    open spec fn obeys_eq_spec() -> bool {
        true
    }

    open spec fn eq_spec(&self, other: &Fr) -> bool {
        self@ == other@
    }
}

} // verus!
