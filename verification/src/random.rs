//! Random field elements: the verifier's challenges and random boolean tables.

use crate::field::{is_residue, modulus, Fr};
use rand::rngs::ThreadRng;
use rand::RngCore;
use vstd::arithmetic::div_mod::lemma_small_mod;
use vstd::prelude::*;

verus! {

/// `rand`'s `RngCore::next_u64` on the calling thread's generator, `ThreadRng::default()`:
/// the next 64 random bits. Nothing is claimed of the value. The generator is seeded by
/// the system on its first use in a thread, and `rand` panics there if the system has no
/// randomness to give.
#[verifier::external_body]
fn random_word() -> (r: u64) {
    ThreadRng::default().next_u64()
}

/// The coefficient that a random word stands for: its lowest bit, as a field element.
pub fn binary_coefficient(word: u64) -> (r: Fr)
    ensures
        r@ == word % 2,
{
    proof {
        lemma_small_mod((word % 2) as nat, modulus() as nat);
    }
    Fr::from_u64(word % 2)
}

/// The challenge that a random word stands for: the word reduced into the field.
pub fn challenge_from_word(word: u64) -> (r: Fr)
    ensures
        r@ == word as int % modulus(),
{
    Fr::from_u64(word)
}

/// A fresh random field element. Which one is a matter of chance: all that holds of
/// every outcome is that it is an element of the field.
pub fn random_element() -> (r: Fr)
    ensures
        is_residue(r@),
{
    let element = challenge_from_word(random_word());
    proof {
        element.lemma_view_is_residue();
    }
    element
}

/// `num_coeffs` random coefficients, each of them 0 or 1.
pub fn random_binary_coefficients(num_coeffs: usize) -> (r: Vec<Fr>)
    ensures
        r.len() == num_coeffs,
        forall|i: int| 0 <= i < r.len() ==> (#[trigger] r[i])@ == 0 || r[i]@ == 1,
{
    let mut coefficients: Vec<Fr> = Vec::new();
    let mut i: usize = 0;
    while i < num_coeffs
        invariant
            i <= num_coeffs,
            coefficients.len() == i,
            forall|k: int|
                0 <= k < coefficients.len() ==> (#[trigger] coefficients[k])@ == 0
                    || coefficients[k]@ == 1,
        decreases num_coeffs - i,
    {
        coefficients.push(binary_coefficient(random_word()));
        i = i + 1;
    }
    coefficients
}

} // verus!
