//! Arithmetic forms of the boolean connectives, over field elements.

use crate::mips_types::{modulus, FieldElement};
use vstd::arithmetic::power::pow;
use vstd::arithmetic::power2::{
    lemma2_to64, lemma2_to64_rest, lemma_pow2, lemma_pow2_adds, lemma_pow2_strictly_increases, pow2,
};
use vstd::prelude::*;

pub mod and;
pub mod not;
pub mod or;
pub mod select;
pub mod sum;
pub mod xor;

verus! {

/// Powers of two up to the 253rd are below the order of the field, so
/// they stand for themselves.
pub proof fn lemma_small_power_of_two(by: nat)
    requires
        by <= 253,
    ensures
        pow(2, by) % modulus() == pow(2, by),
        pow(2, by) == pow2(by),
{
    lemma_pow2(by);
    lemma2_to64();
    lemma2_to64_rest();
    lemma_pow2_adds(64, 64);
    lemma_pow2_adds(128, 64);
    lemma_pow2_adds(192, 61);
    assert(pow2(253) == 0x2000000000000000000000000000000000000000000000000000000000000000) by {
        assert(pow2(128) == 0x1_0000_0000_0000_0000 * 0x1_0000_0000_0000_0000);
        assert(pow2(192) == pow2(128) * 0x1_0000_0000_0000_0000);
        assert(pow2(253) == pow2(192) * 0x2000_0000_0000_0000);
    }
    if by < 253 {
        lemma_pow2_strictly_increases(by, 253);
    }
}

/// Two to the power `by`, in the field.
pub fn pow_of_two(by: usize) -> (r: FieldElement)
    ensures
        r@ == pow(2, by as nat) % modulus(),
{
    FieldElement::from_u64(2).power(by as u64)
}

} // verus!
