//! `a ^ b` for inputs that are `0` or `1`.

use crate::mips_types::{modulus, FieldElement};
use vstd::arithmetic::div_mod::{lemma_mul_mod_noop_general, lemma_sub_mod_noop};
use vstd::prelude::*;

verus! {

/// `a + b - 2ab`, in the field.
pub fn value(a: FieldElement, b: FieldElement) -> (r: FieldElement)
    ensures
        r@ == (a@ + b@ - 2 * a@ * b@) % modulus(),
        0 <= r@ < modulus(),
{
    let sum: FieldElement = a.plus(&b);
    let twice: FieldElement = FieldElement::from_u64(2).times(&a);
    let product: FieldElement = twice.times(&b);
    proof {
        let p: int = modulus();
        lemma_mul_mod_noop_general(2 * a@, b@, p);
        lemma_sub_mod_noop(a@ + b@, 2 * a@ * b@, p);
    }
    sum.minus(&product)
}

/// On inputs that are 0 or 1 the value is 1 where they differ and 0 where
/// they agree.
pub proof fn lemma_xor_of_booleans(a: int, b: int)
    requires
        a == 0 || a == 1,
        b == 0 || b == 1,
    ensures
        (a + b - 2 * a * b) % modulus() == (if a == b {
            0int
        } else {
            1int
        }),
{
}

} // verus!
