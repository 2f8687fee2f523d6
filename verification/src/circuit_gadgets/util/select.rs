//! `when_true` where the selector is `1`, `when_false` where it is `0`.

use crate::mips_types::{modulus, FieldElement};
use vstd::arithmetic::div_mod::{lemma_add_mod_noop, lemma_mul_mod_noop_general};
use vstd::prelude::*;

verus! {

/// `selector * when_true + (1 - selector) * when_false`, in the field.
pub fn value(selector: FieldElement, when_true: FieldElement, when_false: FieldElement) -> (r:
    FieldElement)
    ensures
        r@ == (selector@ * when_true@ + (1 - selector@) * when_false@) % modulus(),
        0 <= r@ < modulus(),
{
    let taken: FieldElement = selector.times(&when_true);
    let rest: FieldElement = FieldElement::one().minus(&selector);
    let left: FieldElement = rest.times(&when_false);
    proof {
        let p: int = modulus();
        lemma_mul_mod_noop_general(1 - selector@, when_false@, p);
        lemma_add_mod_noop(selector@ * when_true@, (1 - selector@) * when_false@, p);
    }
    taken.plus(&left)
}

/// The word `when_true` where the selector is one, else `when_false`.
pub fn value_word(selector: FieldElement, when_true: [u8; 32], when_false: [u8; 32]) -> (word: [u8;
    32])
    ensures
        word == (if selector@ == 1 {
            when_true
        } else {
            when_false
        }),
{
    if selector.equals(&FieldElement::one()) {
        when_true
    } else {
        when_false
    }
}

/// With a selector that is 0 or 1 the value is one of the two inputs.
pub proof fn lemma_select_by_boolean(selector: int, when_true: int, when_false: int)
    requires
        selector == 0 || selector == 1,
        0 <= when_true < modulus(),
        0 <= when_false < modulus(),
    ensures
        (selector * when_true + (1 - selector) * when_false) % modulus() == (if selector == 1 {
            when_true
        } else {
            when_false
        }),
{
    if selector == 1 {
        assert(selector * when_true + (1 - selector) * when_false == when_true) by (nonlinear_arith)
            requires
                selector == 1,
        ;
    } else {
        assert(selector * when_true + (1 - selector) * when_false == when_false) by (nonlinear_arith)
            requires
                selector == 0,
        ;
    }
}

} // verus!
