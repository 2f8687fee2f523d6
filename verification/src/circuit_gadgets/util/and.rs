//! `1` when every input is `1`, `0` when one of them is `0`.

use crate::mips_types::{modulus, FieldElement};
use vstd::arithmetic::div_mod::lemma_mul_mod_noop_general;
use vstd::prelude::*;

verus! {

/// The product of the numbers.
pub open spec fn product(values: Seq<int>) -> int
    decreases values.len(),
{
    if values.len() == 0 {
        1
    } else {
        product(values.drop_last()) * values.last()
    }
}

/// The numbers that a list of field elements stands for.
pub open spec fn values_of(inputs: Seq<FieldElement>) -> Seq<int> {
    Seq::new(inputs.len(), |i: int| inputs[i]@)
}

/// Whether every number is 0 or 1.
pub open spec fn all_boolean(values: Seq<int>) -> bool {
    forall|i: int| 0 <= i < values.len() ==> values[i] == 0 || values[i] == 1
}

/// On inputs that are 0 or 1 the product is 1 where all of them are 1, and
/// 0 where one of them is 0.
pub proof fn lemma_and_of_booleans(values: Seq<int>)
    requires
        all_boolean(values),
    ensures
        product(values) % modulus() == product(values),
        product(values) == (if forall|i: int| 0 <= i < values.len() ==> values[i] == 1 {
            1int
        } else {
            0int
        }),
    decreases values.len(),
{
    if values.len() > 0 {
        let front: Seq<int> = values.drop_last();
        lemma_and_of_booleans(front);
        if product(front) == 1 && values.last() == 1 {
            assert forall|i: int| 0 <= i < values.len() implies values[i] == 1 by {
                if i < front.len() {
                    assert(front[i] == 1);
                }
            }
        } else if product(front) == 0 {
            let i: int = choose|i: int| 0 <= i < front.len() && front[i] != 1;
            assert(values[i] != 1);
        }
        assert(product(values) == product(front) * values.last());
        assert(product(front) * values.last() == (if product(front) == 1 && values.last() == 1 {
            1int
        } else {
            0int
        })) by (nonlinear_arith)
            requires
                product(front) == 0 || product(front) == 1,
                values.last() == 0 || values.last() == 1,
        ;
    }
}

/// The product of the inputs, in the field.
pub fn value(inputs: Vec<FieldElement>) -> (r: FieldElement)
    ensures
        r@ == product(values_of(inputs@)) % modulus(),
        0 <= r@ < modulus(),
{
    let mut acc: FieldElement = FieldElement::one();
    let mut i: usize = 0;
    while i < inputs.len()
        invariant
            i <= inputs.len(),
            acc@ == product(values_of(inputs@.subrange(0, i as int))) % modulus(),
            0 <= acc@ < modulus(),
        decreases inputs.len() - i,
    {
        proof {
            let before: Seq<int> = values_of(inputs@.subrange(0, i as int));
            let after: Seq<int> = values_of(inputs@.subrange(0, i + 1));
            assert(after.drop_last() =~= before);
            assert(after.last() == inputs@[i as int]@);
            lemma_mul_mod_noop_general(product(before), inputs@[i as int]@, modulus());
        }
        acc = acc.times(&inputs[i]);
        i = i + 1;
    }
    assert(inputs@.subrange(0, i as int) =~= inputs@);
    acc
}

} // verus!
