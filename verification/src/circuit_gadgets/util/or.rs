//! `1` when one of the inputs is `1`, `0` when all of them are `0`.

use crate::circuit_gadgets::util::and::{all_boolean, lemma_and_of_booleans, product, values_of};
use crate::mips_types::{modulus, FieldElement};
use vstd::arithmetic::div_mod::{lemma_mul_mod_noop_general, lemma_sub_mod_noop_right};
use vstd::prelude::*;

verus! {

/// One minus each of the numbers.
pub open spec fn complements(values: Seq<int>) -> Seq<int> {
    Seq::new(values.len(), |i: int| 1 - values[i])
}

/// Reducing the factors modulo `m` does not change the product modulo `m`.
proof fn lemma_product_of_residues(exact: Seq<int>, reduced: Seq<int>, m: int)
    requires
        m > 0,
        exact.len() == reduced.len(),
        forall|i: int| 0 <= i < exact.len() ==> reduced[i] == exact[i] % m,
    ensures
        product(reduced) % m == product(exact) % m,
    decreases exact.len(),
{
    if exact.len() > 0 {
        lemma_product_of_residues(exact.drop_last(), reduced.drop_last(), m);
        lemma_mul_mod_noop_general(product(reduced.drop_last()), reduced.last(), m);
        lemma_mul_mod_noop_general(product(exact.drop_last()), exact.last(), m);
    }
}

/// On inputs that are 0 or 1 the value is 1 where one of them is 1, and 0
/// where all of them are 0.
pub proof fn lemma_or_of_booleans(values: Seq<int>)
    requires
        all_boolean(values),
    ensures
        (1 - product(complements(values))) % modulus() == (if exists|i: int|
            0 <= i < values.len() && values[i] == 1 {
            1int
        } else {
            0int
        }),
{
    let flipped: Seq<int> = complements(values);
    assert(all_boolean(flipped));
    lemma_and_of_booleans(flipped);
    if forall|i: int| 0 <= i < flipped.len() ==> flipped[i] == 1 {
        assert forall|i: int| 0 <= i < values.len() implies values[i] != 1 by {
            assert(flipped[i] == 1);
        }
    } else {
        let i: int = choose|i: int| 0 <= i < flipped.len() && flipped[i] != 1;
        assert(values[i] == 1);
    }
}

/// One minus the product of the complements of the inputs, in the field.
pub fn value(inputs: Vec<FieldElement>) -> (r: FieldElement)
    ensures
        r@ == (1 - product(complements(values_of(inputs@)))) % modulus(),
        0 <= r@ < modulus(),
{
    let mut negated: Vec<FieldElement> = Vec::new();
    let mut i: usize = 0;
    while i < inputs.len()
        invariant
            i <= inputs.len(),
            negated@.len() == i,
            forall|j: int| 0 <= j < i ==> negated@[j]@ == (1 - inputs@[j]@) % modulus(),
        decreases inputs.len() - i,
    {
        negated.push(crate::circuit_gadgets::util::not::value(inputs[i]));
        i = i + 1;
    }
    proof {
        lemma_product_of_residues(
            complements(values_of(inputs@)),
            values_of(negated@),
            modulus(),
        );
        lemma_sub_mod_noop_right(1, product(values_of(negated@)), modulus());
    }
    let all: FieldElement = crate::circuit_gadgets::util::and::value(negated);
    crate::circuit_gadgets::util::not::value(all)
}

} // verus!
