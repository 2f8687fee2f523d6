//! The sum of a list of bytes.

use crate::mips_types::{modulus, FieldElement};
use vstd::arithmetic::div_mod::lemma_add_mod_noop;
use vstd::prelude::*;
use vstd::slice::slice_index_get;

verus! {

/// The sum of the bytes as a number.
pub open spec fn total(values: Seq<u8>) -> int
    decreases values.len(),
{
    if values.len() == 0 {
        0
    } else {
        total(values.drop_last()) + values.last()
    }
}

/// A sum of bytes is at most 255 times their number.
pub proof fn lemma_total_bound(values: Seq<u8>)
    ensures
        0 <= total(values) <= 255 * values.len(),
    decreases values.len(),
{
    if values.len() > 0 {
        lemma_total_bound(values.drop_last());
    }
}

/// The sum of the given bytes, in the field. No list that fits in memory
/// is long enough for the sum to reach the order of the field.
pub fn value(values: &[u8]) -> (r: FieldElement)
    ensures
        r@ == total(values@),
{
    proof {
        lemma_total_bound(values@);
    }
    let mut acc: FieldElement = FieldElement::zero();
    let mut i: usize = 0;
    while i < values.len()
        invariant
            i <= values.len(),
            acc@ == total(values@.subrange(0, i as int)) % modulus(),
            0 <= acc@ < modulus(),
        decreases values.len() - i,
    {
        let v: u8 = *slice_index_get(values, i);
        let term: FieldElement = FieldElement::from_u64(v as u64);
        proof {
            let before: Seq<u8> = values@.subrange(0, i as int);
            let after: Seq<u8> = values@.subrange(0, i + 1);
            assert(after.drop_last() =~= before);
            lemma_add_mod_noop(total(before), v as int, modulus());
            assert((v as int) % modulus() == v as int);
        }
        acc = acc.plus(&term);
        i = i + 1;
    }
    assert(values@.subrange(0, i as int) =~= values@);
    acc
}

} // verus!
