//! `1` when the input is `0`, and `0` when it is `1`.

use crate::mips_types::{modulus, FieldElement};
use vstd::prelude::*;

verus! {

/// One minus `b`, in the field.
pub fn value(b: FieldElement) -> (r: FieldElement)
    ensures
        r@ == (1 - b@) % modulus(),
        0 <= r@ < modulus(),
{
    FieldElement::one().minus(&b)
}

/// On an input that is 0 or 1 the value is the other of the two.
pub proof fn lemma_not_of_boolean(b: int)
    requires
        b == 0 || b == 1,
    ensures
        (1 - b) % modulus() == (if b == 0 {
            1int
        } else {
            0int
        }),
{
}

} // verus!
