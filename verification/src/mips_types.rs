//! Elements of the field that the proving circuits compute in: the base
//! field of the Pallas curve. The arithmetic itself is done by
//! `halo2_proofs`; an element is held here by its canonical bytes.

use halo2_proofs::arithmetic::Field;
use halo2_proofs::pasta::group::ff::PrimeField;
use halo2_proofs::pasta::Fp;
use vstd::arithmetic::power::pow;
use vstd::prelude::*;

verus! {

/// The order of the field.
pub open spec fn modulus() -> int {
    0x40000000000000000000000000000000224698fc094cf91b992d30ed00000001int
}

/// The number that a byte string spells, least significant byte first.
pub open spec fn le_value(bytes: Seq<u8>) -> int
    decreases bytes.len(),
{
    if bytes.len() == 0 {
        0
    } else {
        bytes[0] as int + 256 * le_value(bytes.skip(1))
    }
}

/// A byte string spells no negative number.
pub proof fn lemma_le_value_nonnegative(bytes: Seq<u8>)
    ensures
        le_value(bytes) >= 0,
    decreases bytes.len(),
{
    if bytes.len() > 0 {
        lemma_le_value_nonnegative(bytes.skip(1));
    }
}

/// `Fp::from(u64)`, read back through `to_repr`: the element that stands
/// for the number `v`.
#[verifier::external_body]
fn fp_from_u64(v: u64) -> (r: [u8; 32])
    ensures
        le_value(r@) == v,
{
    Fp::from(v).to_repr()
}

/// `Fp`'s `+` between `from_repr` and `to_repr`: the sum modulo the order.
#[verifier::external_body]
fn fp_add(a: &[u8; 32], b: &[u8; 32]) -> (r: [u8; 32])
    requires
        0 <= le_value(a@) < modulus(),
        0 <= le_value(b@) < modulus(),
    ensures
        le_value(r@) == (le_value(a@) + le_value(b@)) % modulus(),
{
    (Fp::from_repr(*a).unwrap() + Fp::from_repr(*b).unwrap()).to_repr()
}

/// `Fp`'s `-` between `from_repr` and `to_repr`: the difference modulo the
/// order, never negative.
#[verifier::external_body]
fn fp_sub(a: &[u8; 32], b: &[u8; 32]) -> (r: [u8; 32])
    requires
        0 <= le_value(a@) < modulus(),
        0 <= le_value(b@) < modulus(),
    ensures
        le_value(r@) == (le_value(a@) - le_value(b@)) % modulus(),
{
    (Fp::from_repr(*a).unwrap() - Fp::from_repr(*b).unwrap()).to_repr()
}

/// `Fp`'s `*` between `from_repr` and `to_repr`: the product modulo the order.
#[verifier::external_body]
fn fp_mul(a: &[u8; 32], b: &[u8; 32]) -> (r: [u8; 32])
    requires
        0 <= le_value(a@) < modulus(),
        0 <= le_value(b@) < modulus(),
    ensures
        le_value(r@) == (le_value(a@) * le_value(b@)) % modulus(),
{
    (Fp::from_repr(*a).unwrap() * Fp::from_repr(*b).unwrap()).to_repr()
}

/// `Field::pow` with a one-limb exponent, between `from_repr` and
/// `to_repr`: the power modulo the order.
#[verifier::external_body]
fn fp_pow(base: &[u8; 32], exp: u64) -> (r: [u8; 32])
    requires
        0 <= le_value(base@) < modulus(),
    ensures
        le_value(r@) == pow(le_value(base@), exp as nat) % modulus(),
{
    Fp::from_repr(*base).unwrap().pow([exp, 0, 0, 0]).to_repr()
}

/// `Fp`'s `==` on two elements given by their canonical bytes.
#[verifier::external_body]
fn fp_eq(a: &[u8; 32], b: &[u8; 32]) -> (same: bool)
    requires
        0 <= le_value(a@) < modulus(),
        0 <= le_value(b@) < modulus(),
    ensures
        same == (le_value(a@) == le_value(b@)),
{
    Fp::from_repr(*a).unwrap() == Fp::from_repr(*b).unwrap()
}

/// The test that `from_repr` makes: whether the bytes spell a number below
/// the order.
#[verifier::external_body]
fn fp_is_canonical(bytes: &[u8; 32]) -> (canonical: bool)
    ensures
        canonical == (le_value(bytes@) < modulus()),
{
    bool::from(Fp::from_repr(*bytes).is_some())
}

/// A field element. Its view is the number it stands for, at least 0 and
/// below the order.
#[derive(Clone, Copy, Debug)]
pub struct FieldElement {
    repr: [u8; 32],
}

impl View for FieldElement {
    type V = int;

    closed spec fn view(&self) -> int {
        le_value(self.repr@)
    }
}

impl FieldElement {
    #[verifier::type_invariant]
    closed spec fn canonical(self) -> bool {
        0 <= le_value(self.repr@) < modulus()
    }

    /// The element that stands for `v`.
    pub fn from_u64(v: u64) -> (r: Self)
        ensures
            r@ == v,
    {
        FieldElement { repr: fp_from_u64(v) }
    }

    /// The element with the given canonical bytes, if they are canonical.
    pub fn from_repr(bytes: [u8; 32]) -> (r: Option<Self>)
        ensures
            match r {
                Some(element) => element@ == le_value(bytes@) && le_value(bytes@) < modulus(),
                None => le_value(bytes@) >= modulus(),
            },
    {
        if fp_is_canonical(&bytes) {
            proof {
                lemma_le_value_nonnegative(bytes@);
            }
            Some(FieldElement { repr: bytes })
        } else {
            None
        }
    }

    /// The additive identity.
    pub fn zero() -> (r: Self)
        ensures
            r@ == 0,
    {
        Self::from_u64(0)
    }

    /// The multiplicative identity.
    pub fn one() -> (r: Self)
        ensures
            r@ == 1,
    {
        Self::from_u64(1)
    }

    /// The canonical bytes, least significant first.
    pub fn to_repr(&self) -> (bytes: [u8; 32])
        ensures
            le_value(bytes@) == self@,
            0 <= self@ < modulus(),
    {
        proof {
            use_type_invariant(self);
        }
        self.repr
    }

    /// The sum in the field.
    pub fn plus(&self, rhs: &Self) -> (r: Self)
        ensures
            r@ == (self@ + rhs@) % modulus(),
            0 <= r@ < modulus(),
    {
        proof {
            use_type_invariant(self);
            use_type_invariant(rhs);
        }
        FieldElement { repr: fp_add(&self.repr, &rhs.repr) }
    }

    /// The difference in the field.
    pub fn minus(&self, rhs: &Self) -> (r: Self)
        ensures
            r@ == (self@ - rhs@) % modulus(),
            0 <= r@ < modulus(),
    {
        proof {
            use_type_invariant(self);
            use_type_invariant(rhs);
        }
        FieldElement { repr: fp_sub(&self.repr, &rhs.repr) }
    }

    /// The product in the field.
    pub fn times(&self, rhs: &Self) -> (r: Self)
        ensures
            r@ == (self@ * rhs@) % modulus(),
            0 <= r@ < modulus(),
    {
        proof {
            use_type_invariant(self);
            use_type_invariant(rhs);
        }
        FieldElement { repr: fp_mul(&self.repr, &rhs.repr) }
    }

    /// The power in the field.
    pub fn power(&self, exp: u64) -> (r: Self)
        ensures
            r@ == pow(self@, exp as nat) % modulus(),
            0 <= r@ < modulus(),
    {
        proof {
            use_type_invariant(self);
        }
        FieldElement { repr: fp_pow(&self.repr, exp) }
    }

    /// Whether two elements stand for the same number.
    pub fn equals(&self, rhs: &Self) -> (same: bool)
        ensures
            same == (self@ == rhs@),
    {
        proof {
            use_type_invariant(self);
            use_type_invariant(rhs);
        }
        fp_eq(&self.repr, &rhs.repr)
    }
}

} // verus!
