//! Elements of the Pasta base field, the scalar field of every circuit here.
//!
//! An element is held as its canonical 32-byte little-endian encoding; the
//! arithmetic itself is done by `halo2_proofs::pasta::Fp`.

use halo2_proofs::arithmetic::Field;
use halo2_proofs::pasta::group::ff::PrimeField;
use halo2_proofs::pasta::Fp;
use vstd::prelude::*;

verus! {

/// The prime order of the Pasta base field:
/// `0x40000000000000000000000000000000224698fc094cf91b992d30ed00000001`.
pub open spec fn modulus() -> nat {
    vstd::arithmetic::power2::pow2(254) + 0x224698fc094cf91b992d30ed00000001nat
}

/// The number that a little-endian byte string encodes.
pub open spec fn le_value(s: Seq<u8>) -> nat
    decreases s.len(),
{
    if s.len() == 0 {
        0
    } else {
        s[0] as nat + 256 * le_value(s.drop_first())
    }
}

/// Relies on `Fp::from(u64)` and `PrimeField::to_repr`: the canonical
/// little-endian encoding of a 64-bit integer.
#[verifier::external_body]
fn fp_repr_of_u64(v: u64) -> (r: [u8; 32])
    ensures
        le_value(r@) == v as nat,
{
    Fp::from(v).to_repr()
}

/// Relies on `PrimeField::from_u128` and `PrimeField::to_repr` for `Fp`: the
/// canonical little-endian encoding of a 128-bit integer.
#[verifier::external_body]
fn fp_repr_of_u128(v: u128) -> (r: [u8; 32])
    ensures
        le_value(r@) == v as nat,
{
    Fp::from_u128(v).to_repr()
}

/// Relies on `PrimeField::from_repr` for `Fp`: it accepts exactly the
/// little-endian encodings of integers below the modulus.
#[verifier::external_body]
fn fp_is_canonical(b: &[u8; 32]) -> (r: bool)
    ensures
        r == (le_value(b@) < modulus()),
{
    bool::from(Fp::from_repr(*b).is_some())
}

/// Relies on `Fp` addition: the sum reduced by the modulus, re-encoded canonically.
#[verifier::external_body]
fn fp_add(a: &[u8; 32], b: &[u8; 32]) -> (r: [u8; 32])
    requires
        le_value(a@) < modulus(),
        le_value(b@) < modulus(),
    ensures
        le_value(r@) == (le_value(a@) + le_value(b@)) % modulus(),
{
    (Fp::from_repr(*a).unwrap() + Fp::from_repr(*b).unwrap()).to_repr()
}

/// Relies on `Fp` subtraction: the difference reduced by the modulus, re-encoded canonically.
#[verifier::external_body]
fn fp_sub(a: &[u8; 32], b: &[u8; 32]) -> (r: [u8; 32])
    requires
        le_value(a@) < modulus(),
        le_value(b@) < modulus(),
    ensures
        le_value(r@) == (le_value(a@) + modulus() - le_value(b@)) % (modulus() as int),
{
    (Fp::from_repr(*a).unwrap() - Fp::from_repr(*b).unwrap()).to_repr()
}

/// Relies on `Fp` multiplication: the product reduced by the modulus, re-encoded canonically.
#[verifier::external_body]
fn fp_mul(a: &[u8; 32], b: &[u8; 32]) -> (r: [u8; 32])
    requires
        le_value(a@) < modulus(),
        le_value(b@) < modulus(),
    ensures
        le_value(r@) == (le_value(a@) * le_value(b@)) % modulus(),
{
    (Fp::from_repr(*a).unwrap() * Fp::from_repr(*b).unwrap()).to_repr()
}

/// Relies on `Field::is_zero` for `Fp`: true exactly for the additive identity.
#[verifier::external_body]
fn fp_is_zero(a: &[u8; 32]) -> (r: bool)
    requires
        le_value(a@) < modulus(),
    ensures
        r == (le_value(a@) == 0),
{
    bool::from(Fp::from_repr(*a).unwrap().is_zero())
}

/// An element of the field, always in canonical form.
#[derive(Clone, Copy, Debug)]
pub struct FieldElement {
    repr: [u8; 32],
}

impl View for FieldElement {
    type V = nat;

    /// The integer in `0 .. modulus()` that the element stands for.
    closed spec fn view(&self) -> nat {
        le_value(self.repr@) % modulus()
    }
}

pub(crate) proof fn lemma_modulus_large()
    ensures
        modulus() > 0x1_0000_0000_0000_0000_0000_0000_0000_0000nat,
{
    vstd::arithmetic::power2::lemma2_to64_rest();
    vstd::arithmetic::power2::lemma_pow2_adds(64, 64);
    vstd::arithmetic::power2::lemma_pow2_strictly_increases(128, 254);
    assert(vstd::arithmetic::power2::pow2(128) == 0x1_0000_0000_0000_0000nat * 0x1_0000_0000_0000_0000nat);
}

impl FieldElement {
    #[verifier::type_invariant]
    closed spec fn canonical(&self) -> bool {
        le_value(self.repr@) < modulus()
    }

    /// Every element lies below the modulus.
    pub proof fn lemma_in_range(self)
        ensures
            self@ < modulus(),
    {
        lemma_modulus_large();
    }

    /// The element standing for a 64-bit integer.
    pub fn from_u64(v: u64) -> (r: FieldElement)
        ensures
            r@ == v as nat,
    {
        let repr = fp_repr_of_u64(v);
        proof {
            lemma_modulus_large();
            vstd::arithmetic::div_mod::lemma_small_mod(v as nat, modulus());
        }
        FieldElement { repr }
    }

    /// The element standing for a 128-bit integer.
    pub fn from_u128(v: u128) -> (r: FieldElement)
        ensures
            r@ == v as nat,
    {
        let repr = fp_repr_of_u128(v);
        proof {
            lemma_modulus_large();
            vstd::arithmetic::div_mod::lemma_small_mod(v as nat, modulus());
        }
        FieldElement { repr }
    }

    pub fn zero() -> (r: FieldElement)
        ensures
            r@ == 0,
    {
        FieldElement::from_u64(0)
    }

    pub fn one() -> (r: FieldElement)
        ensures
            r@ == 1,
    {
        FieldElement::from_u64(1)
    }

    /// Reads a canonical little-endian encoding; `None` when the integer it
    /// encodes is not below the modulus.
    pub fn from_repr(bytes: [u8; 32]) -> (r: Option<FieldElement>)
        ensures
            r is Some <==> le_value(bytes@) < modulus(),
            r matches Some(e) ==> e@ == le_value(bytes@) && e.repr() == bytes@,
    {
        if fp_is_canonical(&bytes) {
            proof {
                vstd::arithmetic::div_mod::lemma_small_mod(le_value(bytes@), modulus());
            }
            Some(FieldElement { repr: bytes })
        } else {
            None
        }
    }

    /// The canonical encoding of the element.
    pub closed spec fn repr(&self) -> Seq<u8> {
        self.repr@
    }

    /// The 32-byte canonical little-endian encoding.
    pub fn to_repr(&self) -> (r: [u8; 32])
        ensures
            r@ == self.repr(),
            le_value(r@) == self@,
            r@.len() == 32,
    {
        proof {
            use_type_invariant(self);
            vstd::arithmetic::div_mod::lemma_small_mod(le_value(self.repr@), modulus());
        }
        self.repr
    }

    pub fn add(&self, other: &FieldElement) -> (r: FieldElement)
        ensures
            r@ == (self@ + other@) % modulus(),
    {
        proof {
            use_type_invariant(self);
            use_type_invariant(other);
            lemma_modulus_large();
        }
        let repr = fp_add(&self.repr, &other.repr);
        proof {
            vstd::arithmetic::div_mod::lemma_small_mod(le_value(self.repr@), modulus());
            vstd::arithmetic::div_mod::lemma_small_mod(le_value(other.repr@), modulus());
            vstd::arithmetic::div_mod::lemma_small_mod(le_value(repr@), modulus());
        }
        FieldElement { repr }
    }

    pub fn sub(&self, other: &FieldElement) -> (r: FieldElement)
        ensures
            r@ == (self@ + modulus() - other@) % (modulus() as int),
    {
        proof {
            use_type_invariant(self);
            use_type_invariant(other);
            lemma_modulus_large();
        }
        let repr = fp_sub(&self.repr, &other.repr);
        proof {
            vstd::arithmetic::div_mod::lemma_small_mod(le_value(self.repr@), modulus());
            vstd::arithmetic::div_mod::lemma_small_mod(le_value(other.repr@), modulus());
            vstd::arithmetic::div_mod::lemma_small_mod(le_value(repr@), modulus());
        }
        FieldElement { repr }
    }

    pub fn mul(&self, other: &FieldElement) -> (r: FieldElement)
        ensures
            r@ == (self@ * other@) % modulus(),
    {
        proof {
            use_type_invariant(self);
            use_type_invariant(other);
            lemma_modulus_large();
        }
        let repr = fp_mul(&self.repr, &other.repr);
        proof {
            vstd::arithmetic::div_mod::lemma_small_mod(le_value(self.repr@), modulus());
            vstd::arithmetic::div_mod::lemma_small_mod(le_value(other.repr@), modulus());
            vstd::arithmetic::div_mod::lemma_small_mod(le_value(repr@), modulus());
        }
        FieldElement { repr }
    }

    pub fn is_zero(&self) -> (r: bool)
        ensures
            r == (self@ == 0),
    {
        proof {
            use_type_invariant(self);
            lemma_modulus_large();
            vstd::arithmetic::div_mod::lemma_small_mod(le_value(self.repr@), modulus());
        }
        fp_is_zero(&self.repr)
    }
}

} // verus!
