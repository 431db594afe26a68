//! Arithmetic in the scalar field of the BN254 curve, carried out by
//! `halo2curves` on canonical byte representations.

use crate::field::FieldElement;
use halo2curves::bn256::Fr;
use halo2curves::ff::Field;
use vstd::arithmetic::power::pow;
use vstd::prelude::*;

verus! {

/// The order of the scalar field.
pub open spec fn modulus() -> nat {
    0x30644e72e131a029b85045b68181585d2833e84879b9709143e1f593f0000001nat
}

/// An element is canonical when its bytes denote a residue below the modulus.
pub open spec fn canonical(e: FieldElement) -> bool {
    e.value() < modulus()
}

/// The residue of `a + b`.
pub open spec fn sum_spec(a: nat, b: nat) -> nat {
    (a + b) % modulus()
}

/// The residue of `base` raised to `exp`.
pub open spec fn power_spec(base: nat, exp: nat) -> nat {
    (pow(base as int, exp) % (modulus() as int)) as nat
}

/// Calls `Fr::from_bytes` and reports whether it accepted the bytes. That
/// function reads the bytes as a little-endian integer and accepts them
/// exactly when the integer is below the field modulus.
#[verifier::external_body]
pub(crate) fn is_canonical(e: &FieldElement) -> (b: bool)
    ensures
        b == canonical(*e),
{
    bool::from(Fr::from_bytes(&e.repr).is_some())
}

/// Calls `Fr::add` on the two elements. The result is the field sum, handed
/// back by `Fr::to_bytes` as the little-endian bytes of its canonical residue.
#[verifier::external_body]
pub(crate) fn sum(a: &FieldElement, b: &FieldElement) -> (r: FieldElement)
    requires
        canonical(*a),
        canonical(*b),
    ensures
        r.value() == sum_spec(a.value(), b.value()),
{
    let x = Fr::from_bytes(&a.repr).unwrap();
    let y = Fr::from_bytes(&b.repr).unwrap();
    FieldElement { repr: x.add(&y).to_bytes() }
}

/// Calls `Field::pow` on the element with a one-limb exponent. The result is
/// the field power, handed back by `Fr::to_bytes` as the little-endian bytes
/// of its canonical residue.
#[verifier::external_body]
pub(crate) fn power(a: &FieldElement, exp: u64) -> (r: FieldElement)
    requires
        canonical(*a),
    ensures
        r.value() == power_spec(a.value(), exp as nat),
{
    let x = Fr::from_bytes(&a.repr).unwrap();
    FieldElement { repr: x.pow([exp]).to_bytes() }
}

} // verus!
