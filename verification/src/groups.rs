//! The bilinear-group collaborator: the scalar field `Fr`, the two source
//! groups `G1` and `G2`, the target group `Gt` and the pairing map, together
//! with the deterministic hash from an identity string into `G1`.
//!
//! Group and field elements are opaque here: the engine computes with them,
//! and the library's own contracts speak only of which attribute each element
//! is filed under. Random sampling draws fresh values on every call, so
//! nothing is promised of the values themselves.

use vstd::prelude::*;

use rand::Rng;
use rabe_bn::Group;
use sha2::{Digest, Sha512};

verus! {

#[verifier::external_type_specification]
#[verifier::external_body]
pub struct ExFr(rabe_bn::Fr);

#[verifier::external_type_specification]
#[verifier::external_body]
pub struct ExG1(rabe_bn::G1);

#[verifier::external_type_specification]
#[verifier::external_body]
pub struct ExG2(rabe_bn::G2);

#[verifier::external_type_specification]
#[verifier::external_body]
pub struct ExGt(rabe_bn::Gt);

/// Relies on `Fr` sampling through `rand::thread_rng`: a fresh random scalar.
#[verifier::external_body]
pub(crate) fn fr_random() -> rabe_bn::Fr {
    rand::thread_rng().gen()
}

/// Relies on `Fr::zero`: the scalar field's zero.
#[verifier::external_body]
pub(crate) fn fr_zero() -> rabe_bn::Fr {
    rabe_bn::Fr::zero()
}

/// Relies on `Fr::one`: the scalar field's one.
#[verifier::external_body]
pub(crate) fn fr_one() -> rabe_bn::Fr {
    rabe_bn::Fr::one()
}

/// Relies on `Fr`'s subtraction in the scalar field.
#[verifier::external_body]
pub(crate) fn fr_sub(a: rabe_bn::Fr, b: rabe_bn::Fr) -> rabe_bn::Fr {
    a - b
}

/// Relies on `G1` sampling through `rand::thread_rng`: a fresh random element.
#[verifier::external_body]
pub(crate) fn g1_random() -> rabe_bn::G1 {
    rabe_bn::G1::random(&mut rand::thread_rng())
}

/// Relies on `G2` sampling through `rand::thread_rng`: a fresh random element.
#[verifier::external_body]
pub(crate) fn g2_random() -> rabe_bn::G2 {
    rabe_bn::G2::random(&mut rand::thread_rng())
}

/// Relies on `G1`'s scalar multiplication (the group written additively).
#[verifier::external_body]
pub(crate) fn g1_mul_fr(g: rabe_bn::G1, s: rabe_bn::Fr) -> rabe_bn::G1 {
    g * s
}

/// Relies on `G1`'s group operation.
#[verifier::external_body]
pub(crate) fn g1_add(a: rabe_bn::G1, b: rabe_bn::G1) -> rabe_bn::G1 {
    a + b
}

/// Relies on `G2`'s scalar multiplication (the group written additively).
#[verifier::external_body]
pub(crate) fn g2_mul_fr(g: rabe_bn::G2, s: rabe_bn::Fr) -> rabe_bn::G2 {
    g * s
}

/// Relies on `G2`'s group operation.
#[verifier::external_body]
pub(crate) fn g2_add(a: rabe_bn::G2, b: rabe_bn::G2) -> rabe_bn::G2 {
    a + b
}

/// Relies on `rabe_bn::pairing`: the bilinear map from `G1` and `G2` to `Gt`.
#[verifier::external_body]
pub(crate) fn pairing_of(p: rabe_bn::G1, q: rabe_bn::G2) -> rabe_bn::Gt {
    rabe_bn::pairing(p, q)
}

/// Relies on `Gt`'s group operation.
#[verifier::external_body]
pub(crate) fn gt_mul(a: rabe_bn::Gt, b: rabe_bn::Gt) -> rabe_bn::Gt {
    a * b
}

/// Relies on `Gt::pow`: exponentiation by a scalar.
#[verifier::external_body]
pub(crate) fn gt_pow(a: rabe_bn::Gt, e: rabe_bn::Fr) -> rabe_bn::Gt {
    a.pow(e)
}

/// Relies on `Gt::pow` and the scalar field's arithmetic: exponents act
/// modulo the target group's order, which is the scalar field's modulus, so
/// raising to `-1` in `Fr` (the order minus one) inverts any element of the
/// group. Unlike `Gt::inverse`, `pow` is total: on bytes that do not lie in
/// the group it returns a garbage element rather than aborting, and such a
/// value then fails the sealed payload's authentication downstream.
#[verifier::external_body]
pub(crate) fn gt_inverse(a: rabe_bn::Gt) -> rabe_bn::Gt {
    a.pow(rabe_bn::Fr::zero() - rabe_bn::Fr::one())
}

/// Relies on `Gt::one`: the target group's identity.
#[verifier::external_body]
pub(crate) fn gt_one() -> rabe_bn::Gt {
    rabe_bn::Gt::one()
}

/// The hash-to-group collaborator. Relies on `Sha512` and `Fr::interpret` to
/// map an identity deterministically to a scalar, and on `G1`'s scalar
/// multiplication to carry the generator to the identity's group element.
/// The digest choice fixes the concrete key material: every party of one
/// deployment must derive identities through the same hash.
#[verifier::external_body]
pub(crate) fn hash_to_g1(g: &rabe_bn::G1, gid: &str) -> rabe_bn::G1 {
    let digest: [u8; 64] = Sha512::digest(gid.as_bytes()).as_slice().try_into().unwrap();
    *g * rabe_bn::Fr::interpret(&digest)
}

} // verus!
