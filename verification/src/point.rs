//! Curve points of the BLS12-377 G1 group, and the group arithmetic the
//! engine consumes from the `ark` curve library.
//!
//! G1 is cyclic of prime order `r` (the scalar-field modulus), generated by
//! the standard subgroup generator `G`. Every point this library constructs
//! lies in that subgroup, so it is some multiple `k * G`; the ghost field
//! `log` of each point type carries one such exponent `k`, and the view of a
//! point is that exponent. Two points are equal in the group exactly when
//! their exponents agree modulo `r`, and the identity is the point whose
//! exponent is divisible by `r`. Each trusted wrapper below performs one
//! `ark` group operation on the concrete coordinates and states how the
//! operation moves the exponent; the rest of the library is verified
//! against those statements alone.

use vstd::prelude::*;
use ark_ec::short_weierstrass_jacobian::{GroupAffine, GroupProjective};
use ark_ec::{AffineCurve, ProjectiveCurve};
use ark_std::Zero;
use ark_bls12_377::g1::Parameters as G1Parameters;

verus! {

/// Opaque holder for an `ark` affine G1 point (`GroupAffine` is generic
/// over an outside trait, so the type itself cannot be declared to Verus).
#[verifier::external_body]
struct AffineRepr {
    value: GroupAffine<G1Parameters>,
}

/// Opaque holder for an `ark` projective (Jacobian) G1 point.
#[verifier::external_body]
struct ProjRepr {
    value: GroupProjective<G1Parameters>,
}

/// The order of the G1 subgroup: the BLS12-377 scalar-field modulus `r`.
pub open spec fn fr_order() -> nat {
    8444461749428370424248824938781546531375899335154063827935233455917409239041nat
}

/// An affine G1 point equal to `log * G` for the subgroup generator `G`.
pub struct AffinePoint {
    repr: AffineRepr,
    log: Ghost<nat>,
}

/// A projective (Jacobian) G1 point equal to `log * G`.
pub struct ProjPoint {
    repr: ProjRepr,
    log: Ghost<nat>,
}

impl View for AffinePoint {
    type V = nat;

    closed spec fn view(&self) -> nat {
        self.log@
    }
}

impl View for ProjPoint {
    type V = nat;

    closed spec fn view(&self) -> nat {
        self.log@
    }
}

/// The subgroup generator `G`, exponent 1.
/// Relies on `ark_ec::AffineCurve::prime_subgroup_generator`.
#[verifier::external_body]
pub fn affine_generator() -> (p: AffinePoint)
    ensures
        p@ == 1,
{
    AffinePoint {
        repr: AffineRepr { value: GroupAffine::prime_subgroup_generator() },
        log: Ghost(1),
    }
}

/// The group identity (point at infinity), exponent 0.
/// Relies on `Zero::zero` for `ark_ec`'s `GroupAffine`.
#[verifier::external_body]
pub fn affine_identity() -> (p: AffinePoint)
    ensures
        p@ == 0,
{
    AffinePoint { repr: AffineRepr { value: GroupAffine::zero() }, log: Ghost(0) }
}

/// The group identity in projective coordinates, exponent 0.
/// Relies on `Zero::zero` for `ark_ec`'s `GroupProjective`.
#[verifier::external_body]
pub fn proj_identity() -> (p: ProjPoint)
    ensures
        p@ == 0,
{
    ProjPoint { repr: ProjRepr { value: GroupProjective::zero() }, log: Ghost(0) }
}

/// Group addition: `(a*G) + (b*G) == (a+b)*G`.
/// Relies on `core::ops::Add` for `ark_ec`'s `GroupProjective` (the Jacobian
/// group law).
#[verifier::external_body]
pub fn proj_add(a: &ProjPoint, b: &ProjPoint) -> (r: ProjPoint)
    ensures
        r@ == a@ + b@,
{
    ProjPoint { repr: ProjRepr { value: a.repr.value + b.repr.value }, log: Ghost(0) }
}

/// Group doubling: `2 * (a*G) == (2a)*G`.
/// Relies on `ark_ec::ProjectiveCurve::double`.
#[verifier::external_body]
pub fn proj_double(a: &ProjPoint) -> (r: ProjPoint)
    ensures
        r@ == 2 * a@,
{
    ProjPoint { repr: ProjRepr { value: a.repr.value.double() }, log: Ghost(0) }
}

/// Conversion to projective coordinates; the point, hence its exponent, is
/// unchanged. Relies on `ark_ec::AffineCurve::into_projective`.
#[verifier::external_body]
pub fn affine_to_proj(a: &AffinePoint) -> (r: ProjPoint)
    ensures
        r@ == a@,
{
    ProjPoint { repr: ProjRepr { value: a.repr.value.into_projective() }, log: Ghost(0) }
}

/// Conversion to affine coordinates; the point, hence its exponent, is
/// unchanged. Relies on `ark_ec::ProjectiveCurve::into_affine`.
#[verifier::external_body]
pub fn proj_to_affine(p: &ProjPoint) -> (r: AffinePoint)
    ensures
        r@ == p@,
{
    AffinePoint { repr: AffineRepr { value: p.repr.value.into_affine() }, log: Ghost(0) }
}

/// Whether an affine point is the group identity: `k*G` is the identity
/// exactly when `r` divides `k`, since `G` has order `r`.
/// Relies on `Zero::is_zero` for `ark_ec`'s `GroupAffine` (the stored
/// infinity flag).
#[verifier::external_body]
pub fn affine_is_identity(a: &AffinePoint) -> (r: bool)
    ensures
        r <==> a@ % fr_order() == 0,
{
    a.repr.value.is_zero()
}

/// Whether a projective point is the group identity (see
/// `affine_is_identity`). Relies on `Zero::is_zero` for `ark_ec`'s
/// `GroupProjective` (`z == 0`).
#[verifier::external_body]
pub fn proj_is_identity(p: &ProjPoint) -> (r: bool)
    ensures
        r <==> p@ % fr_order() == 0,
{
    p.repr.value.is_zero()
}

/// Group equality: `a*G == b*G` exactly when `a == b` modulo the generator's
/// order `r`. Relies on `PartialEq` for `ark_ec`'s `GroupProjective`, which
/// compares the underlying group elements across coordinate scalings.
#[verifier::external_body]
pub fn proj_eq(a: &ProjPoint, b: &ProjPoint) -> (r: bool)
    ensures
        r <==> a@ % fr_order() == b@ % fr_order(),
{
    a.repr.value == b.repr.value
}

} // verus!
