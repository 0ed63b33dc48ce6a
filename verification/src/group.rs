//! The two pairing groups of BN254 and the pairing target, behind trusted
//! wrappers.
//!
//! Both `G1` and `G2` are cyclic of the same prime order as the scalar
//! field, so every point is determined by its index with respect to the
//! fixed standard generator. The uninterpreted functions `g1_dlog` and
//! `g2_dlog` name that index; every group operation is specified as modular
//! arithmetic on it. The pairing lands in the subgroup of `Fq12` of the same
//! order (`in_gt` names membership, `gt_dlog` the index with respect to the
//! pairing of the two standard generators), and is bilinear: `e(P, Q)` has
//! index `g1_dlog(P) * g2_dlog(Q)`. Nothing is assumed of `Fq12` values
//! outside that subgroup.
//!
//! The three element types are opaque: Verus refuses a declaration of the
//! arkworks point types themselves (their generic parameters are bound by
//! external traits), so each is held in a private field of an
//! `external_body` struct, and only the wrappers below touch it.
use vstd::prelude::*;

use crate::scalar::{fr_order, Scalar};

verus! {

/// A point of the first pairing group; its view is its generator index.
#[verifier::external_body]
pub struct G1Elem {
    inner: ark_bn254::G1Projective,
}

/// A point of the second pairing group; its view is its generator index.
#[verifier::external_body]
pub struct G2Elem {
    inner: ark_bn254::G2Projective,
}

/// A value of the pairing target field `Fq12`; its view is its subgroup
/// index when it lies in the pairing subgroup.
#[verifier::external_body]
pub struct GtElem {
    inner: ark_bn254::Fq12,
}

/// The index of a BN254 `G1` point with respect to the standard generator,
/// as an integer in `[0, fr_order())`.
pub uninterp spec fn g1_dlog(p: G1Elem) -> int;

/// The index of a BN254 `G2` point with respect to the standard generator,
/// as an integer in `[0, fr_order())`.
pub uninterp spec fn g2_dlog(p: G2Elem) -> int;

/// Membership in the order-`fr_order()` subgroup of `Fq12` that the BN254
/// pairing maps into.
pub uninterp spec fn in_gt(x: GtElem) -> bool;

/// The index of an element of that subgroup with respect to the pairing of
/// the two standard generators, as an integer in `[0, fr_order())`.
pub uninterp spec fn gt_dlog(x: GtElem) -> int;

impl View for G1Elem {
    type V = int;

    open spec fn view(&self) -> int {
        g1_dlog(*self)
    }
}

impl View for G2Elem {
    type V = int;

    open spec fn view(&self) -> int {
        g2_dlog(*self)
    }
}

impl View for GtElem {
    type V = int;

    open spec fn view(&self) -> int {
        gt_dlog(*self)
    }
}

/// Relies on the standard BN254 `G1` generator, the base of `g1_dlog`.
#[verifier::external_body]
pub fn g1_generator() -> (r: G1Elem)
    ensures
        g1_dlog(r) == 1,
{
    G1Elem { inner: <ark_bn254::G1Projective as ark_ec::Group>::generator() }
}

/// Relies on BN254 `G1` addition: adding two points adds their generator
/// indices modulo the group order.
#[verifier::external_body]
pub fn g1_add(a: &G1Elem, b: &G1Elem) -> (r: G1Elem)
    ensures
        g1_dlog(r) == (g1_dlog(*a) + g1_dlog(*b)) % fr_order(),
{
    G1Elem { inner: a.inner + b.inner }
}

/// Relies on BN254 `G1` subtraction: the generator indices subtract modulo
/// the group order.
#[verifier::external_body]
pub fn g1_sub(a: &G1Elem, b: &G1Elem) -> (r: G1Elem)
    ensures
        g1_dlog(r) == (g1_dlog(*a) - g1_dlog(*b)) % fr_order(),
{
    G1Elem { inner: a.inner - b.inner }
}

/// Relies on BN254 `G1` negation: it negates the generator index modulo the
/// group order.
#[verifier::external_body]
pub fn g1_neg(a: &G1Elem) -> (r: G1Elem)
    ensures
        g1_dlog(r) == (0 - g1_dlog(*a)) % fr_order(),
{
    G1Elem { inner: -a.inner }
}

/// Relies on BN254 `G1` scalar multiplication: it multiplies the generator
/// index by the scalar modulo the group order.
#[verifier::external_body]
pub fn g1_mul(p: &G1Elem, s: &Scalar) -> (r: G1Elem)
    ensures
        g1_dlog(r) == (s@ * g1_dlog(*p)) % fr_order(),
{
    let f = |s: &Scalar| {
        let mut b = [0u8; 32];
        for i in 0..4 { b[8 * i..8 * i + 8].copy_from_slice(&s.limbs[i].to_le_bytes()); }
        <ark_bn254::Fr as ark_ff::PrimeField>::from_le_bytes_mod_order(&b)
    };
    G1Elem { inner: p.inner * f(s) }
}

/// Relies on the BN254 `G1` identity point, whose generator index is zero.
#[verifier::external_body]
pub fn g1_zero() -> (r: G1Elem)
    ensures
        g1_dlog(r) == 0,
{
    G1Elem { inner: <ark_bn254::G1Projective as ark_std::Zero>::zero() }
}

/// Relies on the point type being plain data: the copy is the same point.
#[verifier::external_body]
pub fn g1_dup(a: &G1Elem) -> (r: G1Elem)
    ensures
        g1_dlog(r) == g1_dlog(*a),
{
    G1Elem { inner: a.inner }
}

/// Relies on the point type being plain data: the copy is the same point.
#[verifier::external_body]
pub fn g2_dup(a: &G2Elem) -> (r: G2Elem)
    ensures
        g2_dlog(r) == g2_dlog(*a),
{
    G2Elem { inner: a.inner }
}

/// Relies on the standard BN254 `G2` generator, the base of `g2_dlog`.
#[verifier::external_body]
pub fn g2_generator() -> (r: G2Elem)
    ensures
        g2_dlog(r) == 1,
{
    G2Elem { inner: <ark_bn254::G2Projective as ark_ec::Group>::generator() }
}

/// Relies on BN254 `G2` addition: adding two points adds their generator
/// indices modulo the group order.
#[verifier::external_body]
pub fn g2_add(a: &G2Elem, b: &G2Elem) -> (r: G2Elem)
    ensures
        g2_dlog(r) == (g2_dlog(*a) + g2_dlog(*b)) % fr_order(),
{
    G2Elem { inner: a.inner + b.inner }
}

/// Relies on BN254 `G2` subtraction: the generator indices subtract modulo
/// the group order.
#[verifier::external_body]
pub fn g2_sub(a: &G2Elem, b: &G2Elem) -> (r: G2Elem)
    ensures
        g2_dlog(r) == (g2_dlog(*a) - g2_dlog(*b)) % fr_order(),
{
    G2Elem { inner: a.inner - b.inner }
}

/// Relies on BN254 `G2` negation: it negates the generator index modulo the
/// group order.
#[verifier::external_body]
pub fn g2_neg(a: &G2Elem) -> (r: G2Elem)
    ensures
        g2_dlog(r) == (0 - g2_dlog(*a)) % fr_order(),
{
    G2Elem { inner: -a.inner }
}

/// Relies on BN254 `G2` scalar multiplication: it multiplies the generator
/// index by the scalar modulo the group order.
#[verifier::external_body]
pub fn g2_mul(p: &G2Elem, s: &Scalar) -> (r: G2Elem)
    ensures
        g2_dlog(r) == (s@ * g2_dlog(*p)) % fr_order(),
{
    let f = |s: &Scalar| {
        let mut b = [0u8; 32];
        for i in 0..4 { b[8 * i..8 * i + 8].copy_from_slice(&s.limbs[i].to_le_bytes()); }
        <ark_bn254::Fr as ark_ff::PrimeField>::from_le_bytes_mod_order(&b)
    };
    G2Elem { inner: p.inner * f(s) }
}

/// Relies on the BN254 `G2` identity point, whose generator index is zero.
#[verifier::external_body]
pub fn g2_zero() -> (r: G2Elem)
    ensures
        g2_dlog(r) == 0,
{
    G2Elem { inner: <ark_bn254::G2Projective as ark_std::Zero>::zero() }
}

/// Relies on the BN254 pairing being bilinear and non-degenerate: the result
/// lies in the pairing subgroup and its index is the product of the two
/// points' generator indices.
#[verifier::external_body]
pub fn pairing(p: &G1Elem, q: &G2Elem) -> (r: GtElem)
    ensures
        in_gt(r),
        gt_dlog(r) == (g1_dlog(*p) * g2_dlog(*q)) % fr_order(),
{
    GtElem { inner: <ark_bn254::Bn254 as ark_ec::pairing::Pairing>::pairing(p.inner, q.inner).0 }
}

/// Relies on `Fq12` multiplication restricted to the pairing subgroup, where
/// it adds subgroup indices modulo the group order.
#[verifier::external_body]
pub fn gt_mul(a: &GtElem, b: &GtElem) -> (r: GtElem)
    ensures
        in_gt(*a) && in_gt(*b) ==> in_gt(r) && gt_dlog(r) == (gt_dlog(*a) + gt_dlog(*b))
            % fr_order(),
{
    GtElem { inner: a.inner * b.inner }
}

/// Relies on `Fq12` equality: inside the pairing subgroup two elements are
/// equal exactly when their subgroup indices are equal.
#[verifier::external_body]
pub fn gt_eq(a: &GtElem, b: &GtElem) -> (r: bool)
    ensures
        in_gt(*a) && in_gt(*b) ==> r == (gt_dlog(*a) == gt_dlog(*b)),
{
    a.inner == b.inner
}

/// Relies on `Fq12::is_one`: inside the pairing subgroup only the element of
/// index zero is the multiplicative unit.
#[verifier::external_body]
pub fn gt_is_one(a: &GtElem) -> (r: bool)
    ensures
        in_gt(*a) ==> r == (gt_dlog(*a) == 0),
{
    ark_std::One::is_one(&a.inner)
}

} // verus!
