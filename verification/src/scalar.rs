//! Elements of the BN254 scalar field, held as plain 64-bit limbs.
//!
//! A `Scalar` stores the four little-endian limbs of an integer; its view is
//! that integer reduced modulo the field order. All arithmetic is delegated
//! to `ark_bn254::Fr` through trusted wrappers whose contracts speak only of
//! the reduced integer values.
use vstd::prelude::*;

verus! {

/// The order of the BN254 scalar field (a prime), written as
/// `hi * 2^128 + lo` because the full literal exceeds 128 bits.
pub open spec fn fr_order() -> int {
    0x30644e72e131a029b85045b68181585d as int * 0x10000000000000000 * 0x10000000000000000
        + 0x2833e84879b9709143e1f593f0000001
}

/// The integer denoted by four little-endian 64-bit limbs.
pub open spec fn limbs_int(l: [u64; 4]) -> int {
    l[0] as int + l[1] * 0x10000000000000000
        + l[2] * 0x10000000000000000 * 0x10000000000000000
        + l[3] * 0x10000000000000000 * 0x10000000000000000 * 0x10000000000000000
}

/// One scalar-field element. The limbs are the little-endian canonical
/// representative when the value was produced by this library; arbitrary
/// limbs are accepted and are read modulo the field order.
#[derive(Clone, Copy, Debug)]
pub struct Scalar {
    pub limbs: [u64; 4],
}

impl View for Scalar {
    type V = int;

    open spec fn view(&self) -> int {
        limbs_int(self.limbs) % fr_order()
    }
}

impl Scalar {
    /// The scalar with the given small value.
    pub fn from_u64(n: u64) -> (r: Scalar)
        ensures
            r@ == n as int,
    {
        let r = Scalar { limbs: [n, 0, 0, 0] };
        proof {
            assert(limbs_int(r.limbs) == n as int);
            assert(0 <= n as int && (n as int) < fr_order());
            assert(n as int % fr_order() == n as int) by {
                vstd::arithmetic::div_mod::lemma_small_mod(n as nat, fr_order() as nat);
            }
        }
        r
    }
}

/// A scalar's view is a reduced residue: at least zero and below the field
/// order.
pub proof fn lemma_scalar_bound(s: Scalar)
    ensures
        0 <= s@ < fr_order(),
{
    vstd::arithmetic::div_mod::lemma_mod_bound(limbs_int(s.limbs), fr_order());
}

/// The sequence of reduced integer values of a sequence of scalars.
pub open spec fn scalar_seq(s: Seq<Scalar>) -> Seq<int> {
    s.map_values(|x: Scalar| x@)
}

/// Relies on `ark_bn254::Fr` addition: field elements add modulo the prime
/// order of the field.
#[verifier::external_body]
pub fn fr_add(a: &Scalar, b: &Scalar) -> (r: Scalar)
    ensures
        r@ == (a@ + b@) % fr_order(),
{
    let f = |s: &Scalar| {
        let mut b = [0u8; 32];
        for i in 0..4 { b[8 * i..8 * i + 8].copy_from_slice(&s.limbs[i].to_le_bytes()); }
        <ark_bn254::Fr as ark_ff::PrimeField>::from_le_bytes_mod_order(&b)
    };
    let x = f(a) + f(b);
    Scalar { limbs: ark_ff::PrimeField::into_bigint(x).0 }
}

/// Relies on `ark_bn254::Fr` subtraction: field elements subtract modulo the
/// prime order of the field.
#[verifier::external_body]
pub fn fr_sub(a: &Scalar, b: &Scalar) -> (r: Scalar)
    ensures
        r@ == (a@ - b@) % fr_order(),
{
    let f = |s: &Scalar| {
        let mut b = [0u8; 32];
        for i in 0..4 { b[8 * i..8 * i + 8].copy_from_slice(&s.limbs[i].to_le_bytes()); }
        <ark_bn254::Fr as ark_ff::PrimeField>::from_le_bytes_mod_order(&b)
    };
    let x = f(a) - f(b);
    Scalar { limbs: ark_ff::PrimeField::into_bigint(x).0 }
}

/// Relies on `ark_bn254::Fr` multiplication: field elements multiply modulo
/// the prime order of the field.
#[verifier::external_body]
pub fn fr_mul(a: &Scalar, b: &Scalar) -> (r: Scalar)
    ensures
        r@ == (a@ * b@) % fr_order(),
{
    let f = |s: &Scalar| {
        let mut b = [0u8; 32];
        for i in 0..4 { b[8 * i..8 * i + 8].copy_from_slice(&s.limbs[i].to_le_bytes()); }
        <ark_bn254::Fr as ark_ff::PrimeField>::from_le_bytes_mod_order(&b)
    };
    let x = f(a) * f(b);
    Scalar { limbs: ark_ff::PrimeField::into_bigint(x).0 }
}

/// Relies on `ark_ff::Field::inverse`: it returns the multiplicative inverse
/// of a nonzero field element and `None` for zero.
#[verifier::external_body]
pub fn fr_inverse(a: &Scalar) -> (r: Option<Scalar>)
    ensures
        r is Some <==> a@ != 0,
        r is Some ==> (a@ * r->Some_0@) % fr_order() == 1,
{
    let f = |s: &Scalar| {
        let mut b = [0u8; 32];
        for i in 0..4 { b[8 * i..8 * i + 8].copy_from_slice(&s.limbs[i].to_le_bytes()); }
        <ark_bn254::Fr as ark_ff::PrimeField>::from_le_bytes_mod_order(&b)
    };
    let x: Option<ark_bn254::Fr> = ark_ff::Field::inverse(&f(a));
    x.map(|v| Scalar { limbs: ark_ff::PrimeField::into_bigint(v).0 })
}

/// Relies on `ark_bn254::Fr` equality: two field elements are equal exactly
/// when their canonical integer representatives are equal.
#[verifier::external_body]
pub fn fr_eq(a: &Scalar, b: &Scalar) -> (r: bool)
    ensures
        r == (a@ == b@),
{
    let f = |s: &Scalar| {
        let mut b = [0u8; 32];
        for i in 0..4 { b[8 * i..8 * i + 8].copy_from_slice(&s.limbs[i].to_le_bytes()); }
        <ark_bn254::Fr as ark_ff::PrimeField>::from_le_bytes_mod_order(&b)
    };
    f(a) == f(b)
}

} // verus!
