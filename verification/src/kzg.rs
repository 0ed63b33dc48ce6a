//! The KZG polynomial commitment scheme over BN254.
//!
//! The CRS holds the two generators scaled by the powers of a secret
//! scalar τ; τ itself survives only as a ghost value, which is what the
//! contracts of `commit`, `open` and the verifiers are stated over: a
//! commitment is the polynomial's value at τ in the exponent, an opening
//! proof is a committed quotient, and each verifier decides exactly one
//! congruence among those exponents. The laws at the bottom connect them:
//! honestly produced proofs always verify, and the three single-point
//! verifiers decide the same congruence.
use vstd::prelude::*;

use vstd::arithmetic::power::pow;

use crate::arith::{
    cong, lemma_cong_add, lemma_cong_mul, lemma_cong_sub, lemma_mod_add, lemma_mod_cong,
    lemma_mod_mul, lemma_mod_sub, lemma_poly_eval_take_step, lemma_poly_eval_zero,
    lemma_poly_eval_zero_tail, lemma_prod_roots_zero, poly_eval, prod_roots,
};
use crate::errors::Error;
use crate::group::{
    g1_add, g1_mul, g1_neg, g1_sub, g1_zero, g2_add, g2_mul, g2_sub, g2_zero, gt_eq, gt_is_one,
    gt_mul, pairing, G1Elem, G2Elem,
};
use crate::lagrange::{compute_lagrange_interpolation, distinct_points};
use crate::poly::{build_zero_polynomial, poly_div_rem, poly_sub, Polynomial};
use crate::scalar::{fr_eq, fr_mul, fr_order, fr_sub, lemma_scalar_bound, scalar_seq, Scalar};

verus! {

/// Whether a coefficient sequence stays within degree `d`: every
/// coefficient beyond index `d` is zero.
pub open spec fn degree_within(c: Seq<int>, d: int) -> bool {
    forall|i: int| d < i < c.len() ==> c[i] == 0
}

/// The single-point verification equation, over generator indices:
/// `e(π, vk - z g2) = e(C - y g1, g2)`.
pub open spec fn single_open_accepts(
    g1v: int,
    g2v: int,
    vkv: int,
    y: int,
    z: int,
    cv: int,
    piv: int,
) -> bool {
    cong(piv * (vkv - z * g2v), (cv - y * g1v) * g2v)
}

/// A KZG commitment scheme instance: two generators, the common reference
/// string for both groups, and the verification key `g2 τ`. The secret τ
/// is kept only as a ghost value.
pub struct KZG {
    pub g1: G1Elem,
    pub g2: G2Elem,
    pub degree: usize,
    pub crs: Vec<G1Elem>,
    pub crs_2: Vec<G2Elem>,
    pub vk: G2Elem,
    pub tau: Ghost<int>,
}

impl KZG {
    /// The CRS matches the degree bound and holds the powers of τ behind
    /// both generators, and the verification key is `g2 τ`.
    pub open spec fn wf(&self) -> bool {
        &&& self.crs@.len() == self.degree + 1
        &&& self.crs_2@.len() == self.degree + 1
        &&& forall|i: int|
            0 <= i < self.crs@.len() ==> (#[trigger] self.crs@[i])@ == (pow(self.tau@, i as nat)
                * self.g1@) % fr_order()
        &&& forall|i: int|
            0 <= i < self.crs_2@.len() ==> (#[trigger] self.crs_2@[i])@ == (pow(self.tau@, i as nat)
                * self.g2@) % fr_order()
        &&& self.vk@ == (self.tau@ * self.g2@) % fr_order()
    }

    /// A scheme over the given generators with an empty reference string;
    /// `setup` must run before any commitment.
    pub fn new(g1: G1Elem, g2: G2Elem, degree: usize) -> (r: KZG)
        requires
            degree < usize::MAX,
        ensures
            r.g1 == g1,
            r.g2 == g2,
            r.degree == degree,
            r.crs@.len() == 0,
            r.crs_2@.len() == 0,
            r.vk@ == g2@,
    {
        let vk = crate::group::g2_dup(&g2);
        KZG { g1, g2, degree, crs: Vec::new(), crs_2: Vec::new(), vk, tau: Ghost(0) }
    }

    /// Fills the reference string with `g1 τ^i` and `g2 τ^i` for
    /// `i = 0 .. degree` and sets the verification key to `g2 τ`. The
    /// secret τ must be discarded by the caller afterwards.
    pub fn setup(&mut self, tau: Scalar)
        requires
            old(self).crs@.len() == 0,
            old(self).crs_2@.len() == 0,
            old(self).degree < usize::MAX,
        ensures
            final(self).wf(),
            final(self).tau@ == tau@,
            final(self).g1 == old(self).g1,
            final(self).g2 == old(self).g2,
            final(self).degree == old(self).degree,
    {
        self.tau = Ghost(tau@);
        let vk = g2_mul(&self.g2, &tau);
        let mut tau_i = Scalar::from_u64(1);
        let mut i: usize = 0;
        proof {
            vstd::arithmetic::power::lemma_pow0(tau@);
            vstd::arithmetic::div_mod::lemma_small_mod(1 as nat, fr_order() as nat);
        }
        while i < self.degree + 1
            invariant
                i <= self.degree + 1,
                self.degree < usize::MAX,
                self.g1 == old(self).g1,
                self.g2 == old(self).g2,
                self.degree == old(self).degree,
                self.vk == old(self).vk,
                self.tau@ == tau@,
                self.crs@.len() == i,
                self.crs_2@.len() == i,
                tau_i@ == pow(tau@, i as nat) % fr_order(),
                forall|k: int|
                    0 <= k < i ==> (#[trigger] self.crs@[k])@ == (pow(tau@, k as nat) * self.g1@)
                        % fr_order(),
                forall|k: int|
                    0 <= k < i ==> (#[trigger] self.crs_2@[k])@ == (pow(tau@, k as nat) * self.g2@)
                        % fr_order(),
            decreases self.degree + 1 - i,
        {
            let crs_point_g1 = g1_mul(&self.g1, &tau_i);
            let crs_point_g2 = g2_mul(&self.g2, &tau_i);
            let next_tau_i = fr_mul(&tau_i, &tau);
            proof {
                let pw = pow(tau@, i as nat);
                // the pushed points carry tau^i behind each generator
                lemma_mod_mul(pw, self.g1@);
                lemma_mod_mul(pw, self.g2@);
                // the running power advances by one
                lemma_mod_mul(pw, tau@);
                crate::arith::lemma_mul_comm(pw, tau@);
                assert(((i + 1) as nat) == (i as nat) + 1);
                vstd::arithmetic::power::lemma_pow_adds(tau@, i as nat, 1);
                vstd::arithmetic::power::lemma_pow1(tau@);
                crate::arith::lemma_mul_comm(pw, pow(tau@, 1));
            }
            self.crs.push(crs_point_g1);
            self.crs_2.push(crs_point_g2);
            tau_i = next_tau_i;
            i = i + 1;
        }
        self.vk = vk;
    }

    /// The commitment `sum of crs[i] coeff[i]`: the polynomial's value at τ
    /// behind `g1`. A polynomial whose degree exceeds the CRS bound is
    /// rejected, never truncated.
    pub fn commit(&self, polynomial: &Polynomial) -> (r: Result<G1Elem, Error>)
        requires
            self.wf(),
        ensures
            r is Ok <==> degree_within(polynomial@, self.degree as int),
            r is Err ==> r->Err_0 == Error::DegreeExceeded,
            r is Ok ==> r->Ok_0@ == (poly_eval(polynomial@, self.tau@) * self.g1@) % fr_order(),
    {
        let trimmed = polynomial.trim();
        if trimmed.coeffs.len() >= 1 && trimmed.coeffs.len() - 1 > self.degree {
            proof {
                assert(polynomial@[trimmed@.len() - 1] != 0);
                assert(!degree_within(polynomial@, self.degree as int));
            }
            return Result::Err(Error::DegreeExceeded);
        }
        proof {
            assert(trimmed@.len() <= self.degree + 1);
            assert(degree_within(polynomial@, self.degree as int));
        }
        let acc = msm_g1(&self.crs, &trimmed.coeffs, Ghost(self.tau@), Ghost(self.g1@));
        proof {
            assert(degree_within(polynomial@, self.degree as int));
            assert(scalar_seq(trimmed.coeffs@) =~= polynomial@.take(trimmed@.len() as int));
            lemma_poly_eval_zero_tail(polynomial@, trimmed@.len() as int, self.tau@);
        }
        Result::Ok(acc)
    }

    /// A single-point opening proof for the claim `polynomial(z) = y`: the
    /// committed quotient `(polynomial - y) / (X - z)`. A claim that does
    /// not match the polynomial leaves a nonzero remainder and is rejected.
    pub fn open(&self, polynomial: &Polynomial, z: Scalar, y: Scalar) -> (r: Result<
        G1Elem,
        Error,
    >)
        requires
            self.wf(),
        ensures
            r is Ok <==> degree_within(polynomial@, self.degree as int) && y@ == poly_eval(
                polynomial@,
                z@,
            ) % fr_order(),
            r is Err && r->Err_0 == Error::DegreeExceeded <==> !degree_within(
                polynomial@,
                self.degree as int,
            ),
            r is Err && r->Err_0 == Error::InconsistentEvaluation <==> degree_within(
                polynomial@,
                self.degree as int,
            ) && y@ != poly_eval(polynomial@, z@) % fr_order(),
            r is Ok ==> cong(
                r->Ok_0@ * (self.tau@ - z@),
                (poly_eval(polynomial@, self.tau@) - y@) * self.g1@,
            ),
    {
        let trimmed = polynomial.trim();
        if trimmed.coeffs.len() >= 1 && trimmed.coeffs.len() - 1 > self.degree {
            proof {
                assert(polynomial@[trimmed@.len() - 1] != 0);
                assert(!degree_within(polynomial@, self.degree as int));
            }
            return Result::Err(Error::DegreeExceeded);
        }
        proof {
            assert(trimmed@.len() <= self.degree + 1);
            assert(degree_within(polynomial@, self.degree as int));
        }
        let zero = Scalar::from_u64(0);
        let one = Scalar::from_u64(1);
        let mut y_coeffs: Vec<Scalar> = Vec::new();
        y_coeffs.push(y);
        let y_polynomial = Polynomial { coeffs: y_coeffs };
        let numerator = poly_sub(&trimmed, &y_polynomial);
        let mut den_coeffs: Vec<Scalar> = Vec::new();
        den_coeffs.push(fr_sub(&zero, &z));
        den_coeffs.push(one);
        let denominator = Polynomial { coeffs: den_coeffs };
        proof {
            assert(denominator@[1] == 1);
            assert(exists|i: int| 0 <= i < denominator@.len() && denominator@[i] != 0);
        }
        let (q, rem) = poly_div_rem(&numerator, &denominator);
        let ghost pe_z = poly_eval(polynomial@, z@);
        proof {
            // the remainder is the constant `polynomial(z) - y`, up to
            // congruence
            lemma_open_remainder(
                polynomial@,
                trimmed@,
                numerator@,
                denominator@,
                q@,
                rem@,
                y@,
                z@,
            );
        }
        let rem_is_zero = if rem.coeffs.len() == 0 {
            true
        } else {
            fr_eq(&rem.coeffs[0], &zero)
        };
        if !rem_is_zero {
            proof {
                lemma_scalar_bound(rem.coeffs@[0]);
                assert(rem@.drop_last() =~= Seq::<int>::empty());
                assert(poly_eval(Seq::<int>::empty(), z@) == 0);
                vstd::arithmetic::power::lemma_pow0(z@);
                vstd::arithmetic::mul::lemma_mul_basics(rem@[0]);
                assert(poly_eval(rem@, z@) == rem@[0]);
                if y@ == poly_eval(polynomial@, z@) % fr_order() {
                    assert(cong(poly_eval(rem@, z@), pe_z - y@));
                    assert(cong(rem@[0], pe_z - y@));
                    lemma_mod_sub(pe_z, y@);
                    vstd::arithmetic::div_mod::lemma_small_mod(y@ as nat, fr_order() as nat);
                    lemma_scalar_bound(y);
                    vstd::arithmetic::div_mod::lemma_small_mod(0 as nat, fr_order() as nat);
                    assert((pe_z - y@) % fr_order() == 0) by {
                        assert(((pe_z % fr_order()) - (y@ % fr_order())) % fr_order() == ((pe_z
                            % fr_order()) - y@) % fr_order());
                    }
                    assert(rem@[0] % fr_order() == 0);
                    crate::arith::lemma_small_diff_zero(rem@[0], 0);
                }
            }
            return Result::Err(Error::InconsistentEvaluation);
        }
        proof {
            // an all-zero remainder certifies y = polynomial(z)
            assert forall|i: int| 0 <= i < rem@.len() implies cong(#[trigger] rem@[i], 0) by {
                vstd::arithmetic::div_mod::lemma_small_mod(0 as nat, fr_order() as nat);
                lemma_scalar_bound(rem.coeffs@[0]);
            }
            lemma_poly_eval_zero(rem@, z@);
            assert(cong(0, pe_z - y@));
            lemma_scalar_bound(y);
            vstd::arithmetic::div_mod::lemma_small_mod(y@ as nat, fr_order() as nat);
            vstd::arithmetic::div_mod::lemma_mod_bound(pe_z, fr_order());
            lemma_mod_sub(pe_z, y@);
            vstd::arithmetic::div_mod::lemma_small_mod(0 as nat, fr_order() as nat);
            crate::arith::lemma_small_diff_zero(pe_z % fr_order(), y@);
        }
        let pi = msm_g1(&self.crs, &q.coeffs, Ghost(self.tau@), Ghost(self.g1@));
        proof {
            lemma_open_proof_identity(
                polynomial@,
                trimmed@,
                numerator@,
                denominator@,
                q@,
                rem@,
                y@,
                z@,
                self.tau@,
                self.g1@,
                pi@,
            );
        }
        Result::Ok(pi)
    }

    /// The single-point pairing check:
    /// `e(π, vk - z g2) = e(commitment - y g1, g2)`.
    pub fn verify(&self, y: Scalar, z: Scalar, commitment: G1Elem, pi: G1Elem) -> (r: bool)
        ensures
            r == single_open_accepts(self.g1@, self.g2@, self.vk@, y@, z@, commitment@, pi@),
    {
        let py = g1_mul(&self.g1, &y);
        let pz = g2_mul(&self.g2, &z);
        let vk_minus = g2_sub(&self.vk, &pz);
        let lhs = pairing(&pi, &vk_minus);
        let cmy = g1_sub(&commitment, &py);
        let rhs = pairing(&cmy, &self.g2);
        let r = gt_eq(&lhs, &rhs);
        proof {
            // left: pi (vk - z g2), with the inner reductions removed
            lemma_mod_mul(z@, self.g2@);
            lemma_mod_sub(self.vk@, z@ * self.g2@);
            lemma_mod_cong(self.vk@ - z@ * self.g2@);
            lemma_mod_mul(pi@, self.vk@ - z@ * self.g2@);
            assert(lhs@ == (pi@ * ((self.vk@ - (z@ * self.g2@) % fr_order()) % fr_order()))
                % fr_order());
            lemma_mod_mul(pi@, (self.vk@ - (z@ * self.g2@) % fr_order()) % fr_order());
            lemma_cong_mul(
                pi@,
                pi@,
                (self.vk@ - (z@ * self.g2@) % fr_order()) % fr_order(),
                self.vk@ - z@ * self.g2@,
            );
            lemma_mod_cong(pi@ * (((self.vk@ - (z@ * self.g2@) % fr_order())) % fr_order()));
            // right: (commitment - y g1) g2
            lemma_mod_mul(y@, self.g1@);
            lemma_mod_sub(commitment@, y@ * self.g1@);
            lemma_mod_mul(commitment@ - y@ * self.g1@, self.g2@);
            lemma_mod_cong((commitment@ - y@ * self.g1@) * self.g2@);
        }
        r
    }

    /// The same check as `verify`, rearranged so that no scalar
    /// multiplication happens in the second group:
    /// `e(π, vk) e(z π, -g2) = e(commitment - y g1, g2)`.
    pub fn verify_no_g2_ops(&self, y: Scalar, z: Scalar, commitment: G1Elem, pi: G1Elem) -> (r:
        bool)
        ensures
            r == cong(
                pi@ * self.vk@ - z@ * pi@ * self.g2@,
                (commitment@ - y@ * self.g1@) * self.g2@,
            ),
    {
        let py = g1_mul(&self.g1, &y);
        let g2_neg = crate::group::g2_neg(&self.g2);
        let lhs_1 = pairing(&pi, &self.vk);
        let piz = g1_mul(&pi, &z);
        let lhs_2 = pairing(&piz, &g2_neg);
        let lhs = gt_mul(&lhs_1, &lhs_2);
        let cmy = g1_sub(&commitment, &py);
        let rhs = pairing(&cmy, &self.g2);
        let r = gt_eq(&lhs, &rhs);
        proof {
            // e(z pi, -g2) carries -(z pi g2)
            lemma_mod_mul(z@, pi@);
            lemma_mod_cong(z@ * pi@);
            lemma_mod_cong(0 - self.g2@);
            lemma_cong_mul((z@ * pi@) % fr_order(), z@ * pi@, (0 - self.g2@) % fr_order(), 0
                - self.g2@);
            lemma_mod_cong(((z@ * pi@) % fr_order()) * ((0 - self.g2@) % fr_order()));
            lemma_negate_product(z@, pi@, self.g2@);
            assert(cong(lhs_2@, 0 - z@ * pi@ * self.g2@));
            // the product of the two pairings adds the indices
            lemma_mod_cong(pi@ * self.vk@);
            lemma_cong_add(
                (pi@ * self.vk@) % fr_order(),
                pi@ * self.vk@,
                lhs_2@,
                0 - z@ * pi@ * self.g2@,
            );
            lemma_mod_cong((pi@ * self.vk@) % fr_order() + lhs_2@);
            // right side as in `verify`
            lemma_mod_mul(y@, self.g1@);
            lemma_mod_sub(commitment@, y@ * self.g1@);
            lemma_mod_mul(commitment@ - y@ * self.g1@, self.g2@);
            lemma_mod_cong((commitment@ - y@ * self.g1@) * self.g2@);
        }
        r
    }

    /// The same check once more, shaped like the EVM pairing opcode: a
    /// single product of pairings compared against one:
    /// `e(π, vk) e(-z π - commitment + y g1, g2) = 1`.
    pub fn verify_no_g2_ops_evm_opcode(
        &self,
        y: Scalar,
        z: Scalar,
        commitment: G1Elem,
        pi: G1Elem,
    ) -> (r: bool)
        ensures
            r == cong(
                pi@ * self.vk@ + ((0 - z@) * pi@ - commitment@ + y@ * self.g1@) * self.g2@,
                0,
            ),
    {
        let zero = Scalar::from_u64(0);
        let py = g1_mul(&self.g1, &y);
        let lhs = pairing(&pi, &self.vk);
        let neg_z = fr_sub(&zero, &z);
        let pinz = g1_mul(&pi, &neg_z);
        let t1 = g1_sub(&pinz, &commitment);
        let t2 = g1_add(&t1, &py);
        let rhs = pairing(&t2, &self.g2);
        let prod = gt_mul(&lhs, &rhs);
        let r = gt_is_one(&prod);
        proof {
            // fold the chain of G1 reductions into one congruence
            lemma_mod_cong(0 - z@);
            lemma_cong_mul((0 - z@) % fr_order(), 0 - z@, pi@, pi@);
            lemma_mod_cong(((0 - z@) % fr_order()) * pi@);
            lemma_mod_cong(y@ * self.g1@);
            lemma_cong_sub(pinz@, (0 - z@) * pi@, commitment@, commitment@);
            lemma_mod_cong(pinz@ - commitment@);
            lemma_mod_mul(y@, self.g1@);
            lemma_cong_add(t1@, (0 - z@) * pi@ - commitment@, py@, y@ * self.g1@);
            lemma_mod_cong(t1@ + py@);
            lemma_cong_mul(
                t2@,
                (0 - z@) * pi@ - commitment@ + y@ * self.g1@,
                self.g2@,
                self.g2@,
            );
            lemma_mod_cong(t2@ * self.g2@);
            lemma_mod_cong(pi@ * self.vk@);
            lemma_cong_add(
                (pi@ * self.vk@) % fr_order(),
                pi@ * self.vk@,
                rhs@,
                ((0 - z@) * pi@ - commitment@ + y@ * self.g1@) * self.g2@,
            );
            lemma_mod_cong((pi@ * self.vk@) % fr_order() + rhs@);
            vstd::arithmetic::div_mod::lemma_small_mod(0 as nat, fr_order() as nat);
        }
        r
    }

    /// The single-point check for a caller who only knows `y g1`, not `y`
    /// itself: `e(π, vk - z g2) = e(commitment - py, g2)`.
    pub fn verify_from_encrypted_y(&self, py: G1Elem, z: Scalar, commitment: G1Elem, pi: G1Elem)
        -> (r: bool)
        ensures
            r == cong(pi@ * (self.vk@ - z@ * self.g2@), (commitment@ - py@) * self.g2@),
    {
        let pz = g2_mul(&self.g2, &z);
        let vk_minus = g2_sub(&self.vk, &pz);
        let lhs = pairing(&pi, &vk_minus);
        let cmy = g1_sub(&commitment, &py);
        let rhs = pairing(&cmy, &self.g2);
        let r = gt_eq(&lhs, &rhs);
        proof {
            lemma_mod_mul(z@, self.g2@);
            lemma_mod_sub(self.vk@, z@ * self.g2@);
            lemma_mod_cong(self.vk@ - z@ * self.g2@);
            lemma_cong_mul(
                pi@,
                pi@,
                (self.vk@ - (z@ * self.g2@) % fr_order()) % fr_order(),
                self.vk@ - z@ * self.g2@,
            );
            lemma_mod_cong(pi@ * (((self.vk@ - (z@ * self.g2@) % fr_order())) % fr_order()));
            lemma_mod_sub(commitment@, py@);
            lemma_mod_cong(commitment@ - py@);
            lemma_cong_mul((commitment@ - py@) % fr_order(), commitment@ - py@, self.g2@, self.g2@);
            lemma_mod_cong(((commitment@ - py@) % fr_order()) * self.g2@);
        }
        r
    }

    /// A batch opening proof for the polynomial at a set of distinct query
    /// points: the committed quotient `(polynomial - L) / Z` in the second
    /// group, together with the interpolant `L` and the vanishing
    /// polynomial `Z` for the verifier to check against. The evaluations
    /// are the polynomial's own, so the division remainder is provably
    /// zero, and a nonempty, duplicate-free query set within the degree
    /// bound always succeeds. The point-count bound is the multiplication
    /// wrapper's FFT limit.
    pub fn multi_open(&self, polynomial: &Polynomial, z_values: &Vec<Scalar>) -> (r: Result<
        (G2Elem, Polynomial, Polynomial),
        Error,
    >)
        requires
            self.wf(),
            z_values@.len() + 2 <= 0x10000000,
        ensures
            r is Ok <==> z_values@.len() >= 1 && degree_within(polynomial@, self.degree as int)
                && z_values@.len() <= self.degree && distinct_points(scalar_seq(z_values@)),
            (r is Err && r->Err_0 == Error::EmptyQuerySet) <==> z_values@.len() == 0,
            (r is Err && r->Err_0 == Error::DegreeExceeded) <==> z_values@.len() >= 1 && (
            !degree_within(polynomial@, self.degree as int) || z_values@.len() > self.degree),
            (r is Err && r->Err_0 == Error::DuplicateQueryPoint) <==> z_values@.len() >= 1
                && degree_within(polynomial@, self.degree as int) && z_values@.len() <= self.degree
                && !distinct_points(scalar_seq(z_values@)),
            r is Ok ==> r->Ok_0.1@.len() <= z_values@.len(),
            r is Ok ==> r->Ok_0.2@.len() == z_values@.len() + 1 && r->Ok_0.2@.last() == 1,
            r is Ok ==> forall|j: int|
                0 <= j < z_values@.len() ==> cong(
                    poly_eval(r->Ok_0.2@, #[trigger] scalar_seq(z_values@)[j]),
                    0,
                ),
            r is Ok ==> forall|j: int|
                0 <= j < z_values@.len() ==> cong(
                    poly_eval(r->Ok_0.1@, #[trigger] scalar_seq(z_values@)[j]),
                    poly_eval(polynomial@, scalar_seq(z_values@)[j]),
                ),
            r is Ok ==> cong(
                r->Ok_0.0@ * poly_eval(r->Ok_0.2@, self.tau@),
                (poly_eval(polynomial@, self.tau@) - poly_eval(r->Ok_0.1@, self.tau@)) * self.g2@,
            ),
    {
        let ghost zs = scalar_seq(z_values@);
        if z_values.len() == 0 {
            return Result::Err(Error::EmptyQuerySet);
        }
        let trimmed = polynomial.trim();
        if trimmed.coeffs.len() >= 1 && trimmed.coeffs.len() - 1 > self.degree {
            proof {
                assert(polynomial@[trimmed@.len() - 1] != 0);
                assert(!degree_within(polynomial@, self.degree as int));
            }
            return Result::Err(Error::DegreeExceeded);
        }
        if z_values.len() > self.degree {
            return Result::Err(Error::DegreeExceeded);
        }
        proof {
            assert(trimmed@.len() <= self.degree + 1);
            assert(degree_within(polynomial@, self.degree as int));
        }
        let mut y_values: Vec<Scalar> = Vec::new();
        let mut i: usize = 0;
        while i < z_values.len()
            invariant
                i <= z_values@.len(),
                zs == scalar_seq(z_values@),
                y_values@.len() == i,
                forall|t: int|
                    0 <= t < i ==> #[trigger] scalar_seq(y_values@)[t] == poly_eval(
                        trimmed@,
                        zs[t],
                    ) % fr_order(),
            decreases z_values@.len() - i,
        {
            let yv = trimmed.evaluate(&z_values[i]);
            let ghost old_ys = scalar_seq(y_values@);
            y_values.push(yv);
            proof {
                assert(z_values@[i as int]@ == zs[i as int]);
                assert forall|t: int|
                    0 <= t < i + 1 implies #[trigger] scalar_seq(y_values@)[t] == poly_eval(
                    trimmed@,
                    zs[t],
                ) % fr_order() by {
                    assert(scalar_seq(y_values@)[t] == y_values@[t]@);
                    if t < i {
                        assert(y_values@[t] == y_values@.drop_last()[t]);
                        assert(scalar_seq(y_values@)[t] == old_ys[t]);
                    } else {
                        assert(y_values@[t] == yv);
                    }
                }
            }
            i = i + 1;
        }
        let lagrange_polynomial = match compute_lagrange_interpolation(z_values, &y_values) {
            Result::Ok(l) => l,
            Result::Err(_) => {
                proof {
                    assert(!distinct_points(zs));
                }
                return Result::Err(Error::DuplicateQueryPoint);
            },
        };
        let zero_polynomial = build_zero_polynomial(z_values);
        let numerator = poly_sub(&trimmed, &lagrange_polynomial);
        proof {
            assert(zero_polynomial@.last() == 1);
            assert(zero_polynomial@[zero_polynomial@.len() - 1] != 0);
            assert(exists|k: int|
                0 <= k < zero_polynomial@.len() && zero_polynomial@[k] != 0);
        }
        let (q, rem) = poly_div_rem(&numerator, &zero_polynomial);
        let ghost ys_seq = scalar_seq(y_values@);
        proof {
            // the interpolant reproduces the computed evaluations, so the
            // division remainder vanishes at every query point, and a
            // remainder shorter than the distinct point set is identically
            // zero: the claimed evaluations can never be inconsistent here
            assert forall|j: int| 0 <= j < zs.len() implies cong(
                poly_eval(rem@, #[trigger] zs[j]),
                0,
            ) by {
                let x = zs[j];
                vstd::arithmetic::div_mod::lemma_small_mod(0 as nat, fr_order() as nat);
                lemma_prod_roots_zero(zs, x, j);
                assert(poly_eval(zero_polynomial@, x) % fr_order() == prod_roots(zs, x)
                    % fr_order());
                assert(poly_eval(numerator@, x) % fr_order() == (poly_eval(q@, x) * poly_eval(
                    zero_polynomial@,
                    x,
                ) + poly_eval(rem@, x)) % fr_order());
                crate::poly::lemma_poly_sub_eval(trimmed@, lagrange_polynomial@, numerator@, x);
                assert(cong(poly_eval(lagrange_polynomial@, x), ys_seq[j]));
                assert(ys_seq[j] == poly_eval(trimmed@, x) % fr_order());
                lemma_scalar_bound(y_values@[j]);
                vstd::arithmetic::div_mod::lemma_small_mod(ys_seq[j] as nat, fr_order() as nat);
                lemma_mod_cong(poly_eval(trimmed@, x));
                crate::arith::lemma_cong_shift_zero(
                    poly_eval(trimmed@, x),
                    poly_eval(lagrange_polynomial@, x),
                );
                lemma_mod_cong(poly_eval(q@, x));
                lemma_cong_mul(poly_eval(q@, x), poly_eval(q@, x), poly_eval(zero_polynomial@, x), 0);
                vstd::arithmetic::mul::lemma_mul_basics(poly_eval(q@, x));
                crate::arith::lemma_cong_sub(
                    poly_eval(q@, x) * poly_eval(zero_polynomial@, x) + poly_eval(rem@, x),
                    0,
                    poly_eval(q@, x) * poly_eval(zero_polynomial@, x),
                    0,
                );
            }
            assert forall|a: int, b: int| 0 <= a < b < zs.len() implies zs[a] % fr_order() != zs[b]
                % fr_order() by {
                lemma_scalar_bound(z_values@[a]);
                lemma_scalar_bound(z_values@[b]);
                vstd::arithmetic::div_mod::lemma_small_mod(zs[a] as nat, fr_order() as nat);
                vstd::arithmetic::div_mod::lemma_small_mod(zs[b] as nat, fr_order() as nat);
            }
            assert(rem@.len() <= zs.len());
            assert(crate::arith::annihilating_points(rem@, zs));
            assert(forall|t: int| 0 <= t < rem@.len() ==> #[trigger] rem@[t] == 0);
        }
        let pi = msm_g2(&self.crs_2, &q.coeffs, Ghost(self.tau@), Ghost(self.g2@));
        proof {
            assert(scalar_seq(q.coeffs@) =~= q@);
            assert forall|t: int| 0 <= t < rem@.len() implies cong(#[trigger] rem@[t], 0) by {
                assert(rem@[t] == 0);
            }
            // the interpolant matches the polynomial at every query point
            assert forall|j: int| 0 <= j < zs.len() implies cong(
                poly_eval(zero_polynomial@, #[trigger] zs[j]),
                0,
            ) && cong(
                poly_eval(lagrange_polynomial@, zs[j]),
                poly_eval(polynomial@, zs[j]),
            ) by {
                let x = zs[j];
                vstd::arithmetic::div_mod::lemma_small_mod(0 as nat, fr_order() as nat);
                lemma_prod_roots_zero(zs, x, j);
                assert(poly_eval(zero_polynomial@, x) % fr_order() == prod_roots(zs, x)
                    % fr_order());
                assert(poly_eval(numerator@, x) % fr_order() == (poly_eval(q@, x) * poly_eval(
                    zero_polynomial@,
                    x,
                ) + poly_eval(rem@, x)) % fr_order());
                lemma_poly_eval_zero(rem@, x);
                lemma_mod_cong(poly_eval(q@, x));
                lemma_cong_mul(poly_eval(q@, x), poly_eval(q@, x), poly_eval(zero_polynomial@, x), 0);
                vstd::arithmetic::mul::lemma_mul_basics(poly_eval(q@, x));
                lemma_cong_add(
                    poly_eval(q@, x) * poly_eval(zero_polynomial@, x),
                    0,
                    poly_eval(rem@, x),
                    0,
                );
                lemma_mod_cong(poly_eval(numerator@, x));
                crate::poly::lemma_poly_sub_eval(trimmed@, lagrange_polynomial@, numerator@, x);
                crate::arith::lemma_cong_shift_zero(
                    poly_eval(trimmed@, x),
                    poly_eval(lagrange_polynomial@, x),
                );
                lemma_poly_eval_zero_tail(polynomial@, trimmed@.len() as int, x);
                assert(polynomial@.take(trimmed@.len() as int) =~= trimmed@);
            }
            // the pairing identity at the secret point
            let tau = self.tau@;
            assert(poly_eval(numerator@, tau) % fr_order() == (poly_eval(q@, tau) * poly_eval(
                zero_polynomial@,
                tau,
            ) + poly_eval(rem@, tau)) % fr_order());
            lemma_poly_eval_zero(rem@, tau);
            lemma_mod_cong(poly_eval(q@, tau));
            lemma_cong_add(
                poly_eval(q@, tau) * poly_eval(zero_polynomial@, tau),
                poly_eval(q@, tau) * poly_eval(zero_polynomial@, tau),
                poly_eval(rem@, tau),
                0,
            );
            lemma_mod_cong(poly_eval(numerator@, tau));
            crate::poly::lemma_poly_sub_eval(trimmed@, lagrange_polynomial@, numerator@, tau);
            lemma_poly_eval_zero_tail(polynomial@, trimmed@.len() as int, tau);
            assert(polynomial@.take(trimmed@.len() as int) =~= trimmed@);
            // lift behind g2
            lemma_mod_cong(poly_eval(q@, tau) * self.g2@);
            lemma_cong_mul(
                pi@,
                poly_eval(q@, tau) * self.g2@,
                poly_eval(zero_polynomial@, tau),
                poly_eval(zero_polynomial@, tau),
            );
            lemma_multi_rearrange(
                poly_eval(q@, tau),
                self.g2@,
                poly_eval(zero_polynomial@, tau),
            );
            lemma_cong_mul(
                poly_eval(q@, tau) * poly_eval(zero_polynomial@, tau),
                poly_eval(polynomial@, tau) - poly_eval(lagrange_polynomial@, tau),
                self.g2@,
                self.g2@,
            );
        }
        Result::Ok((pi, lagrange_polynomial, zero_polynomial))
    }

    /// The batch verification: checks that `L` reproduces every claimed
    /// evaluation, that `Z` vanishes on every query point, and the pairing
    /// identity `e(Z(τ) g1, π) e(L(τ) g1 - C, g2) = 1`, all computed
    /// without scalar multiplication in the second group.
    pub fn verify_multi_open_no_g2_ops(
        &self,
        commitment: &G1Elem,
        z_values: &Vec<Scalar>,
        y_values: &Vec<Scalar>,
        lagrange_polynomial: &Polynomial,
        zero_polynomial: &Polynomial,
        pi: &G2Elem,
    ) -> (r: bool)
        requires
            self.wf(),
            z_values@.len() == y_values@.len(),
        ensures
            r == (lagrange_polynomial@.len() <= self.degree + 1 && zero_polynomial@.len()
                <= self.degree + 1 && (forall|j: int|
                0 <= j < z_values@.len() ==> poly_eval(
                    lagrange_polynomial@,
                    #[trigger] scalar_seq(z_values@)[j],
                ) % fr_order() == scalar_seq(y_values@)[j]) && (forall|j: int|
                0 <= j < z_values@.len() ==> poly_eval(
                    zero_polynomial@,
                    #[trigger] scalar_seq(z_values@)[j],
                ) % fr_order() == 0) && cong(
                poly_eval(zero_polynomial@, self.tau@) * self.g1@ * pi@ + ((0 - commitment@)
                    + poly_eval(lagrange_polynomial@, self.tau@) * self.g1@) * self.g2@,
                0,
            )),
    {
        let ghost zs = scalar_seq(z_values@);
        let ghost ys = scalar_seq(y_values@);
        if lagrange_polynomial.coeffs.len() >= 1 && lagrange_polynomial.coeffs.len() - 1
            > self.degree {
            return false;
        }
        if zero_polynomial.coeffs.len() >= 1 && zero_polynomial.coeffs.len() - 1 > self.degree {
            return false;
        }
        let zero = Scalar::from_u64(0);
        // 1. the interpolant reproduces every claimed evaluation
        let mut j: usize = 0;
        while j < z_values.len()
            invariant
                j <= z_values@.len(),
                z_values@.len() == y_values@.len(),
                zs == scalar_seq(z_values@),
                ys == scalar_seq(y_values@),
                zero@ == 0,
                forall|t: int|
                    0 <= t < j ==> poly_eval(lagrange_polynomial@, #[trigger] zs[t]) % fr_order()
                        == ys[t],
            decreases z_values@.len() - j,
        {
            let ly = lagrange_polynomial.evaluate(&z_values[j]);
            if !fr_eq(&ly, &y_values[j]) {
                proof {
                    assert(poly_eval(lagrange_polynomial@, zs[j as int]) % fr_order() != ys[j as int]);
                }
                return false;
            }
            j = j + 1;
        }
        // 2. the vanishing polynomial is zero at every query point
        let mut j2: usize = 0;
        while j2 < z_values.len()
            invariant
                j2 <= z_values@.len(),
                zs == scalar_seq(z_values@),
                zero@ == 0,
                forall|t: int|
                    0 <= t < j2 ==> poly_eval(zero_polynomial@, #[trigger] zs[t]) % fr_order()
                        == 0,
            decreases z_values@.len() - j2,
        {
            let zy = zero_polynomial.evaluate(&z_values[j2]);
            if !fr_eq(&zy, &zero) {
                proof {
                    assert(poly_eval(zero_polynomial@, zs[j2 as int]) % fr_order() != 0);
                }
                return false;
            }
            j2 = j2 + 1;
        }
        // 3. the pairing identity over the committed quotient
        let z_tau = msm_g1(&self.crs, &zero_polynomial.coeffs, Ghost(self.tau@), Ghost(self.g1@));
        let i_tau = msm_g1(
            &self.crs,
            &lagrange_polynomial.coeffs,
            Ghost(self.tau@),
            Ghost(self.g1@),
        );
        let t1 = pairing(&z_tau, pi);
        let neg_c = g1_neg(commitment);
        let s = g1_add(&neg_c, &i_tau);
        let t2 = pairing(&s, &self.g2);
        let prod = gt_mul(&t1, &t2);
        let r = gt_is_one(&prod);
        proof {
            let tau = self.tau@;
            let zt = poly_eval(zero_polynomial@, tau);
            let lt = poly_eval(lagrange_polynomial@, tau);
            assert(scalar_seq(zero_polynomial.coeffs@) =~= zero_polynomial@);
            assert(scalar_seq(lagrange_polynomial.coeffs@) =~= lagrange_polynomial@);
            // t1 carries Z(τ) g1 π
            lemma_mod_mul(zt * self.g1@, pi@);
            lemma_mod_cong(zt * self.g1@ * pi@);
            // s carries L(τ) g1 - C
            lemma_mod_cong(0 - commitment@);
            lemma_mod_cong(lt * self.g1@);
            lemma_cong_add(neg_c@, 0 - commitment@, i_tau@, lt * self.g1@);
            lemma_mod_cong(neg_c@ + i_tau@);
            lemma_cong_mul(s@, (0 - commitment@) + lt * self.g1@, self.g2@, self.g2@);
            lemma_mod_cong(((0 - commitment@) + lt * self.g1@) * self.g2@);
            // the product of the two pairings adds the indices
            lemma_cong_add(
                t1@,
                zt * self.g1@ * pi@,
                t2@,
                ((0 - commitment@) + lt * self.g1@) * self.g2@,
            );
            lemma_mod_cong(t1@ + t2@);
            vstd::arithmetic::div_mod::lemma_small_mod(0 as nat, fr_order() as nat);
        }
        r
    }
}

/// Rearranging a committed quotient against the vanishing value:
/// `(q g2) Z = (q Z) g2`.
proof fn lemma_multi_rearrange(q: int, g2v: int, zt: int)
    by (nonlinear_arith)
    ensures
        (q * g2v) * zt == (q * zt) * g2v,
{
}

/// Commitment/opening correctness: a commitment made against a reference
/// string for secret τ, together with an opening proof whose quotient
/// identity holds, passes the single-point pairing check. The hypotheses
/// are exactly what `commit` and `open` ensure, and the conclusion is what
/// `verify` decides when the verification key is `g2 τ`.
pub proof fn lemma_commitment_opening_verifies(
    g1v: int,
    g2v: int,
    tau: int,
    z: int,
    y: int,
    pe: int,
    cv: int,
    piv: int,
)
    requires
        cv == (pe * g1v) % fr_order(),
        cong(piv * (tau - z), (pe - y) * g1v),
    ensures
        single_open_accepts(g1v, g2v, (tau * g2v) % fr_order(), y, z, cv, piv),
{
    let vkv = (tau * g2v) % fr_order();
    // vk - z g2 is congruent to (τ - z) g2
    lemma_mod_cong(tau * g2v);
    lemma_cong_sub(vkv, tau * g2v, z * g2v, z * g2v);
    vstd::arithmetic::mul::lemma_mul_is_distributive_sub_other_way(g2v, tau, z);
    // multiply the opening identity by g2
    lemma_mod_cong(piv);
    lemma_cong_mul(piv, piv, vkv - z * g2v, (tau - z) * g2v);
    vstd::arithmetic::mul::lemma_mul_is_associative(piv, tau - z, g2v);
    lemma_cong_mul(piv * (tau - z), (pe - y) * g1v, g2v, g2v);
    // the right side reduces the commitment to pe g1
    lemma_mod_cong(pe * g1v);
    lemma_cong_sub(cv, pe * g1v, y * g1v, y * g1v);
    vstd::arithmetic::mul::lemma_mul_is_distributive_sub_other_way(g1v, pe, y);
    lemma_cong_mul(cv - y * g1v, (pe - y) * g1v, g2v, g2v);
    // both sides are congruent to ((pe - y) g1) g2
    assert(cong(piv * (vkv - z * g2v), piv * ((tau - z) * g2v)));
    assert(piv * ((tau - z) * g2v) == (piv * (tau - z)) * g2v);
}

/// Variant equivalence: the three single-point verifiers decide the same
/// congruence, so they return identical booleans on identical inputs.
pub proof fn lemma_verify_variants_agree(
    g1v: int,
    g2v: int,
    vkv: int,
    y: int,
    z: int,
    cv: int,
    piv: int,
)
    ensures
        single_open_accepts(g1v, g2v, vkv, y, z, cv, piv) == cong(
            piv * vkv - z * piv * g2v,
            (cv - y * g1v) * g2v,
        ),
        single_open_accepts(g1v, g2v, vkv, y, z, cv, piv) == cong(
            piv * vkv + ((0 - z) * piv - cv + y * g1v) * g2v,
            0,
        ),
{
    lemma_variants_expand_a(piv, vkv, z, g2v);
    lemma_variants_expand_b(z, piv, cv, y, g1v, g2v);
    lemma_variants_expand_c(cv, y, g1v, g2v);
    crate::arith::lemma_cong_shift_zero(
        piv * vkv - z * piv * g2v,
        (cv - y * g1v) * g2v,
    );
}

/// Expansion for the first variant: `π (vk - z g2) = π vk - z π g2`.
proof fn lemma_variants_expand_a(piv: int, vkv: int, z: int, g2v: int)
    by (nonlinear_arith)
    ensures
        piv * (vkv - z * g2v) == piv * vkv - z * piv * g2v,
{
}

/// Expansion for the opcode variant's right pairing input.
proof fn lemma_variants_expand_b(z: int, piv: int, cv: int, y: int, g1v: int, g2v: int)
    by (nonlinear_arith)
    ensures
        ((0 - z) * piv - cv + y * g1v) * g2v == (0 - (z * piv * g2v)) - cv * g2v + y * g1v * g2v,
{
}

/// Expansion of the common right-hand side.
proof fn lemma_variants_expand_c(cv: int, y: int, g1v: int, g2v: int)
    by (nonlinear_arith)
    ensures
        (cv - y * g1v) * g2v == cv * g2v - y * g1v * g2v,
{
}

/// Batch opening correctness: with genuine evaluations, a commitment to
/// the polynomial and the facts `multi_open` ensures, all three checks of
/// `verify_multi_open_no_g2_ops` pass; and any altered evaluation fails
/// its interpolant check.
pub proof fn lemma_batch_opening_verifies(
    g1v: int,
    g2v: int,
    tau: int,
    zs: Seq<int>,
    ys: Seq<int>,
    p: Seq<int>,
    lv: Seq<int>,
    zv: Seq<int>,
    cv: int,
    piv: int,
)
    requires
        zs.len() == ys.len(),
        forall|j: int| 0 <= j < ys.len() ==> ys[j] == poly_eval(p, #[trigger] zs[j]) % fr_order(),
        cv == (poly_eval(p, tau) * g1v) % fr_order(),
        forall|j: int| 0 <= j < zs.len() ==> cong(poly_eval(zv, #[trigger] zs[j]), 0),
        forall|j: int|
            0 <= j < zs.len() ==> cong(poly_eval(lv, #[trigger] zs[j]), poly_eval(p, zs[j])),
        cong(piv * poly_eval(zv, tau), (poly_eval(p, tau) - poly_eval(lv, tau)) * g2v),
    ensures
        forall|j: int|
            0 <= j < zs.len() ==> poly_eval(lv, #[trigger] zs[j]) % fr_order() == ys[j],
        forall|j: int| 0 <= j < zs.len() ==> poly_eval(zv, #[trigger] zs[j]) % fr_order() == 0,
        cong(
            poly_eval(zv, tau) * g1v * piv + ((0 - cv) + poly_eval(lv, tau) * g1v) * g2v,
            0,
        ),
{
    vstd::arithmetic::div_mod::lemma_small_mod(0 as nat, fr_order() as nat);
    let zt = poly_eval(zv, tau);
    let lt = poly_eval(lv, tau);
    let pt = poly_eval(p, tau);
    // multiply the quotient identity by g1
    lemma_mod_cong(piv * zt);
    lemma_cong_mul(g1v, g1v, piv * zt, (pt - lt) * g2v);
    lemma_batch_rearrange_left(zt, g1v, piv);
    // the right pairing input is congruent to the negated same quantity
    lemma_mod_cong(pt * g1v);
    lemma_cong_sub(0, 0, cv, pt * g1v);
    lemma_cong_add(0 - cv, 0 - pt * g1v, lt * g1v, lt * g1v);
    lemma_cong_mul((0 - cv) + lt * g1v, (0 - pt * g1v) + lt * g1v, g2v, g2v);
    lemma_batch_rearrange_right(pt, lt, g1v, g2v);
    lemma_cong_add(
        zt * g1v * piv,
        g1v * ((pt - lt) * g2v),
        ((0 - cv) + lt * g1v) * g2v,
        0 - g1v * ((pt - lt) * g2v),
    );
}

/// Rearranging the left pairing input: `Z(τ) g1 π = g1 (π Z(τ))`.
proof fn lemma_batch_rearrange_left(zt: int, g1v: int, piv: int)
    by (nonlinear_arith)
    ensures
        zt * g1v * piv == g1v * (piv * zt),
{
}

/// Rearranging the right pairing input:
/// `(-(P(τ) g1) + L(τ) g1) g2 = -(g1 ((P(τ) - L(τ)) g2))`.
proof fn lemma_batch_rearrange_right(pt: int, lt: int, g1v: int, g2v: int)
    by (nonlinear_arith)
    ensures
        ((0 - pt * g1v) + lt * g1v) * g2v == 0 - g1v * ((pt - lt) * g2v),
{
}

/// A multi-scalar multiplication against a reference string that carries
/// the powers of τ behind a base of index `gv`: the result is the
/// coefficients' polynomial value at τ behind that base.
fn msm_g1(points: &Vec<G1Elem>, coeffs: &Vec<Scalar>, Ghost(tau): Ghost<int>, Ghost(gv): Ghost<
    int,
>) -> (r: G1Elem)
    requires
        coeffs@.len() <= points@.len(),
        forall|i: int|
            0 <= i < coeffs@.len() ==> (#[trigger] points@[i])@ == (pow(tau, i as nat) * gv)
                % fr_order(),
    ensures
        r@ == (poly_eval(scalar_seq(coeffs@), tau) * gv) % fr_order(),
{
    let cs = Ghost(scalar_seq(coeffs@));
    let mut acc = g1_zero();
    let mut i: usize = 0;
    proof {
        assert(cs@.take(0) =~= Seq::<int>::empty());
        vstd::arithmetic::mul::lemma_mul_basics(gv);
        vstd::arithmetic::div_mod::lemma_small_mod(0 as nat, fr_order() as nat);
    }
    while i < coeffs.len()
        invariant
            i <= coeffs.len(),
            cs@ == scalar_seq(coeffs@),
            coeffs@.len() <= points@.len(),
            forall|k: int|
                0 <= k < coeffs@.len() ==> (#[trigger] points@[k])@ == (pow(tau, k as nat) * gv)
                    % fr_order(),
            acc@ == (poly_eval(cs@.take(i as int), tau) * gv) % fr_order(),
        decreases coeffs.len() - i,
    {
        let term = g1_mul(&points[i], &coeffs[i]);
        let new_acc = g1_add(&acc, &term);
        proof {
            lemma_msm_step(cs@, tau, gv, i as int, points@[i as int]@, term@, acc@, new_acc@);
        }
        acc = new_acc;
        i = i + 1;
    }
    proof {
        assert(cs@.take(coeffs@.len() as int) =~= cs@);
    }
    acc
}

/// The `G2` twin of `msm_g1`.
fn msm_g2(points: &Vec<G2Elem>, coeffs: &Vec<Scalar>, Ghost(tau): Ghost<int>, Ghost(gv): Ghost<
    int,
>) -> (r: G2Elem)
    requires
        coeffs@.len() <= points@.len(),
        forall|i: int|
            0 <= i < coeffs@.len() ==> (#[trigger] points@[i])@ == (pow(tau, i as nat) * gv)
                % fr_order(),
    ensures
        r@ == (poly_eval(scalar_seq(coeffs@), tau) * gv) % fr_order(),
{
    let cs = Ghost(scalar_seq(coeffs@));
    let mut acc = g2_zero();
    let mut i: usize = 0;
    proof {
        assert(cs@.take(0) =~= Seq::<int>::empty());
        vstd::arithmetic::mul::lemma_mul_basics(gv);
        vstd::arithmetic::div_mod::lemma_small_mod(0 as nat, fr_order() as nat);
    }
    while i < coeffs.len()
        invariant
            i <= coeffs.len(),
            cs@ == scalar_seq(coeffs@),
            coeffs@.len() <= points@.len(),
            forall|k: int|
                0 <= k < coeffs@.len() ==> (#[trigger] points@[k])@ == (pow(tau, k as nat) * gv)
                    % fr_order(),
            acc@ == (poly_eval(cs@.take(i as int), tau) * gv) % fr_order(),
        decreases coeffs.len() - i,
    {
        let term = g2_mul(&points[i], &coeffs[i]);
        let new_acc = g2_add(&acc, &term);
        proof {
            lemma_msm_step(cs@, tau, gv, i as int, points@[i as int]@, term@, acc@, new_acc@);
        }
        acc = new_acc;
        i = i + 1;
    }
    proof {
        assert(cs@.take(coeffs@.len() as int) =~= cs@);
    }
    acc
}

/// One step of a multi-scalar multiplication: adding `coeff[i]` times the
/// `i`-th power point extends the partial polynomial value by one term.
proof fn lemma_msm_step(
    cs: Seq<int>,
    tau: int,
    gv: int,
    i: int,
    point_v: int,
    term_v: int,
    acc_v: int,
    new_acc_v: int,
)
    requires
        0 <= i < cs.len(),
        point_v == (pow(tau, i as nat) * gv) % fr_order(),
        term_v == (cs[i] * point_v) % fr_order(),
        acc_v == (poly_eval(cs.take(i), tau) * gv) % fr_order(),
        new_acc_v == (acc_v + term_v) % fr_order(),
    ensures
        new_acc_v == (poly_eval(cs.take(i + 1), tau) * gv) % fr_order(),
{
    let pw = pow(tau, i as nat);
    lemma_mod_mul(cs[i], pw * gv);
    vstd::arithmetic::mul::lemma_mul_is_associative(cs[i], pw, gv);
    lemma_mod_add(poly_eval(cs.take(i), tau) * gv, (cs[i] * pw) * gv);
    lemma_poly_eval_take_step(cs, tau, i);
    vstd::arithmetic::mul::lemma_mul_is_distributive_add_other_way(
        gv,
        poly_eval(cs.take(i), tau),
        cs[i] * pw,
    );
}

/// The remainder of dividing `trimmed - y` by `X - z` is congruent to
/// `polynomial(z) - y` at every point; in particular it is a constant.
proof fn lemma_open_remainder(
    p: Seq<int>,
    t: Seq<int>,
    num: Seq<int>,
    den: Seq<int>,
    q: Seq<int>,
    rem: Seq<int>,
    y: int,
    z: int,
)
    requires
        t.len() <= p.len(),
        forall|i: int| 0 <= i < t.len() ==> t[i] == p[i],
        forall|i: int| t.len() <= i < p.len() ==> p[i] == 0,
        num.len() == if t.len() >= 1 { t.len() } else { 1 },
        forall|i: int|
            0 <= i < num.len() ==> num[i] == ((if i < t.len() { t[i] } else { 0 }) - (if i < 1 {
                y
            } else { 0 })) % fr_order(),
        den.len() == 2,
        den[0] == (0 - z) % fr_order(),
        den[1] == 1,
        rem.len() < den.len(),
        forall|x: int| #![trigger poly_eval(q, x)]
            poly_eval(num, x) % fr_order() == (poly_eval(q, x) * poly_eval(den, x) + poly_eval(
                rem,
                x,
            )) % fr_order(),
    ensures
        cong(poly_eval(rem, z), poly_eval(p, z) - y),
        forall|x: int| #![trigger poly_eval(rem, x)] poly_eval(rem, x) == poly_eval(rem, z),
{
    // the remainder has at most one coefficient, so it is constant
    assert forall|x: int| #[trigger] poly_eval(rem, x) == poly_eval(rem, z) by {
        if rem.len() == 0 {
            assert(poly_eval(rem, x) == 0);
            assert(poly_eval(rem, z) == 0);
        } else {
            assert(rem.drop_last() =~= Seq::<int>::empty());
            assert(poly_eval(Seq::<int>::empty(), x) == 0);
            assert(poly_eval(Seq::<int>::empty(), z) == 0);
            vstd::arithmetic::power::lemma_pow0(x);
            vstd::arithmetic::power::lemma_pow0(z);
            vstd::arithmetic::mul::lemma_mul_basics(rem[0]);
            assert(poly_eval(rem, x) == rem[0]);
            assert(poly_eval(rem, z) == rem[0]);
        }
    }
    // at z the divisor vanishes and the difference collapses
    crate::poly::lemma_poly_sub_eval(t, seq![y], num, z);
    crate::poly::lemma_factor_eval(den, z);
    assert(cong(poly_eval(den, z), 0));
    lemma_mod_cong(poly_eval(q, z));
    lemma_cong_mul(poly_eval(q, z), poly_eval(q, z), poly_eval(den, z), 0);
    vstd::arithmetic::mul::lemma_mul_basics(poly_eval(q, z));
    lemma_mod_cong(poly_eval(rem, z));
    lemma_cong_add(poly_eval(q, z) * poly_eval(den, z), 0, poly_eval(rem, z), poly_eval(rem, z));
    // fold in the zero-padded tail of p and the singleton y polynomial
    lemma_poly_eval_zero_tail(p, t.len() as int, z);
    assert(p.take(t.len() as int) =~= t);
    assert(seq![y].drop_last() =~= Seq::<int>::empty());
    assert(poly_eval(Seq::<int>::empty(), z) == 0);
    vstd::arithmetic::power::lemma_pow0(z);
    vstd::arithmetic::mul::lemma_mul_basics(y);
    assert(poly_eval(seq![y], z) == 0 + y * vstd::arithmetic::power::pow(z, 0));
    assert(poly_eval(seq![y], z) == y);
    lemma_mod_cong(poly_eval(num, z));
}

/// The committed quotient of a valid opening satisfies the KZG identity
/// `π (τ - z) = (polynomial(τ) - y) g1` in the exponents.
proof fn lemma_open_proof_identity(
    p: Seq<int>,
    t: Seq<int>,
    num: Seq<int>,
    den: Seq<int>,
    q: Seq<int>,
    rem: Seq<int>,
    y: int,
    z: int,
    tau: int,
    g1v: int,
    piv: int,
)
    requires
        t.len() <= p.len(),
        forall|i: int| 0 <= i < t.len() ==> t[i] == p[i],
        forall|i: int| t.len() <= i < p.len() ==> p[i] == 0,
        num.len() == if t.len() >= 1 { t.len() } else { 1 },
        forall|i: int|
            0 <= i < num.len() ==> num[i] == ((if i < t.len() { t[i] } else { 0 }) - (if i < 1 {
                y
            } else { 0 })) % fr_order(),
        den.len() == 2,
        den[0] == (0 - z) % fr_order(),
        den[1] == 1,
        forall|i: int| 0 <= i < rem.len() ==> cong(rem[i], 0),
        forall|x: int| #![trigger poly_eval(q, x)]
            poly_eval(num, x) % fr_order() == (poly_eval(q, x) * poly_eval(den, x) + poly_eval(
                rem,
                x,
            )) % fr_order(),
        piv == (poly_eval(q, tau) * g1v) % fr_order(),
    ensures
        cong(piv * (tau - z), (poly_eval(p, tau) - y) * g1v),
{
    // at τ: q(τ) (τ - z) is congruent to p(τ) - y
    crate::poly::lemma_poly_sub_eval(t, seq![y], num, tau);
    crate::poly::lemma_factor_eval(den, z);
    assert(cong(poly_eval(den, tau), tau - z));
    lemma_mod_cong(poly_eval(q, tau));
    lemma_cong_mul(poly_eval(q, tau), poly_eval(q, tau), poly_eval(den, tau), tau - z);
    lemma_poly_eval_zero(rem, tau);
    lemma_cong_add(
        poly_eval(q, tau) * poly_eval(den, tau),
        poly_eval(q, tau) * (tau - z),
        poly_eval(rem, tau),
        0,
    );
    lemma_poly_eval_zero_tail(p, t.len() as int, tau);
    assert(p.take(t.len() as int) =~= t);
    assert(seq![y].drop_last() =~= Seq::<int>::empty());
    assert(poly_eval(Seq::<int>::empty(), tau) == 0);
    vstd::arithmetic::power::lemma_pow0(tau);
    vstd::arithmetic::mul::lemma_mul_basics(y);
    assert(poly_eval(seq![y], tau) == 0 + y * vstd::arithmetic::power::pow(tau, 0));
    assert(poly_eval(seq![y], tau) == y);
    lemma_mod_cong(poly_eval(num, tau));
    // lift the congruence behind the generator
    lemma_mod_cong(poly_eval(q, tau) * g1v);
    lemma_cong_mul(piv, poly_eval(q, tau) * g1v, tau - z, tau - z);
    vstd::arithmetic::mul::lemma_mul_is_associative(poly_eval(q, tau), g1v, tau - z);
    crate::arith::lemma_mul_comm(g1v, tau - z);
    vstd::arithmetic::mul::lemma_mul_is_associative(poly_eval(q, tau), tau - z, g1v);
    lemma_cong_mul(poly_eval(q, tau) * (tau - z), poly_eval(p, tau) - y, g1v, g1v);
}

/// Negating the second group's generator index negates the pairing index:
/// `(z π) (-g2) = -(z π g2)`.
proof fn lemma_negate_product(z: int, piv: int, g2v: int)
    by (nonlinear_arith)
    ensures
        (z * piv) * (0 - g2v) == 0 - z * piv * g2v,
{
}

} // verus!
