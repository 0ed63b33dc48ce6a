//! Lagrange interpolation over arbitrary point sets.
//!
//! Each basis polynomial is built directly as the product of the linear
//! factors through the other query points, scaled by the barycentric weight
//! that inverts the product's value at the basis point; their sum therefore
//! provably passes through every given point. Coincident points have no
//! interpolant and are reported as `FieldInversionOfZero`, exactly when two
//! query points are equal.
use vstd::prelude::*;

use crate::arith::{
    cong, lemma_cong_add, lemma_cong_mul, lemma_mod_cong, lemma_prod_roots_zero,
    lemma_regroup_weight, lemma_small_diff_zero, lemma_swap_factors, poly_eval, prod_roots,
};
use crate::errors::Error;
use crate::poly::{
    build_zero_polynomial, lemma_poly_add_eval, lemma_poly_scale_eval, poly_add, Polynomial,
};
use crate::scalar::{
    fr_inverse, fr_mul, fr_order, fr_sub, lemma_scalar_bound, scalar_seq, Scalar,
};

verus! {

/// Whether all points of a query set are pairwise distinct.
pub open spec fn distinct_points(xs: Seq<int>) -> bool {
    forall|i: int, j: int| 0 <= i < j < xs.len() ==> xs[i] != xs[j]
}

/// The polynomial of fewer coefficients than there are points that passes
/// through every point `(x_values[j], y_values[j])`. The point-count bound
/// keeps the basis products within the multiplication wrapper's FFT limit.
pub fn compute_lagrange_interpolation(x_values: &Vec<Scalar>, y_values: &Vec<Scalar>) -> (r:
    Result<Polynomial, Error>)
    requires
        x_values@.len() == y_values@.len(),
        x_values@.len() >= 1,
        x_values@.len() + 1 <= 0x10000000,
    ensures
        r is Ok <==> distinct_points(scalar_seq(x_values@)),
        r is Err ==> r->Err_0 == Error::FieldInversionOfZero,
        r is Ok ==> r->Ok_0@.len() <= x_values@.len(),
        r is Ok ==> forall|k: int|
            0 <= k < x_values@.len() ==> cong(
                poly_eval(r->Ok_0@, #[trigger] scalar_seq(x_values@)[k]),
                scalar_seq(y_values@)[k],
            ),
{
    let ghost xs = scalar_seq(x_values@);
    let ghost ys = scalar_seq(y_values@);
    let n = x_values.len();
    let one = Scalar::from_u64(1);
    let mut lagrange = Polynomial { coeffs: Vec::new() };
    let mut j: usize = 0;
    while j < n
        invariant
            j <= n,
            n == x_values@.len(),
            x_values@.len() == y_values@.len(),
            x_values@.len() + 1 <= 0x10000000,
            xs == scalar_seq(x_values@),
            ys == scalar_seq(y_values@),
            one@ == 1,
            lagrange@.len() <= n,
            forall|p: int, q: int| 0 <= p < j && 0 <= q < n && p != q ==> xs[p] != xs[q],
            forall|k: int|
                0 <= k < n ==> cong(
                    poly_eval(lagrange@, #[trigger] xs[k]),
                    if k < j { ys[k] } else { 0 },
                ),
        decreases n - j,
    {
        // the other query points, collected together with the weight w that
        // inverts the product of (x_j - x_m) over them
        let mut others: Vec<Scalar> = Vec::new();
        let mut w = one;
        let mut m: usize = 0;
        proof {
            assert(scalar_seq(others@) =~= Seq::<int>::empty());
            vstd::arithmetic::div_mod::lemma_small_mod(1 as nat, fr_order() as nat);
            vstd::arithmetic::mul::lemma_mul_basics(1);
        }
        while m < n
            invariant
                m <= n,
                j < n,
                n == x_values@.len(),
                xs == scalar_seq(x_values@),
                forall|p: int, q: int| 0 <= p < j && 0 <= q < n && p != q ==> xs[p] != xs[q],
                forall|q: int| 0 <= q < m && q != j ==> xs[j as int] != xs[q],
                others@.len() == if m <= j { m as int } else { m - 1 },
                forall|t: int|
                    0 <= t < others@.len() ==> #[trigger] scalar_seq(others@)[t] == xs[if t < (
                    j as int) {
                        t
                    } else {
                        t + 1
                    }],
                cong(w@ * prod_roots(scalar_seq(others@), xs[j as int]), 1),
            decreases n - m,
        {
            if m != j {
                let diff = fr_sub(&x_values[j], &x_values[m]);
                match fr_inverse(&diff) {
                    Option::None => {
                        proof {
                            lemma_scalar_bound(x_values@[j as int]);
                            lemma_scalar_bound(x_values@[m as int]);
                            lemma_small_diff_zero(xs[j as int], xs[m as int]);
                            if (j as int) < m as int {
                                assert(xs[j as int] == xs[m as int]);
                            } else {
                                assert(xs[m as int] == xs[j as int]);
                            }
                            assert(!distinct_points(xs));
                        }
                        return Result::Err(Error::FieldInversionOfZero);
                    },
                    Option::Some(inv) => {
                        let ghost old_w = w@;
                        let ghost old_os = scalar_seq(others@);
                        let ghost xj = xs[j as int];
                        let ghost d = xs[j as int] - xs[m as int];
                        others.push(x_values[m]);
                        let new_w = fr_mul(&w, &inv);
                        proof {
                            vstd::arithmetic::div_mod::lemma_small_mod(
                                0 as nat,
                                fr_order() as nat,
                            );
                            vstd::arithmetic::div_mod::lemma_small_mod(
                                1 as nat,
                                fr_order() as nat,
                            );
                            // an invertible difference separates the points
                            assert(xs[j as int] != xs[m as int]) by {
                                if xs[j as int] == xs[m as int] {
                                    assert(diff@ == 0);
                                }
                            }
                            // the product gains the factor x_j - x_m
                            let os = scalar_seq(others@);
                            assert(os.drop_last() =~= old_os);
                            assert(os.last() == xs[m as int]);
                            assert forall|t: int|
                                0 <= t < others@.len() implies #[trigger] scalar_seq(others@)[t]
                                == xs[if t < (j as int) {
                                t
                            } else {
                                t + 1
                            }] by {
                                if t < os.len() - 1 {
                                    assert(os[t] == old_os[t]);
                                } else {
                                    assert(os[t] == xs[m as int]);
                                }
                            }
                            assert(prod_roots(os, xj) == prod_roots(old_os, xj) * (xj - xs[m as int]));
                            // and the weight gains its inverse
                            lemma_mod_cong(old_w * inv@);
                            lemma_cong_mul(
                                new_w@,
                                old_w * inv@,
                                prod_roots(os, xj),
                                prod_roots(os, xj),
                            );
                            lemma_swap_factors(old_w, inv@, prod_roots(old_os, xj), d);
                            lemma_mod_cong(d);
                            lemma_cong_mul(inv@, inv@, d, diff@);
                            crate::arith::lemma_mul_comm(inv@, diff@);
                            lemma_cong_mul(old_w * prod_roots(old_os, xj), 1, inv@ * d, 1);
                            vstd::arithmetic::mul::lemma_mul_basics(1);
                        }
                        w = new_w;
                    },
                }
            }
            m = m + 1;
        }
        // the j-th basis term: the product polynomial over the other points,
        // scaled by w_j y_j
        let l_j = build_zero_polynomial(&others);
        let scale_factor = fr_mul(&w, &y_values[j]);
        let term = l_j.scale(&scale_factor);
        let new_lagrange = poly_add(&lagrange, &term);
        proof {
            let xj = xs[j as int];
            let os = scalar_seq(others@);
            assert forall|k: int| 0 <= k < n implies cong(
                poly_eval(new_lagrange@, #[trigger] xs[k]),
                if k < j + 1 { ys[k] } else { 0 },
            ) by {
                let x = xs[k];
                lemma_poly_add_eval(lagrange@, term@, new_lagrange@, x);
                lemma_poly_scale_eval(l_j@, term@, scale_factor@, x);
                assert(poly_eval(l_j@, x) % fr_order() == prod_roots(os, x) % fr_order());
                if k == j {
                    // the product is inverted by the weight, leaving y_j
                    lemma_mod_cong(w@ * ys[j as int]);
                    lemma_cong_mul(
                        poly_eval(l_j@, x),
                        prod_roots(os, x),
                        scale_factor@,
                        w@ * ys[j as int],
                    );
                    lemma_regroup_weight(prod_roots(os, x), w@, ys[j as int]);
                    lemma_cong_mul(w@ * prod_roots(os, x), 1, ys[j as int], ys[j as int]);
                    vstd::arithmetic::mul::lemma_mul_basics(ys[j as int]);
                    lemma_cong_add(poly_eval(lagrange@, x), 0, poly_eval(term@, x), ys[k]);
                } else {
                    // x_k is one of the other points, so the product vanishes
                    let t = if k < j { k } else { k - 1 };
                    assert(os[t] == xs[k]);
                    vstd::arithmetic::div_mod::lemma_small_mod(0 as nat, fr_order() as nat);
                    lemma_prod_roots_zero(os, x, t);
                    lemma_cong_mul(poly_eval(l_j@, x), 0, scale_factor@, scale_factor@);
                    vstd::arithmetic::mul::lemma_mul_basics(scale_factor@);
                    lemma_cong_add(
                        poly_eval(lagrange@, x),
                        if k < j { ys[k] } else { 0 },
                        poly_eval(term@, x),
                        0,
                    );
                }
            }
        }
        lagrange = new_lagrange;
        j = j + 1;
    }
    proof {
        assert(distinct_points(xs));
    }
    Result::Ok(lagrange)
}

} // verus!
