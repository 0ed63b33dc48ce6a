//! Turning R1CS matrices into QAP column polynomials.
//!
//! Each matrix column is interpolated over a domain of roots of unity, so
//! that the polynomial's value at the `j`-th domain element is the
//! column's `j`-th entry. The interpolation itself and the domain
//! construction are `ark_poly`'s; their results are named by the
//! uninterpreted functions below, which depend on the inputs alone.
use vstd::prelude::*;

use ark_ff::PrimeField;
use ark_poly::{EvaluationDomain, GeneralEvaluationDomain};

use crate::linalg::Matrix;
use crate::poly::Polynomial;
use crate::scalar::{scalar_seq, Scalar};

verus! {

/// The coefficients of the polynomial that `ark_poly` interpolates over a
/// roots-of-unity domain sized for the given evaluations.
pub uninterp spec fn roots_of_unity_interpolation(evals: Seq<int>) -> Seq<int>;

/// The elements of the `ark_poly` roots-of-unity evaluation domain that
/// holds at least `n` points.
pub uninterp spec fn omega_domain_elements(n: nat) -> Seq<int>;

/// Relies on `ark_poly` radix-2 evaluation domains and inverse FFT
/// interpolation: the result is a function of the evaluations alone, the
/// domain sized for them holds at least as many elements, and the result's
/// value at the `j`-th domain element is `evals[j]`.
#[verifier::external_body]
pub fn compute_lagrange_interpolation_on_roots_of_unity(evals: &Vec<Scalar>) -> (r: Polynomial)
    requires
        1 <= evals@.len() <= 0x10000000,
    ensures
        r@ == roots_of_unity_interpolation(scalar_seq(evals@)),
        omega_domain_elements(evals@.len()).len() >= evals@.len() && forall|j: int|
            0 <= j < evals@.len() ==> crate::arith::poly_eval(
                r@,
                #[trigger] omega_domain_elements(evals@.len())[j],
            ) % crate::scalar::fr_order() == scalar_seq(evals@)[j],
{
    let f: Vec<ark_bn254::Fr> = evals.iter().map(|s| {
        let mut b = [0u8; 32];
        for i in 0..4 { b[8 * i..8 * i + 8].copy_from_slice(&s.limbs[i].to_le_bytes()); }
        ark_bn254::Fr::from_le_bytes_mod_order(&b)
    }).collect();
    let omegas = GeneralEvaluationDomain::<ark_bn254::Fr>::new(f.len()).unwrap();
    let lagrange = ark_poly::Evaluations::from_vec_and_domain(f, omegas).interpolate();
    Polynomial {
        coeffs: lagrange.coeffs.iter().map(|c| Scalar { limbs: c.into_bigint().0 }).collect(),
    }
}

/// Relies on `ark_poly` radix-2 evaluation domains: the returned scalars
/// are the domain's elements in iteration order, at least `n` of them, a
/// function of `n` alone.
#[verifier::external_body]
pub fn get_omega_domain(n: usize) -> (r: Vec<Scalar>)
    requires
        1 <= n <= 0x10000000,
    ensures
        scalar_seq(r@) == omega_domain_elements(n as nat),
        r@.len() >= n,
{
    let omegas = GeneralEvaluationDomain::<ark_bn254::Fr>::new(n).unwrap();
    let mut elements: Vec<Scalar> = Vec::new();
    for element in omegas.elements() {
        elements.push(Scalar { limbs: element.into_bigint().0 });
    }
    elements
}

/// One interpolated polynomial per matrix column, each over the
/// roots-of-unity domain sized for the column height.
pub fn compute_lagrange_polynomial_from_matrix(mat: &Matrix) -> (r: Vec<Polynomial>)
    requires
        mat.wf(),
        1 <= mat.num_rows <= 0x10000000,
    ensures
        r@.len() == mat.num_cols,
        forall|i: int|
            0 <= i < r@.len() ==> (#[trigger] r@[i])@ == roots_of_unity_interpolation(
                crate::linalg::matrix_col(mat@, i),
            ),
        forall|i: int, j: int|
            0 <= i < r@.len() && 0 <= j < mat@.len() ==> #[trigger] crate::arith::poly_eval(
                r@[i]@,
                omega_domain_elements(mat@.len())[j],
            ) % crate::scalar::fr_order() == mat@[j][i],
{
    let mut lagrange_polys: Vec<Polynomial> = Vec::new();
    let n_cols = mat.num_cols;
    let mut i: usize = 0;
    while i < n_cols
        invariant
            i <= n_cols,
            mat.wf(),
            n_cols == mat.num_cols,
            1 <= mat.num_rows <= 0x10000000,
            lagrange_polys@.len() == i,
            forall|k: int|
                0 <= k < i ==> (#[trigger] lagrange_polys@[k])@ == roots_of_unity_interpolation(
                    crate::linalg::matrix_col(mat@, k),
                ),
            forall|k: int, j: int|
                0 <= k < i && 0 <= j < mat@.len() ==> #[trigger] crate::arith::poly_eval(
                    lagrange_polys@[k]@,
                    omega_domain_elements(mat@.len())[j],
                ) % crate::scalar::fr_order() == mat@[j][k],
        decreases n_cols - i,
    {
        let mut evals: Vec<Scalar> = Vec::new();
        let mut j: usize = 0;
        while j < mat.rows.len()
            invariant
                j <= mat.rows@.len(),
                i < mat.num_cols,
                mat.wf(),
                evals@.len() == j,
                forall|k: int|
                    0 <= k < j ==> (#[trigger] evals@[k])@ == mat@[k][i as int],
            decreases mat.rows@.len() - j,
        {
            evals.push(mat.rows[j].elements[i]);
            j = j + 1;
        }
        let lagrange_poly = compute_lagrange_interpolation_on_roots_of_unity(&evals);
        proof {
            assert(scalar_seq(evals@) =~= crate::linalg::matrix_col(mat@, i as int));
            assert(evals@.len() == mat@.len());
            assert forall|j: int| 0 <= j < mat@.len() implies #[trigger] crate::arith::poly_eval(
                lagrange_poly@,
                omega_domain_elements(mat@.len())[j],
            ) % crate::scalar::fr_order() == mat@[j][i as int] by {
                assert(scalar_seq(evals@)[j] == mat@[j][i as int]);
            }
        }
        lagrange_polys.push(lagrange_poly);
        i = i + 1;
    }
    lagrange_polys
}

} // verus!
