use ark_ff::PrimeField;
use ark_poly::{DenseUVPolynomial, EvaluationDomain};

use kzg_folding::errors::Error;
use kzg_folding::lagrange::compute_lagrange_interpolation;
use kzg_folding::linalg::{Matrix, Vector};
use kzg_folding::poly::{build_zero_polynomial, poly_add, poly_mul, poly_sub, Polynomial};
use kzg_folding::qap::{compute_lagrange_polynomial_from_matrix, get_omega_domain};
use kzg_folding::scalar::{fr_eq, Scalar};

fn s(n: u64) -> Scalar {
    Scalar::from_u64(n)
}

fn row(vals: [u64; 6]) -> Vec<Scalar> {
    vals.iter().map(|v| s(*v)).collect()
}

fn get_test_r1cs() -> (Matrix, Matrix, Matrix) {
    let a = vec![
        row([0, 1, 0, 0, 0, 0]),
        row([0, 0, 0, 1, 0, 0]),
        row([0, 1, 0, 0, 1, 0]),
        row([5, 0, 0, 0, 0, 1]),
    ];
    let b = vec![
        row([0, 1, 0, 0, 0, 0]),
        row([0, 1, 0, 0, 0, 0]),
        row([1, 0, 0, 0, 0, 0]),
        row([1, 0, 0, 0, 0, 0]),
    ];
    let c = vec![
        row([0, 0, 0, 1, 0, 0]),
        row([0, 0, 0, 0, 1, 0]),
        row([0, 0, 0, 0, 0, 1]),
        row([0, 0, 1, 0, 0, 0]),
    ];
    (Matrix::new_from_vecs(&a), Matrix::new_from_vecs(&b), Matrix::new_from_vecs(&c))
}

fn get_test_satisfying_witness() -> Vector {
    Vector::new(&vec![s(1), s(3), s(35), s(9), s(27), s(30)])
}

fn scalar_to_fr(x: &Scalar) -> ark_bn254::Fr {
    let mut b = [0u8; 32];
    for i in 0..4 {
        b[8 * i..8 * i + 8].copy_from_slice(&x.limbs[i].to_le_bytes());
    }
    ark_bn254::Fr::from_le_bytes_mod_order(&b)
}

fn to_ark(p: &Polynomial) -> ark_poly::univariate::DensePolynomial<ark_bn254::Fr> {
    ark_poly::univariate::DensePolynomial::from_coefficients_vec(
        p.coeffs.iter().map(scalar_to_fr).collect(),
    )
}

#[test]
fn test_qap_is_satisfied() {
    let (a, b, c) = get_test_r1cs();
    let witness = get_test_satisfying_witness();

    // interpolate each column over the 4-point roots-of-unity domain:
    // f(omega^j) == column[j]
    let a_polys = compute_lagrange_polynomial_from_matrix(&a);
    let b_polys = compute_lagrange_polynomial_from_matrix(&b);
    let c_polys = compute_lagrange_polynomial_from_matrix(&c);

    let omegas = get_omega_domain(a_polys[0].coeffs.len());

    // the last row of A can be read back off the column polynomials
    for k in 0..6 {
        let got = a_polys[k].evaluate(&omegas[3]);
        assert!(fr_eq(&got, &a.rows[3].elements[k]));
    }

    // compute a*s, b*s, c*s
    let mut a_final = Polynomial { coeffs: Vec::new() };
    let mut b_final = Polynomial { coeffs: Vec::new() };
    let mut c_final = Polynomial { coeffs: Vec::new() };
    for i in 0..a_polys.len() {
        a_final = poly_add(&a_final, &a_polys[i].scale(&witness.elements[i]));
        b_final = poly_add(&b_final, &b_polys[i].scale(&witness.elements[i]));
        c_final = poly_add(&c_final, &c_polys[i].scale(&witness.elements[i]));
    }

    // (a*s) * (b*s) - (c*s) vanishes on the whole domain
    let final_poly = poly_sub(&poly_mul(&a_final, &b_final), &c_final);
    let domain =
        ark_poly::GeneralEvaluationDomain::<ark_bn254::Fr>::new(a_polys[0].coeffs.len()).unwrap();
    let (_, remainder) = to_ark(&final_poly).divide_by_vanishing_poly(domain).unwrap();
    assert!(ark_std::Zero::is_zero(&remainder));

    // a tampered witness leaves a remainder
    let mut a_tampered = Polynomial { coeffs: Vec::new() };
    for i in 0..a_polys.len() {
        let w = kzg_folding::scalar::fr_add(&witness.elements[i], &s(1));
        a_tampered = poly_add(&a_tampered, &a_polys[i].scale(&w));
    }
    let tampered_poly = poly_sub(&poly_mul(&a_tampered, &b_final), &c_final);
    let (_, remainder) = to_ark(&tampered_poly).divide_by_vanishing_poly(domain).unwrap();
    assert!(!ark_std::Zero::is_zero(&remainder));
}

#[test]
fn interpolation_matches_points() {
    let xs = vec![s(2), s(5), s(11), s(30)];
    let ys = vec![s(7), s(9), s(4), s(100)];
    let l = compute_lagrange_interpolation(&xs, &ys).unwrap();
    for j in 0..xs.len() {
        assert!(fr_eq(&l.evaluate(&xs[j]), &ys[j]));
    }
}

#[test]
fn interpolation_rejects_coincident_points() {
    let xs = vec![s(2), s(5), s(2)];
    let ys = vec![s(7), s(9), s(4)];
    assert_eq!(compute_lagrange_interpolation(&xs, &ys).unwrap_err(), Error::FieldInversionOfZero);
}

#[test]
fn zero_polynomial_vanishes_exactly_on_roots() {
    let roots = vec![s(3), s(8), s(21)];
    let z = build_zero_polynomial(&roots);
    assert_eq!(z.coeffs.len(), roots.len() + 1);
    for r in &roots {
        assert!(fr_eq(&z.evaluate(r), &s(0)));
    }
    assert!(!fr_eq(&z.evaluate(&s(4)), &s(0)));
}
