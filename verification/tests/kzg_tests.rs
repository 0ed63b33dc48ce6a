use ark_ff::{PrimeField, UniformRand};
use ark_std::test_rng;

use kzg_folding::errors::Error;
use kzg_folding::group::{g1_add, g1_dup, g1_generator, g1_mul, g2_dup, g2_generator, g2_mul, G1Elem, G2Elem};
use kzg_folding::kzg::KZG;
use kzg_folding::poly::Polynomial;
use kzg_folding::scalar::{fr_add, fr_eq, Scalar};

fn s(n: u64) -> Scalar {
    Scalar::from_u64(n)
}

fn fr_to_scalar(x: ark_bn254::Fr) -> Scalar {
    Scalar { limbs: x.into_bigint().0 }
}

fn random_scalar(rng: &mut impl ark_std::rand::RngCore) -> Scalar {
    fr_to_scalar(ark_bn254::Fr::rand(rng))
}

fn random_g1(rng: &mut impl ark_std::rand::RngCore) -> G1Elem {
    g1_mul(&g1_generator(), &random_scalar(rng))
}

fn random_g2(rng: &mut impl ark_std::rand::RngCore) -> G2Elem {
    g2_mul(&g2_generator(), &random_scalar(rng))
}

fn random_polynomial(degree: usize, rng: &mut impl ark_std::rand::RngCore) -> Polynomial {
    let mut coeffs = Vec::new();
    for _ in 0..degree + 1 {
        coeffs.push(random_scalar(rng));
    }
    Polynomial::from_coefficients(coeffs)
}

fn setup_kzg(degree: usize, rng: &mut impl ark_std::rand::RngCore) -> KZG {
    let tau = random_scalar(rng);
    let g1 = random_g1(rng);
    let g2 = random_g2(rng);
    let mut kzg = KZG::new(g1, g2, degree);
    kzg.setup(tau);
    kzg
}

#[test]
fn test_full_kzg() {
    let mut rng = test_rng();
    let degree = 10;
    let kzg = setup_kzg(degree, &mut rng);
    let polynomial = random_polynomial(degree, &mut rng);
    let commitment = kzg.commit(&polynomial).unwrap();
    let z = random_scalar(&mut rng);
    let y = polynomial.evaluate(&z);
    let pi = kzg.open(&polynomial, z, y).unwrap();
    assert!(kzg.verify(y, z, g1_dup(&commitment), g1_dup(&pi)));
    assert!(kzg.verify_no_g2_ops(y, z, g1_dup(&commitment), g1_dup(&pi)));
    assert!(kzg.verify_no_g2_ops_evm_opcode(y, z, commitment, pi));
}

#[test]
fn test_multi_open_kzg_with_no_g2_ops() {
    let mut rng = test_rng();
    let degree = 10;
    let kzg = setup_kzg(degree, &mut rng);
    let polynomial = random_polynomial(degree, &mut rng);
    let commitment = kzg.commit(&polynomial).unwrap();
    let z_values: Vec<Scalar> = (0..5u64).map(s).collect();
    let y_values: Vec<Scalar> = z_values.iter().map(|z| polynomial.evaluate(z)).collect();
    let (pi, lagrange_polynomial, zero_polynomial) =
        kzg.multi_open(&polynomial, &z_values).unwrap();
    let result = kzg.verify_multi_open_no_g2_ops(
        &commitment,
        &z_values,
        &y_values,
        &lagrange_polynomial,
        &zero_polynomial,
        &pi,
    );
    assert!(result);

    // make it fail with a wrong commitment
    let wrong_commitment = g1_add(&commitment, &kzg.g1);
    let result = kzg.verify_multi_open_no_g2_ops(
        &wrong_commitment,
        &z_values,
        &y_values,
        &lagrange_polynomial,
        &zero_polynomial,
        &pi,
    );
    assert!(!result);
}

// Altering any single claimed evaluation makes the batch verifier reject.
#[test]
fn multi_open_rejects_altered_evaluation() {
    let mut rng = test_rng();
    let degree = 10;
    let kzg = setup_kzg(degree, &mut rng);
    let polynomial = random_polynomial(degree, &mut rng);
    let commitment = kzg.commit(&polynomial).unwrap();
    let z_values: Vec<Scalar> = (0..4u64).map(s).collect();
    let y_values: Vec<Scalar> = z_values.iter().map(|z| polynomial.evaluate(z)).collect();
    let (pi, lagrange_polynomial, zero_polynomial) =
        kzg.multi_open(&polynomial, &z_values).unwrap();
    for idx in 0..y_values.len() {
        let mut tampered = y_values.clone();
        tampered[idx] = fr_add(&tampered[idx], &s(1));
        assert!(!kzg.verify_multi_open_no_g2_ops(
            &commitment,
            &z_values,
            &tampered,
            &lagrange_polynomial,
            &zero_polynomial,
            &pi,
        ));
    }
}

// Flipping y, z, the commitment or the proof makes every verifier variant
// reject, and the three variants always agree.
#[test]
fn tampered_openings_are_rejected() {
    let mut rng = test_rng();
    let degree = 6;
    let kzg = setup_kzg(degree, &mut rng);
    let polynomial = random_polynomial(degree, &mut rng);
    let commitment = kzg.commit(&polynomial).unwrap();
    let z = random_scalar(&mut rng);
    let y = polynomial.evaluate(&z);
    let pi = kzg.open(&polynomial, z, y).unwrap();

    let cases: Vec<(Scalar, Scalar, G1Elem, G1Elem, bool)> = vec![
        (y, z, g1_dup(&commitment), g1_dup(&pi), true),
        (fr_add(&y, &s(1)), z, g1_dup(&commitment), g1_dup(&pi), false),
        (y, fr_add(&z, &s(1)), g1_dup(&commitment), g1_dup(&pi), false),
        (y, z, g1_add(&commitment, &kzg.g1), g1_dup(&pi), false),
        (y, z, g1_dup(&commitment), g1_add(&pi, &kzg.g1), false),
    ];
    for (cy, cz, cc, cp, expected) in cases {
        let v1 = kzg.verify(cy, cz, g1_dup(&cc), g1_dup(&cp));
        let v2 = kzg.verify_no_g2_ops(cy, cz, g1_dup(&cc), g1_dup(&cp));
        let v3 = kzg.verify_no_g2_ops_evm_opcode(cy, cz, cc, cp);
        assert_eq!(v1, expected);
        assert_eq!(v2, expected);
        assert_eq!(v3, expected);
    }
}

#[test]
fn verify_from_encrypted_y_accepts_honest_opening() {
    let mut rng = test_rng();
    let degree = 5;
    let kzg = setup_kzg(degree, &mut rng);
    let polynomial = random_polynomial(degree, &mut rng);
    let commitment = kzg.commit(&polynomial).unwrap();
    let z = random_scalar(&mut rng);
    let y = polynomial.evaluate(&z);
    let pi = kzg.open(&polynomial, z, y).unwrap();
    let py = g1_mul(&kzg.g1, &y);
    assert!(kzg.verify_from_encrypted_y(py, z, g1_dup(&commitment), g1_dup(&pi)));
    let wrong_py = g1_add(&g1_mul(&kzg.g1, &y), &kzg.g1);
    assert!(!kzg.verify_from_encrypted_y(wrong_py, z, commitment, pi));
}

#[test]
fn commit_rejects_excess_degree() {
    let mut rng = test_rng();
    let kzg = setup_kzg(3, &mut rng);
    let polynomial = random_polynomial(4, &mut rng);
    assert!(matches!(kzg.commit(&polynomial), Err(Error::DegreeExceeded)));
    // zero padding beyond the bound is not an excess degree
    let mut coeffs = vec![s(1), s(2), s(3), s(4)];
    coeffs.push(s(0));
    coeffs.push(s(0));
    assert!(kzg.commit(&Polynomial::from_coefficients(coeffs)).is_ok());
}

#[test]
fn open_rejects_inconsistent_evaluation() {
    let mut rng = test_rng();
    let degree = 5;
    let kzg = setup_kzg(degree, &mut rng);
    let polynomial = random_polynomial(degree, &mut rng);
    let z = random_scalar(&mut rng);
    let y = polynomial.evaluate(&z);
    let wrong_y = fr_add(&y, &s(3));
    assert!(matches!(kzg.open(&polynomial, z, wrong_y), Err(Error::InconsistentEvaluation)));
}

#[test]
fn multi_open_rejects_malformed_query_sets() {
    let mut rng = test_rng();
    let degree = 5;
    let kzg = setup_kzg(degree, &mut rng);
    let polynomial = random_polynomial(degree, &mut rng);
    let empty: Vec<Scalar> = Vec::new();
    assert!(matches!(kzg.multi_open(&polynomial, &empty), Err(Error::EmptyQuerySet)));
    let dup = vec![s(1), s(2), s(1)];
    assert!(matches!(kzg.multi_open(&polynomial, &dup), Err(Error::DuplicateQueryPoint)));
    let too_many: Vec<Scalar> = (0..7u64).map(s).collect();
    assert!(matches!(kzg.multi_open(&polynomial, &too_many), Err(Error::DegreeExceeded)));
}

// The concrete end-to-end scenario: degree 10, random everything, then a
// perturbed commitment must fail.
#[test]
fn concrete_commit_open_verify_scenario() {
    let mut rng = test_rng();
    let degree = 10;
    let kzg = setup_kzg(degree, &mut rng);
    let polynomial = random_polynomial(degree, &mut rng);
    let commitment = kzg.commit(&polynomial).unwrap();
    let z = random_scalar(&mut rng);
    let y = polynomial.evaluate(&z);
    let pi = kzg.open(&polynomial, z, y).unwrap();
    assert!(kzg.verify(y, z, g1_dup(&commitment), g1_dup(&pi)));
    let mutated = g1_add(&commitment, &kzg.g1);
    assert!(!kzg.verify(y, z, mutated, pi));
}

// Scalars round-trip through the expected small values.
#[test]
fn scalar_arithmetic_matches_integers() {
    let a = s(1000000007);
    let b = s(998244353);
    assert!(fr_eq(&fr_add(&a, &b), &s(1000000007 + 998244353)));
    let prod = kzg_folding::scalar::fr_mul(&a, &b);
    assert!(fr_eq(&prod, &s(1000000007u64 * 998244353u64)));
    let inv = kzg_folding::scalar::fr_inverse(&a).unwrap();
    assert!(fr_eq(&kzg_folding::scalar::fr_mul(&a, &inv), &s(1)));
    assert!(kzg_folding::scalar::fr_inverse(&s(0)).is_none());
    let diff = kzg_folding::scalar::fr_sub(&b, &a);
    assert!(fr_eq(&fr_add(&diff, &a), &b));
}
