use kzg_folding::linalg::{Matrix, Vector};
use kzg_folding::r1cs::R1CS;
use kzg_folding::relaxed_r1cs::R1CSRelaxed;
use kzg_folding::scalar::{fr_add, Scalar};

fn s(n: u64) -> Scalar {
    Scalar::from_u64(n)
}

fn row(vals: [u64; 6]) -> Vec<Scalar> {
    vals.iter().map(|v| s(*v)).collect()
}

/// The toy R1CS for `x^3 + x + 5 = out`, with four constraints over six
/// columns.
fn get_test_r1cs() -> (Matrix, Matrix, Matrix) {
    let a = vec![
        row([0, 1, 0, 0, 0, 0]),
        row([0, 0, 0, 1, 0, 0]),
        row([0, 1, 0, 0, 1, 0]),
        row([5, 0, 0, 0, 0, 1]),
    ];
    let b = vec![
        row([0, 1, 0, 0, 0, 0]),
        row([0, 1, 0, 0, 0, 0]),
        row([1, 0, 0, 0, 0, 0]),
        row([1, 0, 0, 0, 0, 0]),
    ];
    let c = vec![
        row([0, 0, 0, 1, 0, 0]),
        row([0, 0, 0, 0, 1, 0]),
        row([0, 0, 0, 0, 0, 1]),
        row([0, 0, 1, 0, 0, 0]),
    ];
    (Matrix::new_from_vecs(&a), Matrix::new_from_vecs(&b), Matrix::new_from_vecs(&c))
}

/// The satisfying witness `(1, x, x^3 + x + 5, x^2, x^3, x^3 + x)`.
fn get_test_satisfying_witness(input: usize) -> Vector {
    let x = input as u64;
    Vector::new(&vec![
        s(1),
        s(x),
        s(x * x * x + x + 5),
        s(x * x),
        s(x * x * x),
        s(x * x * x + x),
    ])
}

#[test]
fn test_r1cs_is_satisfied() {
    let (a, b, c) = get_test_r1cs();
    let witness = get_test_satisfying_witness(5);
    let a_dot_w = a.dot_vector(&witness);
    let b_dot_w = b.dot_vector(&witness);
    let c_dot_w = c.dot_vector(&witness);
    let a_times_b = a_dot_w.hadamard(&b_dot_w);
    let a_times_b_minus_c = a_times_b.sub(&c_dot_w);
    assert!(a_times_b_minus_c.is_zero_vector());
}

#[test]
fn test_raw_r1cs_is_satisfied() {
    let (a, b, c) = get_test_r1cs();
    let witness = get_test_satisfying_witness(5);
    let a_dot_w = a.dot_vector(&witness);
    let b_dot_w = b.dot_vector(&witness);
    let c_dot_w = c.dot_vector(&witness);
    let a_times_b = a_dot_w.hadamard(&b_dot_w);
    let a_times_b_minus_c = a_times_b.sub(&c_dot_w);
    assert!(a_times_b_minus_c.is_zero_vector());
}

#[test]
fn mod_test_r1cs_is_satisfied() {
    let (a, b, c) = get_test_r1cs();
    let witness = Vector::new(&vec![s(1), s(3), s(35), s(9), s(27), s(30)]);
    let a_dot_w = a.dot_vector(&witness);
    let b_dot_w = b.dot_vector(&witness);
    let c_dot_w = c.dot_vector(&witness);
    let a_times_b = a_dot_w.hadamard(&b_dot_w);
    let a_times_b_minus_c = a_times_b.sub(&c_dot_w);
    assert!(a_times_b_minus_c.is_zero_vector());
}

fn test_r1cs_struct() -> R1CS {
    let (a, b, c) = get_test_r1cs();
    R1CS { n_constraints: 4, n_witness: 4, n_instance: 2, a, b, c }
}

#[test]
fn struct_r1cs_is_satisfied() {
    let r1cs = test_r1cs_struct();
    assert!(r1cs.is_satisfied(&get_test_satisfying_witness(3)));
    assert!(r1cs.is_satisfied(&get_test_satisfying_witness(5)));
}

// Perturbing any single witness entry by a nonzero amount breaks the fixed
// nontrivial system.
#[test]
fn tampered_witness_is_rejected() {
    let r1cs = test_r1cs_struct();
    let witness = Vector::new(&vec![s(1), s(3), s(35), s(9), s(27), s(30)]);
    assert!(r1cs.is_satisfied(&witness));
    for idx in 0..6 {
        let mut elements = witness.elements.clone();
        elements[idx] = fr_add(&elements[idx], &s(7));
        let tampered = Vector::new(&elements);
        assert!(!r1cs.is_satisfied(&tampered));
    }
}

// Lifting a satisfying base system gives a relaxed instance with u = 1 and
// E = 0 that is still satisfied.
#[test]
fn lifted_r1cs_is_satisfied() {
    let r1cs = test_r1cs_struct();
    let witness = get_test_satisfying_witness(3);
    assert!(r1cs.is_satisfied(&witness));
    let relaxed = R1CSRelaxed::from_r1cs(r1cs);
    assert!(relaxed.e.is_zero_vector());
    assert!(relaxed.is_satisfied(&witness));
}

// The matrix product agrees with a hand-computed small case.
#[test]
fn matrix_dot_matches_by_hand() {
    let m1 = Matrix::new_from_vecs(&vec![vec![s(1), s(2)], vec![s(3), s(4)]]);
    let m2 = Matrix::new_from_vecs(&vec![vec![s(5), s(6)], vec![s(7), s(8)]]);
    let p = m1.dot(&m2);
    let expected = [[19u64, 22u64], [43u64, 50u64]];
    for i in 0..2 {
        for j in 0..2 {
            assert!(kzg_folding::scalar::fr_eq(
                &p.rows[i].elements[j],
                &s(expected[i][j]),
            ));
        }
    }
}
