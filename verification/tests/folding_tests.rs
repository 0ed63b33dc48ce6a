use ark_ff::{PrimeField, UniformRand};
use ark_r1cs_std::alloc::AllocVar;
use ark_r1cs_std::eq::EqGadget;
use ark_r1cs_std::fields::fp::FpVar;
use ark_relations::r1cs::{ConstraintSynthesizer, ConstraintSystem, ConstraintSystemRef};
use ark_std::test_rng;

use kzg_folding::linalg::{Matrix, Vector};
use kzg_folding::r1cs::R1CS;
use kzg_folding::relaxed_r1cs::R1CSRelaxed;
use kzg_folding::scalar::Scalar;

fn s(n: u64) -> Scalar {
    Scalar::from_u64(n)
}

fn fr_to_scalar(x: ark_bn254::Fr) -> Scalar {
    Scalar { limbs: x.into_bigint().0 }
}

fn random_scalar(rng: &mut impl ark_std::rand::RngCore) -> Scalar {
    fr_to_scalar(ark_bn254::Fr::rand(rng))
}

fn row(vals: [u64; 6]) -> Vec<Scalar> {
    vals.iter().map(|v| s(*v)).collect()
}

fn get_test_r1cs() -> (Matrix, Matrix, Matrix) {
    let a = vec![
        row([0, 1, 0, 0, 0, 0]),
        row([0, 0, 0, 1, 0, 0]),
        row([0, 1, 0, 0, 1, 0]),
        row([5, 0, 0, 0, 0, 1]),
    ];
    let b = vec![
        row([0, 1, 0, 0, 0, 0]),
        row([0, 1, 0, 0, 0, 0]),
        row([1, 0, 0, 0, 0, 0]),
        row([1, 0, 0, 0, 0, 0]),
    ];
    let c = vec![
        row([0, 0, 0, 1, 0, 0]),
        row([0, 0, 0, 0, 1, 0]),
        row([0, 0, 0, 0, 0, 1]),
        row([0, 0, 1, 0, 0, 0]),
    ];
    (Matrix::new_from_vecs(&a), Matrix::new_from_vecs(&b), Matrix::new_from_vecs(&c))
}

fn get_test_satisfying_witness(input: usize) -> Vector {
    let x = input as u64;
    Vector::new(&vec![
        s(1),
        s(x),
        s(x * x * x + x + 5),
        s(x * x),
        s(x * x * x),
        s(x * x * x + x),
    ])
}

/// Folds two relaxed instances by hand with the vector primitives and
/// checks the folded equation, for one random challenge.
fn raw_folding_roundtrip(w_1: &Vector, w_2: &Vector) {
    let mut rng = test_rng();
    let (a, b, c) = get_test_r1cs();
    let (u_1, u_2) = (s(1), s(1));
    let e_1 = Vector::new_zero_vector(a.num_rows);
    let e_2 = e_1.duplicate();

    // u <- u_1 + r u_2
    let r = random_scalar(&mut rng);
    let u = kzg_folding::scalar::fr_add(&u_1, &kzg_folding::scalar::fr_mul(&r, &u_2));
    let r_square = kzg_folding::scalar::fr_mul(&r, &r);

    // E <- E_1 + r (A z_1 ∘ B z_2 + A z_2 ∘ B z_1 - u_1 C z_2 - u_2 C z_1) + r^2 E_2
    let t = a
        .dot_vector(w_1)
        .hadamard(&b.dot_vector(w_2))
        .add(&a.dot_vector(w_2).hadamard(&b.dot_vector(w_1)))
        .sub(&c.dot_vector(w_2).scalar_mul(&u_1))
        .sub(&c.dot_vector(w_1).scalar_mul(&u_2));
    let e = t.scalar_mul(&r).add(&e_1).add(&e_2.scalar_mul(&r_square));

    // A Z ∘ B Z for Z = z_1 + r z_2
    let az_bz = a
        .dot_vector(w_1)
        .hadamard(&b.dot_vector(w_1))
        .add(
            &a.dot_vector(w_1)
                .hadamard(&b.dot_vector(w_2))
                .add(&a.dot_vector(w_2).hadamard(&b.dot_vector(w_1)))
                .scalar_mul(&r),
        )
        .add(&a.dot_vector(w_2).hadamard(&b.dot_vector(w_2)).scalar_mul(&r_square));

    // u C Z + E
    let cz = c.dot_vector(w_1).add(&c.dot_vector(w_2).scalar_mul(&r));
    let u_cz_plus_e = cz.scalar_mul(&u).add(&e);

    assert!(az_bz.sub(&u_cz_plus_e).is_zero_vector());
}

#[test]
fn test_folding_relaxed_r1cs() {
    let w = get_test_satisfying_witness(3);
    raw_folding_roundtrip(&w, &w.duplicate());
}

#[test]
fn test_nolib_folding_relaxed_r1cs() {
    let w_1 = get_test_satisfying_witness(3);
    let w_2 = get_test_satisfying_witness(5);
    raw_folding_roundtrip(&w_1, &w_2);
}

/// `a^2 + b^2 = c^2` where `a`, `b` are witnesses and `c^2` is public.
#[derive(Clone)]
struct TestPythagoreCircuit {
    a: ark_bn254::Fr,
    b: ark_bn254::Fr,
    c_square: ark_bn254::Fr,
}

impl ConstraintSynthesizer<ark_bn254::Fr> for TestPythagoreCircuit {
    fn generate_constraints(
        self,
        cs: ConstraintSystemRef<ark_bn254::Fr>,
    ) -> Result<(), ark_relations::r1cs::SynthesisError> {
        let a = FpVar::new_witness(cs.clone(), || Ok(self.a)).unwrap();
        let b = FpVar::new_witness(cs.clone(), || Ok(self.b)).unwrap();
        let c_square = FpVar::new_input(cs.clone(), || Ok(self.c_square)).unwrap();
        let c_square_computed = a.clone() * a.clone() + b.clone() * b.clone();
        c_square_computed.enforce_equal(&c_square)
    }
}

fn generate_constraint_system(
    circuit: impl ConstraintSynthesizer<ark_bn254::Fr>,
) -> ConstraintSystem<ark_bn254::Fr> {
    let cs = ConstraintSystem::<ark_bn254::Fr>::new_ref();
    circuit.generate_constraints(cs.clone()).unwrap();
    cs.finalize();
    cs.into_inner().unwrap()
}

fn get_r1cs_from_cs(circuit: impl ConstraintSynthesizer<ark_bn254::Fr>) -> R1CS {
    let cs = generate_constraint_system(circuit);
    let m = cs.to_matrices().unwrap();
    let n_rows = cs.num_constraints;
    let n_cols = cs.num_instance_variables + cs.num_witness_variables;
    let dense = |sparse: &Vec<Vec<(ark_bn254::Fr, usize)>>| -> Vec<Vec<Scalar>> {
        sparse
            .iter()
            .map(|entries| {
                let mut r = vec![s(0); n_cols];
                for (coeff, col) in entries {
                    r[*col] = fr_to_scalar(*coeff);
                }
                r
            })
            .collect()
    };
    R1CS {
        n_constraints: n_rows,
        n_witness: cs.num_witness_variables,
        n_instance: cs.num_instance_variables,
        a: Matrix::new_from_vecs(&dense(&m.a)),
        b: Matrix::new_from_vecs(&dense(&m.b)),
        c: Matrix::new_from_vecs(&dense(&m.c)),
    }
}

fn get_z_from_cs(circuit: impl ConstraintSynthesizer<ark_bn254::Fr>) -> Vector {
    let cs = generate_constraint_system(circuit);
    let mut z: Vec<Scalar> = cs.instance_assignment.iter().map(|x| fr_to_scalar(*x)).collect();
    z.extend(cs.witness_assignment.iter().map(|x| fr_to_scalar(*x)));
    Vector::new(&z)
}

fn fr(n: u64) -> ark_bn254::Fr {
    ark_bn254::Fr::from(n)
}

#[test]
fn test_valid_r1cs_is_satisfying() {
    let circuit = TestPythagoreCircuit { a: fr(5), b: fr(10), c_square: fr(125) };
    let r1cs = get_r1cs_from_cs(circuit.clone());
    let z = get_z_from_cs(circuit);
    assert!(r1cs.is_satisfied(&z));
}

#[test]
fn test_invalid_r1cs_is_not_satisfying() {
    let circuit = TestPythagoreCircuit { a: fr(1), b: fr(1), c_square: fr(100) };
    let r1cs = get_r1cs_from_cs(circuit.clone());
    let z = get_z_from_cs(circuit);
    assert!(!r1cs.is_satisfied(&z));
}

#[test]
fn test_valid_rlc_of_two_relaxed_r1cs() {
    let circuit = TestPythagoreCircuit { a: fr(2), b: fr(3), c_square: fr(13) };
    let r1cs = get_r1cs_from_cs(circuit.clone());
    let relaxed_r1cs_1 = R1CSRelaxed::from_r1cs(r1cs.clone());
    let z_1 = get_z_from_cs(circuit);
    assert!(relaxed_r1cs_1.is_satisfied(&z_1));

    let circuit = TestPythagoreCircuit { a: fr(5), b: fr(10), c_square: fr(125) };
    let relaxed_r1cs_2 = R1CSRelaxed::from_r1cs(r1cs.clone());
    let z_2 = get_z_from_cs(circuit);
    assert!(relaxed_r1cs_2.is_satisfied(&z_2));

    let mut rng = test_rng();
    let r = random_scalar(&mut rng);

    let e_3 = relaxed_r1cs_1.compute_e(&relaxed_r1cs_2, &r, &z_1, &z_2);
    let u_3 = relaxed_r1cs_1.compute_u(&relaxed_r1cs_2, &r);
    let relaxed_r1cs_3 = R1CSRelaxed::from_relaxed_r1cs(r1cs.a, r1cs.b, r1cs.c, u_3, e_3);

    let z_3 = relaxed_r1cs_1.compute_z(&r, &z_1, &z_2);
    assert!(relaxed_r1cs_3.is_satisfied(&z_3));
}

// Folding two satisfying relaxed instances stays satisfying for many
// random challenges, including the edge challenges zero and one.
#[test]
fn folding_satisfied_for_many_challenges() {
    let mut rng = test_rng();
    let (a, b, c) = get_test_r1cs();
    let base = R1CSRelaxed::from_r1cs(R1CS {
        n_constraints: 4,
        n_witness: 4,
        n_instance: 2,
        a,
        b,
        c,
    });
    let z_1 = get_test_satisfying_witness(3);
    let z_2 = get_test_satisfying_witness(7);
    assert!(base.is_satisfied(&z_1));
    assert!(base.is_satisfied(&z_2));

    let mut challenges = vec![s(0), s(1)];
    for _ in 0..100 {
        challenges.push(random_scalar(&mut rng));
    }
    for r in &challenges {
        let (folded, z_folded) = base.fold(&base, r, &z_1, &z_2);
        assert!(folded.is_satisfied(&z_folded));
    }
}

#[test]
fn test_pythagore_circuit() {
    let cs = ConstraintSystem::<ark_bn254::Fr>::new_ref();
    let circuit = TestPythagoreCircuit { a: fr(5), b: fr(10), c_square: fr(125) };
    circuit.generate_constraints(cs.clone()).unwrap();
    assert!(cs.is_satisfied().unwrap());

    let circuit = TestPythagoreCircuit { a: fr(5), b: fr(10), c_square: fr(10) };
    circuit.generate_constraints(cs.clone()).unwrap();
    assert!(!cs.is_satisfied().unwrap());
}
