//! Relaxed R1CS instances and Nova-style folding.
//!
//! A relaxed instance carries a scalar `u` and an error vector `E` beside
//! the constraint matrices, and is satisfied by `z` when
//! `(A z) ∘ (B z) = u (C z) + E`. Two satisfying instances that share their
//! matrices fold, under any challenge scalar, into a third satisfying
//! instance; that is proved here as `lemma_fold_satisfiability`.
use vstd::prelude::*;

use crate::arith::{
    cong, int_dot, lemma_cong_add, lemma_cong_mul, lemma_int_dot_cong, lemma_int_dot_linear,
    lemma_mod_add, lemma_mod_cong, lemma_mod_mul, lemma_mod_sub,
};
use crate::linalg::{Matrix, Vector};
use crate::r1cs::{r1cs_sat, R1CS};
use crate::scalar::{fr_add, fr_mul, fr_order, Scalar};

verus! {

/// Whether `z` satisfies the relaxed system with slack `u` and error `e`:
/// `(A z) ∘ (B z) = u (C z) + e` row-wise, modulo the field order.
pub open spec fn relaxed_sat(
    a: Seq<Seq<int>>,
    b: Seq<Seq<int>>,
    c: Seq<Seq<int>>,
    u: int,
    e: Seq<int>,
    z: Seq<int>,
) -> bool {
    forall|i: int|
        0 <= i < a.len() ==> cong(
            int_dot(#[trigger] a[i], z) * int_dot(b[i], z) - (u * int_dot(c[i], z) + e[i]),
            0,
        )
}

/// The cross term of row `i` when two relaxed instances are folded:
/// `(A z1)∘(B z2) + (A z2)∘(B z1) - u1 (C z2) - u2 (C z1)`.
pub open spec fn t_row(
    a: Seq<Seq<int>>,
    b: Seq<Seq<int>>,
    c: Seq<Seq<int>>,
    u1: int,
    u2: int,
    z1: Seq<int>,
    z2: Seq<int>,
    i: int,
) -> int {
    int_dot(a[i], z1) * int_dot(b[i], z2) + int_dot(a[i], z2) * int_dot(b[i], z1) - u1 * int_dot(
        c[i],
        z2,
    ) - u2 * int_dot(c[i], z1)
}

/// The folded error vector: `E1 + r T + r² E2`, over plain integers.
pub open spec fn fold_e_seq(
    a: Seq<Seq<int>>,
    b: Seq<Seq<int>>,
    c: Seq<Seq<int>>,
    u1: int,
    u2: int,
    r: int,
    e1: Seq<int>,
    e2: Seq<int>,
    z1: Seq<int>,
    z2: Seq<int>,
) -> Seq<int> {
    Seq::new(e1.len(), |i: int| e1[i] + r * t_row(a, b, c, u1, u2, z1, z2, i) + r * r * e2[i])
}

/// The folded witness: `z1 + r z2`, over plain integers.
pub open spec fn fold_z_seq(r: int, z1: Seq<int>, z2: Seq<int>) -> Seq<int> {
    Seq::new(z1.len(), |i: int| z1[i] + r * z2[i])
}

/// A relaxed R1CS equation: matrices, the error vector `E` and the scalar
/// `u`.
#[derive(Clone, Debug)]
pub struct R1CSRelaxed {
    pub n_constraints: usize,
    pub n_witness: usize,
    pub n_instance: usize,
    pub a: Matrix,
    pub b: Matrix,
    pub c: Matrix,
    pub e: Vector,
    pub u: Scalar,
}

/// The instance part of a relaxed R1CS: error vector, slack scalar and
/// public input.
#[derive(Clone, Debug)]
pub struct R1CSRelaxedInstance {
    pub e: Vector,
    pub u: Scalar,
    pub x: Vector,
}

impl R1CSRelaxed {
    /// The matrices share the recorded shape and the error vector has one
    /// entry per constraint.
    pub open spec fn wf(&self) -> bool {
        &&& self.a.wf()
        &&& self.b.wf()
        &&& self.c.wf()
        &&& self.a.num_rows == self.n_constraints
        &&& self.b.num_rows == self.n_constraints
        &&& self.c.num_rows == self.n_constraints
        &&& self.b.num_cols == self.a.num_cols
        &&& self.c.num_cols == self.a.num_cols
        &&& self.e.wf()
        &&& self.e@.len() == self.n_constraints
    }

    /// Lifts a plain R1CS to relaxed form: `u = 1` and `E = 0`, matrices
    /// unchanged. A witness of the base system also satisfies the lifted
    /// one (`lemma_lift_satisfiability`).
    pub fn from_r1cs(value: R1CS) -> (r: R1CSRelaxed)
        requires
            value.wf(),
        ensures
            r.wf(),
            r.a@ == value.a@,
            r.b@ == value.b@,
            r.c@ == value.c@,
            r.a.num_cols == value.a.num_cols,
            r.n_constraints == value.n_constraints,
            r.n_witness == value.n_witness,
            r.n_instance == value.n_instance,
            r.u@ == 1,
            r.e@.len() == value.n_constraints,
            forall|i: int| 0 <= i < r.e@.len() ==> r.e@[i] == 0,
    {
        let e = Vector::new_zero_vector(value.n_constraints);
        R1CSRelaxed {
            n_constraints: value.n_constraints,
            n_witness: value.n_witness,
            n_instance: value.n_instance,
            a: value.a,
            b: value.b,
            c: value.c,
            e,
            u: Scalar::from_u64(1),
        }
    }

    /// Builds a relaxed instance from its parts; the dimension fields are
    /// read off the matrices.
    pub fn from_relaxed_r1cs(a: Matrix, b: Matrix, c: Matrix, u: Scalar, e: Vector) -> (r:
        R1CSRelaxed)
        requires
            a.wf(),
            b.wf(),
            c.wf(),
            b.num_rows == a.num_rows,
            c.num_rows == a.num_rows,
            b.num_cols == a.num_cols,
            c.num_cols == a.num_cols,
            e.wf(),
            e@.len() == a.num_rows,
        ensures
            r.wf(),
            r.a@ == a@,
            r.b@ == b@,
            r.c@ == c@,
            r.a.num_cols == a.num_cols,
            r.n_constraints == a.num_rows,
            r.n_witness == a.num_cols,
            r.n_instance == b.num_cols,
            r.u@ == u@,
            r.e@ == e@,
    {
        let n_constraints = a.num_rows;
        let n_witness = a.num_cols;
        let n_instance = b.num_cols;
        R1CSRelaxed { n_constraints, n_witness, n_instance, a, b, c, e, u }
    }

    /// Whether `z` satisfies the relaxed system:
    /// `(A z) ∘ (B z) - (u (C z) + E)` is the zero vector.
    pub fn is_satisfied(&self, z: &Vector) -> (r: bool)
        requires
            self.wf(),
            z@.len() == self.a.num_cols,
        ensures
            r == relaxed_sat(self.a@, self.b@, self.c@, self.u@, self.e@, z@),
    {
        let az = self.a.dot_vector(z);
        let bz = self.b.dot_vector(z);
        let cz = self.c.dot_vector(z);
        let h = az.hadamard(&bz);
        let s = cz.scalar_mul(&self.u).add(&self.e);
        let d = h.sub(&s);
        let r = d.is_zero_vector();
        proof {
            let n = self.a@.len() as int;
            assert forall|i: int| 0 <= i < n implies ((#[trigger] d@[i]) == 0) == cong(
                int_dot(self.a@[i], z@) * int_dot(self.b@[i], z@) - (self.u@ * int_dot(
                    self.c@[i],
                    z@,
                ) + self.e@[i]),
                0,
            ) by {
                let da = int_dot(self.a@[i], z@);
                let db = int_dot(self.b@[i], z@);
                let dc = int_dot(self.c@[i], z@);
                let uu = self.u@;
                let ee = self.e@[i];
                // h[i] == (da * db) % order
                lemma_mod_mul(da, db);
                // cz.scalar_mul(u)[i] == (dc * u) % order, and the sum with e
                lemma_mod_mul(dc, uu);
                crate::arith::lemma_mul_comm(dc, uu);
                lemma_mod_add(uu * dc, ee);
                // d[i] == ((da*db) % m - (u*dc + e) % m) % m == (da*db - (u*dc + e)) % m
                lemma_mod_sub(da * db, uu * dc + ee);
                vstd::arithmetic::div_mod::lemma_small_mod(0 as nat, fr_order() as nat);
            }
            if r {
                assert forall|i: int| 0 <= i < n implies cong(
                    int_dot(#[trigger] self.a@[i], z@) * int_dot(self.b@[i], z@) - (self.u@
                        * int_dot(self.c@[i], z@) + self.e@[i]),
                    0,
                ) by {
                    assert(d@[i] == 0);
                }
            } else {
                assert(exists|i: int| 0 <= i < d@.len() && d@[i] != 0);
                let i = choose|i: int| 0 <= i < d@.len() && d@[i] != 0;
                assert(!cong(
                    int_dot(self.a@[i], z@) * int_dot(self.b@[i], z@) - (self.u@ * int_dot(
                        self.c@[i],
                        z@,
                    ) + self.e@[i]),
                    0,
                ));
                assert(!relaxed_sat(self.a@, self.b@, self.c@, self.u@, self.e@, z@));
            }
        }
        r
    }

    /// The cross term `T = (A z1)∘(B z2) + (A z2)∘(B z1) - u1 C z2 - u2 C z1`
    /// of this instance with `rhs`.
    pub fn compute_t(&self, rhs: &R1CSRelaxed, z1: &Vector, z2: &Vector) -> (r: Vector)
        requires
            self.wf(),
            z1@.len() == self.a.num_cols,
            z2@.len() == self.a.num_cols,
        ensures
            r.wf(),
            r@.len() == self.a@.len(),
            forall|i: int|
                0 <= i < r@.len() ==> r@[i] == t_row(
                    self.a@,
                    self.b@,
                    self.c@,
                    self.u@,
                    rhs.u@,
                    z1@,
                    z2@,
                    i,
                ) % fr_order(),
    {
        let az1 = self.a.dot_vector(z1);
        let bz2 = self.b.dot_vector(z2);
        let az2 = self.a.dot_vector(z2);
        let bz1 = self.b.dot_vector(z1);
        let cz2 = self.c.dot_vector(z2);
        let cz1 = self.c.dot_vector(z1);
        let p1 = az1.hadamard(&bz2);
        let p2 = az2.hadamard(&bz1);
        let s1 = p1.add(&p2);
        let w1 = cz2.scalar_mul(&self.u);
        let s2 = s1.sub(&w1);
        let w2 = cz1.scalar_mul(&rhs.u);
        let r = s2.sub(&w2);
        proof {
            let n = self.a@.len() as int;
            assert forall|i: int| 0 <= i < n implies (#[trigger] r@[i]) == t_row(
                self.a@,
                self.b@,
                self.c@,
                self.u@,
                rhs.u@,
                z1@,
                z2@,
                i,
            ) % fr_order() by {
                let a1 = int_dot(self.a@[i], z1@);
                let b2 = int_dot(self.b@[i], z2@);
                let a2 = int_dot(self.a@[i], z2@);
                let b1 = int_dot(self.b@[i], z1@);
                let c2 = int_dot(self.c@[i], z2@);
                let c1 = int_dot(self.c@[i], z1@);
                let u1 = self.u@;
                let u2 = rhs.u@;
                lemma_mod_mul(a1, b2);
                lemma_mod_mul(a2, b1);
                lemma_mod_add(a1 * b2, a2 * b1);
                lemma_mod_mul(c2, u1);
                crate::arith::lemma_mul_comm(c2, u1);
                lemma_mod_sub(a1 * b2 + a2 * b1, u1 * c2);
                lemma_mod_mul(c1, u2);
                crate::arith::lemma_mul_comm(c1, u2);
                lemma_mod_sub(a1 * b2 + a2 * b1 - u1 * c2, u2 * c1);
            }
        }
        r
    }

    /// The folded slack `u = u1 + r u2`.
    pub fn compute_u(&self, rhs: &R1CSRelaxed, r: &Scalar) -> (res: Scalar)
        ensures
            res@ == (self.u@ + r@ * rhs.u@) % fr_order(),
    {
        let prod = fr_mul(&rhs.u, r);
        let res = fr_add(&self.u, &prod);
        proof {
            crate::arith::lemma_mul_comm(rhs.u@, r@);
            lemma_mod_add(self.u@, r@ * rhs.u@);
        }
        res
    }

    /// The folded error vector `E = E1 + r T + r² E2`.
    pub fn compute_e(&self, rhs: &R1CSRelaxed, r: &Scalar, z1: &Vector, z2: &Vector) -> (res:
        Vector)
        requires
            self.wf(),
            rhs.e.wf(),
            rhs.e@.len() == self.a@.len(),
            z1@.len() == self.a.num_cols,
            z2@.len() == self.a.num_cols,
        ensures
            res.wf(),
            res@.len() == self.a@.len(),
            forall|i: int|
                0 <= i < res@.len() ==> res@[i] == (self.e@[i] + r@ * t_row(
                    self.a@,
                    self.b@,
                    self.c@,
                    self.u@,
                    rhs.u@,
                    z1@,
                    z2@,
                    i,
                ) + r@ * r@ * rhs.e@[i]) % fr_order(),
    {
        let r_square = fr_mul(r, r);
        let t = self.compute_t(rhs, z1, z2);
        let ts = t.scalar_mul(r);
        let x1 = ts.add(&self.e);
        let es = rhs.e.scalar_mul(&r_square);
        let res = x1.add(&es);
        proof {
            let n = self.a@.len() as int;
            assert forall|i: int| 0 <= i < n implies (#[trigger] res@[i]) == (self.e@[i] + r@
                * t_row(self.a@, self.b@, self.c@, self.u@, rhs.u@, z1@, z2@, i) + r@ * r@
                * rhs.e@[i]) % fr_order() by {
                let tv = t_row(self.a@, self.b@, self.c@, self.u@, rhs.u@, z1@, z2@, i);
                let rr = r@;
                let e1 = self.e@[i];
                let e2 = rhs.e@[i];
                // ts[i] == ((tv % m) * r) % m == (r * tv) % m
                lemma_mod_mul(tv, rr);
                crate::arith::lemma_mul_comm(tv, rr);
                // x1[i] == ((r * tv) % m + e1) % m == (r * tv + e1) % m
                lemma_mod_add(rr * tv, e1);
                // es[i] == (e2 * ((r*r) % m)) % m == (e2 * (r*r)) % m
                lemma_mod_mul(e2, rr * rr);
                crate::arith::lemma_mul_comm(e2, rr * rr);
                // res[i] == ((r*tv + e1) % m + (r*r*e2) % m) % m
                lemma_mod_add(rr * tv + e1, rr * rr * e2);
                assert(rr * tv + e1 + rr * rr * e2 == e1 + rr * tv + rr * rr * e2);
            }
        }
        res
    }

    /// The folded witness `Z = z1 + r z2`.
    pub fn compute_z(&self, r: &Scalar, z1: &Vector, z2: &Vector) -> (res: Vector)
        requires
            z1@.len() == z2@.len(),
        ensures
            res.wf(),
            res@.len() == z1@.len(),
            forall|i: int|
                0 <= i < res@.len() ==> res@[i] == (z1@[i] + r@ * z2@[i]) % fr_order(),
    {
        let zs = z2.scalar_mul(r);
        let res = z1.add(&zs);
        proof {
            assert forall|i: int| 0 <= i < res@.len() implies (#[trigger] res@[i]) == (z1@[i] + r@
                * z2@[i]) % fr_order() by {
                lemma_mod_mul(z2@[i], r@);
                crate::arith::lemma_mul_comm(z2@[i], r@);
                lemma_mod_add(z1@[i], r@ * z2@[i]);
            }
        }
        res
    }

    /// Folds this instance with `rhs` (which must share its matrices) under
    /// the challenge `r`, returning the folded instance and witness.
    pub fn fold(&self, rhs: &R1CSRelaxed, r: &Scalar, z1: &Vector, z2: &Vector) -> (res: (
        R1CSRelaxed,
        Vector,
    ))
        requires
            self.wf(),
            rhs.wf(),
            rhs.a@ == self.a@,
            rhs.b@ == self.b@,
            rhs.c@ == self.c@,
            rhs.n_constraints == self.n_constraints,
            z1@.len() == self.a.num_cols,
            z2@.len() == self.a.num_cols,
        ensures
            res.0.wf(),
            res.0.a@ == self.a@,
            res.0.b@ == self.b@,
            res.0.c@ == self.c@,
            res.0.a.num_cols == self.a.num_cols,
            res.0.u@ == (self.u@ + r@ * rhs.u@) % fr_order(),
            res.0.e@.len() == self.a@.len(),
            forall|i: int|
                0 <= i < res.0.e@.len() ==> res.0.e@[i] == (self.e@[i] + r@ * t_row(
                    self.a@,
                    self.b@,
                    self.c@,
                    self.u@,
                    rhs.u@,
                    z1@,
                    z2@,
                    i,
                ) + r@ * r@ * rhs.e@[i]) % fr_order(),
            res.1.wf(),
            res.1@.len() == z1@.len(),
            forall|i: int|
                0 <= i < res.1@.len() ==> res.1@[i] == (z1@[i] + r@ * z2@[i]) % fr_order(),
    {
        let e3 = self.compute_e(rhs, r, z1, z2);
        let u3 = self.compute_u(rhs, r);
        let z3 = self.compute_z(r, z1, z2);
        let inst = R1CSRelaxed::from_relaxed_r1cs(
            self.a.duplicate(),
            self.b.duplicate(),
            self.c.duplicate(),
            u3,
            e3,
        );
        (inst, z3)
    }
}

/// Lifting preserves satisfiability: a witness of a plain R1CS satisfies
/// the relaxed instance with `u = 1` and a zero error vector.
pub proof fn lemma_lift_satisfiability(
    a: Seq<Seq<int>>,
    b: Seq<Seq<int>>,
    c: Seq<Seq<int>>,
    e: Seq<int>,
    z: Seq<int>,
)
    requires
        r1cs_sat(a, b, c, z),
        e.len() == a.len(),
        forall|i: int| 0 <= i < e.len() ==> e[i] == 0,
    ensures
        relaxed_sat(a, b, c, 1, e, z),
{
    assert forall|i: int| 0 <= i < a.len() implies cong(
        int_dot(#[trigger] a[i], z) * int_dot(b[i], z) - (1 * int_dot(c[i], z) + e[i]),
        0,
    ) by {
        assert(cong(int_dot(a[i], z) * int_dot(b[i], z) - int_dot(c[i], z), 0));
        assert(1 * int_dot(c[i], z) == int_dot(c[i], z));
        assert(e[i] == 0);
    }
}

/// Satisfiability only depends on the congruence classes of `u`, `e` and
/// `z`.
pub proof fn lemma_relaxed_sat_congruence(
    a: Seq<Seq<int>>,
    b: Seq<Seq<int>>,
    c: Seq<Seq<int>>,
    u1: int,
    u2: int,
    e1: Seq<int>,
    e2: Seq<int>,
    z1: Seq<int>,
    z2: Seq<int>,
)
    requires
        relaxed_sat(a, b, c, u1, e1, z1),
        cong(u2, u1),
        e1.len() == e2.len(),
        z1.len() == z2.len(),
        forall|i: int| 0 <= i < a.len() ==> (#[trigger] a[i]).len() == z1.len(),
        forall|i: int| 0 <= i < b.len() ==> (#[trigger] b[i]).len() == z1.len(),
        forall|i: int| 0 <= i < c.len() ==> (#[trigger] c[i]).len() == z1.len(),
        forall|i: int| 0 <= i < e1.len() ==> cong(#[trigger] e2[i], e1[i]),
        forall|i: int| 0 <= i < z1.len() ==> cong(#[trigger] z2[i], z1[i]),
        b.len() == a.len(),
        c.len() == a.len(),
        e1.len() == a.len(),
    ensures
        relaxed_sat(a, b, c, u2, e2, z2),
{
    assert forall|i: int| 0 <= i < a.len() implies cong(
        int_dot(#[trigger] a[i], z2) * int_dot(b[i], z2) - (u2 * int_dot(c[i], z2) + e2[i]),
        0,
    ) by {
        lemma_int_dot_cong(a[i], z2, z1);
        lemma_int_dot_cong(b[i], z2, z1);
        lemma_int_dot_cong(c[i], z2, z1);
        lemma_cong_mul(int_dot(a[i], z2), int_dot(a[i], z1), int_dot(b[i], z2), int_dot(b[i], z1));
        lemma_cong_mul(u2, u1, int_dot(c[i], z2), int_dot(c[i], z1));
        lemma_cong_add(u2 * int_dot(c[i], z2), u1 * int_dot(c[i], z1), e2[i], e1[i]);
        crate::arith::lemma_cong_sub(
            int_dot(a[i], z2) * int_dot(b[i], z2),
            int_dot(a[i], z1) * int_dot(b[i], z1),
            u2 * int_dot(c[i], z2) + e2[i],
            u1 * int_dot(c[i], z1) + e1[i],
        );
    }
}

/// The folding identity: if two relaxed instances share their matrices and
/// are satisfied by `z1` and `z2`, then for every challenge `r` the folded
/// instance `(u1 + r u2, E1 + r T + r² E2)` is satisfied by `z1 + r z2`.
pub proof fn lemma_fold_satisfiability(
    a: Seq<Seq<int>>,
    b: Seq<Seq<int>>,
    c: Seq<Seq<int>>,
    u1: int,
    u2: int,
    r: int,
    e1: Seq<int>,
    e2: Seq<int>,
    z1: Seq<int>,
    z2: Seq<int>,
)
    requires
        relaxed_sat(a, b, c, u1, e1, z1),
        relaxed_sat(a, b, c, u2, e2, z2),
        b.len() == a.len(),
        c.len() == a.len(),
        e1.len() == a.len(),
        e2.len() == a.len(),
        z1.len() == z2.len(),
        forall|i: int| 0 <= i < a.len() ==> (#[trigger] a[i]).len() == z1.len(),
        forall|i: int| 0 <= i < b.len() ==> (#[trigger] b[i]).len() == z1.len(),
        forall|i: int| 0 <= i < c.len() ==> (#[trigger] c[i]).len() == z1.len(),
    ensures
        relaxed_sat(
            a,
            b,
            c,
            u1 + r * u2,
            fold_e_seq(a, b, c, u1, u2, r, e1, e2, z1, z2),
            fold_z_seq(r, z1, z2),
        ),
{
    let ef = fold_e_seq(a, b, c, u1, u2, r, e1, e2, z1, z2);
    let zf = fold_z_seq(r, z1, z2);
    assert forall|i: int| 0 <= i < a.len() implies cong(
        int_dot(#[trigger] a[i], zf) * int_dot(b[i], zf) - ((u1 + r * u2) * int_dot(c[i], zf)
            + ef[i]),
        0,
    ) by {
        let a1 = int_dot(a[i], z1);
        let a2 = int_dot(a[i], z2);
        let b1 = int_dot(b[i], z1);
        let b2 = int_dot(b[i], z2);
        let c1 = int_dot(c[i], z1);
        let c2 = int_dot(c[i], z2);
        assert(zf =~= Seq::new(z1.len(), |k: int| z1[k] + r * z2[k]));
        lemma_int_dot_linear(a[i], z1, z2, r);
        lemma_int_dot_linear(b[i], z1, z2, r);
        lemma_int_dot_linear(c[i], z1, z2, r);
        assert(int_dot(a[i], zf) == a1 + r * a2);
        assert(int_dot(b[i], zf) == b1 + r * b2);
        assert(int_dot(c[i], zf) == c1 + r * c2);
        let ee1 = e1[i];
        let ee2 = e2[i];
        assert(ef[i] == ee1 + r * (a1 * b2 + a2 * b1 - u1 * c2 - u2 * c1) + r * r * ee2);
        let d1 = a1 * b1 - (u1 * c1 + ee1);
        let d2 = a2 * b2 - (u2 * c2 + ee2);
        // Expand the folded products and the cross term, then cancel: what
        // is left is the deficit of the first instance plus r² times the
        // deficit of the second.
        crate::arith::lemma_expand_binomial(a1, a2, b1, b2, r);
        crate::arith::lemma_expand_binomial(u1, u2, c1, c2, r);
        crate::arith::lemma_distribute_four(r, a1 * b2, a2 * b1, u1 * c2, u2 * c1);
        crate::arith::lemma_distribute_deficit(r * r, a2 * b2, u2 * c2, ee2);
        vstd::arithmetic::mul::lemma_mul_is_associative(r, a1, b2);
        vstd::arithmetic::mul::lemma_mul_is_associative(r, a2, b1);
        vstd::arithmetic::mul::lemma_mul_is_associative(r, u1, c2);
        vstd::arithmetic::mul::lemma_mul_is_associative(r, u2, c1);
        vstd::arithmetic::mul::lemma_mul_is_associative(r * r, a2, b2);
        vstd::arithmetic::mul::lemma_mul_is_associative(r * r, u2, c2);
        assert((a1 + r * a2) * (b1 + r * b2) - ((u1 + r * u2) * (c1 + r * c2) + ef[i]) == d1 + (r
            * r) * d2);
        assert(cong(d1, 0));
        assert(cong(d2, 0));
        lemma_cong_mul(r * r, r * r, d2, 0);
        vstd::arithmetic::mul::lemma_mul_basics(r * r);
        lemma_cong_add(d1, 0, (r * r) * d2, 0);
        assert(cong(d1 + (r * r) * d2, 0));
    }
}

/// The executable corollary of the folding identity: the slack, error
/// vector and witness that `fold` computes (each entry reduced modulo the
/// field order) satisfy the relaxed equation whenever both inputs were
/// satisfied.
pub proof fn lemma_fold_output_satisfied(
    a: Seq<Seq<int>>,
    b: Seq<Seq<int>>,
    c: Seq<Seq<int>>,
    u1: int,
    u2: int,
    r: int,
    e1: Seq<int>,
    e2: Seq<int>,
    z1: Seq<int>,
    z2: Seq<int>,
    uf: int,
    ef: Seq<int>,
    zf: Seq<int>,
)
    requires
        relaxed_sat(a, b, c, u1, e1, z1),
        relaxed_sat(a, b, c, u2, e2, z2),
        b.len() == a.len(),
        c.len() == a.len(),
        e1.len() == a.len(),
        e2.len() == a.len(),
        z1.len() == z2.len(),
        forall|i: int| 0 <= i < a.len() ==> (#[trigger] a[i]).len() == z1.len(),
        forall|i: int| 0 <= i < b.len() ==> (#[trigger] b[i]).len() == z1.len(),
        forall|i: int| 0 <= i < c.len() ==> (#[trigger] c[i]).len() == z1.len(),
        uf == (u1 + r * u2) % fr_order(),
        ef.len() == a.len(),
        forall|i: int|
            0 <= i < ef.len() ==> #[trigger] ef[i] == (e1[i] + r * t_row(
                a,
                b,
                c,
                u1,
                u2,
                z1,
                z2,
                i,
            ) + r * r * e2[i]) % fr_order(),
        zf.len() == z1.len(),
        forall|i: int| 0 <= i < zf.len() ==> #[trigger] zf[i] == (z1[i] + r * z2[i]) % fr_order(),
    ensures
        relaxed_sat(a, b, c, uf, ef, zf),
{
    lemma_fold_satisfiability(a, b, c, u1, u2, r, e1, e2, z1, z2);
    let ef0 = fold_e_seq(a, b, c, u1, u2, r, e1, e2, z1, z2);
    let zf0 = fold_z_seq(r, z1, z2);
    lemma_mod_cong(u1 + r * u2);
    assert forall|i: int| 0 <= i < ef.len() implies cong(#[trigger] ef[i], ef0[i]) by {
        lemma_mod_cong(e1[i] + r * t_row(a, b, c, u1, u2, z1, z2, i) + r * r * e2[i]);
    }
    assert forall|i: int| 0 <= i < zf.len() implies cong(#[trigger] zf[i], zf0[i]) by {
        lemma_mod_cong(z1[i] + r * z2[i]);
    }
    lemma_relaxed_sat_congruence(a, b, c, u1 + r * u2, uf, ef0, ef, zf0, zf);
}

} // verus!
