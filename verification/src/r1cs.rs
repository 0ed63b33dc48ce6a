//! Rank-1 constraint systems over the scalar field.
use vstd::prelude::*;

use crate::arith::{cong, int_dot};
use crate::linalg::{Matrix, Vector};
use crate::scalar::fr_order;

verus! {

/// Whether the witness vector `z` satisfies every constraint row:
/// `(A z) ∘ (B z) = C z`, as congruences modulo the field order.
pub open spec fn r1cs_sat(a: Seq<Seq<int>>, b: Seq<Seq<int>>, c: Seq<Seq<int>>, z: Seq<int>) -> bool {
    forall|i: int|
        0 <= i < a.len() ==> cong(
            int_dot(#[trigger] a[i], z) * int_dot(b[i], z) - int_dot(c[i], z),
            0,
        )
}

/// A plain R1CS equation: three constraint matrices of equal shape.
#[derive(Clone, Debug)]
pub struct R1CS {
    pub n_constraints: usize,
    pub n_witness: usize,
    pub n_instance: usize,
    pub a: Matrix,
    pub b: Matrix,
    pub c: Matrix,
}

impl R1CS {
    /// The three matrices share the recorded shape, whose column count is
    /// the constant-plus-instance columns together with the witness
    /// columns.
    pub open spec fn wf(&self) -> bool {
        &&& self.a.wf()
        &&& self.b.wf()
        &&& self.c.wf()
        &&& self.a.num_rows == self.n_constraints
        &&& self.b.num_rows == self.n_constraints
        &&& self.c.num_rows == self.n_constraints
        &&& self.a.num_cols == self.n_instance + self.n_witness
        &&& self.b.num_cols == self.a.num_cols
        &&& self.c.num_cols == self.a.num_cols
    }

    /// Whether `z` satisfies the system: `(A z) ∘ (B z) - C z` is the zero
    /// vector.
    pub fn is_satisfied(&self, z: &Vector) -> (r: bool)
        requires
            self.wf(),
            z@.len() == self.a.num_cols,
        ensures
            r == r1cs_sat(self.a@, self.b@, self.c@, z@),
    {
        let az = self.a.dot_vector(z);
        let bz = self.b.dot_vector(z);
        let cz = self.c.dot_vector(z);
        let h = az.hadamard(&bz);
        let d = h.sub(&cz);
        let r = d.is_zero_vector();
        proof {
            let n = self.a@.len() as int;
            assert forall|i: int| 0 <= i < n implies (#[trigger] d@[i] == 0) == cong(
                int_dot(self.a@[i], z@) * int_dot(self.b@[i], z@) - int_dot(self.c@[i], z@),
                0,
            ) by {
                let da = int_dot(self.a@[i], z@);
                let db = int_dot(self.b@[i], z@);
                let dc = int_dot(self.c@[i], z@);
                crate::arith::lemma_mod_cong(da);
                crate::arith::lemma_mod_cong(db);
                crate::arith::lemma_cong_mul(da % fr_order(), da, db % fr_order(), db);
                crate::arith::lemma_mod_cong((da % fr_order()) * (db % fr_order()));
                crate::arith::lemma_mod_cong(dc);
                crate::arith::lemma_cong_sub(
                    ((da % fr_order()) * (db % fr_order())) % fr_order(),
                    da * db,
                    dc % fr_order(),
                    dc,
                );
                crate::arith::lemma_mod_cong(
                    ((da % fr_order()) * (db % fr_order())) % fr_order() - dc % fr_order(),
                );
                vstd::arithmetic::div_mod::lemma_small_mod(0 as nat, fr_order() as nat);
            }
            if r {
                assert forall|i: int|
                    0 <= i < n implies cong(
                    int_dot(#[trigger] self.a@[i], z@) * int_dot(self.b@[i], z@) - int_dot(
                        self.c@[i],
                        z@,
                    ),
                    0,
                ) by {
                    assert(d@[i] == 0);
                }
            } else {
                assert(exists|i: int| 0 <= i < d@.len() && d@[i] != 0);
                let i = choose|i: int| 0 <= i < d@.len() && d@[i] != 0;
                assert(!cong(
                    int_dot(self.a@[i], z@) * int_dot(self.b@[i], z@) - int_dot(self.c@[i], z@),
                    0,
                ));
                assert(!r1cs_sat(self.a@, self.b@, self.c@, z@));
            }
        }
        r
    }
}

} // verus!
