//! Vectors and matrices of scalar-field elements.
//!
//! The view of a vector is the sequence of reduced integer values of its
//! entries; the view of a matrix is the sequence of its row views. Every
//! operation is specified entry-wise as modular arithmetic on those
//! integers.
use vstd::prelude::*;

use crate::arith::{int_dot, lemma_int_dot_take_step, lemma_mod_cong};
use crate::scalar::{fr_add, fr_eq, fr_mul, fr_order, Scalar};

verus! {

/// A vector of scalar-field elements.
#[derive(Clone, Debug)]
pub struct Vector {
    pub elements: Vec<Scalar>,
    pub size: usize,
}

impl View for Vector {
    type V = Seq<int>;

    open spec fn view(&self) -> Seq<int> {
        self.elements@.map_values(|s: Scalar| s@)
    }
}

impl Vector {
    /// The recorded size matches the number of elements.
    pub open spec fn wf(&self) -> bool {
        self.size == self.elements.len()
    }

    /// A vector with the given elements.
    pub fn new(elements: &Vec<Scalar>) -> (r: Vector)
        ensures
            r.wf(),
            r@.len() == elements@.len(),
            forall|i: int| 0 <= i < elements@.len() ==> r@[i] == elements@[i]@,
    {
        let mut copied: Vec<Scalar> = Vec::new();
        let mut i: usize = 0;
        while i < elements.len()
            invariant
                i <= elements.len(),
                copied@.len() == i,
                forall|k: int| 0 <= k < i ==> copied@[k] == elements@[k],
            decreases elements.len() - i,
        {
            copied.push(elements[i]);
            i = i + 1;
        }
        Vector { size: copied.len(), elements: copied }
    }

    /// The all-zero vector of the given size.
    pub fn new_zero_vector(size: usize) -> (r: Vector)
        ensures
            r.wf(),
            r@.len() == size,
            forall|i: int| 0 <= i < size ==> r@[i] == 0,
    {
        let mut elements: Vec<Scalar> = Vec::new();
        let mut i: usize = 0;
        while i < size
            invariant
                i <= size,
                elements@.len() == i,
                forall|k: int| 0 <= k < i ==> elements@[k]@ == 0,
            decreases size - i,
        {
            elements.push(Scalar::from_u64(0));
            i = i + 1;
        }
        Vector { size, elements }
    }

    /// The entry-wise sum of two equally long vectors.
    pub fn add(&self, rhs: &Vector) -> (r: Vector)
        requires
            self@.len() == rhs@.len(),
        ensures
            r.wf(),
            r@.len() == self@.len(),
            forall|i: int| 0 <= i < self@.len() ==> r@[i] == (self@[i] + rhs@[i]) % fr_order(),
    {
        let mut elements: Vec<Scalar> = Vec::new();
        let mut i: usize = 0;
        while i < self.elements.len()
            invariant
                i <= self.elements.len(),
                self@.len() == rhs@.len(),
                self.elements@.len() == self@.len(),
                rhs.elements@.len() == rhs@.len(),
                elements@.len() == i,
                forall|k: int| 0 <= k < i ==> elements@[k]@ == (self@[k] + rhs@[k]) % fr_order(),
            decreases self.elements.len() - i,
        {
            elements.push(fr_add(&self.elements[i], &rhs.elements[i]));
            i = i + 1;
        }
        Vector { size: elements.len(), elements }
    }

    /// The entry-wise difference of two equally long vectors.
    pub fn sub(&self, rhs: &Vector) -> (r: Vector)
        requires
            self@.len() == rhs@.len(),
        ensures
            r.wf(),
            r@.len() == self@.len(),
            forall|i: int| 0 <= i < self@.len() ==> r@[i] == (self@[i] - rhs@[i]) % fr_order(),
    {
        let mut elements: Vec<Scalar> = Vec::new();
        let mut i: usize = 0;
        while i < self.elements.len()
            invariant
                i <= self.elements.len(),
                self@.len() == rhs@.len(),
                self.elements@.len() == self@.len(),
                rhs.elements@.len() == rhs@.len(),
                elements@.len() == i,
                forall|k: int| 0 <= k < i ==> elements@[k]@ == (self@[k] - rhs@[k]) % fr_order(),
            decreases self.elements.len() - i,
        {
            elements.push(crate::scalar::fr_sub(&self.elements[i], &rhs.elements[i]));
            i = i + 1;
        }
        Vector { size: elements.len(), elements }
    }

    /// The entry-wise (Hadamard) product of two equally long vectors.
    pub fn hadamard(&self, rhs: &Vector) -> (r: Vector)
        requires
            self@.len() == rhs@.len(),
        ensures
            r.wf(),
            r@.len() == self@.len(),
            forall|i: int| 0 <= i < self@.len() ==> r@[i] == (self@[i] * rhs@[i]) % fr_order(),
    {
        let mut elements: Vec<Scalar> = Vec::new();
        let mut i: usize = 0;
        while i < self.elements.len()
            invariant
                i <= self.elements.len(),
                self@.len() == rhs@.len(),
                self.elements@.len() == self@.len(),
                rhs.elements@.len() == rhs@.len(),
                elements@.len() == i,
                forall|k: int| 0 <= k < i ==> elements@[k]@ == (self@[k] * rhs@[k]) % fr_order(),
            decreases self.elements.len() - i,
        {
            elements.push(fr_mul(&self.elements[i], &rhs.elements[i]));
            i = i + 1;
        }
        Vector { size: elements.len(), elements }
    }

    /// The vector scaled entry-wise by one scalar.
    pub fn scalar_mul(&self, scalar: &Scalar) -> (r: Vector)
        ensures
            r.wf(),
            r@.len() == self@.len(),
            forall|i: int| 0 <= i < self@.len() ==> r@[i] == (self@[i] * scalar@) % fr_order(),
    {
        let mut elements: Vec<Scalar> = Vec::new();
        let mut i: usize = 0;
        while i < self.elements.len()
            invariant
                i <= self.elements.len(),
                self.elements@.len() == self@.len(),
                elements@.len() == i,
                forall|k: int| 0 <= k < i ==> elements@[k]@ == (self@[k] * scalar@) % fr_order(),
            decreases self.elements.len() - i,
        {
            elements.push(fr_mul(&self.elements[i], scalar));
            i = i + 1;
        }
        Vector { size: elements.len(), elements }
    }

    /// A copy of the vector with the same view.
    pub fn duplicate(&self) -> (r: Vector)
        ensures
            r.wf(),
            r@ == self@,
    {
        let r = Vector::new(&self.elements);
        proof {
            assert(r@ =~= self@);
        }
        r
    }

    /// Whether every entry is zero.
    pub fn is_zero_vector(&self) -> (r: bool)
        ensures
            r == (forall|i: int| 0 <= i < self@.len() ==> self@[i] == 0),
    {
        let zero = Scalar::from_u64(0);
        let mut i: usize = 0;
        while i < self.elements.len()
            invariant
                i <= self.elements.len(),
                self.elements@.len() == self@.len(),
                zero@ == 0,
                forall|k: int| 0 <= k < i ==> self@[k] == 0,
            decreases self.elements.len() - i,
        {
            if !fr_eq(&self.elements[i], &zero) {
                assert(self@[i as int] != 0);
                return false;
            }
            i = i + 1;
        }
        true
    }
}

/// A matrix of scalar-field elements, stored by rows.
#[derive(Clone, Debug)]
pub struct Matrix {
    pub rows: Vec<Vector>,
    pub num_rows: usize,
    pub num_cols: usize,
}

impl View for Matrix {
    type V = Seq<Seq<int>>;

    open spec fn view(&self) -> Seq<Seq<int>> {
        self.rows@.map_values(|v: Vector| v@)
    }
}

/// The column of a matrix view at the given index.
pub open spec fn matrix_col(m: Seq<Seq<int>>, j: int) -> Seq<int> {
    Seq::new(m.len(), |k: int| m[k][j])
}

impl Matrix {
    /// The recorded dimensions match the rows, and every row has the same
    /// length.
    pub open spec fn wf(&self) -> bool {
        &&& self.num_rows == self.rows.len()
        &&& forall|i: int|
            0 <= i < self.rows.len() ==> (#[trigger] self.rows@[i]).wf() && self.rows@[i]@.len()
                == self.num_cols
    }

    /// A matrix with the given nonempty list of equally long rows.
    pub fn new(rows: &Vec<Vector>) -> (r: Matrix)
        requires
            rows@.len() > 0,
            forall|i: int| 0 <= i < rows@.len() ==> (#[trigger] rows@[i]).wf(),
            forall|i: int| 0 <= i < rows@.len() ==> (#[trigger] rows@[i])@.len() == rows@[0]@.len(),
        ensures
            r.wf(),
            r@.len() == rows@.len(),
            r.num_cols == rows@[0]@.len(),
            forall|i: int| 0 <= i < rows@.len() ==> r@[i] == rows@[i]@,
    {
        let mut copied: Vec<Vector> = Vec::new();
        let mut i: usize = 0;
        while i < rows.len()
            invariant
                i <= rows.len(),
                copied@.len() == i,
                forall|k: int| 0 <= k < rows@.len() ==> (#[trigger] rows@[k]).wf(),
                forall|k: int| 0 <= k < rows@.len() ==> (#[trigger] rows@[k])@.len()
                    == rows@[0]@.len(),
                forall|k: int| 0 <= k < i ==> (#[trigger] copied@[k]).wf(),
                forall|k: int| 0 <= k < i ==> (#[trigger] copied@[k])@ == rows@[k]@,
            decreases rows.len() - i,
        {
            let row = &rows[i];
            copied.push(Vector::new(&row.elements));
            proof {
                assert(copied@[i as int]@ =~= rows@[i as int]@);
            }
            i = i + 1;
        }
        let num_cols = copied[0].elements.len();
        Matrix { num_rows: copied.len(), num_cols, rows: copied }
    }

    /// A matrix built from a nonempty list of equally long coefficient
    /// rows.
    pub fn new_from_vecs(rows: &Vec<Vec<Scalar>>) -> (r: Matrix)
        requires
            rows@.len() > 0,
            forall|i: int| 0 <= i < rows@.len() ==> (#[trigger] rows@[i])@.len() == rows@[0]@.len(),
        ensures
            r.wf(),
            r@.len() == rows@.len(),
            r.num_cols == rows@[0]@.len(),
            forall|i: int, j: int|
                0 <= i < rows@.len() && 0 <= j < rows@[0]@.len() ==> r@[i][j] == rows@[i]@[j]@,
    {
        let mut vec_rows: Vec<Vector> = Vec::new();
        let mut i: usize = 0;
        while i < rows.len()
            invariant
                i <= rows.len(),
                vec_rows@.len() == i,
                forall|k: int| 0 <= k < rows@.len() ==> (#[trigger] rows@[k])@.len()
                    == rows@[0]@.len(),
                forall|k: int| 0 <= k < i ==> (#[trigger] vec_rows@[k]).wf(),
                forall|k: int| 0 <= k < i ==> (#[trigger] vec_rows@[k])@.len() == rows@[0]@.len(),
                forall|k: int, j: int|
                    0 <= k < i && 0 <= j < rows@[0]@.len() ==> vec_rows@[k]@[j] == rows@[k]@[j]@,
            decreases rows.len() - i,
        {
            vec_rows.push(Vector::new(&rows[i]));
            i = i + 1;
        }
        Matrix::new(&vec_rows)
    }

    /// A copy of the matrix with the same view and dimensions.
    pub fn duplicate(&self) -> (r: Matrix)
        requires
            self.wf(),
        ensures
            r.wf(),
            r@ == self@,
            r.num_rows == self.num_rows,
            r.num_cols == self.num_cols,
    {
        let mut copied: Vec<Vector> = Vec::new();
        let mut i: usize = 0;
        while i < self.rows.len()
            invariant
                i <= self.rows.len(),
                self.wf(),
                copied@.len() == i,
                forall|k: int| 0 <= k < i ==> (#[trigger] copied@[k]).wf(),
                forall|k: int| 0 <= k < i ==> (#[trigger] copied@[k])@ == self.rows@[k]@,
            decreases self.rows.len() - i,
        {
            let row = &self.rows[i];
            copied.push(row.duplicate());
            i = i + 1;
        }
        let r = Matrix { num_rows: self.num_rows, num_cols: self.num_cols, rows: copied };
        proof {
            assert(r@ =~= self@);
        }
        r
    }

    /// The matrix product of two compatibly sized matrices.
    pub fn dot(&self, rhs: &Matrix) -> (r: Matrix)
        requires
            self.wf(),
            rhs.wf(),
            self@.len() > 0,
            rhs@.len() == self.num_cols,
        ensures
            r.wf(),
            r@.len() == self@.len(),
            r.num_cols == rhs.num_cols,
            forall|i: int, j: int|
                0 <= i < self@.len() && 0 <= j < rhs.num_cols ==> r@[i][j] == int_dot(
                    self@[i],
                    matrix_col(rhs@, j),
                ) % fr_order(),
    {
        let mut out_rows: Vec<Vector> = Vec::new();
        let mut i: usize = 0;
        while i < self.rows.len()
            invariant
                i <= self.rows.len(),
                self.wf(),
                rhs.wf(),
                rhs@.len() == self.num_cols,
                out_rows@.len() == i,
                forall|k: int| 0 <= k < i ==> (#[trigger] out_rows@[k]).wf(),
                forall|k: int| 0 <= k < i ==> out_rows@[k]@.len() == rhs.num_cols,
                forall|k: int, j: int|
                    0 <= k < i && 0 <= j < rhs.num_cols ==> out_rows@[k]@[j] == int_dot(
                        self@[k],
                        matrix_col(rhs@, j),
                    ) % fr_order(),
            decreases self.rows.len() - i,
        {
            let mut row: Vec<Scalar> = Vec::new();
            let mut j: usize = 0;
            while j < rhs.num_cols
                invariant
                    j <= rhs.num_cols,
                    i < self.rows.len(),
                    self.wf(),
                    rhs.wf(),
                    rhs@.len() == self.num_cols,
                    row@.len() == j,
                    forall|m: int|
                        0 <= m < j ==> row@[m]@ == int_dot(self@[i as int], matrix_col(rhs@, m))
                            % fr_order(),
                decreases rhs.num_cols - j,
            {
                let mut sum = Scalar::from_u64(0);
                let mut k: usize = 0;
                proof {
                    assert(self@[i as int].take(0) =~= Seq::<int>::empty());
                    assert(matrix_col(rhs@, j as int).take(0) =~= Seq::<int>::empty());
                    vstd::arithmetic::div_mod::lemma_small_mod(0 as nat, fr_order() as nat);
                }
                while k < self.num_cols
                    invariant
                        k <= self.num_cols,
                        i < self.rows.len(),
                        j < rhs.num_cols,
                        self.wf(),
                        rhs.wf(),
                        rhs@.len() == self.num_cols,
                        sum@ == int_dot(
                            self@[i as int].take(k as int),
                            matrix_col(rhs@, j as int).take(k as int),
                        ) % fr_order(),
                    decreases self.num_cols - k,
                {
                    let term = fr_mul(
                        &self.rows[i].elements[k],
                        &rhs.rows[k].elements[j],
                    );
                    let new_sum = fr_add(&sum, &term);
                    proof {
                        let a = self@[i as int];
                        let b = matrix_col(rhs@, j as int);
                        lemma_int_dot_take_step(a, b, k as int);
                        assert(b[k as int] == rhs@[k as int][j as int]);
                        crate::arith::lemma_mod_cong(int_dot(a.take(k as int), b.take(k as int)));
                        crate::arith::lemma_mod_cong(a[k as int] * b[k as int]);
                        crate::arith::lemma_cong_add(
                            int_dot(a.take(k as int), b.take(k as int)) % fr_order(),
                            int_dot(a.take(k as int), b.take(k as int)),
                            (a[k as int] * b[k as int]) % fr_order(),
                            a[k as int] * b[k as int],
                        );
                        lemma_mod_cong(
                            int_dot(a.take(k as int), b.take(k as int)) % fr_order() + (a[k as int]
                                * b[k as int]) % fr_order(),
                        );
                    }
                    sum = new_sum;
                    k = k + 1;
                }
                proof {
                    assert(self@[i as int].take(self.num_cols as int) =~= self@[i as int]);
                    assert(matrix_col(rhs@, j as int).take(self.num_cols as int) =~= matrix_col(
                        rhs@,
                        j as int,
                    ));
                }
                row.push(sum);
                j = j + 1;
            }
            out_rows.push(Vector::new(&row));
            i = i + 1;
        }
        let num_cols = rhs.num_cols;
        Matrix { num_rows: out_rows.len(), num_cols, rows: out_rows }
    }

    /// The matrix-vector product with a vector of matching length.
    pub fn dot_vector(&self, rhs: &Vector) -> (r: Vector)
        requires
            self.wf(),
            rhs@.len() == self.num_cols,
        ensures
            r.wf(),
            r@.len() == self@.len(),
            forall|i: int|
                0 <= i < self@.len() ==> r@[i] == int_dot(self@[i], rhs@) % fr_order(),
    {
        let mut elements: Vec<Scalar> = Vec::new();
        let mut i: usize = 0;
        while i < self.rows.len()
            invariant
                i <= self.rows.len(),
                self.wf(),
                rhs@.len() == self.num_cols,
                rhs.elements@.len() == rhs@.len(),
                elements@.len() == i,
                forall|k: int|
                    0 <= k < i ==> elements@[k]@ == int_dot(self@[k], rhs@) % fr_order(),
            decreases self.rows.len() - i,
        {
            let mut sum = Scalar::from_u64(0);
            let mut k: usize = 0;
            proof {
                assert(self@[i as int].take(0) =~= Seq::<int>::empty());
                assert(rhs@.take(0) =~= Seq::<int>::empty());
                vstd::arithmetic::div_mod::lemma_small_mod(0 as nat, fr_order() as nat);
            }
            while k < self.num_cols
                invariant
                    k <= self.num_cols,
                    i < self.rows.len(),
                    self.wf(),
                    rhs@.len() == self.num_cols,
                    rhs.elements@.len() == rhs@.len(),
                    sum@ == int_dot(self@[i as int].take(k as int), rhs@.take(k as int))
                        % fr_order(),
                decreases self.num_cols - k,
            {
                let term = fr_mul(&self.rows[i].elements[k], &rhs.elements[k]);
                let new_sum = fr_add(&sum, &term);
                proof {
                    let a = self@[i as int];
                    let b = rhs@;
                    lemma_int_dot_take_step(a, b, k as int);
                    crate::arith::lemma_mod_cong(int_dot(a.take(k as int), b.take(k as int)));
                    crate::arith::lemma_mod_cong(a[k as int] * b[k as int]);
                    crate::arith::lemma_cong_add(
                        int_dot(a.take(k as int), b.take(k as int)) % fr_order(),
                        int_dot(a.take(k as int), b.take(k as int)),
                        (a[k as int] * b[k as int]) % fr_order(),
                        a[k as int] * b[k as int],
                    );
                    lemma_mod_cong(
                        int_dot(a.take(k as int), b.take(k as int)) % fr_order() + (a[k as int]
                            * b[k as int]) % fr_order(),
                    );
                }
                sum = new_sum;
                k = k + 1;
            }
            proof {
                assert(self@[i as int].take(self.num_cols as int) =~= self@[i as int]);
                assert(rhs@.take(self.num_cols as int) =~= rhs@);
            }
            elements.push(sum);
            i = i + 1;
        }
        Vector { size: elements.len(), elements }
    }
}

} // verus!
