//! Dense univariate polynomials over the scalar field.
//!
//! A polynomial is its coefficient vector, lowest degree first; its view is
//! the sequence of reduced integer coefficients, and its meaning is the
//! spec function `poly_eval` over plain integers. Multiplication and
//! Euclidean division are delegated to `ark_poly` through trusted wrappers
//! whose contracts state how the result evaluates, at every integer point,
//! modulo the field order.
use vstd::prelude::*;

use ark_ff::PrimeField;
use ark_poly::univariate::{DenseOrSparsePolynomial, DensePolynomial};
use ark_poly::DenseUVPolynomial;

use crate::arith::{
    cong, lemma_cong_add, lemma_cong_mul, lemma_mod_add, lemma_mod_cong, lemma_mod_mul,
    lemma_mod_sub, lemma_poly_eval_take_step, lemma_prod_roots_take_step, poly_eval, prod_roots,
};
use crate::scalar::{fr_add, fr_eq, fr_mul, fr_order, fr_sub, scalar_seq, Scalar};

verus! {

/// A dense polynomial: `coeffs[i]` is the coefficient of `X^i`.
#[derive(Clone, Debug)]
pub struct Polynomial {
    pub coeffs: Vec<Scalar>,
}

impl View for Polynomial {
    type V = Seq<int>;

    open spec fn view(&self) -> Seq<int> {
        self.coeffs@.map_values(|s: Scalar| s@)
    }
}

impl Polynomial {
    /// The polynomial with the given coefficients.
    pub fn from_coefficients(coeffs: Vec<Scalar>) -> (r: Polynomial)
        ensures
            r@ == scalar_seq(coeffs@),
    {
        let r = Polynomial { coeffs };
        proof {
            assert(r@ =~= scalar_seq(r.coeffs@));
        }
        r
    }

    /// The value of the polynomial at `x`, by running powers.
    pub fn evaluate(&self, x: &Scalar) -> (r: Scalar)
        ensures
            r@ == poly_eval(self@, x@) % fr_order(),
    {
        let mut acc = Scalar::from_u64(0);
        let mut xp = Scalar::from_u64(1);
        let mut i: usize = 0;
        proof {
            assert(self@.take(0) =~= Seq::<int>::empty());
            vstd::arithmetic::div_mod::lemma_small_mod(0 as nat, fr_order() as nat);
            vstd::arithmetic::div_mod::lemma_small_mod(1 as nat, fr_order() as nat);
            vstd::arithmetic::power::lemma_pow0(x@);
        }
        while i < self.coeffs.len()
            invariant
                i <= self.coeffs.len(),
                self.coeffs@.len() == self@.len(),
                acc@ == poly_eval(self@.take(i as int), x@) % fr_order(),
                xp@ == vstd::arithmetic::power::pow(x@, i as nat) % fr_order(),
            decreases self.coeffs.len() - i,
        {
            let term = fr_mul(&self.coeffs[i], &xp);
            let new_acc = fr_add(&acc, &term);
            let new_xp = fr_mul(&xp, x);
            proof {
                let ii = i as int;
                let pw = vstd::arithmetic::power::pow(x@, i as nat);
                // term == (c[i] * pow(x, i)) % order
                lemma_mod_mul(self@[ii], pw);
                // acc' == (poly_eval(take i) + c[i] * pow(x, i)) % order
                lemma_poly_eval_take_step(self@, x@, ii);
                lemma_mod_add(poly_eval(self@.take(ii), x@), self@[ii] * pw);
                // xp' == pow(x, i + 1) % order
                lemma_mod_mul(pw, x@);
                crate::arith::lemma_mul_comm(pw, x@);
                assert(((i + 1) as nat) == (i as nat) + 1);
                vstd::arithmetic::power::lemma_pow_adds(x@, i as nat, 1);
                vstd::arithmetic::power::lemma_pow1(x@);
                crate::arith::lemma_mul_comm(pw, vstd::arithmetic::power::pow(x@, 1));
            }
            acc = new_acc;
            xp = new_xp;
            i = i + 1;
        }
        proof {
            assert(self@.take(self.coeffs@.len() as int) =~= self@);
        }
        acc
    }
}

/// Relies on `ark_poly` dense-polynomial multiplication: the product
/// evaluates to the product of the evaluations, its degree is at most the
/// sum of the degrees, and when the leading coefficients' product does not
/// vanish it is exactly that sum, with that product leading. The combined
/// coefficient count is bounded because the multiplication builds an FFT
/// domain, which the field supports only up to two to the twenty-eighth.
#[verifier::external_body]
pub fn poly_mul(a: &Polynomial, b: &Polynomial) -> (r: Polynomial)
    requires
        a@.len() + b@.len() <= 0x10000000,
    ensures
        r@.len() <= a@.len() + b@.len(),
        a@.len() > 0 && b@.len() > 0 && (a@.last() * b@.last()) % fr_order() != 0 ==> r@.len()
            == a@.len() + b@.len() - 1 && r@.last() == (a@.last() * b@.last()) % fr_order(),
        forall|x: int| #![trigger poly_eval(r@, x)]
            poly_eval(r@, x) % fr_order() == (poly_eval(a@, x) * poly_eval(b@, x)) % fr_order(),
{
    let f = |p: &Polynomial| DensePolynomial::from_coefficients_vec(p.coeffs.iter().map(|s| {
        let mut b = [0u8; 32];
        for i in 0..4 { b[8 * i..8 * i + 8].copy_from_slice(&s.limbs[i].to_le_bytes()); }
        ark_bn254::Fr::from_le_bytes_mod_order(&b)
    }).collect());
    let prod = &f(a) * &f(b);
    Polynomial { coeffs: prod.coeffs.iter().map(|c| Scalar { limbs: c.into_bigint().0 }).collect() }
}

/// Relies on `ark_poly` Euclidean division of dense polynomials: for a
/// divisor with a nonzero coefficient it returns a quotient and a remainder
/// with `num = q * den + rem` and `deg rem < deg den`. The last clause is
/// the root bound over the prime field: the remainder's coefficients are
/// canonical residues, so a remainder that is congruent to zero at more
/// pairwise-distinct points than it has coefficients is identically zero.
#[verifier::external_body]
pub fn poly_div_rem(num: &Polynomial, den: &Polynomial) -> (r: (Polynomial, Polynomial))
    requires
        exists|i: int| 0 <= i < den@.len() && den@[i] != 0,
    ensures
        r.0@.len() <= num@.len(),
        r.1@.len() < den@.len(),
        forall|x: int| #![trigger poly_eval(r.0@, x)]
            poly_eval(num@, x) % fr_order() == (poly_eval(r.0@, x) * poly_eval(den@, x)
                + poly_eval(r.1@, x)) % fr_order(),
        forall|pts: Seq<int>|
            #[trigger] crate::arith::annihilating_points(r.1@, pts) ==> forall|i: int|
                0 <= i < r.1@.len() ==> r.1@[i] == 0,
{
    let f = |p: &Polynomial| DensePolynomial::from_coefficients_vec(p.coeffs.iter().map(|s| {
        let mut b = [0u8; 32];
        for i in 0..4 { b[8 * i..8 * i + 8].copy_from_slice(&s.limbs[i].to_le_bytes()); }
        ark_bn254::Fr::from_le_bytes_mod_order(&b)
    }).collect());
    let g = |p: DensePolynomial<ark_bn254::Fr>| Polynomial {
        coeffs: p.coeffs.iter().map(|c| Scalar { limbs: c.into_bigint().0 }).collect(),
    };
    let (q, rem) = DenseOrSparsePolynomial::from(f(num)).divide_with_q_and_r(
        &DenseOrSparsePolynomial::from(f(den)),
    ).unwrap();
    (g(q), g(rem))
}

/// The entry-wise difference of two coefficient vectors, the shorter padded
/// with zeros.
pub fn poly_sub(a: &Polynomial, b: &Polynomial) -> (r: Polynomial)
    ensures
        r@.len() == if a@.len() >= b@.len() { a@.len() } else { b@.len() },
        forall|i: int|
            0 <= i < r@.len() ==> r@[i] == ((if i < a@.len() { a@[i] } else { 0 }) - (if i
                < b@.len() { b@[i] } else { 0 })) % fr_order(),
{
    let n = if a.coeffs.len() >= b.coeffs.len() { a.coeffs.len() } else { b.coeffs.len() };
    let zero = Scalar::from_u64(0);
    let mut coeffs: Vec<Scalar> = Vec::new();
    let mut i: usize = 0;
    while i < n
        invariant
            i <= n,
            n == if a@.len() >= b@.len() { a@.len() } else { b@.len() },
            a.coeffs@.len() == a@.len(),
            b.coeffs@.len() == b@.len(),
            zero@ == 0,
            coeffs@.len() == i,
            forall|k: int|
                0 <= k < i ==> coeffs@[k]@ == ((if k < a@.len() { a@[k] } else { 0 }) - (if k
                    < b@.len() { b@[k] } else { 0 })) % fr_order(),
        decreases n - i,
    {
        let av = if i < a.coeffs.len() { &a.coeffs[i] } else { &zero };
        let bv = if i < b.coeffs.len() { &b.coeffs[i] } else { &zero };
        coeffs.push(fr_sub(av, bv));
        i = i + 1;
    }
    let r = Polynomial { coeffs };
    proof {
        assert(r@.len() == n);
    }
    r
}

/// Evaluation of a zero-padded difference: subtracting coefficient vectors
/// entry-wise gives a polynomial congruent, at every point, to the
/// difference of the two evaluations.
pub proof fn lemma_poly_sub_eval(a: Seq<int>, b: Seq<int>, d: Seq<int>, x: int)
    requires
        d.len() == if a.len() >= b.len() { a.len() } else { b.len() },
        forall|i: int|
            0 <= i < d.len() ==> d[i] == ((if i < a.len() { a[i] } else { 0 }) - (if i < b.len() {
                b[i]
            } else { 0 })) % fr_order(),
    ensures
        cong(poly_eval(d, x), poly_eval(a, x) - poly_eval(b, x)),
    decreases d.len(),
{
    if d.len() == 0 {
    } else {
        let n = d.len() - 1;
        let a1 = if a.len() >= d.len() { a.drop_last() } else { a };
        let b1 = if b.len() >= d.len() { b.drop_last() } else { b };
        lemma_poly_sub_eval(a1, b1, d.drop_last(), x);
        let av = if n < a.len() { a[n] } else { 0 };
        let bv = if n < b.len() { b[n] } else { 0 };
        let pw = vstd::arithmetic::power::pow(x, n as nat);
        assert(d.last() == (av - bv) % fr_order());
        lemma_mod_cong(av - bv);
        lemma_cong_mul((av - bv) % fr_order(), av - bv, pw, pw);
        assert((av - bv) * pw == av * pw - bv * pw) by (nonlinear_arith);
        lemma_cong_add(
            poly_eval(d.drop_last(), x),
            poly_eval(a1, x) - poly_eval(b1, x),
            d.last() * pw,
            av * pw - bv * pw,
        );
        assert(poly_eval(a, x) == poly_eval(a1, x) + av * pw);
        assert(poly_eval(b, x) == poly_eval(b1, x) + bv * pw);
    }
}

/// The entry-wise sum of two coefficient vectors, the shorter padded with
/// zeros.
pub fn poly_add(a: &Polynomial, b: &Polynomial) -> (r: Polynomial)
    ensures
        r@.len() == if a@.len() >= b@.len() { a@.len() } else { b@.len() },
        forall|i: int|
            0 <= i < r@.len() ==> r@[i] == ((if i < a@.len() { a@[i] } else { 0 }) + (if i
                < b@.len() { b@[i] } else { 0 })) % fr_order(),
{
    let n = if a.coeffs.len() >= b.coeffs.len() { a.coeffs.len() } else { b.coeffs.len() };
    let zero = Scalar::from_u64(0);
    let mut coeffs: Vec<Scalar> = Vec::new();
    let mut i: usize = 0;
    while i < n
        invariant
            i <= n,
            n == if a@.len() >= b@.len() { a@.len() } else { b@.len() },
            a.coeffs@.len() == a@.len(),
            b.coeffs@.len() == b@.len(),
            zero@ == 0,
            coeffs@.len() == i,
            forall|k: int|
                0 <= k < i ==> coeffs@[k]@ == ((if k < a@.len() { a@[k] } else { 0 }) + (if k
                    < b@.len() { b@[k] } else { 0 })) % fr_order(),
        decreases n - i,
    {
        let av = if i < a.coeffs.len() { &a.coeffs[i] } else { &zero };
        let bv = if i < b.coeffs.len() { &b.coeffs[i] } else { &zero };
        coeffs.push(fr_add(av, bv));
        i = i + 1;
    }
    let r = Polynomial { coeffs };
    proof {
        assert(r@.len() == n);
    }
    r
}

impl Polynomial {
    /// The polynomial scaled coefficient-wise by one scalar.
    pub fn scale(&self, s: &Scalar) -> (r: Polynomial)
        ensures
            r@.len() == self@.len(),
            forall|i: int| 0 <= i < r@.len() ==> r@[i] == (self@[i] * s@) % fr_order(),
    {
        let mut coeffs: Vec<Scalar> = Vec::new();
        let mut i: usize = 0;
        while i < self.coeffs.len()
            invariant
                i <= self.coeffs.len(),
                self.coeffs@.len() == self@.len(),
                coeffs@.len() == i,
                forall|k: int| 0 <= k < i ==> coeffs@[k]@ == (self@[k] * s@) % fr_order(),
            decreases self.coeffs.len() - i,
        {
            coeffs.push(fr_mul(&self.coeffs[i], s));
            i = i + 1;
        }
        Polynomial { coeffs }
    }

    /// The same polynomial with trailing zero coefficients removed.
    pub fn trim(&self) -> (r: Polynomial)
        ensures
            r@.len() <= self@.len(),
            forall|i: int| 0 <= i < r@.len() ==> r@[i] == self@[i],
            forall|i: int| r@.len() <= i < self@.len() ==> self@[i] == 0,
            r@.len() > 0 ==> r@[r@.len() - 1] != 0,
    {
        let zero = Scalar::from_u64(0);
        let mut m: usize = 0;
        let mut i: usize = 0;
        while i < self.coeffs.len()
            invariant
                i <= self.coeffs.len(),
                m <= i,
                self.coeffs@.len() == self@.len(),
                zero@ == 0,
                m > 0 ==> self@[m - 1] != 0,
                forall|k: int| m <= k < i ==> self@[k] == 0,
            decreases self.coeffs.len() - i,
        {
            if !fr_eq(&self.coeffs[i], &zero) {
                m = i + 1;
            }
            i = i + 1;
        }
        let mut coeffs: Vec<Scalar> = Vec::new();
        let mut j: usize = 0;
        while j < m
            invariant
                j <= m,
                m <= self.coeffs@.len(),
                self.coeffs@.len() == self@.len(),
                coeffs@.len() == j,
                forall|k: int| 0 <= k < j ==> coeffs@[k]@ == self@[k],
            decreases m - j,
        {
            coeffs.push(self.coeffs[j]);
            j = j + 1;
        }
        Polynomial { coeffs }
    }
}

/// Evaluation of a scaled coefficient vector: multiplying every
/// coefficient by one scalar multiplies the value by it, at every point.
pub proof fn lemma_poly_scale_eval(c: Seq<int>, d: Seq<int>, s: int, x: int)
    requires
        d.len() == c.len(),
        forall|i: int| 0 <= i < d.len() ==> d[i] == (c[i] * s) % fr_order(),
    ensures
        cong(poly_eval(d, x), poly_eval(c, x) * s),
    decreases d.len(),
{
    if d.len() == 0 {
        assert(poly_eval(c, x) == 0);
        vstd::arithmetic::mul::lemma_mul_basics(s);
    } else {
        lemma_poly_scale_eval(c.drop_last(), d.drop_last(), s, x);
        let n = d.len() - 1;
        let pw = vstd::arithmetic::power::pow(x, n as nat);
        assert(d.last() == (c.last() * s) % fr_order());
        lemma_mod_cong(c.last() * s);
        lemma_cong_mul((c.last() * s) % fr_order(), c.last() * s, pw, pw);
        assert((c.last() * s) * pw == (c.last() * pw) * s) by (nonlinear_arith);
        lemma_cong_add(
            poly_eval(d.drop_last(), x),
            poly_eval(c.drop_last(), x) * s,
            d.last() * pw,
            (c.last() * pw) * s,
        );
        assert((poly_eval(c.drop_last(), x) + c.last() * pw) * s == poly_eval(c.drop_last(), x) * s
            + (c.last() * pw) * s) by (nonlinear_arith);
    }
}

/// Evaluation of a zero-padded sum: adding coefficient vectors entry-wise
/// gives a polynomial congruent, at every point, to the sum of the two
/// evaluations.
pub proof fn lemma_poly_add_eval(a: Seq<int>, b: Seq<int>, d: Seq<int>, x: int)
    requires
        d.len() == if a.len() >= b.len() { a.len() } else { b.len() },
        forall|i: int|
            0 <= i < d.len() ==> d[i] == ((if i < a.len() { a[i] } else { 0 }) + (if i < b.len() {
                b[i]
            } else { 0 })) % fr_order(),
    ensures
        cong(poly_eval(d, x), poly_eval(a, x) + poly_eval(b, x)),
    decreases d.len(),
{
    if d.len() == 0 {
    } else {
        let n = d.len() - 1;
        let a1 = if a.len() >= d.len() { a.drop_last() } else { a };
        let b1 = if b.len() >= d.len() { b.drop_last() } else { b };
        lemma_poly_add_eval(a1, b1, d.drop_last(), x);
        let av = if n < a.len() { a[n] } else { 0 };
        let bv = if n < b.len() { b[n] } else { 0 };
        let pw = vstd::arithmetic::power::pow(x, n as nat);
        assert(d.last() == (av + bv) % fr_order());
        lemma_mod_cong(av + bv);
        lemma_cong_mul((av + bv) % fr_order(), av + bv, pw, pw);
        assert((av + bv) * pw == av * pw + bv * pw) by (nonlinear_arith);
        lemma_cong_add(
            poly_eval(d.drop_last(), x),
            poly_eval(a1, x) + poly_eval(b1, x),
            d.last() * pw,
            av * pw + bv * pw,
        );
        assert(poly_eval(a, x) == poly_eval(a1, x) + av * pw);
        assert(poly_eval(b, x) == poly_eval(b1, x) + bv * pw);
    }
}

/// The monic polynomial whose roots are exactly the given points:
/// `(X - roots[0]) (X - roots[1]) ... (X - roots[n-1])`; the constant one
/// for an empty point set. The bound on the point count keeps every
/// intermediate product within the multiplication wrapper's FFT limit.
pub fn build_zero_polynomial(roots: &Vec<Scalar>) -> (r: Polynomial)
    requires
        roots@.len() + 2 <= 0x10000000,
    ensures
        r@.len() == roots@.len() + 1,
        r@.last() == 1,
        forall|x: int| #![trigger poly_eval(r@, x)]
            poly_eval(r@, x) % fr_order() == prod_roots(scalar_seq(roots@), x) % fr_order(),
{
    let rs = Ghost(scalar_seq(roots@));
    let zero = Scalar::from_u64(0);
    let one = Scalar::from_u64(1);
    let mut first_coeffs: Vec<Scalar> = Vec::new();
    first_coeffs.push(one);
    let mut acc = Polynomial { coeffs: first_coeffs };
    proof {
        assert(acc@[0] == 1);
        assert(acc@.last() == 1);
        assert(rs@.take(0) =~= Seq::<int>::empty());
        vstd::arithmetic::div_mod::lemma_small_mod(1 as nat, fr_order() as nat);
        assert forall|x: int| #[trigger] poly_eval(acc@, x) % fr_order() == prod_roots(
            rs@.take(0),
            x,
        ) % fr_order() by {
            assert(acc@.drop_last() =~= Seq::<int>::empty());
            assert(poly_eval(Seq::<int>::empty(), x) == 0);
            vstd::arithmetic::power::lemma_pow0(x);
            vstd::arithmetic::mul::lemma_mul_basics(1);
            assert(poly_eval(acc@, x) == 1);
            assert(prod_roots(rs@.take(0), x) == 1);
        }
    }
    let mut i: usize = 0;
    while i < roots.len()
        invariant
            0 <= i <= roots@.len(),
            rs@ == scalar_seq(roots@),
            rs@.len() == roots@.len(),
            roots@.len() == roots.len(),
            roots@.len() + 2 <= 0x10000000,
            zero@ == 0,
            one@ == 1,
            acc@.len() == i + 1,
            acc@.last() == 1,
            forall|x: int| #![trigger poly_eval(acc@, x)]
                poly_eval(acc@, x) % fr_order() == prod_roots(rs@.take(i as int), x) % fr_order(),
        decreases roots.len() - i,
    {
        let mut factor_coeffs: Vec<Scalar> = Vec::new();
        factor_coeffs.push(fr_sub(&zero, &roots[i]));
        factor_coeffs.push(one);
        let factor = Polynomial { coeffs: factor_coeffs };
        proof {
            assert(rs@[i as int] == roots@[i as int]@);
            assert(factor@[0] == (0 - rs@[i as int]) % fr_order());
            assert(factor@[1] == 1);
            assert(factor@.last() == 1);
            vstd::arithmetic::div_mod::lemma_small_mod(1 as nat, fr_order() as nat);
            assert((acc@.last() * factor@.last()) % fr_order() == 1);
        }
        let next = poly_mul(&acc, &factor);
        proof {
            assert forall|x: int| #[trigger] poly_eval(next@, x) % fr_order() == prod_roots(
                rs@.take(i + 1),
                x,
            ) % fr_order() by {
                lemma_factor_eval(factor@, rs@[i as int]);
                lemma_prod_roots_take_step(rs@, x, i as int);
                lemma_mod_cong(poly_eval(acc@, x));
                lemma_mod_cong(prod_roots(rs@.take(i as int), x));
                lemma_cong_mul(
                    poly_eval(acc@, x),
                    prod_roots(rs@.take(i as int), x),
                    poly_eval(factor@, x),
                    x - rs@[i as int],
                );
                lemma_mod_cong(poly_eval(acc@, x) * poly_eval(factor@, x));
            }
        }
        acc = next;
        i = i + 1;
    }
    proof {
        assert(rs@.take(roots@.len() as int) =~= rs@);
    }
    acc
}

/// A linear factor `(X - z)` built as the coefficient pair
/// `[(0 - z) % order, 1]` evaluates, at every point, to `x - z` modulo the
/// field order.
pub proof fn lemma_factor_eval(f: Seq<int>, z: int)
    requires
        f.len() == 2,
        f[0] == (0 - z) % fr_order(),
        f[1] == 1,
    ensures
        forall|x: int| #![trigger poly_eval(f, x)] cong(poly_eval(f, x), x - z),
{
    assert forall|x: int| #[trigger] cong(poly_eval(f, x), x - z) by {
        let s1 = seq![f[0]];
        assert(f.drop_last() =~= s1);
        assert(s1.drop_last() =~= Seq::<int>::empty());
        assert(poly_eval(Seq::<int>::empty(), x) == 0);
        assert(s1.last() == f[0]);
        assert(poly_eval(s1, x) == 0 + f[0] * vstd::arithmetic::power::pow(x, 0));
        vstd::arithmetic::power::lemma_pow0(x);
        vstd::arithmetic::mul::lemma_mul_basics(f[0]);
        assert(poly_eval(s1, x) == f[0]);
        assert(poly_eval(f, x) == poly_eval(s1, x) + 1 * vstd::arithmetic::power::pow(x, 1));
        vstd::arithmetic::power::lemma_pow1(x);
        vstd::arithmetic::mul::lemma_mul_basics(x);
        assert(poly_eval(f, x) == f[0] + x);
        lemma_mod_cong(0 - z);
        lemma_cong_add((0 - z) % fr_order(), 0 - z, x, x);
    }
}

} // verus!
