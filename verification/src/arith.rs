//! Integer-level models of field computations.
//!
//! Every scalar the library computes is specified by an integer, and every
//! field identity becomes a congruence modulo the field order. This module
//! holds the congruence relation, the integer semantics of polynomials,
//! dot products and root products, and the lemmas that move congruences
//! through sums, products and evaluations.
use vstd::prelude::*;

use vstd::arithmetic::div_mod::{
    lemma_add_mod_noop, lemma_mod_twice, lemma_mul_mod_noop_general, lemma_sub_mod_noop,
};
use vstd::arithmetic::power::pow;

use crate::scalar::fr_order;

verus! {

/// Congruence modulo the scalar-field order.
pub open spec fn cong(a: int, b: int) -> bool {
    a % fr_order() == b % fr_order()
}

/// The integer value of a coefficient sequence at `x`:
/// `c[0] + c[1] x + ... + c[n-1] x^(n-1)`, over plain integers.
pub open spec fn poly_eval(c: Seq<int>, x: int) -> int
    decreases c.len(),
{
    if c.len() == 0 {
        0
    } else {
        poly_eval(c.drop_last(), x) + c.last() * pow(x, (c.len() - 1) as nat)
    }
}

/// The integer dot product of two equally long sequences.
pub open spec fn int_dot(a: Seq<int>, b: Seq<int>) -> int
    decreases a.len(),
{
    if a.len() == 0 || b.len() == 0 {
        0
    } else {
        int_dot(a.drop_last(), b.drop_last()) + a.last() * b.last()
    }
}

/// The integer value at `x` of the monic polynomial with the given roots:
/// `(x - zs[0]) * ... * (x - zs[n-1])`.
pub open spec fn prod_roots(zs: Seq<int>, x: int) -> int
    decreases zs.len(),
{
    if zs.len() == 0 {
        1
    } else {
        prod_roots(zs.drop_last(), x) * (x - zs.last())
    }
}

/// Whether a point set annihilates a coefficient sequence: the points are
/// at least as many as the coefficients, pairwise distinct modulo the field
/// order, and the polynomial is congruent to zero at every one of them.
/// Over a prime field only the zero polynomial can be annihilated this way.
pub open spec fn annihilating_points(c: Seq<int>, pts: Seq<int>) -> bool {
    &&& pts.len() >= c.len()
    &&& forall|i: int, j: int|
        0 <= i < j < pts.len() ==> pts[i] % fr_order() != pts[j] % fr_order()
    &&& forall|j: int| 0 <= j < pts.len() ==> cong(poly_eval(c, #[trigger] pts[j]), 0)
}

/// Reducing modulo the field order does not change the congruence class.
pub proof fn lemma_mod_cong(a: int)
    ensures
        cong(a % fr_order(), a),
{
    lemma_mod_twice(a, fr_order());
}

/// Congruence is preserved by addition.
pub proof fn lemma_cong_add(a1: int, a2: int, b1: int, b2: int)
    requires
        cong(a1, a2),
        cong(b1, b2),
    ensures
        cong(a1 + b1, a2 + b2),
{
    lemma_add_mod_noop(a1, b1, fr_order());
    lemma_add_mod_noop(a2, b2, fr_order());
}

/// Congruence is preserved by subtraction.
pub proof fn lemma_cong_sub(a1: int, a2: int, b1: int, b2: int)
    requires
        cong(a1, a2),
        cong(b1, b2),
    ensures
        cong(a1 - b1, a2 - b2),
{
    lemma_sub_mod_noop(a1, b1, fr_order());
    lemma_sub_mod_noop(a2, b2, fr_order());
}

/// Congruence is preserved by multiplication.
pub proof fn lemma_cong_mul(a1: int, a2: int, b1: int, b2: int)
    requires
        cong(a1, a2),
        cong(b1, b2),
    ensures
        cong(a1 * b1, a2 * b2),
{
    lemma_mul_mod_noop_general(a1, b1, fr_order());
    lemma_mul_mod_noop_general(a2, b2, fr_order());
}

/// Reducing either or both factors before a product does not change the
/// reduced product.
pub proof fn lemma_mod_mul(x: int, y: int)
    ensures
        ((x % fr_order()) * (y % fr_order())) % fr_order() == (x * y) % fr_order(),
        (x * (y % fr_order())) % fr_order() == (x * y) % fr_order(),
        ((x % fr_order()) * y) % fr_order() == (x * y) % fr_order(),
{
    lemma_mul_mod_noop_general(x, y, fr_order());
}

/// Reducing either or both terms before a sum does not change the reduced
/// sum.
pub proof fn lemma_mod_add(x: int, y: int)
    ensures
        ((x % fr_order()) + (y % fr_order())) % fr_order() == (x + y) % fr_order(),
        (x + (y % fr_order())) % fr_order() == (x + y) % fr_order(),
        ((x % fr_order()) + y) % fr_order() == (x + y) % fr_order(),
{
    lemma_add_mod_noop(x, y, fr_order());
    vstd::arithmetic::div_mod::lemma_add_mod_noop_right(x, y, fr_order());
    vstd::arithmetic::div_mod::lemma_add_mod_noop_right(y, x, fr_order());
}

/// Reducing either or both terms before a difference does not change the
/// reduced difference.
pub proof fn lemma_mod_sub(x: int, y: int)
    ensures
        ((x % fr_order()) - (y % fr_order())) % fr_order() == (x - y) % fr_order(),
        (x - (y % fr_order())) % fr_order() == (x - y) % fr_order(),
        ((x % fr_order()) - y) % fr_order() == (x - y) % fr_order(),
{
    lemma_sub_mod_noop(x, y, fr_order());
    vstd::arithmetic::div_mod::lemma_sub_mod_noop_right(x, y, fr_order());
    vstd::arithmetic::div_mod::lemma_fundamental_div_mod(x, fr_order());
    vstd::arithmetic::div_mod::lemma_mod_multiples_vanish(
        0 - (x / fr_order()),
        x - y,
        fr_order(),
    );
    assert(fr_order() * (0 - x / fr_order()) + (x - y) == (x % fr_order()) - y) by {
        assert(fr_order() * (0 - x / fr_order()) == 0 - fr_order() * (x / fr_order()))
            by (nonlinear_arith);
    }
}

/// A polynomial whose coefficients are all congruent to zero evaluates to a
/// value congruent to zero.
pub proof fn lemma_poly_eval_zero(c: Seq<int>, x: int)
    requires
        forall|i: int| 0 <= i < c.len() ==> cong(c[i], 0),
    ensures
        cong(poly_eval(c, x), 0),
    decreases c.len(),
{
    if c.len() == 0 {
        assert(cong(0, 0));
    } else {
        lemma_poly_eval_zero(c.drop_last(), x);
        lemma_cong_mul(c.last(), 0, pow(x, (c.len() - 1) as nat), pow(x, (c.len() - 1) as nat));
        assert(0 * pow(x, (c.len() - 1) as nat) == 0) by (nonlinear_arith);
        lemma_cong_add(poly_eval(c.drop_last(), x), 0, c.last() * pow(x, (c.len() - 1) as nat), 0);
    }
}

/// Evaluating one more coefficient adds that coefficient times the matching
/// power.
pub proof fn lemma_poly_eval_take_step(c: Seq<int>, x: int, i: int)
    requires
        0 <= i < c.len(),
    ensures
        poly_eval(c.take(i + 1), x) == poly_eval(c.take(i), x) + c[i] * pow(x, i as nat),
{
    assert(c.take(i + 1).drop_last() =~= c.take(i));
    assert(c.take(i + 1).last() == c[i]);
}

/// Trailing zero coefficients do not change a polynomial's value.
pub proof fn lemma_poly_eval_zero_tail(c: Seq<int>, m: int, x: int)
    requires
        0 <= m <= c.len(),
        forall|i: int| m <= i < c.len() ==> c[i] == 0,
    ensures
        poly_eval(c, x) == poly_eval(c.take(m), x),
    decreases c.len() - m,
{
    if m == c.len() {
        assert(c.take(m) =~= c);
    } else {
        let c1 = c.drop_last();
        assert(c.last() == 0);
        vstd::arithmetic::mul::lemma_mul_basics(pow(x, (c.len() - 1) as nat));
        lemma_poly_eval_zero_tail(c1, m, x);
        assert(c1.take(m) =~= c.take(m));
    }
}

/// Extending both sequences by one entry adds that entry pair's product to
/// the dot product.
pub proof fn lemma_int_dot_take_step(a: Seq<int>, b: Seq<int>, j: int)
    requires
        0 <= j < a.len(),
        j < b.len(),
    ensures
        int_dot(a.take(j + 1), b.take(j + 1)) == int_dot(a.take(j), b.take(j)) + a[j] * b[j],
{
    assert(a.take(j + 1).drop_last() =~= a.take(j));
    assert(b.take(j + 1).drop_last() =~= b.take(j));
    if j == 0 {
        assert(int_dot(a.take(0), b.take(0)) == 0);
    }
}

/// The dot product respects coefficient-wise congruence in its right
/// argument.
pub proof fn lemma_int_dot_cong(a: Seq<int>, b1: Seq<int>, b2: Seq<int>)
    requires
        a.len() == b1.len(),
        b1.len() == b2.len(),
        forall|i: int| 0 <= i < b1.len() ==> cong(b1[i], b2[i]),
    ensures
        cong(int_dot(a, b1), int_dot(a, b2)),
    decreases a.len(),
{
    if a.len() == 0 {
    } else {
        lemma_int_dot_cong(a.drop_last(), b1.drop_last(), b2.drop_last());
        lemma_cong_mul(a.last(), a.last(), b1.last(), b2.last());
        lemma_cong_add(
            int_dot(a.drop_last(), b1.drop_last()),
            int_dot(a.drop_last(), b2.drop_last()),
            a.last() * b1.last(),
            a.last() * b2.last(),
        );
    }
}

/// The dot product is linear in its right argument: pairing a row with the
/// pointwise combination `b + r c` gives `a·b + r (a·c)`.
pub proof fn lemma_int_dot_linear(a: Seq<int>, b: Seq<int>, c: Seq<int>, r: int)
    requires
        a.len() == b.len(),
        b.len() == c.len(),
    ensures
        int_dot(a, Seq::new(b.len(), |i: int| b[i] + r * c[i])) == int_dot(a, b) + r * int_dot(
            a,
            c,
        ),
    decreases a.len(),
{
    let comb = Seq::new(b.len(), |i: int| b[i] + r * c[i]);
    if a.len() == 0 {
        assert(int_dot(a, c) == 0);
    } else {
        lemma_int_dot_linear(a.drop_last(), b.drop_last(), c.drop_last(), r);
        assert(comb.drop_last() =~= Seq::new(
            b.drop_last().len(),
            |i: int| b.drop_last()[i] + r * c.drop_last()[i],
        ));
        assert(comb.last() == b.last() + r * c.last());
        assert(a.last() * (b.last() + r * c.last()) + (int_dot(a.drop_last(), b.drop_last()) + r
            * int_dot(a.drop_last(), c.drop_last())) == (int_dot(a.drop_last(), b.drop_last())
            + a.last() * b.last()) + r * (int_dot(a.drop_last(), c.drop_last()) + a.last()
            * c.last())) by (nonlinear_arith);
    }
}

/// Expansion of a product of two linear combinations.
pub proof fn lemma_expand_binomial(x1: int, x2: int, y1: int, y2: int, r: int)
    ensures
        (x1 + r * x2) * (y1 + r * y2) == x1 * y1 + r * x1 * y2 + r * x2 * y1 + r * r * x2 * y2,
{
    vstd::arithmetic::mul::lemma_mul_is_distributive_add_other_way(y1 + r * y2, x1, r * x2);
    vstd::arithmetic::mul::lemma_mul_is_distributive_add(x1, y1, r * y2);
    vstd::arithmetic::mul::lemma_mul_is_distributive_add(r * x2, y1, r * y2);
    vstd::arithmetic::mul::lemma_mul_is_associative(x1, r, y2);
    vstd::arithmetic::mul::lemma_mul_is_commutative(x1, r);
    vstd::arithmetic::mul::lemma_mul_is_associative(r * x2, r, y2);
    vstd::arithmetic::mul::lemma_mul_is_commutative(r * x2, r);
    vstd::arithmetic::mul::lemma_mul_is_associative(r, r, x2);
}

/// Distribution of a factor over a four-term sum.
pub proof fn lemma_distribute_four(r: int, p: int, q: int, s: int, t: int)
    ensures
        r * (p + q - s - t) == r * p + r * q - r * s - r * t,
{
    vstd::arithmetic::mul::lemma_mul_is_distributive_sub(r, p + q - s, t);
    vstd::arithmetic::mul::lemma_mul_is_distributive_sub(r, p + q, s);
    vstd::arithmetic::mul::lemma_mul_is_distributive_add(r, p, q);
}

/// Distribution of a factor over a deficit term `p - (q + s)`.
pub proof fn lemma_distribute_deficit(r: int, p: int, q: int, s: int)
    ensures
        r * (p - (q + s)) == r * p - r * q - r * s,
{
    vstd::arithmetic::mul::lemma_mul_is_distributive_sub(r, p, q + s);
    vstd::arithmetic::mul::lemma_mul_is_distributive_add(r, q, s);
}

/// Multiplication is commutative.
pub proof fn lemma_mul_comm(x: int, y: int)
    ensures
        x * y == y * x,
{
    vstd::arithmetic::mul::lemma_mul_is_commutative(x, y);
}

/// Swapping the inner factors of a product of two products.
pub proof fn lemma_swap_factors(a: int, b: int, c: int, d: int)
    ensures
        (a * b) * (c * d) == (a * c) * (b * d),
{
    vstd::arithmetic::mul::lemma_mul_is_associative(a * b, c, d);
    vstd::arithmetic::mul::lemma_mul_is_associative(a, b, c);
    vstd::arithmetic::mul::lemma_mul_is_commutative(b, c);
    vstd::arithmetic::mul::lemma_mul_is_associative(a, c, b);
    vstd::arithmetic::mul::lemma_mul_is_associative(a * c, b, d);
}

/// Pulling a weight to the front of a product of three factors.
pub proof fn lemma_regroup_weight(a: int, b: int, c: int)
    ensures
        a * (b * c) == (b * a) * c,
{
    vstd::arithmetic::mul::lemma_mul_is_associative(a, b, c);
    vstd::arithmetic::mul::lemma_mul_is_commutative(a, b);
}

/// Extending the root list by one root multiplies the product by the new
/// factor.
pub proof fn lemma_prod_roots_take_step(zs: Seq<int>, x: int, i: int)
    requires
        0 <= i < zs.len(),
    ensures
        prod_roots(zs.take(i + 1), x) == prod_roots(zs.take(i), x) * (x - zs[i]),
{
    assert(zs.take(i + 1).drop_last() =~= zs.take(i));
    assert(zs.take(i + 1).last() == zs[i]);
}

/// Two values are congruent exactly when their difference is congruent to
/// zero.
pub proof fn lemma_cong_shift_zero(a: int, b: int)
    ensures
        cong(a, b) == cong(a - b, 0),
{
    lemma_sub_mod_noop(a, b, fr_order());
    vstd::arithmetic::div_mod::lemma_small_mod(0 as nat, fr_order() as nat);
    if (a - b) % fr_order() == 0 {
        vstd::arithmetic::div_mod::lemma_mod_bound(a, fr_order());
        vstd::arithmetic::div_mod::lemma_mod_bound(b, fr_order());
        lemma_small_diff_zero(a % fr_order(), b % fr_order());
    }
}

/// Two reduced values whose difference is congruent to zero are equal.
pub proof fn lemma_small_diff_zero(a: int, b: int)
    requires
        0 <= a < fr_order(),
        0 <= b < fr_order(),
        (a - b) % fr_order() == 0,
    ensures
        a == b,
{
    let d = a - b;
    if d >= 0 {
        vstd::arithmetic::div_mod::lemma_small_mod(d as nat, fr_order() as nat);
    } else {
        vstd::arithmetic::div_mod::lemma_mod_multiples_vanish(1, d, fr_order());
        vstd::arithmetic::div_mod::lemma_small_mod((fr_order() + d) as nat, fr_order() as nat);
    }
}

/// A product over roots is congruent to zero whenever one factor is.
pub proof fn lemma_prod_roots_zero(zs: Seq<int>, x: int, j: int)
    requires
        0 <= j < zs.len(),
        cong(x - zs[j], 0),
    ensures
        cong(prod_roots(zs, x), 0),
    decreases zs.len(),
{
    if j == zs.len() - 1 {
        lemma_cong_mul(prod_roots(zs.drop_last(), x), prod_roots(zs.drop_last(), x), x - zs.last(), 0);
        assert(prod_roots(zs.drop_last(), x) * 0 == 0) by (nonlinear_arith);
    } else {
        lemma_prod_roots_zero(zs.drop_last(), x, j);
        lemma_cong_mul(prod_roots(zs.drop_last(), x), 0, x - zs.last(), x - zs.last());
        assert(0 * (x - zs.last()) == 0) by (nonlinear_arith);
    }
}

} // verus!
