//! Why Lagrange's formula recovers the constant term.
//!
//! The formula is stated in `poly` with every product and sum reduced
//! modulo the group order. Here the same products and sums are taken over
//! the integers, where they obey the ordinary laws of arithmetic, and the
//! two are shown to agree modulo the order. The theorem is then proved by
//! induction on the number of points, for any weights that invert the
//! denominators modulo the order.

use vstd::prelude::*;
use vstd::arithmetic::div_mod::{
    lemma_add_mod_noop,
    lemma_mod_twice,
    lemma_mul_mod_noop,
    lemma_small_mod,
    lemma_sub_mod_noop,
};
use crate::poly::{
    interpolable,
    interpolate_at_zero,
    inverse_mod,
    is_inverse,
    lagrange_den,
    lagrange_num,
    lagrange_sum,
    lagrange_term,
    poly_eval,
    poly_value,
};
use crate::scalar::{lemma_order_is_large, scalar_order};

verus! {

/// Whether two integers agree modulo the group order.
pub open spec fn congruent(a: int, b: int) -> bool {
    a % (scalar_order() as int) == b % (scalar_order() as int)
}

pub proof fn lemma_congruent_add(a1: int, a2: int, b1: int, b2: int)
    requires
        congruent(a1, a2),
        congruent(b1, b2),
    ensures
        congruent(a1 + b1, a2 + b2),
{
    lemma_order_is_large();
    lemma_add_mod_noop(a1, b1, scalar_order() as int);
    lemma_add_mod_noop(a2, b2, scalar_order() as int);
}

pub proof fn lemma_congruent_sub(a1: int, a2: int, b1: int, b2: int)
    requires
        congruent(a1, a2),
        congruent(b1, b2),
    ensures
        congruent(a1 - b1, a2 - b2),
{
    lemma_order_is_large();
    lemma_sub_mod_noop(a1, b1, scalar_order() as int);
    lemma_sub_mod_noop(a2, b2, scalar_order() as int);
}

pub proof fn lemma_congruent_mul(a1: int, a2: int, b1: int, b2: int)
    requires
        congruent(a1, a2),
        congruent(b1, b2),
    ensures
        congruent(a1 * b1, a2 * b2),
{
    lemma_order_is_large();
    lemma_mul_mod_noop(a1, b1, scalar_order() as int);
    lemma_mul_mod_noop(a2, b2, scalar_order() as int);
}

/// A number agrees with its remainder.
pub proof fn lemma_congruent_mod(a: int)
    ensures
        congruent(a % (scalar_order() as int), a),
{
    lemma_order_is_large();
    lemma_mod_twice(a, scalar_order() as int);
}

/// The product over the integers of the `xs[j]` with `j < n` and `j != i`.
pub open spec fn numerator(xs: Seq<nat>, i: int, n: int) -> int
    decreases n,
{
    if n <= 0 {
        1
    } else if n - 1 == i {
        numerator(xs, i, n - 1)
    } else {
        numerator(xs, i, n - 1) * xs[n - 1]
    }
}

/// The product over the integers of the `xs[j] - xs[i]` with `j < n` and
/// `j != i`.
pub open spec fn denominator(xs: Seq<nat>, i: int, n: int) -> int
    decreases n,
{
    if n <= 0 {
        1
    } else if n - 1 == i {
        denominator(xs, i, n - 1)
    } else {
        denominator(xs, i, n - 1) * (xs[n - 1] - xs[i])
    }
}

/// The reduced numerator agrees with the product over the integers.
pub proof fn lemma_numerator_reduced(xs: Seq<nat>, i: int, n: int)
    ensures
        congruent(lagrange_num(xs, i, n) as int, numerator(xs, i, n)),
    decreases n,
{
    if n > 0 {
        lemma_numerator_reduced(xs, i, n - 1);
        if n - 1 != i {
            let prev = lagrange_num(xs, i, n - 1);
            lemma_congruent_mod((prev * xs[n - 1]) as int);
            lemma_congruent_mul(prev as int, numerator(xs, i, n - 1), xs[n - 1] as int, xs[n - 1] as int);
        }
    }
}

/// The reduced denominator agrees with the product over the integers.
pub proof fn lemma_denominator_reduced(xs: Seq<nat>, i: int, n: int)
    ensures
        congruent(lagrange_den(xs, i, n) as int, denominator(xs, i, n)),
    decreases n,
{
    if n > 0 {
        lemma_denominator_reduced(xs, i, n - 1);
        if n - 1 != i {
            let prev = lagrange_den(xs, i, n - 1);
            let diff = xs[n - 1] - xs[i];
            let reduced = (diff % (scalar_order() as int)) as nat;
            lemma_order_is_large();
            lemma_congruent_mod(diff);
            lemma_congruent_mod((prev * reduced) as int);
            lemma_congruent_mul(prev as int, denominator(xs, i, n - 1), reduced as int, diff);
        }
    }
}

/// The products over the first `n` points do not depend on the points
/// behind them.
pub proof fn lemma_products_of_prefix(xs: Seq<nat>, ys: Seq<nat>, i: int, n: int)
    requires
        0 <= i < xs.len(),
        i < ys.len(),
        n <= xs.len(),
        n <= ys.len(),
        xs[i] == ys[i],
        forall|j: int| 0 <= j < n ==> xs[j] == ys[j],
    ensures
        numerator(xs, i, n) == numerator(ys, i, n),
        denominator(xs, i, n) == denominator(ys, i, n),
    decreases n,
{
    if n > 0 {
        lemma_products_of_prefix(xs, ys, i, n - 1);
    }
}

/// The products over the points but the first: the first point
/// contributes one factor.
pub proof fn lemma_products_without_first(xs: Seq<nat>, i: int, n: int)
    requires
        1 <= i < xs.len(),
        1 <= n <= xs.len(),
    ensures
        numerator(xs, i, n) == xs[0] * numerator(xs.skip(1), i - 1, n - 1),
        denominator(xs, i, n) == (xs[0] - xs[i]) * denominator(xs.skip(1), i - 1, n - 1),
    decreases n,
{
    let rest = xs.skip(1);
    if n == 1 {
        assert(numerator(xs, i, 0) == 1);
        assert(denominator(xs, i, 0) == 1);
        assert(numerator(xs, i, 1) == 1 * xs[0]);
        assert(denominator(xs, i, 1) == 1 * (xs[0] - xs[i]));
        assert(numerator(rest, i - 1, 0) == 1);
        assert(denominator(rest, i - 1, 0) == 1);
    } else {
        lemma_products_without_first(xs, i, n - 1);
        assert(rest[n - 2] == xs[n - 1]);
        assert(rest[i - 1] == xs[i]);
        if n - 1 != i {
            let a = numerator(rest, i - 1, n - 2);
            let d = denominator(rest, i - 1, n - 2);
            assert((xs[0] * a) * xs[n - 1] == xs[0] * (a * xs[n - 1])) by (nonlinear_arith);
            assert(((xs[0] - xs[i]) * d) * (xs[n - 1] - xs[i]) == (xs[0] - xs[i]) * (d * (xs[n - 1]
                - xs[i]))) by (nonlinear_arith);
        }
    }
}

/// The quotient of the polynomial `f` by `X - b`.
pub open spec fn quotient(f: Seq<nat>, b: nat) -> Seq<nat>
    decreases f.len(),
{
    if f.len() <= 1 {
        Seq::empty()
    } else {
        seq![poly_value(f.skip(1), b)] + quotient(f.skip(1), b)
    }
}

/// Division by `X - b`: `f(x) = f(b) + (x - b)·q(x)`, where the quotient
/// `q` has one coefficient less than `f`.
pub proof fn lemma_division(f: Seq<nat>, b: nat, x: nat)
    ensures
        poly_value(f, x) == poly_value(f, b) + (x - b) * poly_value(quotient(f, b), x),
        f.len() >= 1 ==> quotient(f, b).len() == f.len() - 1,
        f.len() == 0 ==> quotient(f, b).len() == 0,
    decreases f.len(),
{
    if f.len() == 0 {
        assert((x - b) * 0 == 0) by (nonlinear_arith);
    } else if f.len() == 1 {
        assert(poly_value(f.skip(1), x) == 0);
        assert(poly_value(f.skip(1), b) == 0);
        assert(x * 0 == 0 && b * 0 == 0 && (x - b) * 0 == 0) by (nonlinear_arith);
    } else {
        let tail = f.skip(1);
        let q = quotient(f, b);
        let qt = quotient(tail, b);
        lemma_division(tail, b, x);
        assert(q.skip(1) =~= qt);
        assert(q[0] == poly_value(tail, b));
        let r = poly_value(tail, b) as int;
        let big = poly_value(qt, x) as int;
        let (xi, bv, f0) = (x as int, b as int, f[0] as int);
        assert(poly_value(tail, x) == r + (xi - bv) * big);
        assert(poly_value(q, x) == r + xi * big);
        assert(f0 + xi * (r + (xi - bv) * big) == (f0 + bv * r) + (xi - bv) * (r + xi * big))
            by (nonlinear_arith);
    }
}

/// The term of point `i` in Lagrange's formula for the polynomial `f`,
/// over the integers, with the weights `w` in place of the inverses of the
/// denominators.
pub open spec fn term(xs: Seq<nat>, w: Seq<int>, f: Seq<nat>, i: int) -> int {
    poly_value(f, xs[i]) * (numerator(xs, i, xs.len() as int) * w[i])
}

/// The sum of the terms of the points below `n`.
pub open spec fn sum(xs: Seq<nat>, w: Seq<int>, f: Seq<nat>, n: int) -> int
    decreases n,
{
    if n <= 0 {
        0
    } else {
        sum(xs, w, f, n - 1) + term(xs, w, f, n - 1)
    }
}

/// The term of point `i` for the polynomial `(X - p)·g`.
pub open spec fn twisted_term(xs: Seq<nat>, w: Seq<int>, g: Seq<nat>, p: nat, i: int) -> int {
    (xs[i] - p) * term(xs, w, g, i)
}

/// The sum of the terms for `(X - p)·g` of the points below `n`.
pub open spec fn twisted_sum(xs: Seq<nat>, w: Seq<int>, g: Seq<nat>, p: nat, n: int) -> int
    decreases n,
{
    if n <= 0 {
        0
    } else {
        twisted_sum(xs, w, g, p, n - 1) + twisted_term(xs, w, g, p, n - 1)
    }
}

/// Whether the weights invert the denominators modulo the order.
pub open spec fn inverting(xs: Seq<nat>, w: Seq<int>) -> bool {
    &&& w.len() == xs.len()
    &&& forall|i: int|
        0 <= i < xs.len() ==> congruent(
            #[trigger] w[i] * denominator(xs, i, xs.len() as int),
            1,
        )
}

/// The weights for the points but the last.
pub open spec fn weights_without_last(xs: Seq<nat>, w: Seq<int>) -> Seq<int> {
    Seq::new((xs.len() - 1) as nat, |i: int| w[i] * (xs.last() - xs[i]))
}

/// The weights for the points but the first.
pub open spec fn weights_without_first(xs: Seq<nat>, w: Seq<int>) -> Seq<int> {
    Seq::new((xs.len() - 1) as nat, |i: int| w[i + 1] * (xs[0] - xs[i + 1]))
}

/// The weights for the points but the last invert their denominators.
pub proof fn lemma_weights_without_last(xs: Seq<nat>, w: Seq<int>)
    requires
        xs.len() >= 1,
        inverting(xs, w),
    ensures
        inverting(xs.drop_last(), weights_without_last(xs, w)),
{
    let t = xs.len() as int;
    let front = xs.drop_last();
    let wf = weights_without_last(xs, w);
    assert forall|i: int| 0 <= i < front.len() implies congruent(
        #[trigger] wf[i] * denominator(front, i, front.len() as int),
        1,
    ) by {
        lemma_products_of_prefix(xs, front, i, t - 1);
        let d = denominator(front, i, t - 1);
        assert(denominator(xs, i, t) == d * (xs[t - 1] - xs[i]));
        assert((w[i] * (xs[t - 1] - xs[i])) * d == w[i] * (d * (xs[t - 1] - xs[i])))
            by (nonlinear_arith);
        assert(congruent(w[i] * denominator(xs, i, t), 1));
    }
}

/// The weights for the points but the first invert their denominators.
pub proof fn lemma_weights_without_first(xs: Seq<nat>, w: Seq<int>)
    requires
        xs.len() >= 1,
        inverting(xs, w),
    ensures
        inverting(xs.skip(1), weights_without_first(xs, w)),
{
    let t = xs.len() as int;
    let rest = xs.skip(1);
    let wr = weights_without_first(xs, w);
    assert forall|k: int| 0 <= k < rest.len() implies congruent(
        #[trigger] wr[k] * denominator(rest, k, rest.len() as int),
        1,
    ) by {
        lemma_products_without_first(xs, k + 1, t);
        let d = denominator(rest, k, t - 1);
        assert((w[k + 1] * (xs[0] - xs[k + 1])) * d == w[k + 1] * ((xs[0] - xs[k + 1]) * d))
            by (nonlinear_arith);
        assert(congruent(w[k + 1] * denominator(xs, k + 1, t), 1));
    }
}

/// The terms for `(X - b)·g`, where `b` is the last point, are those for
/// `g` over the points but the last, times `-b`.
pub proof fn lemma_twisted_by_last(xs: Seq<nat>, w: Seq<int>, g: Seq<nat>, n: int)
    requires
        xs.len() >= 1,
        w.len() == xs.len(),
        0 <= n <= xs.len(),
    ensures
        n < xs.len() ==> twisted_sum(xs, w, g, xs.last(), n) == -(xs.last() as int) * sum(
            xs.drop_last(),
            weights_without_last(xs, w),
            g,
            n,
        ),
        n == xs.len() ==> twisted_sum(xs, w, g, xs.last(), n) == -(xs.last() as int) * sum(
            xs.drop_last(),
            weights_without_last(xs, w),
            g,
            n - 1,
        ),
    decreases n,
{
    let t = xs.len() as int;
    let b = xs.last() as int;
    let front = xs.drop_last();
    let wf = weights_without_last(xs, w);
    if n == 0 {
        assert(-b * 0 == 0) by (nonlinear_arith);
    } else if n == t {
        lemma_twisted_by_last(xs, w, g, n - 1);
        assert(twisted_term(xs, w, g, xs.last(), t - 1) == 0) by {
            assert((xs[t - 1] - xs.last()) == 0);
            assert(0 * term(xs, w, g, t - 1) == 0) by (nonlinear_arith);
        }
    } else {
        lemma_twisted_by_last(xs, w, g, n - 1);
        let i = n - 1;
        lemma_products_of_prefix(xs, front, i, t - 1);
        let p = numerator(front, i, t - 1);
        let y = poly_value(g, xs[i]) as int;
        let xi = xs[i] as int;
        assert(front[i] == xs[i]);
        assert(numerator(xs, i, t) == p * xs[t - 1]);
        assert(term(front, wf, g, i) == y * (p * (w[i] * (b - xi))));
        assert(twisted_term(xs, w, g, xs.last(), i) == (xi - b) * (y * ((p * b) * w[i])));
        assert((xi - b) * (y * ((p * b) * w[i])) == -b * (y * (p * (w[i] * (b - xi)))))
            by (nonlinear_arith);
        let s = sum(front, wf, g, n - 1);
        let tm = term(front, wf, g, i);
        assert(-b * s + -b * tm == -b * (s + tm)) by (nonlinear_arith);
    }
}

/// The terms for `(X - a)·g`, where `a` is the first point, are those for
/// `g` over the points but the first, times `-a`.
pub proof fn lemma_twisted_by_first(xs: Seq<nat>, w: Seq<int>, g: Seq<nat>, n: int)
    requires
        xs.len() >= 1,
        w.len() == xs.len(),
        1 <= n <= xs.len(),
    ensures
        twisted_sum(xs, w, g, xs[0], n) == -(xs[0] as int) * sum(
            xs.skip(1),
            weights_without_first(xs, w),
            g,
            n - 1,
        ),
    decreases n,
{
    let t = xs.len() as int;
    let a = xs[0] as int;
    let rest = xs.skip(1);
    let wr = weights_without_first(xs, w);
    if n == 1 {
        assert(twisted_sum(xs, w, g, xs[0], 0) == 0);
        assert(twisted_term(xs, w, g, xs[0], 0) == 0) by {
            assert(0 * term(xs, w, g, 0) == 0) by (nonlinear_arith);
        }
        assert(-a * 0 == 0) by (nonlinear_arith);
    } else {
        lemma_twisted_by_first(xs, w, g, n - 1);
        let i = n - 1;
        let k = i - 1;
        lemma_products_without_first(xs, i, t);
        let p = numerator(rest, k, t - 1);
        let y = poly_value(g, xs[i]) as int;
        let xi = xs[i] as int;
        assert(rest[k] == xs[i]);
        assert(term(rest, wr, g, k) == y * (p * (w[i] * (a - xi))));
        assert(twisted_term(xs, w, g, xs[0], i) == (xi - a) * (y * ((a * p) * w[i])));
        assert((xi - a) * (y * ((a * p) * w[i])) == -a * (y * (p * (w[i] * (a - xi)))))
            by (nonlinear_arith);
        let s = sum(rest, wr, g, k);
        let tm = term(rest, wr, g, k);
        assert(-a * s + -a * tm == -a * (s + tm)) by (nonlinear_arith);
    }
}

/// The constant polynomial 1.
pub open spec fn unit() -> Seq<nat> {
    seq![1nat]
}

pub proof fn lemma_unit_value(x: nat)
    ensures
        poly_value(unit(), x) == 1,
{
    assert(unit().skip(1) =~= Seq::<nat>::empty());
    assert(poly_value(unit().skip(1), x) == 0);
    assert(x * 0 == 0) by (nonlinear_arith);
}

/// The sum for `f` splits along the division of `f` by `X - p`:
/// `f(p)` times the sum for 1, and the sum for `(X - p)·q`.
pub proof fn lemma_sum_splits(xs: Seq<nat>, w: Seq<int>, f: Seq<nat>, p: nat, n: int)
    requires
        w.len() == xs.len(),
        0 <= n <= xs.len(),
    ensures
        sum(xs, w, f, n) == poly_value(f, p) * sum(xs, w, unit(), n) + twisted_sum(
            xs,
            w,
            quotient(f, p),
            p,
            n,
        ),
    decreases n,
{
    if n == 0 {
        assert(poly_value(f, p) * 0 == 0) by (nonlinear_arith);
    } else {
        lemma_sum_splits(xs, w, f, p, n - 1);
        let i = n - 1;
        let q = quotient(f, p);
        lemma_division(f, p, xs[i]);
        lemma_unit_value(xs[i]);
        let c = poly_value(f, p) as int;
        let gy = poly_value(q, xs[i]) as int;
        let u = numerator(xs, i, xs.len() as int) * w[i];
        let d = xs[i] - p;
        assert(term(xs, w, f, i) == (c + d * gy) * u);
        assert(term(xs, w, unit(), i) == 1 * u);
        assert(twisted_term(xs, w, q, p, i) == d * (gy * u));
        assert((c + d * gy) * u == c * (1 * u) + d * (gy * u)) by (nonlinear_arith);
        let s1 = sum(xs, w, unit(), n - 1);
        assert(c * s1 + c * (1 * u) == c * (s1 + 1 * u)) by (nonlinear_arith);
    }
}

/// The sums for `X - b` and for `X - a` differ by `a - b` times the sum
/// for 1.
pub proof fn lemma_twisted_difference(xs: Seq<nat>, w: Seq<int>, a: nat, b: nat, n: int)
    requires
        w.len() == xs.len(),
        0 <= n <= xs.len(),
    ensures
        twisted_sum(xs, w, unit(), b, n) - twisted_sum(xs, w, unit(), a, n) == (a - b) * sum(
            xs,
            w,
            unit(),
            n,
        ),
    decreases n,
{
    if n == 0 {
        assert((a - b) * 0 == 0) by (nonlinear_arith);
    } else {
        lemma_twisted_difference(xs, w, a, b, n - 1);
        let i = n - 1;
        let tm = term(xs, w, unit(), i);
        let s = sum(xs, w, unit(), n - 1);
        let xi = xs[i] as int;
        assert((xi - b) * tm - (xi - a) * tm == (a - b) * tm) by (nonlinear_arith);
        assert((a - b) * s + (a - b) * tm == (a - b) * (s + tm)) by (nonlinear_arith);
    }
}

/// Lagrange's formula over the integers: for points `xs`, weights that
/// invert the denominators modulo the order, and a polynomial `f` with at
/// most as many coefficients as there are points, the weighted sum of the
/// values of `f` agrees with `f(0)` modulo the order.
pub proof fn lemma_lagrange(xs: Seq<nat>, w: Seq<int>, f: Seq<nat>)
    requires
        inverting(xs, w),
        f.len() <= xs.len(),
    ensures
        congruent(sum(xs, w, f, xs.len() as int), poly_value(f, 0) as int),
    decreases xs.len(), 1nat,
{
    let t = xs.len() as int;
    if t == 0 {
        assert(poly_value(f, 0) == 0);
    } else {
        let b = xs.last();
        let q = quotient(f, b);
        lemma_division(f, b, 0);
        lemma_sum_splits(xs, w, f, b, t);
        lemma_twisted_by_last(xs, w, q, t);
        lemma_weights_without_last(xs, w);
        let front = xs.drop_last();
        let wf = weights_without_last(xs, w);
        lemma_lagrange(front, wf, q);
        lemma_partition_of_unity(xs, w);
        let c = poly_value(f, b) as int;
        let q0 = poly_value(q, 0) as int;
        let u = sum(xs, w, unit(), t);
        let sq = sum(front, wf, q, t - 1);
        let bv = b as int;
        // sum = c·u + (-b)·sq, with u ≡ 1 and sq ≡ q(0)
        lemma_congruent_mul(c, c, u, 1);
        lemma_congruent_mul(-bv, -bv, sq, q0);
        lemma_congruent_add(c * u, c * 1, -bv * sq, -bv * q0);
        assert(c * 1 + -bv * q0 == c + (0 - bv) * q0) by (nonlinear_arith);
    }
}

/// The weighted sum of the values of the constant 1 agrees with 1.
pub proof fn lemma_partition_of_unity(xs: Seq<nat>, w: Seq<int>)
    requires
        inverting(xs, w),
        xs.len() >= 1,
    ensures
        congruent(sum(xs, w, unit(), xs.len() as int), 1),
    decreases xs.len(), 0nat,
{
    let t = xs.len() as int;
    if t == 1 {
        lemma_unit_value(xs[0]);
        assert(numerator(xs, 0, 1) == 1) by {
            assert(numerator(xs, 0, 0) == 1);
        }
        assert(denominator(xs, 0, 1) == 1) by {
            assert(denominator(xs, 0, 0) == 1);
        }
        assert(sum(xs, w, unit(), 0) == 0);
        assert(term(xs, w, unit(), 0) == 1 * (1 * w[0]));
        assert(1 * (1 * w[0]) == w[0] * 1) by (nonlinear_arith);
        assert(congruent(w[0] * denominator(xs, 0, 1), 1));
    } else {
        let a = xs[0];
        let b = xs.last();
        let (av, bv) = (a as int, b as int);
        let front = xs.drop_last();
        let rest = xs.skip(1);
        let wf = weights_without_last(xs, w);
        let wr = weights_without_first(xs, w);
        lemma_weights_without_last(xs, w);
        lemma_weights_without_first(xs, w);
        lemma_lagrange(front, wf, unit());
        lemma_lagrange(rest, wr, unit());
        lemma_unit_value(0);
        lemma_twisted_by_last(xs, w, unit(), t);
        lemma_twisted_by_first(xs, w, unit(), t);
        lemma_twisted_difference(xs, w, a, b, t);
        let u = sum(xs, w, unit(), t);
        let sb = twisted_sum(xs, w, unit(), b, t);
        let sa = twisted_sum(xs, w, unit(), a, t);
        // sb ≡ -b and sa ≡ -a, so (a - b)·u ≡ a - b
        lemma_congruent_mul(-bv, -bv, sum(front, wf, unit(), t - 1), 1);
        lemma_congruent_mul(-av, -av, sum(rest, wr, unit(), t - 1), 1);
        assert(-bv * 1 == -bv && -av * 1 == -av) by (nonlinear_arith);
        lemma_congruent_sub(sb, -bv, sa, -av);
        assert(congruent((av - bv) * u, av - bv));
        // b - a has an inverse: the weight of the first point times the
        // other factors of its denominator
        let d = denominator(xs, 0, t - 1);
        let r = w[0] * d;
        assert(denominator(xs, 0, t) == d * (xs[t - 1] - xs[0]));
        assert(w[0] * (d * (bv - av)) == r * (bv - av)) by (nonlinear_arith)
            requires
                r == w[0] * d,
        ;
        assert(congruent(r * (bv - av), 1));
        // u - 1 ≡ r·(b - a)·(u - 1) = -r·((a - b)·u - (a - b)) ≡ 0
        lemma_congruent_mul(r * (bv - av), 1, u - 1, u - 1);
        assert((r * (bv - av)) * (u - 1) == -r * ((av - bv) * u - (av - bv))) by (nonlinear_arith);
        lemma_congruent_sub((av - bv) * u, av - bv, av - bv, av - bv);
        lemma_congruent_mul(-r, -r, (av - bv) * u - (av - bv), 0);
        assert(-r * 0 == 0 && 1 * (u - 1) == u - 1) by (nonlinear_arith);
        assert(congruent(u - 1, 0));
        lemma_congruent_add(u - 1, 0, 1, 1);
    }
}

/// The inverses of the reduced denominators, as weights.
pub open spec fn inverse_weights(xs: Seq<nat>) -> Seq<int> {
    Seq::new(xs.len(), |i: int| inverse_mod(lagrange_den(xs, i, xs.len() as int)) as int)
}

/// Where every denominator has an inverse, the inverses are weights that
/// invert the denominators over the integers.
pub proof fn lemma_inverse_weights(xs: Seq<nat>)
    requires
        interpolable(xs),
    ensures
        inverting(xs, inverse_weights(xs)),
{
    let t = xs.len() as int;
    let w = inverse_weights(xs);
    lemma_order_is_large();
    assert forall|i: int| 0 <= i < xs.len() implies congruent(
        #[trigger] w[i] * denominator(xs, i, t),
        1,
    ) by {
        let den = lagrange_den(xs, i, t);
        assert(is_inverse(inverse_mod(den), den));
        lemma_denominator_reduced(xs, i, t);
        lemma_congruent_mul(w[i], w[i], den as int, denominator(xs, i, t));
        lemma_small_mod(1, scalar_order());
    }
}

/// The reduced sum of Lagrange's formula is below the order.
pub proof fn lemma_lagrange_sum_bound(xs: Seq<nat>, ys: Seq<nat>, n: int)
    ensures
        lagrange_sum(xs, ys, n) < scalar_order(),
{
    lemma_order_is_large();
    if n > 0 {
        vstd::arithmetic::div_mod::lemma_mod_bound(
            (lagrange_sum(xs, ys, n - 1) + lagrange_term(xs, ys, n - 1)) as int,
            scalar_order() as int,
        );
    }
}

/// The reduced sum of Lagrange's formula for the values of `f` agrees
/// with the sum over the integers.
pub proof fn lemma_lagrange_sum_reduced(xs: Seq<nat>, ys: Seq<nat>, f: Seq<nat>, n: int)
    requires
        ys.len() == xs.len(),
        0 <= n <= xs.len(),
        forall|i: int| 0 <= i < xs.len() ==> #[trigger] ys[i] == poly_eval(f, xs[i]),
    ensures
        congruent(lagrange_sum(xs, ys, n) as int, sum(xs, inverse_weights(xs), f, n)),
    decreases n,
{
    let t = xs.len() as int;
    let w = inverse_weights(xs);
    if n > 0 {
        lemma_lagrange_sum_reduced(xs, ys, f, n - 1);
        let i = n - 1;
        let num = lagrange_num(xs, i, t);
        let y = ys[i];
        let v = poly_value(f, xs[i]);
        let scaled = (y * num) % scalar_order();
        lemma_numerator_reduced(xs, i, t);
        // y ≡ f(x), num ≡ numerator
        assert(y == poly_eval(f, xs[i]));
        lemma_congruent_mod(v as int);
        lemma_congruent_mul(y as int, v as int, num as int, numerator(xs, i, t));
        lemma_congruent_mod((y * num) as int);
        lemma_congruent_mul(scaled as int, v * numerator(xs, i, t), w[i], w[i]);
        lemma_congruent_mod((scaled * inverse_mod(lagrange_den(xs, i, t))) as int);
        assert((v * numerator(xs, i, t)) * w[i] == v * (numerator(xs, i, t) * w[i]))
            by (nonlinear_arith);
        assert(congruent(lagrange_term(xs, ys, i) as int, term(xs, w, f, i)));
        lemma_congruent_add(
            lagrange_sum(xs, ys, n - 1) as int,
            sum(xs, w, f, n - 1),
            lagrange_term(xs, ys, i) as int,
            term(xs, w, f, i),
        );
        lemma_congruent_mod((lagrange_sum(xs, ys, n - 1) + lagrange_term(xs, ys, i)) as int);
    }
}

/// Interpolation recovers the constant term: from the values at the points
/// `xs` of a polynomial `f` with at most as many coefficients as there are
/// points, Lagrange's formula gives `f(0)`, provided that every
/// denominator of the formula has an inverse modulo the order.
pub proof fn lemma_interpolation_recovers(f: Seq<nat>, xs: Seq<nat>, ys: Seq<nat>)
    requires
        interpolable(xs),
        ys.len() == xs.len(),
        f.len() <= xs.len(),
        forall|i: int| 0 <= i < xs.len() ==> #[trigger] ys[i] == poly_eval(f, xs[i]),
    ensures
        interpolate_at_zero(xs, ys) == poly_eval(f, 0),
{
    let t = xs.len() as int;
    lemma_order_is_large();
    lemma_inverse_weights(xs);
    lemma_lagrange(xs, inverse_weights(xs), f);
    lemma_lagrange_sum_reduced(xs, ys, f, t);
    lemma_lagrange_sum_bound(xs, ys, t);
    lemma_small_mod(lagrange_sum(xs, ys, t), scalar_order());
}

} // verus!
