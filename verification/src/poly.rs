//! Polynomials over the scalars and their commitments.
//!
//! A private polynomial of threshold `t` has `t` scalar coefficients; the
//! share of index `i` is its value at `i + 1`, so that no share is the value
//! at zero, the secret. A public polynomial commits to a private one: its
//! coefficients are the multiples of a base point by the private
//! coefficients.

use vstd::prelude::*;
use vstd::std_specs::cmp::PartialEqSpecImpl;
use vstd::arithmetic::div_mod::{
    lemma_add_mod_noop,
    lemma_mul_mod_noop_general,
    lemma_mod_bound,
    lemma_small_mod,
};
use crate::error::VssError;
use crate::point::Point;
use crate::scalar::{lemma_order_is_large, scalar_order, Scalar};

verus! {

/// The value of the polynomial with coefficients `c`, constant term first,
/// at `x`, over the integers.
pub open spec fn poly_value(c: Seq<nat>, x: nat) -> nat
    decreases c.len(),
{
    if c.len() == 0 {
        0
    } else {
        c[0] + x * poly_value(c.skip(1), x)
    }
}

/// The value of the polynomial at `x` modulo the group order.
pub open spec fn poly_eval(c: Seq<nat>, x: nat) -> nat {
    poly_value(c, x) % scalar_order()
}

/// The point at which the share of index `i` is taken.
pub open spec fn share_x(i: u32) -> nat {
    (i + 1) as nat
}

/// The numbers of a list of scalars.
pub open spec fn scalar_values(s: Seq<Scalar>) -> Seq<nat> {
    Seq::new(s.len(), |j: int| s[j]@)
}

/// The indices of a list of points.
pub open spec fn point_indices(p: Seq<Point>) -> Seq<nat> {
    Seq::new(p.len(), |j: int| p[j].index())
}

/// One Horner step modulo the order: from the value of the tail of a
/// polynomial to the value of the polynomial.
pub proof fn lemma_horner_step(c: Seq<nat>, j: int, x: nat, v: nat, scaled: nat, next: nat)
    requires
        0 <= j < c.len(),
        v == poly_value(c.skip(j + 1), x) % scalar_order(),
        scaled == (v * x) % scalar_order(),
        next == (scaled + c[j]) % scalar_order(),
    ensures
        next == poly_value(c.skip(j), x) % scalar_order(),
{
    let m = scalar_order() as int;
    let tail = poly_value(c.skip(j + 1), x);
    lemma_order_is_large();
    assert(c.skip(j).skip(1) =~= c.skip(j + 1));
    assert(c.skip(j)[0] == c[j]);
    assert(poly_value(c.skip(j), x) == c[j] + x * tail);
    lemma_mul_mod_noop_general(tail as int, x as int, m);
    assert(scaled as int == ((tail * x) as int) % m);
    lemma_add_mod_noop((tail * x) as int, c[j] as int, m);
    lemma_add_mod_noop(scaled as int, c[j] as int, m);
    lemma_mod_bound(c[j] as int, m);
    lemma_small_mod(scaled, scalar_order());
    assert(tail * x == x * tail) by (nonlinear_arith);
}

/// The coefficient of a Pedersen commitment polynomial, as an index: that
/// of `a·G + b·H`, where `h` is the index of `H`.
pub open spec fn commitment_index(a: nat, b: nat, h: nat) -> nat {
    (a + b * h) % scalar_order()
}

/// Sums of numbers that agree modulo the order agree modulo the order.
pub proof fn lemma_add_congruent(a1: nat, a2: nat, b1: nat, b2: nat)
    requires
        a1 % scalar_order() == a2 % scalar_order(),
        b1 % scalar_order() == b2 % scalar_order(),
    ensures
        (a1 + b1) % scalar_order() == (a2 + b2) % scalar_order(),
{
    lemma_order_is_large();
    lemma_add_mod_noop(a1 as int, b1 as int, scalar_order() as int);
    lemma_add_mod_noop(a2 as int, b2 as int, scalar_order() as int);
}

/// Products of numbers that agree modulo the order agree modulo the order.
pub proof fn lemma_mul_congruent(a1: nat, a2: nat, b1: nat, b2: nat)
    requires
        a1 % scalar_order() == a2 % scalar_order(),
        b1 % scalar_order() == b2 % scalar_order(),
    ensures
        (a1 * b1) % scalar_order() == (a2 * b2) % scalar_order(),
{
    lemma_order_is_large();
    vstd::arithmetic::div_mod::lemma_mul_mod_noop(a1 as int, b1 as int, scalar_order() as int);
    vstd::arithmetic::div_mod::lemma_mul_mod_noop(a2 as int, b2 as int, scalar_order() as int);
}

/// Reducing twice modulo the order is reducing once.
pub proof fn lemma_mod_twice_nat(a: nat)
    ensures
        (a % scalar_order()) % scalar_order() == a % scalar_order(),
{
    lemma_order_is_large();
    vstd::arithmetic::div_mod::lemma_mod_twice(a as int, scalar_order() as int);
}

/// The index of `a·G + b·H` depends on `a` and `b` modulo the order only.
pub proof fn lemma_commitment_index_reduced(a: nat, b: nat, h: nat)
    ensures
        commitment_index(a % scalar_order(), b % scalar_order(), h) == (a + b * h) % scalar_order(),
{
    lemma_mod_twice_nat(a);
    lemma_mod_twice_nat(b);
    lemma_mul_congruent(b % scalar_order(), b, h, h);
    lemma_add_congruent(a % scalar_order(), a, (b % scalar_order()) * h, b * h);
}

/// The commitment polynomial commits to the shares: where every
/// coefficient `c[j]` is the index of `f[j]·G + g[j]·H`, the value of `c` at
/// `x` is the index of `f(x)·G + g(x)·H`.
pub proof fn lemma_commitment_polynomial(f: Seq<nat>, g: Seq<nat>, c: Seq<nat>, h: nat, x: nat)
    requires
        f.len() == g.len(),
        f.len() == c.len(),
        forall|j: int| 0 <= j < c.len() ==> #[trigger] c[j] == commitment_index(f[j], g[j], h),
    ensures
        poly_eval(c, x) == commitment_index(poly_eval(f, x), poly_eval(g, x), h),
    decreases c.len(),
{
    lemma_order_is_large();
    if c.len() == 0 {
        assert(0 * h == 0) by (nonlinear_arith);
        lemma_small_mod(0, scalar_order());
    } else {
        let (f1, g1, c1) = (f.skip(1), g.skip(1), c.skip(1));
        assert forall|j: int| 0 <= j < c1.len() implies #[trigger] c1[j] == commitment_index(
            f1[j],
            g1[j],
            h,
        ) by {
            assert(c1[j] == c[j + 1]);
        }
        lemma_commitment_polynomial(f1, g1, c1, h, x);
        let (pf, pg, pc) = (poly_value(f1, x), poly_value(g1, x), poly_value(c1, x));
        let whole_f = f[0] + x * pf;
        let whole_g = g[0] + x * pg;
        lemma_commitment_index_reduced(pf, pg, h);
        assert(pc % scalar_order() == (pf + pg * h) % scalar_order());
        lemma_mul_congruent(x, x, pc, pf + pg * h);
        assert(c[0] == (f[0] + g[0] * h) % scalar_order());
        lemma_mod_twice_nat(f[0] + g[0] * h);
        lemma_add_congruent(c[0], f[0] + g[0] * h, x * pc, x * (pf + pg * h));
        assert((f[0] + g[0] * h) + x * (pf + pg * h) == whole_f + whole_g * h) by (nonlinear_arith)
            requires
                whole_f == f[0] + x * pf,
                whole_g == g[0] + x * pg,
        ;
        lemma_commitment_index_reduced(whole_f, whole_g, h);
    }
}

/// A share of a private polynomial: its value at the point of index `i`.
#[derive(Clone, Copy, Debug)]
pub struct PriShare {
    /// The index of the share.
    pub i: u32,
    /// The value of the polynomial there.
    pub v: Scalar,
}

/// A share of a public polynomial: its value at the point of index `i`.
#[derive(Clone, Copy, Debug)]
pub struct PubShare {
    /// The index of the share.
    pub i: u32,
    /// The value of the polynomial there.
    pub v: Point,
}

impl PartialEq for PriShare {
    /// Whether two shares have one index and one value.
    fn eq(&self, other: &PriShare) -> (r: bool) {
        self.i == other.i && self.v.equals(&other.v)
    }
}

impl PartialEqSpecImpl for PriShare {
    open spec fn obeys_eq_spec() -> bool {
        true
    }

    open spec fn eq_spec(&self, other: &PriShare) -> bool {
        self.i == other.i && self.v@ == other.v@
    }
}

impl PartialEq for PubShare {
    /// Whether two shares have one index and one value.
    fn eq(&self, other: &PubShare) -> (r: bool) {
        self.i == other.i && self.v.equals(&other.v)
    }
}

impl PartialEqSpecImpl for PubShare {
    open spec fn obeys_eq_spec() -> bool {
        true
    }

    open spec fn eq_spec(&self, other: &PubShare) -> bool {
        self.i == other.i && self.v@ == other.v@
    }
}

/// A polynomial with scalar coefficients, constant term first.
pub struct PriPoly {
    coeffs: Vec<Scalar>,
}

/// A polynomial with point coefficients over a base point, constant term
/// first.
pub struct PubPoly {
    base: Point,
    commits: Vec<Point>,
}

impl PriPoly {
    /// The coefficients as numbers, constant term first.
    pub closed spec fn coefficients(&self) -> Seq<nat> {
        scalar_values(self.coeffs@)
    }

    /// A polynomial of `t` coefficients: the constant term is `constant` if
    /// one is given, and every other coefficient is drawn at random.
    pub fn new(t: u32, constant: Option<Scalar>) -> (r: PriPoly)
        ensures
            r.coefficients().len() == t,
            forall|j: int| 0 <= j < t ==> #[trigger] r.coefficients()[j] < scalar_order(),
            t > 0 ==> (constant matches Some(s) ==> r.coefficients()[0] == s@),
    {
        let mut coeffs: Vec<Scalar> = Vec::new();
        let mut j: u32 = 0;
        while j < t
            invariant
                j <= t,
                coeffs@.len() == j,
                j > 0 ==> (constant matches Some(s) ==> coeffs@[0]@ == s@),
                forall|k: int| 0 <= k < j ==> (#[trigger] coeffs@[k])@ < scalar_order(),
            decreases t - j,
        {
            let c = match constant {
                Some(s) => if j == 0 {
                    s
                } else {
                    Scalar::random()
                },
                None => Scalar::random(),
            };
            proof {
                use_type_invariant(&c);
                c.lemma_wf();
            }
            coeffs.push(c);
            j += 1;
        }
        PriPoly { coeffs }
    }

    /// The number of coefficients.
    pub fn threshold(&self) -> (r: usize)
        ensures
            r == self.coefficients().len(),
    {
        self.coeffs.len()
    }

    /// The share of index `i`: the value of the polynomial at `i + 1`.
    pub fn eval(&self, i: u32) -> (r: PriShare)
        ensures
            r.i == i,
            r.v@ == poly_eval(self.coefficients(), share_x(i)),
    {
        let x = Scalar::from_u64(i as u64 + 1);
        let mut v = Scalar::zero();
        let mut j: usize = self.coeffs.len();
        let ghost c = self.coefficients();
        proof {
            lemma_order_is_large();
            assert(c.skip(j as int) =~= Seq::<nat>::empty());
            lemma_small_mod(0, scalar_order());
        }
        while j > 0
            invariant
                j <= self.coeffs.len(),
                c == self.coefficients(),
                c.len() == self.coeffs.len(),
                x@ == share_x(i),
                v@ == poly_value(c.skip(j as int), share_x(i)) % scalar_order(),
            decreases j,
        {
            j -= 1;
            let scaled = v.mul(&x);
            let next = scaled.add(&self.coeffs[j]);
            proof {
                lemma_horner_step(c, j as int, share_x(i), v@, scaled@, next@);
            }
            v = next;
        }
        assert(c.skip(0) =~= c);
        PriShare { i, v }
    }

    /// The commitment to this polynomial over `base`: coefficient by
    /// coefficient, the multiple of `base`.
    pub fn commit(&self, base: &Point) -> (r: PubPoly)
        ensures
            r.base() == *base,
            r.indices().len() == self.coefficients().len(),
            forall|j: int|
                0 <= j < self.coefficients().len() ==> #[trigger] r.indices()[j] == (
                self.coefficients()[j] * base.index()) % scalar_order(),
    {
        let mut commits: Vec<Point> = Vec::new();
        let mut j: usize = 0;
        while j < self.coeffs.len()
            invariant
                j <= self.coeffs.len(),
                commits@.len() == j,
                forall|k: int|
                    0 <= k < j ==> (#[trigger] commits@[k]).index() == (self.coeffs@[k]@
                        * base.index()) % scalar_order(),
            decreases self.coeffs.len() - j,
        {
            commits.push(base.scalar_mul(&self.coeffs[j]));
            j += 1;
        }
        PubPoly { base: *base, commits }
    }
}

impl PubPoly {
    /// The base point.
    pub closed spec fn base(&self) -> Point {
        self.base
    }

    /// The coefficients.
    pub closed spec fn commits(&self) -> Seq<Point> {
        self.commits@
    }

    /// The indices of the coefficients, constant term first.
    pub open spec fn indices(&self) -> Seq<nat> {
        point_indices(self.commits())
    }

    /// The public polynomial with the given base and coefficients.
    pub fn new(base: Point, commits: Vec<Point>) -> (r: PubPoly)
        ensures
            r.base() == base,
            r.commits() == commits@,
    {
        PubPoly { base, commits }
    }

    /// The base point and the coefficients.
    pub fn info(&self) -> (r: (Point, &Vec<Point>))
        ensures
            r.0 == self.base(),
            r.1@ == self.commits(),
    {
        (self.base, &self.commits)
    }

    /// The coefficient-wise sum of two public polynomials with as many
    /// coefficients, over the base of the first; nothing if the numbers of
    /// coefficients differ.
    pub fn add(&self, other: &PubPoly) -> (r: Option<PubPoly>)
        ensures
            r is Some <==> self.commits().len() == other.commits().len(),
            r matches Some(sum) ==> {
                &&& sum.base() == self.base()
                &&& sum.indices().len() == self.indices().len()
                &&& forall|j: int|
                    0 <= j < self.indices().len() ==> #[trigger] sum.indices()[j] == (
                    self.indices()[j] + other.indices()[j]) % scalar_order()
            },
    {
        if self.commits.len() != other.commits.len() {
            return None;
        }
        let mut commits: Vec<Point> = Vec::new();
        let mut j: usize = 0;
        while j < self.commits.len()
            invariant
                j <= self.commits.len(),
                self.commits.len() == other.commits.len(),
                commits@.len() == j,
                forall|k: int|
                    0 <= k < j ==> (#[trigger] commits@[k]).index() == (self.commits@[k].index()
                        + other.commits@[k].index()) % scalar_order(),
            decreases self.commits.len() - j,
        {
            commits.push(self.commits[j].add_point(&other.commits[j]));
            j += 1;
        }
        Some(PubPoly { base: self.base, commits })
    }

    /// The share of index `i`: the value of the polynomial at `i + 1`, a
    /// point whose index is the value at `i + 1` of the polynomial of the
    /// coefficients' indices.
    pub fn eval(&self, i: u32) -> (r: PubShare)
        ensures
            r.i == i,
            r.v.wf(),
            r.v.index() == poly_eval(self.indices(), share_x(i)),
    {
        let x = Scalar::from_u64(i as u64 + 1);
        let zero = Scalar::zero();
        let mut v = Point::mul_base(&zero);
        let mut j: usize = self.commits.len();
        let ghost c = self.indices();
        proof {
            lemma_order_is_large();
            assert(c.skip(j as int) =~= Seq::<nat>::empty());
            lemma_small_mod(0, scalar_order());
        }
        while j > 0
            invariant
                j <= self.commits.len(),
                c == self.indices(),
                c.len() == self.commits.len(),
                x@ == share_x(i),
                v.wf(),
                v.index() == poly_value(c.skip(j as int), share_x(i)) % scalar_order(),
            decreases j,
        {
            j -= 1;
            let scaled = v.scalar_mul(&x);
            let next = scaled.add_point(&self.commits[j]);
            proof {
                assert(x@ * v.index() == v.index() * x@) by (nonlinear_arith);
                lemma_horner_step(c, j as int, share_x(i), v.index(), scaled.index(), next.index());
            }
            v = next;
        }
        assert(c.skip(0) =~= c);
        PubShare { i, v }
    }
}

/// The inverse of `a` modulo the group order: the number below the order
/// whose product with `a` is 1 modulo the order, where there is one.
pub open spec fn inverse_mod(a: nat) -> nat {
    choose|r: nat| is_inverse(r, a)
}

/// Whether `r` is below the order and `r · a` is 1 modulo the order.
pub open spec fn is_inverse(r: nat, a: nat) -> bool {
    r < scalar_order() && (r * a) % scalar_order() == 1
}

/// A number has at most one inverse below the order.
pub proof fn lemma_inverse_unique(a: nat, r1: nat, r2: nat)
    requires
        r1 < scalar_order(),
        r2 < scalar_order(),
        (r1 * a) % scalar_order() == 1,
        (r2 * a) % scalar_order() == 1,
    ensures
        r1 == r2,
{
    let m = scalar_order() as int;
    lemma_order_is_large();
    lemma_mul_mod_noop_general(r1 as int, (r2 * a) as int, m);
    lemma_mul_mod_noop_general((r1 * a) as int, r2 as int, m);
    assert(r1 * (r2 * a) == (r1 * a) * r2) by (nonlinear_arith);
    assert(r1 * 1 == r1 && 1 * r2 == r2) by (nonlinear_arith);
    lemma_small_mod(r1, scalar_order());
    lemma_small_mod(r2, scalar_order());
}

/// The points at which the shares of a list are taken.
pub open spec fn share_xs(shares: Seq<PriShare>) -> Seq<nat> {
    Seq::new(shares.len(), |k: int| share_x(shares[k].i))
}

/// The values of the shares of a list.
pub open spec fn share_ys(shares: Seq<PriShare>) -> Seq<nat> {
    Seq::new(shares.len(), |k: int| shares[k].v@)
}

/// The product modulo the order of the `x[j]` with `j < upto` and `j != i`.
pub open spec fn lagrange_num(xs: Seq<nat>, i: int, upto: int) -> nat
    decreases upto,
{
    if upto <= 0 {
        1
    } else if upto - 1 == i {
        lagrange_num(xs, i, upto - 1)
    } else {
        (lagrange_num(xs, i, upto - 1) * xs[upto - 1]) % scalar_order()
    }
}

/// The product modulo the order of the `x[j] - x[i]` with `j < upto` and
/// `j != i`.
pub open spec fn lagrange_den(xs: Seq<nat>, i: int, upto: int) -> nat
    decreases upto,
{
    if upto <= 0 {
        1
    } else if upto - 1 == i {
        lagrange_den(xs, i, upto - 1)
    } else {
        (lagrange_den(xs, i, upto - 1) * (((xs[upto - 1] - xs[i]) % (scalar_order() as int)) as nat))
            % scalar_order()
    }
}

/// The contribution of share `i` to the value at zero:
/// `y[i] · Π x[j] / Π (x[j] - x[i])` over the `j != i`.
pub open spec fn lagrange_term(xs: Seq<nat>, ys: Seq<nat>, i: int) -> nat {
    let scaled = (ys[i] * lagrange_num(xs, i, xs.len() as int)) % scalar_order();
    (scaled * inverse_mod(lagrange_den(xs, i, xs.len() as int))) % scalar_order()
}

/// The sum modulo the order of the contributions of the shares below
/// `upto`.
pub open spec fn lagrange_sum(xs: Seq<nat>, ys: Seq<nat>, upto: int) -> nat
    decreases upto,
{
    if upto <= 0 {
        0
    } else {
        (lagrange_sum(xs, ys, upto - 1) + lagrange_term(xs, ys, upto - 1)) % scalar_order()
    }
}

/// The value at zero of the polynomial of lowest degree through the points
/// `(xs[i], ys[i])`, by Lagrange's formula.
pub open spec fn interpolate_at_zero(xs: Seq<nat>, ys: Seq<nat>) -> nat {
    lagrange_sum(xs, ys, xs.len() as int)
}

/// Whether every denominator of Lagrange's formula has an inverse modulo
/// the order.
pub open spec fn interpolable(xs: Seq<nat>) -> bool {
    forall|i: int|
        0 <= i < xs.len() ==> is_inverse(
            inverse_mod(#[trigger] lagrange_den(xs, i, xs.len() as int)),
            lagrange_den(xs, i, xs.len() as int),
        )
}

/// Whether some denominator of Lagrange's formula vanishes.
pub open spec fn degenerate(xs: Seq<nat>) -> bool {
    exists|i: int| 0 <= i < xs.len() && #[trigger] lagrange_den(xs, i, xs.len() as int) == 0
}

/// Once a factor vanishes, the denominator vanishes.
proof fn lemma_denominator_stays_zero(xs: Seq<nat>, i: int, from: int, upto: int)
    requires
        0 <= from <= upto,
        lagrange_den(xs, i, from) == 0,
    ensures
        lagrange_den(xs, i, upto) == 0,
    decreases upto - from,
{
    if from < upto {
        lemma_denominator_stays_zero(xs, i, from, upto - 1);
        if upto - 1 != i {
            let d = ((xs[upto - 1] - xs[i]) % (scalar_order() as int)) as nat;
            assert(0 * d == 0) by (nonlinear_arith);
            lemma_order_is_large();
            lemma_small_mod(0, scalar_order());
        }
    }
}

/// Shares of one index admit no interpolation: where two points are
/// equal, a denominator vanishes.
pub proof fn lemma_repeated_point_is_degenerate(xs: Seq<nat>, i: int, j: int)
    requires
        0 <= i < xs.len(),
        0 <= j < xs.len(),
        i != j,
        xs[i] == xs[j],
    ensures
        degenerate(xs),
{
    lemma_order_is_large();
    let prev = lagrange_den(xs, i, j);
    assert(prev * 0 == 0) by (nonlinear_arith);
    lemma_small_mod(0, scalar_order());
    assert(lagrange_den(xs, i, j + 1) == 0);
    lemma_denominator_stays_zero(xs, i, j + 1, xs.len() as int);
}

/// The numerator and the denominator of the Lagrange coefficient of share
/// `i` among the first `t` shares.
fn lagrange_parts(xs: &Vec<Scalar>, i: usize) -> (r: (Scalar, Scalar))
    requires
        i < xs.len(),
    ensures
        r.0@ == lagrange_num(scalar_values(xs@), i as int, xs.len() as int),
        r.1@ == lagrange_den(scalar_values(xs@), i as int, xs.len() as int),
{
    let mut num = Scalar::one();
    let mut den = Scalar::one();
    let mut j: usize = 0;
    let ghost x = scalar_values(xs@);
    while j < xs.len()
        invariant
            j <= xs.len(),
            i < xs.len(),
            x == scalar_values(xs@),
            num@ == lagrange_num(x, i as int, j as int),
            den@ == lagrange_den(x, i as int, j as int),
        decreases xs.len() - j,
    {
        if j != i {
            num = num.mul(&xs[j]);
            let diff = xs[j].sub(&xs[i]);
            den = den.mul(&diff);
        }
        j += 1;
    }
    (num, den)
}

/// Recovers the value at zero of the polynomial of degree below `t` through
/// the first `t` shares, by Lagrange interpolation.
///
/// Fails if there are fewer than `t` shares, or if the first `t` shares
/// admit no interpolation, as when two of them have one index.
pub fn recover_secret(shares: &[PriShare], t: u32) -> (r: Result<Scalar, VssError>)
    ensures
        match r {
            Ok(s) => {
                &&& t <= shares@.len()
                &&& !degenerate(share_xs(shares@.take(t as int)))
                &&& interpolable(share_xs(shares@.take(t as int)))
                &&& s@ == interpolate_at_zero(
                    share_xs(shares@.take(t as int)),
                    share_ys(shares@.take(t as int)),
                )
            },
            Err(VssError::NotEnoughShares) => shares@.len() < t,
            Err(VssError::DegenerateShares) => t <= shares@.len() && degenerate(
                share_xs(shares@.take(t as int)),
            ),
            Err(_) => false,
        },
{
    if shares.len() < t as usize {
        return Err(VssError::NotEnoughShares);
    }
    let ghost used = shares@.take(t as int);
    let ghost x = share_xs(used);
    let ghost y = share_ys(used);
    let mut xs: Vec<Scalar> = Vec::new();
    let mut k: usize = 0;
    while k < t as usize
        invariant
            k <= t <= shares.len(),
            used == shares@.take(t as int),
            xs@.len() == k,
            forall|j: int| 0 <= j < k ==> (#[trigger] xs@[j])@ == share_x(used[j].i),
        decreases t - k,
    {
        xs.push(Scalar::from_u64(shares[k].i as u64 + 1));
        k += 1;
    }
    assert(scalar_values(xs@) =~= x);
    let mut acc = Scalar::zero();
    let mut i: usize = 0;
    while i < t as usize
        invariant
            i <= t <= shares.len(),
            used == shares@.take(t as int),
            x == share_xs(used),
            y == share_ys(used),
            xs@.len() == t,
            scalar_values(xs@) == x,
            acc@ == lagrange_sum(x, y, i as int),
            forall|k: int| 0 <= k < i ==> #[trigger] lagrange_den(x, k, x.len() as int) != 0,
            forall|k: int|
                0 <= k < i ==> is_inverse(
                    inverse_mod(#[trigger] lagrange_den(x, k, x.len() as int)),
                    lagrange_den(x, k, x.len() as int),
                ),
        decreases t - i,
    {
        let (num, den) = lagrange_parts(&xs, i);
        if den.is_zero() {
            return Err(VssError::DegenerateShares);
        }
        let inv = den.invert();
        let scaled = shares[i].v.mul(&num);
        let term = scaled.mul(&inv);
        proof {
            use_type_invariant(&inv);
            inv.lemma_wf();
            let d = lagrange_den(x, i as int, x.len() as int);
            let w = inverse_mod(d);
            assert(is_inverse(inv@, d));
            assert(is_inverse(w, d));
            lemma_inverse_unique(d, inv@, w);
            assert(used[i as int] == shares@[i as int]);
            assert(term@ == lagrange_term(x, y, i as int));
        }
        acc = acc.add(&term);
        i += 1;
    }
    Ok(acc)
}

} // verus!
