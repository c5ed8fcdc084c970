//! Exact rational scalars.
//!
//! The rendering core works over real numbers; here a real is represented
//! exactly as a reduced fraction of two `i64`s. All arithmetic goes through
//! `i128` intermediates and is renormalized by a gcd, so a result is exact
//! whenever its reduced form fits back into `i64` — that fit is the only
//! precondition the operations carry.

use vstd::prelude::*;

verus! {

/// Mathematical value of a scalar: a fraction of unbounded integers.
/// The denominator is kept positive by every operation that normalizes.
pub ghost struct Ratv {
    pub n: int,
    pub d: int,
}

/// A well-formed mathematical fraction has a positive denominator.
pub open spec fn ratv_wf(a: Ratv) -> bool {
    a.d > 0
}

/// Two fractions denote the same rational number (cross multiplication).
pub open spec fn ratv_eq(a: Ratv, b: Ratv) -> bool {
    a.n * b.d == b.n * a.d
}

/// `a <= b` as rational numbers (valid when both denominators are positive).
pub open spec fn ratv_le(a: Ratv, b: Ratv) -> bool {
    a.n * b.d <= b.n * a.d
}

/// `a < b` as rational numbers (valid when both denominators are positive).
pub open spec fn ratv_lt(a: Ratv, b: Ratv) -> bool {
    a.n * b.d < b.n * a.d
}

pub open spec fn zero_v() -> Ratv {
    Ratv { n: 0, d: 1 }
}

pub open spec fn one_v() -> Ratv {
    Ratv { n: 1, d: 1 }
}

pub open spec fn add_v(a: Ratv, b: Ratv) -> Ratv {
    Ratv { n: a.n * b.d + b.n * a.d, d: a.d * b.d }
}

pub open spec fn sub_v(a: Ratv, b: Ratv) -> Ratv {
    Ratv { n: a.n * b.d - b.n * a.d, d: a.d * b.d }
}

pub open spec fn mul_v(a: Ratv, b: Ratv) -> Ratv {
    Ratv { n: a.n * b.n, d: a.d * b.d }
}

/// Division; meaningful only when `b` is nonzero.
pub open spec fn div_v(a: Ratv, b: Ratv) -> Ratv {
    Ratv { n: a.n * b.d, d: a.d * b.n }
}

pub open spec fn neg_v(a: Ratv) -> Ratv {
    Ratv { n: -a.n, d: a.d }
}

pub open spec fn iabs(x: int) -> int {
    if x >= 0 {
        x
    } else {
        -x
    }
}

pub open spec fn abs_v(a: Ratv) -> Ratv {
    Ratv { n: iabs(a.n), d: a.d }
}

/// Greatest common divisor by Euclid's rule.
pub open spec fn gcd_nat(a: nat, b: nat) -> nat
    decreases b,
{
    if b == 0 {
        a
    } else {
        gcd_nat(b, a % b)
    }
}

pub open spec fn divides(g: nat, x: nat) -> bool {
    exists|k: nat| x == #[trigger] (g * k)
}

/// The normal form of a fraction: positive denominator, reduced by the gcd
/// of numerator and denominator. Meaningful only when `a.d != 0`.
pub open spec fn norm(a: Ratv) -> Ratv {
    let sn: int = if a.d < 0 {
        -a.n
    } else {
        a.n
    };
    let sd: int = iabs(a.d);
    let g = gcd_nat(iabs(sn) as nat, sd as nat);
    let qn: int = (iabs(sn) as nat / g) as int;
    let qd: int = (sd as nat / g) as int;
    Ratv { n: if sn >= 0 { qn } else { -qn }, d: qd }
}

/// The normal form fits into the machine representation: numerator within
/// `i64` symmetric range, denominator positive and within `i64`.
pub open spec fn rat_fits(a: Ratv) -> bool {
    &&& -0x7fff_ffff_ffff_ffff <= a.n <= 0x7fff_ffff_ffff_ffff
    &&& 0 < a.d <= 0x7fff_ffff_ffff_ffff
}

/// The sum of `a` and `b` can be renormalized into machine words.
pub open spec fn add_ok(a: Ratv, b: Ratv) -> bool {
    rat_fits(norm(add_v(a, b)))
}

/// The difference of `a` and `b` can be renormalized into machine words.
pub open spec fn sub_ok(a: Ratv, b: Ratv) -> bool {
    rat_fits(norm(sub_v(a, b)))
}

/// The product of `a` and `b` can be renormalized into machine words.
pub open spec fn mul_ok(a: Ratv, b: Ratv) -> bool {
    rat_fits(norm(mul_v(a, b)))
}

/// The quotient of `a` by `b` can be renormalized into machine words.
pub open spec fn div_ok(a: Ratv, b: Ratv) -> bool {
    b.n != 0 && rat_fits(norm(div_v(a, b)))
}

proof fn lemma_gcd_pos(a: nat, b: nat)
    requires
        a > 0 || b > 0,
    ensures
        gcd_nat(a, b) >= 1,
    decreases b,
{
    if b == 0 {
    } else {
        lemma_gcd_pos(b, a % b);
    }
}

proof fn lemma_gcd_divides(a: nat, b: nat)
    ensures
        divides(gcd_nat(a, b), a),
        divides(gcd_nat(a, b), b),
    decreases b,
{
    let g = gcd_nat(a, b);
    if b == 0 {
        assert(a == g * 1);
        assert(b == g * 0);
    } else {
        lemma_gcd_divides(b, a % b);
        let k1 = choose|k: nat| b == #[trigger] (g * k);
        let k2 = choose|k: nat| (a % b) == #[trigger] (g * k);
        vstd::arithmetic::div_mod::lemma_fundamental_div_mod(a as int, b as int);
        let q = a as int / b as int;
        assert(q >= 0) by {
            vstd::arithmetic::div_mod::lemma_div_pos_is_pos(a as int, b as int);
        }
        assert(a as int == (b as int) * q + (a % b) as int);
        assert(a as int == g * (q * k1 + k2)) by (nonlinear_arith)
            requires
                a as int == (b as int) * q + (a % b) as int,
                b as int == g * k1,
                (a % b) as int == g * k2,
        ;
        let kk = (q * k1 + k2) as nat;
        assert(q * k1 + k2 >= 0) by (nonlinear_arith)
            requires
                q >= 0,
                k1 >= 0,
                k2 >= 0,
        ;
        assert(a == g * kk);
    }
}

/// Exact division facts for a divisor of `x`.
proof fn lemma_div_exact(g: nat, x: nat)
    requires
        g >= 1,
        divides(g, x),
    ensures
        (x / g) * g == x,
        x / g <= x,
        x > 0 ==> x / g >= 1,
{
    let k = choose|k: nat| x == #[trigger] (g * k);
    assert(x as int / g as int == k) by {
        vstd::arithmetic::div_mod::lemma_div_multiples_vanish(k as int, g as int);
    }
    assert(k * g == x) by (nonlinear_arith)
        requires
            x == g * k,
    ;
    assert(k <= g * k) by (nonlinear_arith)
        requires
            g >= 1,
            k >= 0,
    ;
    if x > 0 {
        assert(k >= 1) by (nonlinear_arith)
            requires
                g * k > 0,
                g >= 1,
                k >= 0,
        ;
    }
}

/// Normalization keeps the rational value, yields a well-formed fraction,
/// and never grows numerator or denominator in magnitude.
pub proof fn lemma_norm(a: Ratv)
    requires
        a.d != 0,
    ensures
        ratv_wf(norm(a)),
        ratv_eq(norm(a), a),
        iabs(norm(a).n) <= iabs(a.n),
        norm(a).d <= iabs(a.d),
{
    let sn: int = if a.d < 0 {
        -a.n
    } else {
        a.n
    };
    let sd: int = iabs(a.d);
    let na = iabs(sn) as nat;
    let nd = sd as nat;
    let g = gcd_nat(na, nd);
    lemma_gcd_pos(na, nd);
    lemma_gcd_divides(na, nd);
    lemma_div_exact(g, na);
    lemma_div_exact(g, nd);
    let qn = (na / g) as int;
    let qd = (nd / g) as int;
    let r = norm(a);
    assert(r.d == qd);
    assert(qd >= 1);
    // value preservation: r.n * a.d == a.n * r.d
    assert(qn * g == na && qd * g == nd);
    if a.d < 0 {
        // sn == -a.n, sd == -a.d
        if sn >= 0 {
            // a.n <= 0, r.n == qn, na == sn
            assert(qn * a.d == a.n * qd) by (nonlinear_arith)
                requires
                    qn * g == -a.n,
                    qd * g == -a.d,
                    g >= 1,
            ;
        } else {
            assert((-qn) * a.d == a.n * qd) by (nonlinear_arith)
                requires
                    qn * g == -a.n || qn * g == a.n,
                    sn == -a.n,
                    sn < 0,
                    qn * g == iabs(sn),
                    qd * g == -a.d,
                    g >= 1,
            ;
        }
    } else {
        if sn >= 0 {
            assert(qn * a.d == a.n * qd) by (nonlinear_arith)
                requires
                    qn * g == a.n,
                    qd * g == a.d,
                    g >= 1,
            ;
        } else {
            assert((-qn) * a.d == a.n * qd) by (nonlinear_arith)
                requires
                    qn * g == -a.n,
                    qd * g == a.d,
                    g >= 1,
            ;
        }
    }
}

/// Rational equality is transitive (through a fraction with nonzero
/// denominator).
pub proof fn lemma_ratv_eq_trans(a: Ratv, b: Ratv, c: Ratv)
    requires
        b.d != 0,
        ratv_eq(a, b),
        ratv_eq(b, c),
    ensures
        ratv_eq(a, c),
{
    assert(a.n * c.d == c.n * a.d) by (nonlinear_arith)
        requires
            a.n * b.d == b.n * a.d,
            b.n * c.d == c.n * b.d,
            b.d != 0,
    ;
}

/// Addition respects rational equality.
pub proof fn lemma_add_congr(a: Ratv, a2: Ratv, b: Ratv, b2: Ratv)
    requires
        ratv_eq(a, a2),
        ratv_eq(b, b2),
    ensures
        ratv_eq(add_v(a, b), add_v(a2, b2)),
{
    assert((a.n * b.d) * (a2.d * b2.d) == (a.n * a2.d) * (b.d * b2.d)) by (nonlinear_arith);
    assert((a2.n * a.d) * (b.d * b2.d) == (a2.n * b2.d) * (a.d * b.d)) by (nonlinear_arith);
    assert((b.n * a.d) * (a2.d * b2.d) == (b.n * b2.d) * (a.d * a2.d)) by (nonlinear_arith);
    assert((b2.n * b.d) * (a.d * a2.d) == (b2.n * a2.d) * (a.d * b.d)) by (nonlinear_arith);
    assert((a.n * b.d + b.n * a.d) * (a2.d * b2.d) == (a.n * b.d) * (a2.d * b2.d) + (b.n * a.d) * (
    a2.d * b2.d)) by (nonlinear_arith);
    assert((a2.n * b2.d + b2.n * a2.d) * (a.d * b.d) == (a2.n * b2.d) * (a.d * b.d) + (b2.n * a2.d)
        * (a.d * b.d)) by (nonlinear_arith);
}

/// Subtraction respects rational equality.
pub proof fn lemma_sub_congr(a: Ratv, a2: Ratv, b: Ratv, b2: Ratv)
    requires
        ratv_eq(a, a2),
        ratv_eq(b, b2),
    ensures
        ratv_eq(sub_v(a, b), sub_v(a2, b2)),
{
    lemma_neg_congr(b, b2);
    lemma_add_congr(a, a2, neg_v(b), neg_v(b2));
    assert((-b.n) * a.d == -(b.n * a.d)) by (nonlinear_arith);
    assert((-b2.n) * a2.d == -(b2.n * a2.d)) by (nonlinear_arith);
    assert(add_v(a, neg_v(b)) == sub_v(a, b));
    assert(add_v(a2, neg_v(b2)) == sub_v(a2, b2));
}


/// Multiplication respects rational equality.
pub proof fn lemma_mul_congr(a: Ratv, a2: Ratv, b: Ratv, b2: Ratv)
    requires
        ratv_eq(a, a2),
        ratv_eq(b, b2),
    ensures
        ratv_eq(mul_v(a, b), mul_v(a2, b2)),
{
    assert((a.n * b.n) * (a2.d * b2.d) == (a2.n * b2.n) * (a.d * b.d)) by (nonlinear_arith)
        requires
            a.n * a2.d == a2.n * a.d,
            b.n * b2.d == b2.n * b.d,
    ;
}

/// Addition of fractions is associative, exactly.
pub proof fn lemma_add_assoc(a: Ratv, b: Ratv, c: Ratv)
    ensures
        add_v(add_v(a, b), c) == add_v(a, add_v(b, c)),
{
    assert((a.n * b.d + b.n * a.d) * c.d == (a.n * b.d) * c.d + (b.n * a.d) * c.d)
        by (nonlinear_arith);
    assert((b.n * c.d + c.n * b.d) * a.d == (b.n * c.d) * a.d + (c.n * b.d) * a.d)
        by (nonlinear_arith);
    assert((a.n * b.d) * c.d == a.n * (b.d * c.d)) by (nonlinear_arith);
    assert((b.n * a.d) * c.d == (b.n * c.d) * a.d) by (nonlinear_arith);
    assert(c.n * (a.d * b.d) == (c.n * b.d) * a.d) by (nonlinear_arith);
    assert((a.d * b.d) * c.d == a.d * (b.d * c.d)) by (nonlinear_arith);
}

/// Addition of fractions is commutative, exactly.
pub proof fn lemma_add_comm(a: Ratv, b: Ratv)
    ensures
        add_v(a, b) == add_v(b, a),
{
    assert(a.d * b.d == b.d * a.d) by (nonlinear_arith);
}

/// Multiplication of fractions is associative, exactly.
pub proof fn lemma_mul_assoc(a: Ratv, b: Ratv, c: Ratv)
    ensures
        mul_v(mul_v(a, b), c) == mul_v(a, mul_v(b, c)),
{
    assert((a.n * b.n) * c.n == a.n * (b.n * c.n)) by (nonlinear_arith);
    assert((a.d * b.d) * c.d == a.d * (b.d * c.d)) by (nonlinear_arith);
}

/// Multiplication of fractions is commutative, exactly.
pub proof fn lemma_mul_comm(a: Ratv, b: Ratv)
    ensures
        mul_v(a, b) == mul_v(b, a),
{
    assert(a.n * b.n == b.n * a.n) by (nonlinear_arith);
    assert(a.d * b.d == b.d * a.d) by (nonlinear_arith);
}

/// Multiplication distributes over addition, up to rational equality.
pub proof fn lemma_mul_add_dist(c: Ratv, a: Ratv, b: Ratv)
    ensures
        ratv_eq(mul_v(c, add_v(a, b)), add_v(mul_v(c, a), mul_v(c, b))),
{
    lemma_mul_comm(c, add_v(a, b));
    lemma_mul_comm(a, c);
    lemma_mul_comm(b, c);
    lemma_add_mul_dist(a, b, c);
}

/// Multiplication distributes over addition from the right as well.
pub proof fn lemma_add_mul_dist(a: Ratv, b: Ratv, c: Ratv)
    ensures
        ratv_eq(mul_v(add_v(a, b), c), add_v(mul_v(a, c), mul_v(b, c))),
{
    assert((a.n * b.d + b.n * a.d) * c.n == (a.n * c.n) * b.d + (b.n * c.n) * a.d)
        by (nonlinear_arith);
    assert(((a.n * c.n) * b.d + (b.n * c.n) * a.d) * ((a.d * c.d) * (b.d * c.d)) == ((a.n * c.n)
        * b.d) * ((a.d * c.d) * (b.d * c.d)) + ((b.n * c.n) * a.d) * ((a.d * c.d) * (b.d
        * c.d))) by (nonlinear_arith);
    assert(((a.n * c.n) * b.d) * ((a.d * c.d) * (b.d * c.d)) == ((a.n * c.n) * (b.d * c.d)) * ((a.d
        * b.d) * c.d)) by (nonlinear_arith);
    assert(((b.n * c.n) * a.d) * ((a.d * c.d) * (b.d * c.d)) == ((b.n * c.n) * (a.d * c.d)) * ((a.d
        * b.d) * c.d)) by (nonlinear_arith);
    assert(((a.n * c.n) * (b.d * c.d) + (b.n * c.n) * (a.d * c.d)) * ((a.d * b.d) * c.d) == ((a.n
        * c.n) * (b.d * c.d)) * ((a.d * b.d) * c.d) + ((b.n * c.n) * (a.d * c.d)) * ((a.d * b.d)
        * c.d)) by (nonlinear_arith);
}

/// The middle summands of two nested sums can be exchanged.
pub proof fn lemma_add_shuffle(p1: Ratv, q1: Ratv, p2: Ratv, q2: Ratv)
    requires
        ratv_wf(p1),
        ratv_wf(q1),
        ratv_wf(p2),
        ratv_wf(q2),
    ensures
        ratv_eq(add_v(add_v(p1, q1), add_v(p2, q2)), add_v(add_v(p1, p2), add_v(q1, q2))),
{
    lemma_wf_ops(p1, q1);
    lemma_wf_ops(q1, p2);
    lemma_wf_ops(p2, q2);
    lemma_wf_ops(p1, p2);
    lemma_wf_ops(q1, q2);
    lemma_wf_ops(add_v(q1, p2), q2);
    lemma_wf_ops(q1, add_v(p2, q2));
    lemma_wf_ops(p1, add_v(q1, add_v(p2, q2)));
    lemma_wf_ops(add_v(p2, q1), q2);
    lemma_wf_ops(p2, add_v(q1, q2));
    // regroup to a right comb, swap the middle, regroup back
    lemma_add_assoc(add_v(p1, q1), p2, q2);
    lemma_add_assoc(p1, q1, add_v(p2, q2));
    lemma_add_assoc(q1, p2, q2);
    lemma_add_comm(q1, p2);
    lemma_add_assoc(p2, q1, q2);
    lemma_add_assoc(p1, p2, add_v(q1, q2));
    assert(add_v(add_v(p1, q1), add_v(p2, q2)) == add_v(p1, add_v(q1, add_v(p2, q2))));
    assert(add_v(q1, add_v(p2, q2)) == add_v(add_v(q1, p2), q2));
    assert(add_v(add_v(q1, p2), q2) == add_v(add_v(p2, q1), q2));
    assert(add_v(add_v(p2, q1), q2) == add_v(p2, add_v(q1, q2)));
    assert(add_v(p1, add_v(p2, add_v(q1, q2))) == add_v(add_v(p1, p2), add_v(q1, q2)));
}

/// Negation respects rational equality.
pub proof fn lemma_neg_congr(a: Ratv, a2: Ratv)
    requires
        ratv_eq(a, a2),
    ensures
        ratv_eq(neg_v(a), neg_v(a2)),
{
    assert((-a.n) * a2.d == (-a2.n) * a.d) by (nonlinear_arith)
        requires
            a.n * a2.d == a2.n * a.d,
    ;
}

/// Order respects rational equality, given positive denominators.
pub proof fn lemma_le_congr(a: Ratv, a2: Ratv, b: Ratv, b2: Ratv)
    requires
        ratv_wf(a),
        ratv_wf(a2),
        ratv_wf(b),
        ratv_wf(b2),
        ratv_eq(a, a2),
        ratv_eq(b, b2),
    ensures
        ratv_le(a, b) == ratv_le(a2, b2),
{
    assert((a.n * b.d <= b.n * a.d) == (a2.n * b2.d <= b2.n * a2.d)) by (nonlinear_arith)
        requires
            a.n * a2.d == a2.n * a.d,
            b.n * b2.d == b2.n * b.d,
            a.d > 0,
            a2.d > 0,
            b.d > 0,
            b2.d > 0,
    ;
}


/// Absolute value respects rational equality, given positive denominators.
pub proof fn lemma_abs_congr(a: Ratv, a2: Ratv)
    requires
        ratv_wf(a),
        ratv_wf(a2),
        ratv_eq(a, a2),
    ensures
        ratv_eq(abs_v(a), abs_v(a2)),
{
    assert(iabs(a.n) * a2.d == iabs(a2.n) * a.d) by (nonlinear_arith)
        requires
            a.n * a2.d == a2.n * a.d,
            a.d > 0,
            a2.d > 0,
            iabs(a.n) == if a.n >= 0 { a.n } else { -a.n },
            iabs(a2.n) == if a2.n >= 0 { a2.n } else { -a2.n },
    ;
}

/// The basic operations keep denominators positive.
pub proof fn lemma_wf_ops(a: Ratv, b: Ratv)
    requires
        ratv_wf(a),
        ratv_wf(b),
    ensures
        ratv_wf(add_v(a, b)),
        ratv_wf(sub_v(a, b)),
        ratv_wf(mul_v(a, b)),
        b.n != 0 ==> div_v(a, b).d != 0,
{
    assert(a.d * b.d > 0) by (nonlinear_arith)
        requires
            a.d > 0,
            b.d > 0,
    ;
    if b.n != 0 {
        assert(a.d * b.n != 0) by (nonlinear_arith)
            requires
                a.d > 0,
                b.n != 0,
        ;
    }
}

/// Collapses a renormalized sum to the plain sum, up to rational equality.
pub proof fn lemma_norm_add(a: Ratv, b: Ratv)
    requires
        ratv_wf(a),
        ratv_wf(b),
    ensures
        ratv_wf(norm(add_v(a, b))),
        ratv_eq(norm(add_v(a, b)), add_v(a, b)),
{
    lemma_wf_ops(a, b);
    lemma_norm(add_v(a, b));
}

/// Collapses a renormalized difference to the plain difference.
pub proof fn lemma_norm_sub(a: Ratv, b: Ratv)
    requires
        ratv_wf(a),
        ratv_wf(b),
    ensures
        ratv_wf(norm(sub_v(a, b))),
        ratv_eq(norm(sub_v(a, b)), sub_v(a, b)),
{
    lemma_wf_ops(a, b);
    lemma_norm(sub_v(a, b));
}

/// Collapses a renormalized product to the plain product.
pub proof fn lemma_norm_mul(a: Ratv, b: Ratv)
    requires
        ratv_wf(a),
        ratv_wf(b),
    ensures
        ratv_wf(norm(mul_v(a, b))),
        ratv_eq(norm(mul_v(a, b)), mul_v(a, b)),
{
    lemma_wf_ops(a, b);
    lemma_norm(mul_v(a, b));
}


/// A fraction already within machine range stays within it under
/// normalization, which also keeps its value.
pub proof fn lemma_norm_shrink(a: Ratv)
    requires
        rat_fits(a),
    ensures
        rat_fits(norm(a)),
        ratv_wf(norm(a)),
        ratv_eq(norm(a), a),
{
    lemma_norm(a);
}

/// A fraction with numerator 0 normalizes to the canonical zero.
pub proof fn lemma_norm_zero_num(d: int)
    requires
        d > 0,
    ensures
        norm(Ratv { n: 0, d }) == zero_v(),
{
    let a = Ratv { n: 0, d };
    assert(gcd_nat(0, d as nat) == gcd_nat(d as nat, 0nat)) by {
        assert(0nat % (d as nat) == 0);
    }
    assert(gcd_nat(d as nat, 0nat) == d as nat);
    assert((d as nat) / (d as nat) == 1) by {
        vstd::arithmetic::div_mod::lemma_div_by_self(d);
    }
    assert(0nat / (d as nat) == 0) by {
        vstd::arithmetic::div_mod::lemma_div_multiples_vanish(0, d);
    }
}

/// Adding a fraction whose numerator is 0 keeps the value.
pub proof fn lemma_add_zero_right(a: Ratv, z: Ratv)
    requires
        z.n == 0,
    ensures
        ratv_eq(add_v(a, z), a),
{
    assert((a.n * z.d + 0 * a.d) * a.d == a.n * (a.d * z.d)) by (nonlinear_arith);
}

proof fn lemma_mul_bounds(x: int, y: int, b1: int, b2: int)
    requires
        -b1 <= x <= b1,
        -b2 <= y <= b2,
        b1 >= 0,
        b2 >= 0,
    ensures
        -(b1 * b2) <= x * y <= b1 * b2,
{
    assert(-(b1 * b2) <= x * y <= b1 * b2) by (nonlinear_arith)
        requires
            -b1 <= x <= b1,
            -b2 <= y <= b2,
            b1 >= 0,
            b2 >= 0,
    ;
}

fn gcd_u128(a: u128, b: u128) -> (g: u128)
    ensures
        g as nat == gcd_nat(a as nat, b as nat),
{
    let mut x = a;
    let mut y = b;
    while y != 0
        invariant
            gcd_nat(x as nat, y as nat) == gcd_nat(a as nat, b as nat),
        decreases y,
    {
        let r = x % y;
        x = y;
        y = r;
    }
    x
}

/// A scalar of the rendering core: an exact rational number, stored as a
/// reduced fraction of two `i64`s with positive denominator.
#[derive(Clone, Copy, Debug)]
pub struct Rat {
    n: i64,
    d: i64,
}

impl View for Rat {
    type V = Ratv;

    closed spec fn view(&self) -> Ratv {
        Ratv { n: self.n as int, d: self.d as int }
    }
}

/// Renormalizes a wide fraction and narrows it back to machine words.
fn reduce_wide(n: i128, d: i128) -> (r: Rat)
    requires
        d != 0,
        n > i128::MIN,
        d > i128::MIN,
        rat_fits(norm(Ratv { n: n as int, d: d as int })),
    ensures
        r.wf(),
        r@ == norm(Ratv { n: n as int, d: d as int }),
{
    let ghost a = Ratv { n: n as int, d: d as int };
    let sn: i128 = if d < 0 {
        -n
    } else {
        n
    };
    let sd: i128 = if d < 0 {
        -d
    } else {
        d
    };
    let neg = sn < 0;
    let un: u128 = if neg {
        (-sn) as u128
    } else {
        sn as u128
    };
    let ud: u128 = sd as u128;
    proof {
        assert(un as int == iabs(if a.d < 0 { -a.n } else { a.n }));
        assert(ud as int == iabs(a.d));
    }
    let g = gcd_u128(un, ud);
    proof {
        lemma_gcd_pos(un as nat, ud as nat);
        lemma_gcd_divides(un as nat, ud as nat);
        lemma_div_exact(g as nat, un as nat);
        lemma_div_exact(g as nat, ud as nat);
    }
    let qn = un / g;
    let qd = ud / g;
    proof {
        assert(norm(a).d == qd as int);
        assert(norm(a).n == if neg { -(qn as int) } else { qn as int });
        assert(qn <= 0x7fff_ffff_ffff_ffffu128);
        assert(0 < qd <= 0x7fff_ffff_ffff_ffffu128);
    }
    let rn: i64 = if neg {
        -(qn as i64)
    } else {
        qn as i64
    };
    Rat { n: rn, d: qd as i64 }
}

impl Rat {
    /// A machine scalar is well formed when it is a well-formed fraction
    /// within the `i64` range.
    pub open spec fn wf(self) -> bool {
        rat_fits(self@)
    }

    /// Builds the scalar `n / d`, reduced to normal form.
    pub fn new(n: i64, d: i64) -> (r: Rat)
        requires
            d != 0,
            n > i64::MIN,
            d > i64::MIN,
        ensures
            r.wf(),
            r@ == norm(Ratv { n: n as int, d: d as int }),
    {
        proof {
            lemma_norm(Ratv { n: n as int, d: d as int });
        }
        reduce_wide(n as i128, d as i128)
    }

    /// The integer `n` as a scalar.
    pub fn from_int(n: i64) -> (r: Rat)
        requires
            n > i64::MIN,
        ensures
            r.wf(),
            r@ == (Ratv { n: n as int, d: 1 }),
    {
        Rat { n, d: 1 }
    }

    /// The scalar `1 / d` for a positive integer `d`.
    pub fn recip(d: i64) -> (r: Rat)
        requires
            d > 0,
        ensures
            r.wf(),
            r@ == (Ratv { n: 1, d: d as int }),
    {
        Rat { n: 1, d }
    }

    pub fn zero() -> (r: Rat)
        ensures
            r.wf(),
            r@ == zero_v(),
    {
        Rat { n: 0, d: 1 }
    }

    pub fn one() -> (r: Rat)
        ensures
            r.wf(),
            r@ == one_v(),
    {
        Rat { n: 1, d: 1 }
    }

    /// Numerator of the reduced fraction.
    pub fn num(&self) -> (r: i64)
        ensures
            r as int == self@.n,
    {
        self.n
    }

    /// Denominator of the reduced fraction.
    pub fn den(&self) -> (r: i64)
        ensures
            r as int == self@.d,
    {
        self.d
    }

    pub fn add(self, rhs: Rat) -> (r: Rat)
        requires
            self.wf(),
            rhs.wf(),
            rat_fits(norm(add_v(self@, rhs@))),
        ensures
            r.wf(),
            r@ == norm(add_v(self@, rhs@)),
    {
        proof {
            let m: int = 0x7fff_ffff_ffff_ffff;
            lemma_mul_bounds(self@.n, rhs@.d, m, m);
            lemma_mul_bounds(rhs@.n, self@.d, m, m);
            lemma_mul_bounds(self@.d, rhs@.d, m, m);
            assert(self@.d * rhs@.d > 0) by (nonlinear_arith)
                requires
                    self@.d > 0,
                    rhs@.d > 0,
            ;
        }
        let n: i128 = (self.n as i128) * (rhs.d as i128) + (rhs.n as i128) * (self.d as i128);
        let d: i128 = (self.d as i128) * (rhs.d as i128);
        reduce_wide(n, d)
    }

    pub fn sub(self, rhs: Rat) -> (r: Rat)
        requires
            self.wf(),
            rhs.wf(),
            rat_fits(norm(sub_v(self@, rhs@))),
        ensures
            r.wf(),
            r@ == norm(sub_v(self@, rhs@)),
    {
        proof {
            let m: int = 0x7fff_ffff_ffff_ffff;
            lemma_mul_bounds(self@.n, rhs@.d, m, m);
            lemma_mul_bounds(rhs@.n, self@.d, m, m);
            lemma_mul_bounds(self@.d, rhs@.d, m, m);
            assert(self@.d * rhs@.d > 0) by (nonlinear_arith)
                requires
                    self@.d > 0,
                    rhs@.d > 0,
            ;
        }
        let n: i128 = (self.n as i128) * (rhs.d as i128) - (rhs.n as i128) * (self.d as i128);
        let d: i128 = (self.d as i128) * (rhs.d as i128);
        reduce_wide(n, d)
    }

    pub fn mul(self, rhs: Rat) -> (r: Rat)
        requires
            self.wf(),
            rhs.wf(),
            rat_fits(norm(mul_v(self@, rhs@))),
        ensures
            r.wf(),
            r@ == norm(mul_v(self@, rhs@)),
    {
        proof {
            let m: int = 0x7fff_ffff_ffff_ffff;
            lemma_mul_bounds(self@.n, rhs@.n, m, m);
            lemma_mul_bounds(self@.d, rhs@.d, m, m);
            assert(self@.d * rhs@.d > 0) by (nonlinear_arith)
                requires
                    self@.d > 0,
                    rhs@.d > 0,
            ;
        }
        let n: i128 = (self.n as i128) * (rhs.n as i128);
        let d: i128 = (self.d as i128) * (rhs.d as i128);
        reduce_wide(n, d)
    }

    /// Division; the divisor must be a nonzero rational.
    pub fn div(self, rhs: Rat) -> (r: Rat)
        requires
            self.wf(),
            rhs.wf(),
            rhs@.n != 0,
            rat_fits(norm(div_v(self@, rhs@))),
        ensures
            r.wf(),
            r@ == norm(div_v(self@, rhs@)),
    {
        proof {
            let m: int = 0x7fff_ffff_ffff_ffff;
            lemma_mul_bounds(self@.n, rhs@.d, m, m);
            lemma_mul_bounds(self@.d, rhs@.n, m, m);
            assert(self@.d * rhs@.n != 0) by (nonlinear_arith)
                requires
                    self@.d > 0,
                    rhs@.n != 0,
            ;
        }
        let n: i128 = (self.n as i128) * (rhs.d as i128);
        let d: i128 = (self.d as i128) * (rhs.n as i128);
        reduce_wide(n, d)
    }

    pub fn neg(self) -> (r: Rat)
        requires
            self.wf(),
        ensures
            r.wf(),
            r@ == neg_v(self@),
    {
        Rat { n: -self.n, d: self.d }
    }

    pub fn abs(self) -> (r: Rat)
        requires
            self.wf(),
        ensures
            r.wf(),
            r@ == abs_v(self@),
    {
        if self.n < 0 {
            Rat { n: -self.n, d: self.d }
        } else {
            Rat { n: self.n, d: self.d }
        }
    }

    /// `self <= rhs` as rational numbers.
    pub fn le(self, rhs: Rat) -> (r: bool)
        ensures
            r == ratv_le(self@, rhs@),
    {
        proof {
            let m: int = 0x8000_0000_0000_0000;
            lemma_mul_bounds(self@.n, rhs@.d, m, m);
            lemma_mul_bounds(rhs@.n, self@.d, m, m);
        }
        (self.n as i128) * (rhs.d as i128) <= (rhs.n as i128) * (self.d as i128)
    }

    /// `self < rhs` as rational numbers.
    pub fn lt(self, rhs: Rat) -> (r: bool)
        ensures
            r == ratv_lt(self@, rhs@),
    {
        proof {
            let m: int = 0x8000_0000_0000_0000;
            lemma_mul_bounds(self@.n, rhs@.d, m, m);
            lemma_mul_bounds(rhs@.n, self@.d, m, m);
        }
        (self.n as i128) * (rhs.d as i128) < (rhs.n as i128) * (self.d as i128)
    }

    pub fn is_zero(self) -> (r: bool)
        ensures
            r == (self@.n == 0),
    {
        self.n == 0
    }
}

impl PartialEq for Rat {
    /// Equality of the rational values, by cross multiplication.
    fn eq(&self, other: &Rat) -> (r: bool) {
        proof {
            let m: int = 0x8000_0000_0000_0000;
            lemma_mul_bounds(self@.n, other@.d, m, m);
            lemma_mul_bounds(other@.n, self@.d, m, m);
        }
        (self.n as i128) * (other.d as i128) == (other.n as i128) * (self.d as i128)
    }
}

impl vstd::std_specs::cmp::PartialEqSpecImpl for Rat {
    open spec fn obeys_eq_spec() -> bool {
        true
    }

    open spec fn eq_spec(&self, other: &Rat) -> bool {
        ratv_eq(self@, other@)
    }
}

/// Exact simplifications of addition and multiplication with the
/// canonical zero and one.
pub proof fn lemma_unit_ops(a: Ratv)
    ensures
        add_v(zero_v(), a) == a,
        add_v(a, zero_v()) == a,
        mul_v(a, one_v()) == a,
        mul_v(one_v(), a) == a,
        add_v(zero_v(), zero_v()) == zero_v(),
{
}

/// Adding a zero-valued fraction on the left keeps the value.
pub proof fn lemma_add_zero_left(z: Ratv, a: Ratv)
    requires
        z.n == 0,
    ensures
        ratv_eq(add_v(z, a), a),
{
    assert((0 * a.d + a.n * z.d) * a.d == a.n * (z.d * a.d)) by (nonlinear_arith);
}

/// Adding a value and then its negation returns to the start.
pub proof fn lemma_add_neg(p: Ratv, t: Ratv)
    ensures
        ratv_eq(add_v(add_v(p, t), neg_v(t)), p),
{
    assert(((p.n * t.d + t.n * p.d) * t.d + (-t.n) * (p.d * t.d)) * p.d == p.n * ((p.d * t.d)
        * t.d)) by (nonlinear_arith);
}

/// Negation moves through a product.
pub proof fn lemma_mul_neg_left(a: Ratv, b: Ratv)
    ensures
        mul_v(neg_v(a), b) == neg_v(mul_v(a, b)),
{
    assert((-a.n) * b.n == -(a.n * b.n)) by (nonlinear_arith);
}

/// A sum with a negated second summand is the difference.
pub proof fn lemma_add_neg_is_sub(a: Ratv, b: Ratv)
    ensures
        add_v(a, neg_v(b)) == sub_v(a, b),
{
    assert((-b.n) * a.d == -(b.n * a.d)) by (nonlinear_arith);
}

/// Absolute value distributes over division by a positive rational.
pub proof fn lemma_abs_div_pos(x: Ratv, m: Ratv)
    requires
        m.d > 0,
    ensures
        abs_v(div_v(x, m)) == div_v(abs_v(x), m),
{
    if x.n >= 0 {
        assert(x.n * m.d >= 0) by (nonlinear_arith)
            requires
                x.n >= 0,
                m.d > 0,
        ;
    } else {
        assert(x.n * m.d < 0) by (nonlinear_arith)
            requires
                x.n < 0,
                m.d > 0,
        ;
        assert(-(x.n * m.d) == (-x.n) * m.d) by (nonlinear_arith);
    }
}

/// A fraction with numerator zero denotes the rational zero.
pub proof fn lemma_zero_val(m: Ratv)
    requires
        m.n == 0,
    ensures
        ratv_eq(m, zero_v()),
        ratv_eq(zero_v(), m),
{
    assert(m.n * 1 == 0 * m.d) by (nonlinear_arith)
        requires
            m.n == 0,
    ;
    assert(0 * m.d == m.n * 1) by (nonlinear_arith)
        requires
            m.n == 0,
    ;
}

/// A product with a zero-numerator fraction has numerator zero.
pub proof fn lemma_mul_zero_num(a: Ratv, z: Ratv)
    requires
        z.n == 0,
    ensures
        mul_v(a, z).n == 0,
        mul_v(z, a).n == 0,
{
    assert(a.n * 0 == 0) by (nonlinear_arith);
    assert(0 * a.n == 0) by (nonlinear_arith);
}

} // verus!
