//! Free vectors in 3-space: directions and displacements.

use vstd::prelude::*;

use crate::rat::{
    Rat, Ratv, abs_v, add_ok, add_v, div_ok, div_v, mul_ok, mul_v, neg_v, norm, rat_fits, ratv_eq,
    ratv_le, ratv_wf, sub_ok, sub_v, zero_v, lemma_norm_add, lemma_norm_sub, lemma_norm_mul,
    lemma_norm, lemma_wf_ops, lemma_ratv_eq_trans, lemma_add_congr, lemma_sub_congr,
    lemma_abs_congr, lemma_neg_congr, one_v,
};

verus! {

/// Mathematical value of a vector: three rational components.
pub ghost struct Vec3v {
    pub x: Ratv,
    pub y: Ratv,
    pub z: Ratv,
}

/// All three components are well-formed fractions.
pub open spec fn vec3v_wf(v: Vec3v) -> bool {
    ratv_wf(v.x) && ratv_wf(v.y) && ratv_wf(v.z)
}

/// Componentwise rational equality of two vector values.
pub open spec fn vec3v_eq(a: Vec3v, b: Vec3v) -> bool {
    ratv_eq(a.x, b.x) && ratv_eq(a.y, b.y) && ratv_eq(a.z, b.z)
}

/// The L1 magnitude of a vector value: the sum of the absolute components.
/// This is a deliberate simplification of the usual Euclidean length.
pub open spec fn mag_v(v: Vec3v) -> Ratv {
    norm(add_v(norm(add_v(abs_v(v.x), abs_v(v.y))), abs_v(v.z)))
}

pub open spec fn mag_ok(v: Vec3v) -> bool {
    add_ok(abs_v(v.x), abs_v(v.y)) && add_ok(norm(add_v(abs_v(v.x), abs_v(v.y))), abs_v(v.z))
}

/// The normalized vector value: each component divided by the magnitude,
/// or the zero vector when the magnitude is zero.
pub open spec fn normalize_v(v: Vec3v) -> Vec3v {
    if mag_v(v).n == 0 {
        Vec3v { x: zero_v(), y: zero_v(), z: zero_v() }
    } else {
        Vec3v {
            x: norm(div_v(v.x, mag_v(v))),
            y: norm(div_v(v.y, mag_v(v))),
            z: norm(div_v(v.z, mag_v(v))),
        }
    }
}

pub open spec fn normalize_ok(v: Vec3v) -> bool {
    mag_ok(v) && (mag_v(v).n != 0 ==> div_ok(v.x, mag_v(v)) && div_ok(v.y, mag_v(v)) && div_ok(
        v.z,
        mag_v(v),
    ))
}

/// The dot product of two vector values.
pub open spec fn dot_v3(a: Vec3v, b: Vec3v) -> Ratv {
    norm(
        add_v(
            norm(add_v(norm(mul_v(a.x, b.x)), norm(mul_v(a.y, b.y)))),
            norm(mul_v(a.z, b.z)),
        ),
    )
}

pub open spec fn dot_ok3(a: Vec3v, b: Vec3v) -> bool {
    &&& mul_ok(a.x, b.x)
    &&& mul_ok(a.y, b.y)
    &&& mul_ok(a.z, b.z)
    &&& add_ok(norm(mul_v(a.x, b.x)), norm(mul_v(a.y, b.y)))
    &&& add_ok(
        norm(add_v(norm(mul_v(a.x, b.x)), norm(mul_v(a.y, b.y)))),
        norm(mul_v(a.z, b.z)),
    )
}

/// The cross product of two vector values.
pub open spec fn cross_v(a: Vec3v, b: Vec3v) -> Vec3v {
    Vec3v {
        x: norm(sub_v(norm(mul_v(a.y, b.z)), norm(mul_v(a.z, b.y)))),
        y: norm(sub_v(norm(mul_v(a.z, b.x)), norm(mul_v(a.x, b.z)))),
        z: norm(sub_v(norm(mul_v(a.x, b.y)), norm(mul_v(a.y, b.x)))),
    }
}

pub open spec fn cross_ok(a: Vec3v, b: Vec3v) -> bool {
    &&& mul_ok(a.y, b.z)
    &&& mul_ok(a.z, b.y)
    &&& mul_ok(a.z, b.x)
    &&& mul_ok(a.x, b.z)
    &&& mul_ok(a.x, b.y)
    &&& mul_ok(a.y, b.x)
    &&& sub_ok(norm(mul_v(a.y, b.z)), norm(mul_v(a.z, b.y)))
    &&& sub_ok(norm(mul_v(a.z, b.x)), norm(mul_v(a.x, b.z)))
    &&& sub_ok(norm(mul_v(a.x, b.y)), norm(mul_v(a.y, b.x)))
}

/// Componentwise sum of two vector values.
pub open spec fn vadd_v(a: Vec3v, b: Vec3v) -> Vec3v {
    Vec3v { x: norm(add_v(a.x, b.x)), y: norm(add_v(a.y, b.y)), z: norm(add_v(a.z, b.z)) }
}

pub open spec fn vadd_ok(a: Vec3v, b: Vec3v) -> bool {
    add_ok(a.x, b.x) && add_ok(a.y, b.y) && add_ok(a.z, b.z)
}

/// Componentwise difference of two vector values.
pub open spec fn vsub_v(a: Vec3v, b: Vec3v) -> Vec3v {
    Vec3v { x: norm(sub_v(a.x, b.x)), y: norm(sub_v(a.y, b.y)), z: norm(sub_v(a.z, b.z)) }
}

pub open spec fn vsub_ok(a: Vec3v, b: Vec3v) -> bool {
    sub_ok(a.x, b.x) && sub_ok(a.y, b.y) && sub_ok(a.z, b.z)
}

/// Componentwise scaling of a vector value by a scalar value.
pub open spec fn vscale_v(a: Vec3v, k: Ratv) -> Vec3v {
    Vec3v { x: norm(mul_v(a.x, k)), y: norm(mul_v(a.y, k)), z: norm(mul_v(a.z, k)) }
}

pub open spec fn vscale_ok(a: Vec3v, k: Ratv) -> bool {
    mul_ok(a.x, k) && mul_ok(a.y, k) && mul_ok(a.z, k)
}

/// Componentwise division of a vector value by a scalar value.
pub open spec fn vdiv_v(a: Vec3v, k: Ratv) -> Vec3v {
    Vec3v { x: norm(div_v(a.x, k)), y: norm(div_v(a.y, k)), z: norm(div_v(a.z, k)) }
}

pub open spec fn vdiv_ok(a: Vec3v, k: Ratv) -> bool {
    div_ok(a.x, k) && div_ok(a.y, k) && div_ok(a.z, k)
}

/// A free direction or displacement in 3-space.
///
/// Distinct from `Point`: a vector has no position, and its homogeneous
/// lift carries a trailing 0, so translations leave it unchanged.
#[derive(Clone, Copy, Debug)]
pub struct Vec3 {
    x: Rat,
    y: Rat,
    z: Rat,
}

impl View for Vec3 {
    type V = Vec3v;

    closed spec fn view(&self) -> Vec3v {
        Vec3v { x: self.x@, y: self.y@, z: self.z@ }
    }
}

impl Vec3 {
    pub open spec fn wf(self) -> bool {
        rat_fits(self@.x) && rat_fits(self@.y) && rat_fits(self@.z)
    }

    pub fn new(x: Rat, y: Rat, z: Rat) -> (r: Vec3)
        requires
            x.wf(),
            y.wf(),
            z.wf(),
        ensures
            r.wf(),
            r@ == (Vec3v { x: x@, y: y@, z: z@ }),
    {
        Vec3 { x, y, z }
    }

    pub fn x(&self) -> (r: Rat)
        ensures
            r@ == self@.x,
            self.wf() ==> r.wf(),
    {
        self.x
    }

    pub fn y(&self) -> (r: Rat)
        ensures
            r@ == self@.y,
            self.wf() ==> r.wf(),
    {
        self.y
    }

    pub fn z(&self) -> (r: Rat)
        ensures
            r@ == self@.z,
            self.wf() ==> r.wf(),
    {
        self.z
    }

    /// The L1 magnitude: `|x| + |y| + |z|`.
    pub fn magnitude(&self) -> (r: Rat)
        requires
            self.wf(),
            mag_ok(self@),
        ensures
            r.wf(),
            r@ == mag_v(self@),
    {
        self.x.abs().add(self.y.abs()).add(self.z.abs())
    }

    /// The vector scaled to magnitude 1, or the zero vector when the
    /// magnitude is zero.
    pub fn normalize(&self) -> (r: Vec3)
        requires
            self.wf(),
            normalize_ok(self@),
        ensures
            r.wf(),
            r@ == normalize_v(self@),
    {
        let m = self.magnitude();
        if m.is_zero() {
            Vec3 { x: Rat::zero(), y: Rat::zero(), z: Rat::zero() }
        } else {
            Vec3 { x: self.x.div(m), y: self.y.div(m), z: self.z.div(m) }
        }
    }

    pub fn dot(&self, other: &Vec3) -> (r: Rat)
        requires
            self.wf(),
            other.wf(),
            dot_ok3(self@, other@),
        ensures
            r.wf(),
            r@ == dot_v3(self@, other@),
    {
        self.x.mul(other.x).add(self.y.mul(other.y)).add(self.z.mul(other.z))
    }

    pub fn cross(&self, other: &Vec3) -> (r: Vec3)
        requires
            self.wf(),
            other.wf(),
            cross_ok(self@, other@),
        ensures
            r.wf(),
            r@ == cross_v(self@, other@),
    {
        Vec3 {
            x: self.y.mul(other.z).sub(self.z.mul(other.y)),
            y: self.z.mul(other.x).sub(self.x.mul(other.z)),
            z: self.x.mul(other.y).sub(self.y.mul(other.x)),
        }
    }

    pub fn add(self, rhs: Vec3) -> (r: Vec3)
        requires
            self.wf(),
            rhs.wf(),
            vadd_ok(self@, rhs@),
        ensures
            r.wf(),
            r@ == vadd_v(self@, rhs@),
    {
        Vec3 { x: self.x.add(rhs.x), y: self.y.add(rhs.y), z: self.z.add(rhs.z) }
    }

    pub fn sub(self, rhs: Vec3) -> (r: Vec3)
        requires
            self.wf(),
            rhs.wf(),
            vsub_ok(self@, rhs@),
        ensures
            r.wf(),
            r@ == vsub_v(self@, rhs@),
    {
        Vec3 { x: self.x.sub(rhs.x), y: self.y.sub(rhs.y), z: self.z.sub(rhs.z) }
    }

    pub fn neg(self) -> (r: Vec3)
        requires
            self.wf(),
        ensures
            r.wf(),
            r@ == (Vec3v { x: neg_v(self@.x), y: neg_v(self@.y), z: neg_v(self@.z) }),
    {
        Vec3 { x: self.x.neg(), y: self.y.neg(), z: self.z.neg() }
    }

    /// The vector scaled by `k`.
    pub fn mul_scalar(self, k: Rat) -> (r: Vec3)
        requires
            self.wf(),
            k.wf(),
            vscale_ok(self@, k@),
        ensures
            r.wf(),
            r@ == vscale_v(self@, k@),
    {
        Vec3 { x: self.x.mul(k), y: self.y.mul(k), z: self.z.mul(k) }
    }

    /// The vector divided by the nonzero scalar `k`.
    pub fn div_scalar(self, k: Rat) -> (r: Vec3)
        requires
            self.wf(),
            k.wf(),
            vdiv_ok(self@, k@),
        ensures
            r.wf(),
            r@ == vdiv_v(self@, k@),
    {
        Vec3 { x: self.x.div(k), y: self.y.div(k), z: self.z.div(k) }
    }

    /// Epsilon comparison: each pair of components differs by at most
    /// `epsilon` in absolute value.
    pub fn abs_diff_eq(&self, other: &Vec3, epsilon: Rat) -> (r: bool)
        requires
            self.wf(),
            other.wf(),
            epsilon.wf(),
            vsub_ok(self@, other@),
        ensures
            r == (ratv_le(abs_v(sub_v(self@.x, other@.x)), epsilon@) && ratv_le(
                abs_v(sub_v(self@.y, other@.y)),
                epsilon@,
            ) && ratv_le(abs_v(sub_v(self@.z, other@.z)), epsilon@)),
    {
        rat_close(self.x, other.x, epsilon) && rat_close(self.y, other.y, epsilon) && rat_close(
            self.z,
            other.z,
            epsilon,
        )
    }

    /// The default absolute tolerance for vector comparisons.
    pub fn default_epsilon() -> (r: Rat)
        ensures
            r.wf(),
            r@ == (Ratv { n: 1, d: 10_000_000_000 }),
    {
        Rat::recip(10_000_000_000)
    }
}

/// `|a - b| <= epsilon`, as rational numbers.
pub fn rat_close(a: Rat, b: Rat, epsilon: Rat) -> (r: bool)
    requires
        a.wf(),
        b.wf(),
        epsilon.wf(),
        sub_ok(a@, b@),
    ensures
        r == ratv_le(abs_v(sub_v(a@, b@)), epsilon@),
{
    proof {
        lemma_wf_ops(a@, b@);
        lemma_norm_sub(a@, b@);
        lemma_abs_congr(norm(sub_v(a@, b@)), sub_v(a@, b@));
        crate::rat::lemma_le_congr(
            abs_v(norm(sub_v(a@, b@))),
            abs_v(sub_v(a@, b@)),
            epsilon@,
            epsilon@,
        );
    }
    let d = a.sub(b);
    d.abs().le(epsilon)
}

/// A cross-product component collapses to the plain difference of the two
/// products.
proof fn lemma_cross_comp(p: Ratv, q: Ratv, r: Ratv, s: Ratv)
    requires
        ratv_wf(p),
        ratv_wf(q),
        ratv_wf(r),
        ratv_wf(s),
    ensures
        ratv_wf(norm(sub_v(norm(mul_v(p, q)), norm(mul_v(r, s))))),
        ratv_eq(
            norm(sub_v(norm(mul_v(p, q)), norm(mul_v(r, s)))),
            sub_v(mul_v(p, q), mul_v(r, s)),
        ),
{
    lemma_norm_mul(p, q);
    lemma_norm_mul(r, s);
    lemma_sub_congr(norm(mul_v(p, q)), mul_v(p, q), norm(mul_v(r, s)), mul_v(r, s));
    lemma_wf_ops(norm(mul_v(p, q)), norm(mul_v(r, s)));
    lemma_norm(sub_v(norm(mul_v(p, q)), norm(mul_v(r, s))));
    lemma_wf_ops(p, q);
    lemma_wf_ops(r, s);
    lemma_wf_ops(mul_v(p, q), mul_v(r, s));
    lemma_ratv_eq_trans(
        norm(sub_v(norm(mul_v(p, q)), norm(mul_v(r, s)))),
        sub_v(norm(mul_v(p, q)), norm(mul_v(r, s))),
        sub_v(mul_v(p, q), mul_v(r, s)),
    );
}

/// The cross product is anti-commutative: `a × b` equals the negation of
/// `b × a`, componentwise as rational numbers, for all vectors a and b.
pub proof fn lemma_cross_anticommutative(a: Vec3v, b: Vec3v)
    requires
        vec3v_wf(a),
        vec3v_wf(b),
    ensures
        ratv_eq(cross_v(a, b).x, neg_v(cross_v(b, a).x)),
        ratv_eq(cross_v(a, b).y, neg_v(cross_v(b, a).y)),
        ratv_eq(cross_v(a, b).z, neg_v(cross_v(b, a).z)),
{
    lemma_cross_comp(a.y, b.z, a.z, b.y);
    lemma_cross_comp(a.z, b.x, a.x, b.z);
    lemma_cross_comp(a.x, b.y, a.y, b.x);
    lemma_cross_comp(b.y, a.z, b.z, a.y);
    lemma_cross_comp(b.z, a.x, b.x, a.z);
    lemma_cross_comp(b.x, a.y, b.y, a.x);
    let xab = sub_v(mul_v(a.y, b.z), mul_v(a.z, b.y));
    let xba = sub_v(mul_v(b.y, a.z), mul_v(b.z, a.y));
    let yab = sub_v(mul_v(a.z, b.x), mul_v(a.x, b.z));
    let yba = sub_v(mul_v(b.z, a.x), mul_v(b.x, a.z));
    let zab = sub_v(mul_v(a.x, b.y), mul_v(a.y, b.x));
    let zba = sub_v(mul_v(b.x, a.y), mul_v(b.y, a.x));
    assert((a.y.n * b.z.n) * (a.z.d * b.y.d) - (a.z.n * b.y.n) * (a.y.d * b.z.d) == -((b.y.n
        * a.z.n) * (b.z.d * a.y.d) - (b.z.n * a.y.n) * (b.y.d * a.z.d))) by (nonlinear_arith);
    assert((a.y.d * b.z.d) * (a.z.d * b.y.d) == (b.y.d * a.z.d) * (b.z.d * a.y.d))
        by (nonlinear_arith);
    assert(xab == neg_v(xba));
    assert((a.z.n * b.x.n) * (a.x.d * b.z.d) - (a.x.n * b.z.n) * (a.z.d * b.x.d) == -((b.z.n
        * a.x.n) * (b.x.d * a.z.d) - (b.x.n * a.z.n) * (b.z.d * a.x.d))) by (nonlinear_arith);
    assert((a.z.d * b.x.d) * (a.x.d * b.z.d) == (b.z.d * a.x.d) * (b.x.d * a.z.d))
        by (nonlinear_arith);
    assert(yab == neg_v(yba));
    assert((a.x.n * b.y.n) * (a.y.d * b.x.d) - (a.y.n * b.x.n) * (a.x.d * b.y.d) == -((b.x.n
        * a.y.n) * (b.y.d * a.x.d) - (b.y.n * a.x.n) * (b.x.d * a.y.d))) by (nonlinear_arith);
    assert((a.x.d * b.y.d) * (a.y.d * b.x.d) == (b.x.d * a.y.d) * (b.y.d * a.x.d))
        by (nonlinear_arith);
    assert(zab == neg_v(zba));
    lemma_neg_congr(cross_v(b, a).x, xba);
    lemma_neg_congr(cross_v(b, a).y, yba);
    lemma_neg_congr(cross_v(b, a).z, zba);
    lemma_wf_ops(b.y, a.z);
    lemma_wf_ops(b.z, a.y);
    lemma_wf_ops(b.z, a.x);
    lemma_wf_ops(b.x, a.z);
    lemma_wf_ops(b.x, a.y);
    lemma_wf_ops(b.y, a.x);
    lemma_wf_ops(mul_v(b.y, a.z), mul_v(b.z, a.y));
    lemma_wf_ops(mul_v(b.z, a.x), mul_v(b.x, a.z));
    lemma_wf_ops(mul_v(b.x, a.y), mul_v(b.y, a.x));
    lemma_ratv_eq_trans(cross_v(a, b).x, neg_v(xba), neg_v(cross_v(b, a).x));
    lemma_ratv_eq_trans(cross_v(a, b).y, neg_v(yba), neg_v(cross_v(b, a).y));
    lemma_ratv_eq_trans(cross_v(a, b).z, neg_v(zba), neg_v(cross_v(b, a).z));
}

/// Dividing three summands by their own sum and re-adding the quotients
/// gives exactly one, written out over raw numerators and denominators.
proof fn lemma_unit_quotient_sum(
    an: int,
    ad: int,
    bn: int,
    bd: int,
    cn: int,
    cd: int,
    mn: int,
    md: int,
)
    requires
        mn * ((ad * bd) * cd) == ((an * bd + bn * ad) * cd + cn * (ad * bd)) * md,
    ensures
        ((an * md) * (bd * mn) + (bn * md) * (ad * mn)) * (cd * mn) + (cn * md) * ((ad * mn) * (bd
            * mn)) == ((ad * mn) * (bd * mn)) * (cd * mn),
{
    let t1 = (an * md) * (bd * mn);
    let t2 = (bn * md) * (ad * mn);
    assert(t1 * (cd * mn) == (md * (mn * mn)) * ((an * bd) * cd)) by (nonlinear_arith)
        requires
            t1 == (an * md) * (bd * mn),
    ;
    assert(t2 * (cd * mn) == (md * (mn * mn)) * ((bn * ad) * cd)) by (nonlinear_arith)
        requires
            t2 == (bn * md) * (ad * mn),
    ;
    assert((cn * md) * ((ad * mn) * (bd * mn)) == (md * (mn * mn)) * (cn * (ad * bd)))
        by (nonlinear_arith);
    assert((t1 + t2) * (cd * mn) == t1 * (cd * mn) + t2 * (cd * mn)) by (nonlinear_arith);
    assert((md * (mn * mn)) * ((an * bd) * cd) + (md * (mn * mn)) * ((bn * ad) * cd) + (md * (mn
        * mn)) * (cn * (ad * bd)) == (md * (mn * mn)) * ((an * bd + bn * ad) * cd + cn * (ad
        * bd))) by (nonlinear_arith);
    assert((md * (mn * mn)) * ((an * bd + bn * ad) * cd + cn * (ad * bd)) == (mn * mn) * (((an * bd
        + bn * ad) * cd + cn * (ad * bd)) * md)) by (nonlinear_arith);
    assert((mn * mn) * (mn * ((ad * bd) * cd)) == ((ad * mn) * (bd * mn)) * (cd * mn))
        by (nonlinear_arith);
}

/// Normalizing scales a nonzero vector to magnitude exactly 1, and maps
/// the zero-magnitude vector to the zero vector.
pub proof fn lemma_normalize_magnitude(v: Vec3v)
    requires
        vec3v_wf(v),
    ensures
        mag_v(v).n == 0 ==> normalize_v(v) == (Vec3v { x: zero_v(), y: zero_v(), z: zero_v() }),
        mag_v(v).n != 0 ==> ratv_eq(mag_v(normalize_v(v)), one_v()),
{
    let ax = abs_v(v.x);
    let ay = abs_v(v.y);
    let az = abs_v(v.z);
    let m = mag_v(v);
    let mm = add_v(add_v(ax, ay), az);
    lemma_norm_add(ax, ay);
    let s1 = norm(add_v(ax, ay));
    lemma_wf_ops(s1, az);
    lemma_norm(add_v(s1, az));
    lemma_add_congr(s1, add_v(ax, ay), az, az);
    lemma_wf_ops(ax, ay);
    lemma_wf_ops(add_v(ax, ay), az);
    lemma_ratv_eq_trans(m, add_v(s1, az), mm);
    if m.n != 0 {
        assert((ax.n * ay.d + ay.n * ax.d) * az.d + az.n * (ax.d * ay.d) >= 0) by (nonlinear_arith)
            requires
                ax.n >= 0,
                ay.n >= 0,
                az.n >= 0,
                ax.d > 0,
                ay.d > 0,
                az.d > 0,
        ;
        assert(mm.n >= 0);
        assert(m.n > 0) by (nonlinear_arith)
            requires
                m.n * mm.d == mm.n * m.d,
                m.d > 0,
                mm.d > 0,
                mm.n >= 0,
                m.n != 0,
        ;
        let d0 = div_v(ax, m);
        let d1 = div_v(ay, m);
        let d2 = div_v(az, m);
        assert(v.x.d * m.n > 0 && v.y.d * m.n > 0 && v.z.d * m.n > 0) by (nonlinear_arith)
            requires
                v.x.d > 0,
                v.y.d > 0,
                v.z.d > 0,
                m.n > 0,
        ;
        let n0 = norm(div_v(v.x, m));
        let n1 = norm(div_v(v.y, m));
        let n2 = norm(div_v(v.z, m));
        lemma_norm(div_v(v.x, m));
        lemma_norm(div_v(v.y, m));
        lemma_norm(div_v(v.z, m));
        let b0 = abs_v(n0);
        let b1 = abs_v(n1);
        let b2 = abs_v(n2);
        lemma_abs_congr(n0, div_v(v.x, m));
        lemma_abs_congr(n1, div_v(v.y, m));
        lemma_abs_congr(n2, div_v(v.z, m));
        crate::rat::lemma_abs_div_pos(v.x, m);
        crate::rat::lemma_abs_div_pos(v.y, m);
        crate::rat::lemma_abs_div_pos(v.z, m);
        // each normalized component's absolute value is the divided one
        assert(ratv_eq(b0, d0));
        assert(ratv_eq(b1, d1));
        assert(ratv_eq(b2, d2));
        // the magnitude of the normalized vector collapses to d0 + d1 + d2
        let mn = mag_v(normalize_v(v));
        lemma_norm_add(b0, b1);
        let t1 = norm(add_v(b0, b1));
        lemma_wf_ops(t1, b2);
        lemma_norm(add_v(t1, b2));
        lemma_add_congr(t1, add_v(b0, b1), b2, b2);
        lemma_wf_ops(b0, b1);
        lemma_wf_ops(add_v(b0, b1), b2);
        lemma_ratv_eq_trans(mn, add_v(t1, b2), add_v(add_v(b0, b1), b2));
        lemma_add_congr(b0, d0, b1, d1);
        lemma_add_congr(add_v(b0, b1), add_v(d0, d1), b2, d2);
        lemma_ratv_eq_trans(mn, add_v(add_v(b0, b1), b2), add_v(add_v(d0, d1), d2));
        // the sum of the three quotients is exactly one
        let s = add_v(add_v(d0, d1), d2);
        assert(s.n == ((ax.n * m.d) * (ay.d * m.n) + (ay.n * m.d) * (ax.d * m.n)) * (az.d * m.n) + (
        az.n * m.d) * ((ax.d * m.n) * (ay.d * m.n)));
        assert(s.d == ((ax.d * m.n) * (ay.d * m.n)) * (az.d * m.n));
        lemma_unit_quotient_sum(ax.n, ax.d, ay.n, ay.d, az.n, az.d, m.n, m.d);
        assert(s.n == s.d);
        assert(ratv_eq(s, one_v()));
        lemma_wf_ops(d0, d1);
        lemma_wf_ops(add_v(d0, d1), d2);
        lemma_ratv_eq_trans(mn, s, one_v());
    }
}

impl Default for Vec3 {
    /// The zero vector.
    fn default() -> (r: Vec3)
        ensures
            r.wf(),
            r@ == (Vec3v { x: zero_v(), y: zero_v(), z: zero_v() }),
    {
        Vec3 { x: Rat::zero(), y: Rat::zero(), z: Rat::zero() }
    }
}

impl PartialEq for Vec3 {
    /// Equality of the componentwise rational values.
    fn eq(&self, other: &Vec3) -> (r: bool) {
        self.x.eq(&other.x) && self.y.eq(&other.y) && self.z.eq(&other.z)
    }
}

impl vstd::std_specs::cmp::PartialEqSpecImpl for Vec3 {
    open spec fn obeys_eq_spec() -> bool {
        true
    }

    open spec fn eq_spec(&self, other: &Vec3) -> bool {
        vec3v_eq(self@, other@)
    }
}

} // verus!
