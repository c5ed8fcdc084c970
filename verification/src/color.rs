//! RGB colors.

use vstd::prelude::*;

use crate::rat::{
    Rat, Ratv, abs_v, add_ok, add_v, mul_ok, mul_v, norm, one_v, rat_fits, ratv_eq, ratv_le,
    ratv_lt, sub_ok, sub_v, zero_v,
};
use crate::vec3::rat_close;

verus! {

/// Mathematical value of a color: three rational channels.
pub ghost struct Colorv {
    pub r: Ratv,
    pub g: Ratv,
    pub b: Ratv,
}

/// All three channels are well-formed fractions within machine range.
pub open spec fn colorv_wf(c: Colorv) -> bool {
    rat_fits(c.r) && rat_fits(c.g) && rat_fits(c.b)
}

/// Componentwise rational equality of two color values.
pub open spec fn colorv_eq(a: Colorv, b: Colorv) -> bool {
    ratv_eq(a.r, b.r) && ratv_eq(a.g, b.g) && ratv_eq(a.b, b.b)
}

/// One channel clamped into `[0, 1]`.
pub open spec fn clamp1_v(a: Ratv) -> Ratv {
    if ratv_lt(a, zero_v()) {
        zero_v()
    } else if ratv_lt(one_v(), a) {
        one_v()
    } else {
        a
    }
}

/// A color with RGB channels.
///
/// Channel values outside `[0, 1]` are valid intermediate states (from
/// additive blending, say) and are only clamped when a color is quantized
/// into a display pixel.
#[derive(Clone, Copy, Debug)]
pub struct Color {
    r: Rat,
    g: Rat,
    b: Rat,
}

impl View for Color {
    type V = Colorv;

    closed spec fn view(&self) -> Colorv {
        Colorv { r: self.r@, g: self.g@, b: self.b@ }
    }
}

impl Color {
    pub open spec fn wf(self) -> bool {
        colorv_wf(self@)
    }

    pub fn new(r: Rat, g: Rat, b: Rat) -> (c: Color)
        requires
            r.wf(),
            g.wf(),
            b.wf(),
        ensures
            c.wf(),
            c@ == (Colorv { r: r@, g: g@, b: b@ }),
    {
        Color { r, g, b }
    }

    pub fn r(&self) -> (r: Rat)
        ensures
            r@ == self@.r,
            self.wf() ==> r.wf(),
    {
        self.r
    }

    pub fn g(&self) -> (r: Rat)
        ensures
            r@ == self@.g,
            self.wf() ==> r.wf(),
    {
        self.g
    }

    pub fn b(&self) -> (r: Rat)
        ensures
            r@ == self@.b,
            self.wf() ==> r.wf(),
    {
        self.b
    }

    /// Each channel clamped into `[0, 1]`; in-range channels are unchanged.
    pub fn clamp(&self) -> (c: Color)
        requires
            self.wf(),
        ensures
            c.wf(),
            c@.r == clamp1_v(self@.r),
            c@.g == clamp1_v(self@.g),
            c@.b == clamp1_v(self@.b),
    {
        Color {
            r: clamp1(self.r),
            g: clamp1(self.g),
            b: clamp1(self.b),
        }
    }

    pub fn add(self, rhs: Color) -> (c: Color)
        requires
            self.wf(),
            rhs.wf(),
            add_ok(self@.r, rhs@.r),
            add_ok(self@.g, rhs@.g),
            add_ok(self@.b, rhs@.b),
        ensures
            c.wf(),
            c@.r == norm(add_v(self@.r, rhs@.r)),
            c@.g == norm(add_v(self@.g, rhs@.g)),
            c@.b == norm(add_v(self@.b, rhs@.b)),
    {
        Color { r: self.r.add(rhs.r), g: self.g.add(rhs.g), b: self.b.add(rhs.b) }
    }

    pub fn sub(self, rhs: Color) -> (c: Color)
        requires
            self.wf(),
            rhs.wf(),
            sub_ok(self@.r, rhs@.r),
            sub_ok(self@.g, rhs@.g),
            sub_ok(self@.b, rhs@.b),
        ensures
            c.wf(),
            c@.r == norm(sub_v(self@.r, rhs@.r)),
            c@.g == norm(sub_v(self@.g, rhs@.g)),
            c@.b == norm(sub_v(self@.b, rhs@.b)),
    {
        Color { r: self.r.sub(rhs.r), g: self.g.sub(rhs.g), b: self.b.sub(rhs.b) }
    }

    /// The componentwise (Hadamard) product of two colors.
    pub fn mul(self, rhs: Color) -> (c: Color)
        requires
            self.wf(),
            rhs.wf(),
            mul_ok(self@.r, rhs@.r),
            mul_ok(self@.g, rhs@.g),
            mul_ok(self@.b, rhs@.b),
        ensures
            c.wf(),
            c@.r == norm(mul_v(self@.r, rhs@.r)),
            c@.g == norm(mul_v(self@.g, rhs@.g)),
            c@.b == norm(mul_v(self@.b, rhs@.b)),
    {
        Color { r: self.r.mul(rhs.r), g: self.g.mul(rhs.g), b: self.b.mul(rhs.b) }
    }

    /// The color with every channel scaled by `k`.
    pub fn mul_scalar(self, k: Rat) -> (c: Color)
        requires
            self.wf(),
            k.wf(),
            mul_ok(self@.r, k@),
            mul_ok(self@.g, k@),
            mul_ok(self@.b, k@),
        ensures
            c.wf(),
            c@.r == norm(mul_v(self@.r, k@)),
            c@.g == norm(mul_v(self@.g, k@)),
            c@.b == norm(mul_v(self@.b, k@)),
    {
        Color { r: self.r.mul(k), g: self.g.mul(k), b: self.b.mul(k) }
    }

    /// Epsilon comparison: each pair of channels differs by at most
    /// `epsilon` in absolute value.
    pub fn abs_diff_eq(&self, other: &Color, epsilon: Rat) -> (r: bool)
        requires
            self.wf(),
            other.wf(),
            epsilon.wf(),
            sub_ok(self@.r, other@.r),
            sub_ok(self@.g, other@.g),
            sub_ok(self@.b, other@.b),
        ensures
            r == (ratv_le(abs_v(sub_v(self@.r, other@.r)), epsilon@) && ratv_le(
                abs_v(sub_v(self@.g, other@.g)),
                epsilon@,
            ) && ratv_le(abs_v(sub_v(self@.b, other@.b)), epsilon@)),
    {
        rat_close(self.r, other.r, epsilon) && rat_close(self.g, other.g, epsilon) && rat_close(
            self.b,
            other.b,
            epsilon,
        )
    }

    /// The default absolute tolerance for color comparisons.
    pub fn default_epsilon() -> (r: Rat)
        ensures
            r.wf(),
            r@ == (Ratv { n: 1, d: 10_000_000_000 }),
    {
        Rat::recip(10_000_000_000)
    }
}

/// One channel clamped into `[0, 1]`.
fn clamp1(a: Rat) -> (r: Rat)
    requires
        a.wf(),
    ensures
        r.wf(),
        r@ == clamp1_v(a@),
{
    let lo = Rat::zero();
    let hi = Rat::one();
    if a.lt(lo) {
        lo
    } else if hi.lt(a) {
        hi
    } else {
        a
    }
}

/// Clamping maps every channel into `[0, 1]` and leaves a channel that is
/// already in range unchanged.
pub proof fn lemma_clamp_bounds(a: Ratv)
    requires
        crate::rat::ratv_wf(a),
    ensures
        ratv_le(zero_v(), clamp1_v(a)),
        ratv_le(clamp1_v(a), one_v()),
        ratv_le(zero_v(), a) && ratv_le(a, one_v()) ==> clamp1_v(a) == a,
{
}

impl Default for Color {
    /// Black: all channels zero.
    fn default() -> (r: Color)
        ensures
            r.wf(),
            r@ == (Colorv { r: zero_v(), g: zero_v(), b: zero_v() }),
    {
        Color { r: Rat::zero(), g: Rat::zero(), b: Rat::zero() }
    }
}

impl PartialEq for Color {
    /// Equality of the componentwise rational values.
    fn eq(&self, other: &Color) -> (r: bool) {
        self.r.eq(&other.r) && self.g.eq(&other.g) && self.b.eq(&other.b)
    }
}

impl vstd::std_specs::cmp::PartialEqSpecImpl for Color {
    open spec fn obeys_eq_spec() -> bool {
        true
    }

    open spec fn eq_spec(&self, other: &Color) -> bool {
        colorv_eq(self@, other@)
    }
}

} // verus!
