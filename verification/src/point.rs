//! Locations in 3-space.

use vstd::prelude::*;

use crate::rat::{
    Rat, Ratv, abs_v, add_v, norm, rat_fits, ratv_eq, ratv_le, sub_ok, sub_v, zero_v,
};
use crate::vec3::{Vec3, Vec3v, rat_close, vadd_ok, vsub_ok};

verus! {

/// Mathematical value of a point: three rational coordinates.
pub ghost struct Pointv {
    pub x: Ratv,
    pub y: Ratv,
    pub z: Ratv,
}

/// Componentwise rational equality of two point values.
pub open spec fn pointv_eq(a: Pointv, b: Pointv) -> bool {
    ratv_eq(a.x, b.x) && ratv_eq(a.y, b.y) && ratv_eq(a.z, b.z)
}

/// The point value seen as a plain triple of rationals.
pub open spec fn pointv_as_vec(p: Pointv) -> Vec3v {
    Vec3v { x: p.x, y: p.y, z: p.z }
}

/// A location in 3-space.
///
/// Distinct from `Vec3`: subtracting two points yields the displacement
/// between them, and a point's homogeneous lift carries a trailing 1, so
/// translations move it.
#[derive(Clone, Copy, Debug)]
pub struct Point {
    x: Rat,
    y: Rat,
    z: Rat,
}

impl View for Point {
    type V = Pointv;

    closed spec fn view(&self) -> Pointv {
        Pointv { x: self.x@, y: self.y@, z: self.z@ }
    }
}

impl Point {
    pub open spec fn wf(self) -> bool {
        rat_fits(self@.x) && rat_fits(self@.y) && rat_fits(self@.z)
    }

    pub fn new(x: Rat, y: Rat, z: Rat) -> (r: Point)
        requires
            x.wf(),
            y.wf(),
            z.wf(),
        ensures
            r.wf(),
            r@ == (Pointv { x: x@, y: y@, z: z@ }),
    {
        Point { x, y, z }
    }

    pub fn x(&self) -> (r: Rat)
        ensures
            r@ == self@.x,
            self.wf() ==> r.wf(),
    {
        self.x
    }

    pub fn y(&self) -> (r: Rat)
        ensures
            r@ == self@.y,
            self.wf() ==> r.wf(),
    {
        self.y
    }

    pub fn z(&self) -> (r: Rat)
        ensures
            r@ == self@.z,
            self.wf() ==> r.wf(),
    {
        self.z
    }

    /// Moves the point by the displacement `rhs`.
    pub fn add(self, rhs: Vec3) -> (r: Point)
        requires
            self.wf(),
            rhs.wf(),
            vadd_ok(pointv_as_vec(self@), rhs@),
        ensures
            r.wf(),
            r@.x == norm(add_v(self@.x, rhs@.x)),
            r@.y == norm(add_v(self@.y, rhs@.y)),
            r@.z == norm(add_v(self@.z, rhs@.z)),
    {
        Point { x: self.x.add(rhs.x()), y: self.y.add(rhs.y()), z: self.z.add(rhs.z()) }
    }

    /// The displacement from `rhs` to `self`.
    pub fn sub(self, rhs: Point) -> (r: Vec3)
        requires
            self.wf(),
            rhs.wf(),
            vsub_ok(pointv_as_vec(self@), pointv_as_vec(rhs@)),
        ensures
            r.wf(),
            r@.x == norm(sub_v(self@.x, rhs@.x)),
            r@.y == norm(sub_v(self@.y, rhs@.y)),
            r@.z == norm(sub_v(self@.z, rhs@.z)),
    {
        Vec3::new(self.x.sub(rhs.x), self.y.sub(rhs.y), self.z.sub(rhs.z))
    }

    /// Moves the point backwards by the displacement `rhs`.
    pub fn sub_vec(self, rhs: Vec3) -> (r: Point)
        requires
            self.wf(),
            rhs.wf(),
            vsub_ok(pointv_as_vec(self@), rhs@),
        ensures
            r.wf(),
            r@.x == norm(sub_v(self@.x, rhs@.x)),
            r@.y == norm(sub_v(self@.y, rhs@.y)),
            r@.z == norm(sub_v(self@.z, rhs@.z)),
    {
        Point { x: self.x.sub(rhs.x()), y: self.y.sub(rhs.y()), z: self.z.sub(rhs.z()) }
    }

    /// Epsilon comparison: each pair of coordinates differs by at most
    /// `epsilon` in absolute value.
    pub fn abs_diff_eq(&self, other: &Point, epsilon: Rat) -> (r: bool)
        requires
            self.wf(),
            other.wf(),
            epsilon.wf(),
            vsub_ok(pointv_as_vec(self@), pointv_as_vec(other@)),
        ensures
            r == (ratv_le(abs_v(sub_v(self@.x, other@.x)), epsilon@) && ratv_le(
                abs_v(sub_v(self@.y, other@.y)),
                epsilon@,
            ) && ratv_le(abs_v(sub_v(self@.z, other@.z)), epsilon@)),
    {
        rat_close(self.x, other.x, epsilon) && rat_close(self.y, other.y, epsilon) && rat_close(
            self.z,
            other.z,
            epsilon,
        )
    }

    /// The default absolute tolerance for point comparisons.
    pub fn default_epsilon() -> (r: Rat)
        ensures
            r.wf(),
            r@ == (Ratv { n: 1, d: 10_000_000_000 }),
    {
        Rat::recip(10_000_000_000)
    }
}

impl Default for Point {
    /// The origin.
    fn default() -> (r: Point)
        ensures
            r.wf(),
            r@ == (Pointv { x: zero_v(), y: zero_v(), z: zero_v() }),
    {
        Point { x: Rat::zero(), y: Rat::zero(), z: Rat::zero() }
    }
}

impl PartialEq for Point {
    /// Equality of the componentwise rational values.
    fn eq(&self, other: &Point) -> (r: bool) {
        self.x.eq(&other.x) && self.y.eq(&other.y) && self.z.eq(&other.z)
    }
}

impl vstd::std_specs::cmp::PartialEqSpecImpl for Point {
    open spec fn obeys_eq_spec() -> bool {
        true
    }

    open spec fn eq_spec(&self, other: &Point) -> bool {
        pointv_eq(self@, other@)
    }
}

} // verus!
