//! Transform builders and the homogeneous transform protocol.
//!
//! A builder returns a 4-by-4 matrix over the identity. An entity takes
//! part in `transform` by lifting itself into a 4-by-1 homogeneous column
//! and rebuilding itself from one; a `Point` lifts with a trailing 1 (so
//! translation moves it), a `Vec3` with a trailing 0 (so translation
//! leaves it unchanged).
//!
//! The axis rotations are given by the cosine and sine of the rotation
//! angle. Scalars here are exact rationals, which no transcendental
//! function maps into; the caller evaluates cosine and sine (to whatever
//! precision it needs) and hands the pair in.

use vstd::prelude::*;

use crate::matrix::{
    Matrix, col_of, dot_math, dot_spec, grid_view, id_v, lemma_dot_collapse, mmul_ok, mmul_v,
    seq_view,
};
use crate::point::{Point, Pointv};
use crate::rat::{
    Rat, Ratv, add_v, mul_v, neg_v, one_v, rat_fits, ratv_eq, ratv_wf, sub_v, zero_v,
    lemma_add_congr, lemma_add_neg, lemma_add_neg_is_sub, lemma_add_zero_left,
    lemma_add_zero_right, lemma_mul_neg_left, lemma_mul_zero_num, lemma_ratv_eq_trans,
    lemma_unit_ops, lemma_wf_ops,
};
use crate::vec3::{Vec3, Vec3v};

verus! {

/// The translation grid: the identity with column 3 of rows 0 to 2 set to
/// `x`, `y`, `z`.
pub open spec fn translate_v(x: Ratv, y: Ratv, z: Ratv) -> Seq<Seq<Ratv>> {
    seq![
        seq![one_v(), zero_v(), zero_v(), x],
        seq![zero_v(), one_v(), zero_v(), y],
        seq![zero_v(), zero_v(), one_v(), z],
        seq![zero_v(), zero_v(), zero_v(), one_v()],
    ]
}

/// The scaling grid: the identity with the diagonal set to `x`, `y`, `z`.
pub open spec fn scale_v(x: Ratv, y: Ratv, z: Ratv) -> Seq<Seq<Ratv>> {
    seq![
        seq![x, zero_v(), zero_v(), zero_v()],
        seq![zero_v(), y, zero_v(), zero_v()],
        seq![zero_v(), zero_v(), z, zero_v()],
        seq![zero_v(), zero_v(), zero_v(), one_v()],
    ]
}

/// The grid of a right-handed rotation about the x-axis whose angle has
/// cosine `c` and sine `s`.
pub open spec fn rotate_x_v(c: Ratv, s: Ratv) -> Seq<Seq<Ratv>> {
    seq![
        seq![one_v(), zero_v(), zero_v(), zero_v()],
        seq![zero_v(), c, neg_v(s), zero_v()],
        seq![zero_v(), s, c, zero_v()],
        seq![zero_v(), zero_v(), zero_v(), one_v()],
    ]
}

/// The grid of a right-handed rotation about the y-axis.
pub open spec fn rotate_y_v(c: Ratv, s: Ratv) -> Seq<Seq<Ratv>> {
    seq![
        seq![c, zero_v(), s, zero_v()],
        seq![zero_v(), one_v(), zero_v(), zero_v()],
        seq![neg_v(s), zero_v(), c, zero_v()],
        seq![zero_v(), zero_v(), zero_v(), one_v()],
    ]
}

/// The grid of a right-handed rotation about the z-axis.
pub open spec fn rotate_z_v(c: Ratv, s: Ratv) -> Seq<Seq<Ratv>> {
    seq![
        seq![c, neg_v(s), zero_v(), zero_v()],
        seq![s, c, zero_v(), zero_v()],
        seq![zero_v(), zero_v(), one_v(), zero_v()],
        seq![zero_v(), zero_v(), zero_v(), one_v()],
    ]
}

/// Builds a 4-by-4 matrix from four rows of four scalars.
fn mat4(r0: [Rat; 4], r1: [Rat; 4], r2: [Rat; 4], r3: [Rat; 4]) -> (m: Matrix)
    requires
        forall|k: int| 0 <= k < 4 ==> rat_fits((#[trigger] r0@[k])@),
        forall|k: int| 0 <= k < 4 ==> rat_fits((#[trigger] r1@[k])@),
        forall|k: int| 0 <= k < 4 ==> rat_fits((#[trigger] r2@[k])@),
        forall|k: int| 0 <= k < 4 ==> rat_fits((#[trigger] r3@[k])@),
    ensures
        m.wf(),
        m@.len() == 4,
        m.spec_cols() == 4,
        forall|i: int, j: int| 0 <= i < 4 && 0 <= j < 4 ==> #[trigger] m@[i][j] == spec_row4(
            r0@,
            r1@,
            r2@,
            r3@,
            i,
        )[j],
{
    let mut data: Vec<Vec<Rat>> = Vec::new();
    data.push(row4(r0));
    data.push(row4(r1));
    data.push(row4(r2));
    data.push(row4(r3));
    proof {
        assert(grid_view(data).len() == 4);
        assert(grid_view(data)[0] == seq_view(data@[0]));
        assert(grid_view(data)[1] == seq_view(data@[1]));
        assert(grid_view(data)[2] == seq_view(data@[2]));
        assert(grid_view(data)[3] == seq_view(data@[3]));
    }
    Matrix::new(data)
}

/// The values of row `i` among four given rows.
pub open spec fn spec_row4(
    r0: Seq<Rat>,
    r1: Seq<Rat>,
    r2: Seq<Rat>,
    r3: Seq<Rat>,
    i: int,
) -> Seq<Ratv> {
    if i == 0 {
        r0.map(|j: int, x: Rat| x@)
    } else if i == 1 {
        r1.map(|j: int, x: Rat| x@)
    } else if i == 2 {
        r2.map(|j: int, x: Rat| x@)
    } else {
        r3.map(|j: int, x: Rat| x@)
    }
}

/// One row of four scalars.
fn row4(r: [Rat; 4]) -> (v: Vec<Rat>)
    ensures
        seq_view(v) == r@.map(|j: int, x: Rat| x@),
        v@.len() == 4,
{
    let mut v: Vec<Rat> = Vec::new();
    v.push(r[0]);
    v.push(r[1]);
    v.push(r[2]);
    v.push(r[3]);
    proof {
        assert(seq_view(v) =~= r@.map(|j: int, x: Rat| x@));
    }
    v
}

/// The 4-by-4 matrix translating by `x`, `y` and `z`.
pub fn translate(x: Rat, y: Rat, z: Rat) -> (m: Matrix)
    requires
        x.wf(),
        y.wf(),
        z.wf(),
    ensures
        m.wf(),
        m@ == translate_v(x@, y@, z@),
        m@.len() == 4,
        m.spec_cols() == 4,
{
    let o = Rat::one();
    let n = Rat::zero();
    let m = mat4([o, n, n, x], [n, o, n, y], [n, n, o, z], [n, n, n, o]);
    proof {
        assert forall|i: int| 0 <= i < 4 implies m@[i] =~= translate_v(x@, y@, z@)[i] by {}
        assert(m@ =~= translate_v(x@, y@, z@));
    }
    m
}

/// The 4-by-4 matrix scaling by `x`, `y` and `z`; negative factors produce
/// reflection.
pub fn scale(x: Rat, y: Rat, z: Rat) -> (m: Matrix)
    requires
        x.wf(),
        y.wf(),
        z.wf(),
    ensures
        m.wf(),
        m@ == scale_v(x@, y@, z@),
        m@.len() == 4,
        m.spec_cols() == 4,
{
    let o = Rat::one();
    let n = Rat::zero();
    let m = mat4([x, n, n, n], [n, y, n, n], [n, n, z, n], [n, n, n, o]);
    proof {
        assert forall|i: int| 0 <= i < 4 implies m@[i] =~= scale_v(x@, y@, z@)[i] by {}
        assert(m@ =~= scale_v(x@, y@, z@));
    }
    m
}

/// The 4-by-4 matrix of a rotation about the x-axis whose angle has cosine
/// `c` and sine `s`.
pub fn rotate_x(c: Rat, s: Rat) -> (m: Matrix)
    requires
        c.wf(),
        s.wf(),
    ensures
        m.wf(),
        m@ == rotate_x_v(c@, s@),
        m@.len() == 4,
        m.spec_cols() == 4,
{
    let o = Rat::one();
    let n = Rat::zero();
    let m = mat4([o, n, n, n], [n, c, s.neg(), n], [n, s, c, n], [n, n, n, o]);
    proof {
        assert forall|i: int| 0 <= i < 4 implies m@[i] =~= rotate_x_v(c@, s@)[i] by {}
        assert(m@ =~= rotate_x_v(c@, s@));
    }
    m
}

/// The 4-by-4 matrix of a rotation about the y-axis.
pub fn rotate_y(c: Rat, s: Rat) -> (m: Matrix)
    requires
        c.wf(),
        s.wf(),
    ensures
        m.wf(),
        m@ == rotate_y_v(c@, s@),
        m@.len() == 4,
        m.spec_cols() == 4,
{
    let o = Rat::one();
    let n = Rat::zero();
    let m = mat4([c, n, s, n], [n, o, n, n], [s.neg(), n, c, n], [n, n, n, o]);
    proof {
        assert forall|i: int| 0 <= i < 4 implies m@[i] =~= rotate_y_v(c@, s@)[i] by {}
        assert(m@ =~= rotate_y_v(c@, s@));
    }
    m
}

/// The 4-by-4 matrix of a rotation about the z-axis.
pub fn rotate_z(c: Rat, s: Rat) -> (m: Matrix)
    requires
        c.wf(),
        s.wf(),
    ensures
        m.wf(),
        m@ == rotate_z_v(c@, s@),
        m@.len() == 4,
        m.spec_cols() == 4,
{
    let o = Rat::one();
    let n = Rat::zero();
    let m = mat4([c, s.neg(), n, n], [s, c, n, n], [n, n, o, n], [n, n, n, o]);
    proof {
        assert forall|i: int| 0 <= i < 4 implies m@[i] =~= rotate_z_v(c@, s@)[i] by {}
        assert(m@ =~= rotate_z_v(c@, s@));
    }
    m
}

/// The composite rotation `rotate_x * rotate_y * rotate_z`, applied in
/// exactly that order; rotation composition does not commute, so the order
/// is part of the contract. Each axis rotation is given by the cosine and
/// sine of its angle.
pub fn rotate(cx: Rat, sx: Rat, cy: Rat, sy: Rat, cz: Rat, sz: Rat) -> (m: Matrix)
    requires
        cx.wf(),
        sx.wf(),
        cy.wf(),
        sy.wf(),
        cz.wf(),
        sz.wf(),
        mmul_ok(rotate_x_v(cx@, sx@), rotate_y_v(cy@, sy@), 4),
        mmul_ok(
            mmul_v(rotate_x_v(cx@, sx@), rotate_y_v(cy@, sy@), 4),
            rotate_z_v(cz@, sz@),
            4,
        ),
    ensures
        m.wf(),
        m@ == mmul_v(
            mmul_v(rotate_x_v(cx@, sx@), rotate_y_v(cy@, sy@), 4),
            rotate_z_v(cz@, sz@),
            4,
        ),
        m@.len() == 4,
        m.spec_cols() == 4,
{
    let rx = rotate_x(cx, sx);
    let ry = rotate_y(cy, sy);
    let rz = rotate_z(cz, sz);
    rx.mul(&ry).mul(&rz)
}

/// The homogeneous transform protocol: an entity that can be lifted into a
/// 4-by-1 homogeneous column and rebuilt from one. `transform` carries the
/// entity through a 4-by-4 matrix: lift, left-multiply, lower.
pub trait Transform: Sized {
    /// The 4-by-1 column of values that represents this entity.
    spec fn lift_v(&self) -> Seq<Seq<Ratv>>;

    /// The trailing homogeneous coordinate this type carries: 1 for
    /// positions, 0 for directions.
    spec fn homogeneous_w() -> Ratv;

    /// The entity's components are within machine range.
    spec fn lift_wf(&self) -> bool;

    /// Lifts the entity into its homogeneous column.
    fn to_column(&self) -> (m: Matrix)
        requires
            self.lift_wf(),
        ensures
            m.wf(),
            m@ == self.lift_v(),
            m@.len() == 4,
            m.spec_cols() == 1;

    /// Rebuilds an entity from a homogeneous column, dropping the trailing
    /// coordinate.
    fn from_column(m: &Matrix) -> (r: Self)
        requires
            m.wf(),
            m@.len() == 4,
            m.spec_cols() == 1,
        ensures
            r.lift_wf(),
            forall|i: int| 0 <= i < 3 ==> r.lift_v()[i][0] == m@[i][0],
            r.lift_v()[3][0] == Self::homogeneous_w();

    /// The entity carried through the transformation matrix `t`.
    fn transform(&self, t: &Matrix) -> (r: Self)
        requires
            self.lift_wf(),
            t.wf(),
            t@.len() == 4,
            t.spec_cols() == 4,
            mmul_ok(t@, self.lift_v(), 1),
        ensures
            r.lift_wf(),
            forall|i: int|
                0 <= i < 3 ==> r.lift_v()[i][0] == mmul_v(t@, self.lift_v(), 1)[i][0],
            r.lift_v()[3][0] == Self::homogeneous_w();
}

impl Transform for Point {
    /// A point lifts to `[x, y, z, 1]`: the trailing 1 marks an affine
    /// position, so translation moves it.
    open spec fn lift_v(&self) -> Seq<Seq<Ratv>> {
        seq![seq![self@.x], seq![self@.y], seq![self@.z], seq![one_v()]]
    }

    open spec fn homogeneous_w() -> Ratv {
        one_v()
    }

    open spec fn lift_wf(&self) -> bool {
        self.wf()
    }

    fn to_column(&self) -> (m: Matrix) {
        let m = mat4_col(self.x(), self.y(), self.z(), Rat::one());
        proof {
            assert(m@ =~~= self.lift_v());
        }
        m
    }

    fn from_column(m: &Matrix) -> (r: Self) {
        Point::new(m.at(0, 0), m.at(1, 0), m.at(2, 0))
    }

    fn transform(&self, t: &Matrix) -> (r: Self) {
        let col = self.to_column();
        let prod = t.mul(&col);
        Self::from_column(&prod)
    }
}

impl Transform for Vec3 {
    /// A vector lifts to `[x, y, z, 0]`: the trailing 0 makes it invariant
    /// under translation, as a free direction must be.
    open spec fn lift_v(&self) -> Seq<Seq<Ratv>> {
        seq![seq![self@.x], seq![self@.y], seq![self@.z], seq![zero_v()]]
    }

    open spec fn homogeneous_w() -> Ratv {
        zero_v()
    }

    open spec fn lift_wf(&self) -> bool {
        self.wf()
    }

    fn to_column(&self) -> (m: Matrix) {
        let m = mat4_col(self.x(), self.y(), self.z(), Rat::zero());
        proof {
            assert(m@ =~~= self.lift_v());
        }
        m
    }

    fn from_column(m: &Matrix) -> (r: Self) {
        Vec3::new(m.at(0, 0), m.at(1, 0), m.at(2, 0))
    }

    fn transform(&self, t: &Matrix) -> (r: Self) {
        let col = self.to_column();
        let prod = t.mul(&col);
        Self::from_column(&prod)
    }
}

/// Builds a 4-by-1 column matrix from four scalars.
fn mat4_col(a: Rat, b: Rat, c: Rat, d: Rat) -> (m: Matrix)
    requires
        a.wf(),
        b.wf(),
        c.wf(),
        d.wf(),
    ensures
        m.wf(),
        m@.len() == 4,
        m.spec_cols() == 1,
        m@ == seq![seq![a@], seq![b@], seq![c@], seq![d@]],
{
    let mut data: Vec<Vec<Rat>> = Vec::new();
    let mut r0: Vec<Rat> = Vec::new();
    r0.push(a);
    let mut r1: Vec<Rat> = Vec::new();
    r1.push(b);
    let mut r2: Vec<Rat> = Vec::new();
    r2.push(c);
    let mut r3: Vec<Rat> = Vec::new();
    r3.push(d);
    data.push(r0);
    data.push(r1);
    data.push(r2);
    data.push(r3);
    proof {
        assert(grid_view(data).len() == 4);
        assert(grid_view(data)[0] == seq_view(data@[0]));
        assert(grid_view(data)[1] == seq_view(data@[1]));
        assert(grid_view(data)[2] == seq_view(data@[2]));
        assert(grid_view(data)[3] == seq_view(data@[3]));
        assert(grid_view(data) =~~= seq![seq![a@], seq![b@], seq![c@], seq![d@]]);
    }
    Matrix::new(data)
}

/// The homogeneous column with entries `a`, `b`, `c` and trailing `w`.
pub open spec fn lift4(a: Ratv, b: Ratv, c: Ratv, w: Ratv) -> Seq<Seq<Ratv>> {
    seq![seq![a], seq![b], seq![c], seq![w]]
}

/// The entry of a transformed column: row `i` of `t` times the lifted
/// entity.
pub open spec fn tcell(t: Seq<Seq<Ratv>>, l: Seq<Seq<Ratv>>, i: int) -> Ratv {
    mmul_v(t, l, 1)[i][0]
}

/// A dot product of length 4 is the plain rational sum of the four
/// products.
proof fn lemma_dot4(row: Seq<Ratv>, col: Seq<Ratv>)
    requires
        row.len() == 4,
        col.len() == 4,
        ratv_wf(row[0]),
        ratv_wf(row[1]),
        ratv_wf(row[2]),
        ratv_wf(row[3]),
        ratv_wf(col[0]),
        ratv_wf(col[1]),
        ratv_wf(col[2]),
        ratv_wf(col[3]),
    ensures
        ratv_wf(dot_spec(row, col)),
        ratv_eq(
            dot_spec(row, col),
            add_v(
                add_v(
                    add_v(mul_v(row[0], col[0]), mul_v(row[1], col[1])),
                    mul_v(row[2], col[2]),
                ),
                mul_v(row[3], col[3]),
            ),
        ),
{
    assert forall|i: int| 0 <= i < 4 implies ratv_wf(#[trigger] row[i]) by {
        if i == 0 {
        } else if i == 1 {
        } else if i == 2 {
        }
    }
    assert forall|i: int| 0 <= i < 4 implies ratv_wf(#[trigger] col[i]) by {
        if i == 0 {
        } else if i == 1 {
        } else if i == 2 {
        }
    }
    lemma_dot_collapse(row, col, 4);
    assert(dot_math(row, col, 0) == zero_v());
    lemma_unit_ops(mul_v(row[0], col[0]));
    assert(dot_math(row, col, 1) == mul_v(row[0], col[0]));
    assert(dot_math(row, col, 2) == add_v(dot_math(row, col, 1), mul_v(row[1], col[1])));
    assert(dot_math(row, col, 3) == add_v(dot_math(row, col, 2), mul_v(row[2], col[2])));
    assert(dot_math(row, col, 4) == add_v(dot_math(row, col, 3), mul_v(row[3], col[3])));
    assert(dot_spec(row, col) == crate::matrix::dot_prefix(row, col, 4));
}

/// Extending an accumulator by a zero-valued product keeps its value.
proof fn lemma_acc_zero(acc: Ratv, val: Ratv, z: Ratv)
    requires
        acc.d != 0,
        ratv_eq(acc, val),
        z.n == 0,
    ensures
        ratv_eq(add_v(acc, z), val),
{
    lemma_add_zero_right(acc, z);
    lemma_ratv_eq_trans(add_v(acc, z), acc, val);
}

/// Extending an accumulator by a product extends its value.
proof fn lemma_acc_add(acc: Ratv, val: Ratv, m: Ratv)
    requires
        ratv_eq(acc, val),
    ensures
        ratv_eq(add_v(acc, m), add_v(val, m)),
{
    lemma_add_congr(acc, val, m, m);
}

/// A four-term left-nested sum in which every term but the one at position
/// `i` has numerator zero equals that term's value.
proof fn lemma_sum4_pick(m0: Ratv, m1: Ratv, m2: Ratv, m3: Ratv, a: Ratv, i: int)
    requires
        ratv_wf(m0),
        ratv_wf(m1),
        ratv_wf(m2),
        ratv_wf(m3),
        ratv_wf(a),
        0 <= i < 4,
        i == 0 ==> ratv_eq(m0, a),
        i == 1 ==> ratv_eq(m1, a),
        i == 2 ==> ratv_eq(m2, a),
        i == 3 ==> ratv_eq(m3, a),
        i != 0 ==> m0.n == 0,
        i != 1 ==> m1.n == 0,
        i != 2 ==> m2.n == 0,
        i != 3 ==> m3.n == 0,
    ensures
        ratv_wf(add_v(add_v(add_v(m0, m1), m2), m3)),
        ratv_eq(add_v(add_v(add_v(m0, m1), m2), m3), a),
{
    let s1 = add_v(m0, m1);
    let s2 = add_v(s1, m2);
    let s3 = add_v(s2, m3);
    lemma_wf_ops(m0, m1);
    lemma_wf_ops(s1, m2);
    lemma_wf_ops(s2, m3);
    if i == 0 {
        lemma_acc_zero(m0, a, m1);
        lemma_acc_zero(s1, a, m2);
        lemma_acc_zero(s2, a, m3);
    } else if i == 1 {
        lemma_add_zero_left(m0, m1);
        lemma_ratv_eq_trans(s1, m1, a);
        lemma_acc_zero(s1, a, m2);
        lemma_acc_zero(s2, a, m3);
    } else if i == 2 {
        assert(s1.n == 0);
        lemma_add_zero_left(s1, m2);
        lemma_ratv_eq_trans(s2, m2, a);
        lemma_acc_zero(s2, a, m3);
    } else {
        assert(s1.n == 0);
        assert(s2.n == 0);
        lemma_add_zero_left(s2, m3);
        lemma_ratv_eq_trans(s3, m3, a);
    }
}

/// A four-term left-nested sum in which every term but those at positions
/// `i < j` has numerator zero equals the sum of those two terms' values.
proof fn lemma_sum4_pair(m0: Ratv, m1: Ratv, m2: Ratv, m3: Ratv, a: Ratv, b: Ratv, i: int, j: int)
    requires
        ratv_wf(m0),
        ratv_wf(m1),
        ratv_wf(m2),
        ratv_wf(m3),
        ratv_wf(a),
        ratv_wf(b),
        0 <= i < j < 4,
        i == 0 ==> ratv_eq(m0, a),
        i == 1 ==> ratv_eq(m1, a),
        i == 2 ==> ratv_eq(m2, a),
        j == 1 ==> ratv_eq(m1, b),
        j == 2 ==> ratv_eq(m2, b),
        j == 3 ==> ratv_eq(m3, b),
        (0 != i && 0 != j) ==> m0.n == 0,
        (1 != i && 1 != j) ==> m1.n == 0,
        (2 != i && 2 != j) ==> m2.n == 0,
        3 != j ==> m3.n == 0,
    ensures
        ratv_wf(add_v(add_v(add_v(m0, m1), m2), m3)),
        ratv_eq(add_v(add_v(add_v(m0, m1), m2), m3), add_v(a, b)),
{
    let s1 = add_v(m0, m1);
    let s2 = add_v(s1, m2);
    let s3 = add_v(s2, m3);
    let ab = add_v(a, b);
    lemma_wf_ops(m0, m1);
    lemma_wf_ops(s1, m2);
    lemma_wf_ops(s2, m3);
    lemma_wf_ops(a, b);
    if i == 0 && j == 1 {
        lemma_add_congr(m0, a, m1, b);
        lemma_acc_zero(s1, ab, m2);
        lemma_acc_zero(s2, ab, m3);
    } else if i == 0 && j == 2 {
        lemma_acc_zero(m0, a, m1);
        lemma_acc_add(s1, a, m2);
        lemma_add_congr(a, a, m2, b);
        lemma_wf_ops(a, m2);
        lemma_ratv_eq_trans(s2, add_v(a, m2), ab);
        lemma_acc_zero(s2, ab, m3);
    } else if i == 0 && j == 3 {
        lemma_acc_zero(m0, a, m1);
        lemma_acc_zero(s1, a, m2);
        lemma_acc_add(s2, a, m3);
        lemma_add_congr(a, a, m3, b);
        lemma_wf_ops(a, m3);
        lemma_ratv_eq_trans(s3, add_v(a, m3), ab);
    } else if i == 1 && j == 2 {
        lemma_add_zero_left(m0, m1);
        lemma_ratv_eq_trans(s1, m1, a);
        lemma_acc_add(s1, a, m2);
        lemma_add_congr(a, a, m2, b);
        lemma_wf_ops(a, m2);
        lemma_ratv_eq_trans(s2, add_v(a, m2), ab);
        lemma_acc_zero(s2, ab, m3);
    } else if i == 1 && j == 3 {
        lemma_add_zero_left(m0, m1);
        lemma_ratv_eq_trans(s1, m1, a);
        lemma_acc_zero(s1, a, m2);
        lemma_acc_add(s2, a, m3);
        lemma_add_congr(a, a, m3, b);
        lemma_wf_ops(a, m3);
        lemma_ratv_eq_trans(s3, add_v(a, m3), ab);
    } else {
        assert(s1.n == 0);
        lemma_add_zero_left(s1, m2);
        lemma_ratv_eq_trans(s2, m2, a);
        lemma_acc_add(s2, a, m3);
        lemma_add_congr(a, a, m3, b);
        lemma_wf_ops(a, m3);
        lemma_ratv_eq_trans(s3, add_v(a, m3), ab);
    }
}

/// What translation does to a lifted point: it adds the translation to
/// each coordinate and keeps the trailing 1. This makes
/// `translate(x, y, z)` applied to `Point(px, py, pz)` exactly
/// `Point(px + x, py + y, pz + z)`.
pub proof fn lemma_translate_point(x: Ratv, y: Ratv, z: Ratv, px: Ratv, py: Ratv, pz: Ratv)
    requires
        ratv_wf(x),
        ratv_wf(y),
        ratv_wf(z),
        ratv_wf(px),
        ratv_wf(py),
        ratv_wf(pz),
    ensures
        ratv_wf(tcell(translate_v(x, y, z), lift4(px, py, pz, one_v()), 0)),
        ratv_wf(tcell(translate_v(x, y, z), lift4(px, py, pz, one_v()), 1)),
        ratv_wf(tcell(translate_v(x, y, z), lift4(px, py, pz, one_v()), 2)),
        ratv_eq(tcell(translate_v(x, y, z), lift4(px, py, pz, one_v()), 0), add_v(px, x)),
        ratv_eq(tcell(translate_v(x, y, z), lift4(px, py, pz, one_v()), 1), add_v(py, y)),
        ratv_eq(tcell(translate_v(x, y, z), lift4(px, py, pz, one_v()), 2), add_v(pz, z)),
        ratv_eq(tcell(translate_v(x, y, z), lift4(px, py, pz, one_v()), 3), one_v()),
{
    let t = translate_v(x, y, z);
    let l = lift4(px, py, pz, one_v());
    let col = col_of(l, 0);
    assert(col =~= seq![px, py, pz, one_v()]);
    // row 0: [1, 0, 0, x] . [px, py, pz, 1]  ~  px + x
    assert(tcell(t, l, 0) == dot_spec(t[0], col));
    lemma_dot4(t[0], col);
    lemma_unit_ops(px);
    lemma_mul_zero_num(py, zero_v());
    lemma_mul_zero_num(pz, zero_v());
    lemma_unit_ops(x);
    lemma_wf_ops(zero_v(), py);
    lemma_wf_ops(zero_v(), pz);
    lemma_acc_zero(px, px, mul_v(zero_v(), py));
    lemma_wf_ops(px, mul_v(zero_v(), py));
    lemma_acc_zero(add_v(px, mul_v(zero_v(), py)), px, mul_v(zero_v(), pz));
    lemma_wf_ops(add_v(px, mul_v(zero_v(), py)), mul_v(zero_v(), pz));
    lemma_acc_add(add_v(add_v(px, mul_v(zero_v(), py)), mul_v(zero_v(), pz)), px, x);
    lemma_wf_ops(add_v(add_v(px, mul_v(zero_v(), py)), mul_v(zero_v(), pz)), x);
    lemma_ratv_eq_trans(
        dot_spec(t[0], col),
        add_v(add_v(add_v(px, mul_v(zero_v(), py)), mul_v(zero_v(), pz)), x),
        add_v(px, x),
    );
    // row 1: [0, 1, 0, y] . [px, py, pz, 1]  ~  py + y
    assert(tcell(t, l, 1) == dot_spec(t[1], col));
    lemma_dot4(t[1], col);
    lemma_mul_zero_num(px, zero_v());
    lemma_unit_ops(py);
    lemma_unit_ops(y);
    lemma_wf_ops(zero_v(), px);
    lemma_add_zero_left(mul_v(zero_v(), px), py);
    lemma_wf_ops(mul_v(zero_v(), px), py);
    lemma_acc_zero(add_v(mul_v(zero_v(), px), py), py, mul_v(zero_v(), pz));
    lemma_wf_ops(add_v(mul_v(zero_v(), px), py), mul_v(zero_v(), pz));
    lemma_acc_add(add_v(add_v(mul_v(zero_v(), px), py), mul_v(zero_v(), pz)), py, y);
    lemma_wf_ops(add_v(add_v(mul_v(zero_v(), px), py), mul_v(zero_v(), pz)), y);
    lemma_ratv_eq_trans(
        dot_spec(t[1], col),
        add_v(add_v(add_v(mul_v(zero_v(), px), py), mul_v(zero_v(), pz)), y),
        add_v(py, y),
    );
    // row 2: [0, 0, 1, z] . [px, py, pz, 1]  ~  pz + z
    assert(tcell(t, l, 2) == dot_spec(t[2], col));
    lemma_dot4(t[2], col);
    lemma_unit_ops(pz);
    lemma_unit_ops(z);
    assert(add_v(mul_v(zero_v(), px), mul_v(zero_v(), py)).n == 0);
    lemma_wf_ops(mul_v(zero_v(), px), mul_v(zero_v(), py));
    lemma_add_zero_left(add_v(mul_v(zero_v(), px), mul_v(zero_v(), py)), pz);
    lemma_wf_ops(add_v(mul_v(zero_v(), px), mul_v(zero_v(), py)), pz);
    lemma_acc_add(add_v(add_v(mul_v(zero_v(), px), mul_v(zero_v(), py)), pz), pz, z);
    lemma_wf_ops(add_v(add_v(mul_v(zero_v(), px), mul_v(zero_v(), py)), pz), z);
    lemma_ratv_eq_trans(
        dot_spec(t[2], col),
        add_v(add_v(add_v(mul_v(zero_v(), px), mul_v(zero_v(), py)), pz), z),
        add_v(pz, z),
    );
    // row 3: [0, 0, 0, 1] . [px, py, pz, 1]  ~  1
    assert(tcell(t, l, 3) == dot_spec(t[3], col));
    lemma_dot4(t[3], col);
    lemma_unit_ops(one_v());
    assert(add_v(mul_v(zero_v(), px), mul_v(zero_v(), py)).n == 0);
    assert(add_v(add_v(mul_v(zero_v(), px), mul_v(zero_v(), py)), mul_v(zero_v(), pz)).n == 0);
    lemma_wf_ops(add_v(mul_v(zero_v(), px), mul_v(zero_v(), py)), mul_v(zero_v(), pz));
    lemma_add_zero_left(
        add_v(add_v(mul_v(zero_v(), px), mul_v(zero_v(), py)), mul_v(zero_v(), pz)),
        one_v(),
    );
    lemma_wf_ops(
        add_v(add_v(mul_v(zero_v(), px), mul_v(zero_v(), py)), mul_v(zero_v(), pz)),
        one_v(),
    );
    lemma_ratv_eq_trans(
        dot_spec(t[3], col),
        add_v(
            add_v(add_v(mul_v(zero_v(), px), mul_v(zero_v(), py)), mul_v(zero_v(), pz)),
            one_v(),
        ),
        one_v(),
    );
}

/// What translation does to a lifted vector: nothing. The trailing 0 of a
/// direction erases the translation column, so a pure translation is the
/// identity on every vector.
pub proof fn lemma_translate_vec(x: Ratv, y: Ratv, z: Ratv, vx: Ratv, vy: Ratv, vz: Ratv)
    requires
        ratv_wf(x),
        ratv_wf(y),
        ratv_wf(z),
        ratv_wf(vx),
        ratv_wf(vy),
        ratv_wf(vz),
    ensures
        ratv_eq(tcell(translate_v(x, y, z), lift4(vx, vy, vz, zero_v()), 0), vx),
        ratv_eq(tcell(translate_v(x, y, z), lift4(vx, vy, vz, zero_v()), 1), vy),
        ratv_eq(tcell(translate_v(x, y, z), lift4(vx, vy, vz, zero_v()), 2), vz),
        ratv_eq(tcell(translate_v(x, y, z), lift4(vx, vy, vz, zero_v()), 3), zero_v()),
{
    let t = translate_v(x, y, z);
    let l = lift4(vx, vy, vz, zero_v());
    let col = col_of(l, 0);
    assert(col =~= seq![vx, vy, vz, zero_v()]);
    lemma_unit_ops(vx);
    lemma_unit_ops(vy);
    lemma_unit_ops(vz);
    lemma_mul_zero_num(vx, zero_v());
    lemma_mul_zero_num(vy, zero_v());
    lemma_mul_zero_num(vz, zero_v());
    lemma_mul_zero_num(x, zero_v());
    lemma_mul_zero_num(y, zero_v());
    lemma_mul_zero_num(z, zero_v());
    lemma_mul_zero_num(one_v(), zero_v());
    lemma_wf_ops(zero_v(), vx);
    lemma_wf_ops(zero_v(), vy);
    lemma_wf_ops(zero_v(), vz);
    lemma_wf_ops(x, zero_v());
    lemma_wf_ops(y, zero_v());
    lemma_wf_ops(z, zero_v());
    lemma_wf_ops(one_v(), zero_v());
    assert(tcell(t, l, 0) == dot_spec(t[0], col));
    lemma_dot4(t[0], col);
    lemma_sum4_pick(
        mul_v(one_v(), vx),
        mul_v(zero_v(), vy),
        mul_v(zero_v(), vz),
        mul_v(x, zero_v()),
        vx,
        0,
    );
    lemma_ratv_eq_trans(
        dot_spec(t[0], col),
        add_v(
            add_v(add_v(mul_v(one_v(), vx), mul_v(zero_v(), vy)), mul_v(zero_v(), vz)),
            mul_v(x, zero_v()),
        ),
        vx,
    );
    assert(tcell(t, l, 1) == dot_spec(t[1], col));
    lemma_dot4(t[1], col);
    lemma_sum4_pick(
        mul_v(zero_v(), vx),
        mul_v(one_v(), vy),
        mul_v(zero_v(), vz),
        mul_v(y, zero_v()),
        vy,
        1,
    );
    lemma_ratv_eq_trans(
        dot_spec(t[1], col),
        add_v(
            add_v(add_v(mul_v(zero_v(), vx), mul_v(one_v(), vy)), mul_v(zero_v(), vz)),
            mul_v(y, zero_v()),
        ),
        vy,
    );
    assert(tcell(t, l, 2) == dot_spec(t[2], col));
    lemma_dot4(t[2], col);
    lemma_sum4_pick(
        mul_v(zero_v(), vx),
        mul_v(zero_v(), vy),
        mul_v(one_v(), vz),
        mul_v(z, zero_v()),
        vz,
        2,
    );
    lemma_ratv_eq_trans(
        dot_spec(t[2], col),
        add_v(
            add_v(add_v(mul_v(zero_v(), vx), mul_v(zero_v(), vy)), mul_v(one_v(), vz)),
            mul_v(z, zero_v()),
        ),
        vz,
    );
    assert(tcell(t, l, 3) == dot_spec(t[3], col));
    lemma_dot4(t[3], col);
    lemma_sum4_pick(
        mul_v(zero_v(), vx),
        mul_v(zero_v(), vy),
        mul_v(zero_v(), vz),
        mul_v(one_v(), zero_v()),
        zero_v(),
        3,
    );
    lemma_ratv_eq_trans(
        dot_spec(t[3], col),
        add_v(
            add_v(add_v(mul_v(zero_v(), vx), mul_v(zero_v(), vy)), mul_v(zero_v(), vz)),
            mul_v(one_v(), zero_v()),
        ),
        zero_v(),
    );
}

/// What scaling does to a lifted point: each coordinate is multiplied by
/// its factor, and the trailing 1 is kept. The same multiplication reaches
/// a lifted vector (see `lemma_scale_vec`), since scaling has no
/// translation column.
pub proof fn lemma_scale_point(sx: Ratv, sy: Ratv, sz: Ratv, px: Ratv, py: Ratv, pz: Ratv)
    requires
        ratv_wf(sx),
        ratv_wf(sy),
        ratv_wf(sz),
        ratv_wf(px),
        ratv_wf(py),
        ratv_wf(pz),
    ensures
        ratv_eq(tcell(scale_v(sx, sy, sz), lift4(px, py, pz, one_v()), 0), mul_v(sx, px)),
        ratv_eq(tcell(scale_v(sx, sy, sz), lift4(px, py, pz, one_v()), 1), mul_v(sy, py)),
        ratv_eq(tcell(scale_v(sx, sy, sz), lift4(px, py, pz, one_v()), 2), mul_v(sz, pz)),
        ratv_eq(tcell(scale_v(sx, sy, sz), lift4(px, py, pz, one_v()), 3), one_v()),
{
    let t = scale_v(sx, sy, sz);
    let l = lift4(px, py, pz, one_v());
    let col = col_of(l, 0);
    assert(col =~= seq![px, py, pz, one_v()]);
    lemma_mul_zero_num(px, zero_v());
    lemma_mul_zero_num(py, zero_v());
    lemma_mul_zero_num(pz, zero_v());
    lemma_mul_zero_num(one_v(), zero_v());
    lemma_unit_ops(one_v());
    lemma_wf_ops(zero_v(), px);
    lemma_wf_ops(zero_v(), py);
    lemma_wf_ops(zero_v(), pz);
    lemma_wf_ops(zero_v(), one_v());
    lemma_wf_ops(sx, px);
    lemma_wf_ops(sy, py);
    lemma_wf_ops(sz, pz);
    lemma_wf_ops(one_v(), one_v());
    assert(tcell(t, l, 0) == dot_spec(t[0], col));
    lemma_dot4(t[0], col);
    lemma_sum4_pick(
        mul_v(sx, px),
        mul_v(zero_v(), py),
        mul_v(zero_v(), pz),
        mul_v(zero_v(), one_v()),
        mul_v(sx, px),
        0,
    );
    lemma_ratv_eq_trans(
        dot_spec(t[0], col),
        add_v(
            add_v(add_v(mul_v(sx, px), mul_v(zero_v(), py)), mul_v(zero_v(), pz)),
            mul_v(zero_v(), one_v()),
        ),
        mul_v(sx, px),
    );
    assert(tcell(t, l, 1) == dot_spec(t[1], col));
    lemma_dot4(t[1], col);
    lemma_sum4_pick(
        mul_v(zero_v(), px),
        mul_v(sy, py),
        mul_v(zero_v(), pz),
        mul_v(zero_v(), one_v()),
        mul_v(sy, py),
        1,
    );
    lemma_ratv_eq_trans(
        dot_spec(t[1], col),
        add_v(
            add_v(add_v(mul_v(zero_v(), px), mul_v(sy, py)), mul_v(zero_v(), pz)),
            mul_v(zero_v(), one_v()),
        ),
        mul_v(sy, py),
    );
    assert(tcell(t, l, 2) == dot_spec(t[2], col));
    lemma_dot4(t[2], col);
    lemma_sum4_pick(
        mul_v(zero_v(), px),
        mul_v(zero_v(), py),
        mul_v(sz, pz),
        mul_v(zero_v(), one_v()),
        mul_v(sz, pz),
        2,
    );
    lemma_ratv_eq_trans(
        dot_spec(t[2], col),
        add_v(
            add_v(add_v(mul_v(zero_v(), px), mul_v(zero_v(), py)), mul_v(sz, pz)),
            mul_v(zero_v(), one_v()),
        ),
        mul_v(sz, pz),
    );
    assert(tcell(t, l, 3) == dot_spec(t[3], col));
    lemma_dot4(t[3], col);
    lemma_sum4_pick(
        mul_v(zero_v(), px),
        mul_v(zero_v(), py),
        mul_v(zero_v(), pz),
        mul_v(one_v(), one_v()),
        one_v(),
        3,
    );
    lemma_ratv_eq_trans(
        dot_spec(t[3], col),
        add_v(
            add_v(add_v(mul_v(zero_v(), px), mul_v(zero_v(), py)), mul_v(zero_v(), pz)),
            mul_v(one_v(), one_v()),
        ),
        one_v(),
    );
}

/// What scaling does to a lifted vector: the same componentwise
/// multiplication as for points, with the trailing 0 kept.
pub proof fn lemma_scale_vec(sx: Ratv, sy: Ratv, sz: Ratv, vx: Ratv, vy: Ratv, vz: Ratv)
    requires
        ratv_wf(sx),
        ratv_wf(sy),
        ratv_wf(sz),
        ratv_wf(vx),
        ratv_wf(vy),
        ratv_wf(vz),
    ensures
        ratv_eq(tcell(scale_v(sx, sy, sz), lift4(vx, vy, vz, zero_v()), 0), mul_v(sx, vx)),
        ratv_eq(tcell(scale_v(sx, sy, sz), lift4(vx, vy, vz, zero_v()), 1), mul_v(sy, vy)),
        ratv_eq(tcell(scale_v(sx, sy, sz), lift4(vx, vy, vz, zero_v()), 2), mul_v(sz, vz)),
        ratv_eq(tcell(scale_v(sx, sy, sz), lift4(vx, vy, vz, zero_v()), 3), zero_v()),
{
    let t = scale_v(sx, sy, sz);
    let l = lift4(vx, vy, vz, zero_v());
    let col = col_of(l, 0);
    assert(col =~= seq![vx, vy, vz, zero_v()]);
    lemma_mul_zero_num(vx, zero_v());
    lemma_mul_zero_num(vy, zero_v());
    lemma_mul_zero_num(vz, zero_v());
    lemma_mul_zero_num(one_v(), zero_v());
    lemma_wf_ops(zero_v(), vx);
    lemma_wf_ops(zero_v(), vy);
    lemma_wf_ops(zero_v(), vz);
    lemma_wf_ops(one_v(), zero_v());
    lemma_wf_ops(sx, vx);
    lemma_wf_ops(sy, vy);
    lemma_wf_ops(sz, vz);
    assert(tcell(t, l, 0) == dot_spec(t[0], col));
    lemma_dot4(t[0], col);
    lemma_sum4_pick(
        mul_v(sx, vx),
        mul_v(zero_v(), vy),
        mul_v(zero_v(), vz),
        mul_v(zero_v(), zero_v()),
        mul_v(sx, vx),
        0,
    );
    lemma_ratv_eq_trans(
        dot_spec(t[0], col),
        add_v(
            add_v(add_v(mul_v(sx, vx), mul_v(zero_v(), vy)), mul_v(zero_v(), vz)),
            mul_v(zero_v(), zero_v()),
        ),
        mul_v(sx, vx),
    );
    assert(tcell(t, l, 1) == dot_spec(t[1], col));
    lemma_dot4(t[1], col);
    lemma_sum4_pick(
        mul_v(zero_v(), vx),
        mul_v(sy, vy),
        mul_v(zero_v(), vz),
        mul_v(zero_v(), zero_v()),
        mul_v(sy, vy),
        1,
    );
    lemma_ratv_eq_trans(
        dot_spec(t[1], col),
        add_v(
            add_v(add_v(mul_v(zero_v(), vx), mul_v(sy, vy)), mul_v(zero_v(), vz)),
            mul_v(zero_v(), zero_v()),
        ),
        mul_v(sy, vy),
    );
    assert(tcell(t, l, 2) == dot_spec(t[2], col));
    lemma_dot4(t[2], col);
    lemma_sum4_pick(
        mul_v(zero_v(), vx),
        mul_v(zero_v(), vy),
        mul_v(sz, vz),
        mul_v(zero_v(), zero_v()),
        mul_v(sz, vz),
        2,
    );
    lemma_ratv_eq_trans(
        dot_spec(t[2], col),
        add_v(
            add_v(add_v(mul_v(zero_v(), vx), mul_v(zero_v(), vy)), mul_v(sz, vz)),
            mul_v(zero_v(), zero_v()),
        ),
        mul_v(sz, vz),
    );
    assert(tcell(t, l, 3) == dot_spec(t[3], col));
    lemma_dot4(t[3], col);
    lemma_sum4_pick(
        mul_v(zero_v(), vx),
        mul_v(zero_v(), vy),
        mul_v(zero_v(), vz),
        mul_v(one_v(), zero_v()),
        zero_v(),
        3,
    );
    lemma_ratv_eq_trans(
        dot_spec(t[3], col),
        add_v(
            add_v(add_v(mul_v(zero_v(), vx), mul_v(zero_v(), vy)), mul_v(zero_v(), vz)),
            mul_v(one_v(), zero_v()),
        ),
        zero_v(),
    );
}

/// What an x-axis rotation with cosine `c` and sine `s` does to a lifted
/// point: the x coordinate is kept, and (y, z) becomes
/// (c y - s z, s y + c z). Rotating `Point(0, 1, 0)` by a quarter turn,
/// whose cosine is 0 and sine 1, therefore yields `Point(0, 0, 1)`.
pub proof fn lemma_rotate_x_point(c: Ratv, s: Ratv, px: Ratv, py: Ratv, pz: Ratv)
    requires
        ratv_wf(c),
        ratv_wf(s),
        ratv_wf(px),
        ratv_wf(py),
        ratv_wf(pz),
    ensures
        ratv_eq(tcell(rotate_x_v(c, s), lift4(px, py, pz, one_v()), 0), px),
        ratv_eq(
            tcell(rotate_x_v(c, s), lift4(px, py, pz, one_v()), 1),
            sub_v(mul_v(c, py), mul_v(s, pz)),
        ),
        ratv_eq(
            tcell(rotate_x_v(c, s), lift4(px, py, pz, one_v()), 2),
            add_v(mul_v(s, py), mul_v(c, pz)),
        ),
        ratv_eq(tcell(rotate_x_v(c, s), lift4(px, py, pz, one_v()), 3), one_v()),
{
    let t = rotate_x_v(c, s);
    let l = lift4(px, py, pz, one_v());
    let col = col_of(l, 0);
    assert(col =~= seq![px, py, pz, one_v()]);
    lemma_unit_ops(px);
    lemma_unit_ops(one_v());
    lemma_mul_zero_num(px, zero_v());
    lemma_mul_zero_num(py, zero_v());
    lemma_mul_zero_num(pz, zero_v());
    lemma_mul_zero_num(one_v(), zero_v());
    lemma_wf_ops(zero_v(), px);
    lemma_wf_ops(zero_v(), py);
    lemma_wf_ops(zero_v(), pz);
    lemma_wf_ops(zero_v(), one_v());
    lemma_wf_ops(one_v(), one_v());
    lemma_wf_ops(c, py);
    lemma_wf_ops(c, pz);
    lemma_wf_ops(s, py);
    lemma_wf_ops(s, pz);
    assert(ratv_wf(neg_v(s)));
    lemma_wf_ops(neg_v(s), pz);
    assert(tcell(t, l, 0) == dot_spec(t[0], col));
    lemma_dot4(t[0], col);
    lemma_sum4_pick(
        mul_v(one_v(), px),
        mul_v(zero_v(), py),
        mul_v(zero_v(), pz),
        mul_v(zero_v(), one_v()),
        px,
        0,
    );
    lemma_ratv_eq_trans(
        dot_spec(t[0], col),
        add_v(
            add_v(add_v(mul_v(one_v(), px), mul_v(zero_v(), py)), mul_v(zero_v(), pz)),
            mul_v(zero_v(), one_v()),
        ),
        px,
    );
    assert(tcell(t, l, 1) == dot_spec(t[1], col));
    lemma_dot4(t[1], col);
    lemma_sum4_pair(
        mul_v(zero_v(), px),
        mul_v(c, py),
        mul_v(neg_v(s), pz),
        mul_v(zero_v(), one_v()),
        mul_v(c, py),
        mul_v(neg_v(s), pz),
        1,
        2,
    );
    lemma_mul_neg_left(s, pz);
    lemma_add_neg_is_sub(mul_v(c, py), mul_v(s, pz));
    lemma_ratv_eq_trans(
        dot_spec(t[1], col),
        add_v(
            add_v(add_v(mul_v(zero_v(), px), mul_v(c, py)), mul_v(neg_v(s), pz)),
            mul_v(zero_v(), one_v()),
        ),
        sub_v(mul_v(c, py), mul_v(s, pz)),
    );
    assert(tcell(t, l, 2) == dot_spec(t[2], col));
    lemma_dot4(t[2], col);
    lemma_sum4_pair(
        mul_v(zero_v(), px),
        mul_v(s, py),
        mul_v(c, pz),
        mul_v(zero_v(), one_v()),
        mul_v(s, py),
        mul_v(c, pz),
        1,
        2,
    );
    lemma_ratv_eq_trans(
        dot_spec(t[2], col),
        add_v(
            add_v(add_v(mul_v(zero_v(), px), mul_v(s, py)), mul_v(c, pz)),
            mul_v(zero_v(), one_v()),
        ),
        add_v(mul_v(s, py), mul_v(c, pz)),
    );
    assert(tcell(t, l, 3) == dot_spec(t[3], col));
    lemma_dot4(t[3], col);
    lemma_sum4_pick(
        mul_v(zero_v(), px),
        mul_v(zero_v(), py),
        mul_v(zero_v(), pz),
        mul_v(one_v(), one_v()),
        one_v(),
        3,
    );
    lemma_ratv_eq_trans(
        dot_spec(t[3], col),
        add_v(
            add_v(add_v(mul_v(zero_v(), px), mul_v(zero_v(), py)), mul_v(zero_v(), pz)),
            mul_v(one_v(), one_v()),
        ),
        one_v(),
    );
}

/// A full-circle rotation about any single axis is the identity transform:
/// a full circle has cosine 1 and sine 0, each axis-rotation grid built
/// from that pair is exactly the identity grid, and carrying any lifted
/// entity through the identity returns its own column values.
pub proof fn lemma_full_circle_rotation(a: Ratv, b: Ratv, c: Ratv, w: Ratv)
    requires
        rat_fits(a),
        rat_fits(b),
        rat_fits(c),
        rat_fits(w),
    ensures
        rotate_x_v(one_v(), zero_v()) == id_v(4),
        rotate_y_v(one_v(), zero_v()) == id_v(4),
        rotate_z_v(one_v(), zero_v()) == id_v(4),
        ratv_eq(tcell(id_v(4), lift4(a, b, c, w), 0), a),
        ratv_eq(tcell(id_v(4), lift4(a, b, c, w), 1), b),
        ratv_eq(tcell(id_v(4), lift4(a, b, c, w), 2), c),
        ratv_eq(tcell(id_v(4), lift4(a, b, c, w), 3), w),
{
    assert(neg_v(zero_v()) == zero_v());
    assert forall|i: int| 0 <= i < 4 implies #[trigger] rotate_x_v(one_v(), zero_v())[i] =~= id_v(
        4,
    )[i] by {
        assert forall|j: int| 0 <= j < 4 implies #[trigger] rotate_x_v(one_v(), zero_v())[i][j]
            == id_v(4)[i][j] by {
            if i == 0 {
            } else if i == 1 {
            } else if i == 2 {
            }
        }
    }
    assert(rotate_x_v(one_v(), zero_v()) =~= id_v(4));
    assert forall|i: int| 0 <= i < 4 implies #[trigger] rotate_y_v(one_v(), zero_v())[i] =~= id_v(
        4,
    )[i] by {
        assert forall|j: int| 0 <= j < 4 implies #[trigger] rotate_y_v(one_v(), zero_v())[i][j]
            == id_v(4)[i][j] by {
            if i == 0 {
            } else if i == 1 {
            } else if i == 2 {
            }
        }
    }
    assert(rotate_y_v(one_v(), zero_v()) =~= id_v(4));
    assert forall|i: int| 0 <= i < 4 implies #[trigger] rotate_z_v(one_v(), zero_v())[i] =~= id_v(
        4,
    )[i] by {
        assert forall|j: int| 0 <= j < 4 implies #[trigger] rotate_z_v(one_v(), zero_v())[i][j]
            == id_v(4)[i][j] by {
            if i == 0 {
            } else if i == 1 {
            } else if i == 2 {
            }
        }
    }
    assert(rotate_z_v(one_v(), zero_v()) =~= id_v(4));
    let l = lift4(a, b, c, w);
    assert forall|i: int| 0 <= i < 4 implies (#[trigger] l[i]).len() == 1 by {
        if i == 0 {
        } else if i == 1 {
        } else if i == 2 {
        }
    }
    assert forall|i: int, j: int|
        0 <= i < l.len() && 0 <= j < l[i].len() implies rat_fits(#[trigger] l[i][j]) by {
        if i == 0 {
        } else if i == 1 {
        } else if i == 2 {
        }
    }
    crate::matrix::lemma_mul_identity_left(l, 1);
}

/// Translation composed with its own inverse is the identity on points:
/// translating by (x, y, z) and then by (-x, -y, -z) returns every point
/// to where it started. Vectors are already untouched by either step (see
/// `lemma_translate_vec`).
pub proof fn lemma_translate_roundtrip(x: Ratv, y: Ratv, z: Ratv, px: Ratv, py: Ratv, pz: Ratv)
    requires
        ratv_wf(x),
        ratv_wf(y),
        ratv_wf(z),
        ratv_wf(px),
        ratv_wf(py),
        ratv_wf(pz),
    ensures
        ratv_eq(
            tcell(
                translate_v(neg_v(x), neg_v(y), neg_v(z)),
                lift4(
                    tcell(translate_v(x, y, z), lift4(px, py, pz, one_v()), 0),
                    tcell(translate_v(x, y, z), lift4(px, py, pz, one_v()), 1),
                    tcell(translate_v(x, y, z), lift4(px, py, pz, one_v()), 2),
                    one_v(),
                ),
                0,
            ),
            px,
        ),
        ratv_eq(
            tcell(
                translate_v(neg_v(x), neg_v(y), neg_v(z)),
                lift4(
                    tcell(translate_v(x, y, z), lift4(px, py, pz, one_v()), 0),
                    tcell(translate_v(x, y, z), lift4(px, py, pz, one_v()), 1),
                    tcell(translate_v(x, y, z), lift4(px, py, pz, one_v()), 2),
                    one_v(),
                ),
                1,
            ),
            py,
        ),
        ratv_eq(
            tcell(
                translate_v(neg_v(x), neg_v(y), neg_v(z)),
                lift4(
                    tcell(translate_v(x, y, z), lift4(px, py, pz, one_v()), 0),
                    tcell(translate_v(x, y, z), lift4(px, py, pz, one_v()), 1),
                    tcell(translate_v(x, y, z), lift4(px, py, pz, one_v()), 2),
                    one_v(),
                ),
                2,
            ),
            pz,
        ),
{
    lemma_translate_point(x, y, z, px, py, pz);
    let q0 = tcell(translate_v(x, y, z), lift4(px, py, pz, one_v()), 0);
    let q1 = tcell(translate_v(x, y, z), lift4(px, py, pz, one_v()), 1);
    let q2 = tcell(translate_v(x, y, z), lift4(px, py, pz, one_v()), 2);
    lemma_translate_point(neg_v(x), neg_v(y), neg_v(z), q0, q1, q2);
    lemma_add_congr(q0, add_v(px, x), neg_v(x), neg_v(x));
    lemma_add_congr(q1, add_v(py, y), neg_v(y), neg_v(y));
    lemma_add_congr(q2, add_v(pz, z), neg_v(z), neg_v(z));
    lemma_add_neg(px, x);
    lemma_add_neg(py, y);
    lemma_add_neg(pz, z);
    lemma_wf_ops(q0, neg_v(x));
    lemma_wf_ops(q1, neg_v(y));
    lemma_wf_ops(q2, neg_v(z));
    lemma_wf_ops(px, x);
    lemma_wf_ops(py, y);
    lemma_wf_ops(pz, z);
    lemma_wf_ops(add_v(px, x), neg_v(x));
    lemma_wf_ops(add_v(py, y), neg_v(y));
    lemma_wf_ops(add_v(pz, z), neg_v(z));
    lemma_ratv_eq_trans(
        tcell(
            translate_v(neg_v(x), neg_v(y), neg_v(z)),
            lift4(q0, q1, q2, one_v()),
            0,
        ),
        add_v(q0, neg_v(x)),
        add_v(add_v(px, x), neg_v(x)),
    );
    lemma_ratv_eq_trans(
        tcell(
            translate_v(neg_v(x), neg_v(y), neg_v(z)),
            lift4(q0, q1, q2, one_v()),
            0,
        ),
        add_v(add_v(px, x), neg_v(x)),
        px,
    );
    lemma_ratv_eq_trans(
        tcell(
            translate_v(neg_v(x), neg_v(y), neg_v(z)),
            lift4(q0, q1, q2, one_v()),
            1,
        ),
        add_v(q1, neg_v(y)),
        add_v(add_v(py, y), neg_v(y)),
    );
    lemma_ratv_eq_trans(
        tcell(
            translate_v(neg_v(x), neg_v(y), neg_v(z)),
            lift4(q0, q1, q2, one_v()),
            1,
        ),
        add_v(add_v(py, y), neg_v(y)),
        py,
    );
    lemma_ratv_eq_trans(
        tcell(
            translate_v(neg_v(x), neg_v(y), neg_v(z)),
            lift4(q0, q1, q2, one_v()),
            2,
        ),
        add_v(q2, neg_v(z)),
        add_v(add_v(pz, z), neg_v(z)),
    );
    lemma_ratv_eq_trans(
        tcell(
            translate_v(neg_v(x), neg_v(y), neg_v(z)),
            lift4(q0, q1, q2, one_v()),
            2,
        ),
        add_v(add_v(pz, z), neg_v(z)),
        pz,
    );
}

} // verus!
