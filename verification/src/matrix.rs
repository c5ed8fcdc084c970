//! The fixed-dimension matrix engine: construction, iteration, transpose,
//! multiplication and in-place Gauss-Jordan inversion.
//!
//! Dimensions are carried as immutable fields fixed at construction, and
//! every operation states its dimension compatibility as a precondition.

use vstd::prelude::*;

use crate::rat::{
    Rat, Ratv, abs_v, add_ok, add_v, div_ok, div_v, mul_ok, mul_v, neg_v, norm, one_v, rat_fits,
    ratv_eq, ratv_le, ratv_wf, sub_ok, sub_v, zero_v, lemma_norm, lemma_norm_mul, lemma_wf_ops,
    lemma_ratv_eq_trans, lemma_add_congr, lemma_norm_shrink, lemma_norm_zero_num,
    lemma_add_zero_right, lemma_unit_ops, lemma_mul_zero_num,
};
use crate::vec3::rat_close;

verus! {

/// The values held by one row.
pub open spec fn seq_view(row: Vec<Rat>) -> Seq<Ratv> {
    row@.map(|j: int, x: Rat| x@)
}

/// The grid of rational values held by a matrix.
pub open spec fn grid_view(data: Vec<Vec<Rat>>) -> Seq<Seq<Ratv>> {
    data@.map(|i: int, row: Vec<Rat>| seq_view(row))
}

/// `m` is an `r` by `c` grid.
pub open spec fn mat_dims(m: Seq<Seq<Ratv>>, r: int, c: int) -> bool {
    m.len() == r && forall|i: int| 0 <= i < r ==> (#[trigger] m[i]).len() == c
}

/// Every entry is a well-formed fraction within machine range.
pub open spec fn mat_wf(m: Seq<Seq<Ratv>>) -> bool {
    forall|i: int, j: int|
        0 <= i < m.len() && 0 <= j < m[i].len() ==> rat_fits(#[trigger] m[i][j])
}

/// The identity grid of size `n`: 1 on the diagonal, 0 elsewhere.
pub open spec fn id_v(n: int) -> Seq<Seq<Ratv>> {
    Seq::new(
        n as nat,
        |i: int| Seq::new(n as nat, |j: int| if i == j { one_v() } else { zero_v() }),
    )
}

/// The transposed grid: entry `(i, j)` is `m[j][i]`.
pub open spec fn transpose_v(m: Seq<Seq<Ratv>>, cols: int) -> Seq<Seq<Ratv>> {
    Seq::new(cols as nat, |i: int| Seq::new(m.len(), |j: int| m[j][i]))
}

/// Row-major flattening of an `r` by `c` grid.
pub open spec fn elems_v(m: Seq<Seq<Ratv>>, cols: int) -> Seq<Ratv> {
    Seq::new((m.len() * cols) as nat, |k: int| m[k / cols][k % cols])
}

/// The running value of a dot product over the first `k` positions:
/// each product and each partial sum is renormalized, exactly as the
/// executable multiplication computes it.
pub open spec fn dot_prefix(row: Seq<Ratv>, col: Seq<Ratv>, k: int) -> Ratv
    decreases k,
{
    if k <= 0 {
        zero_v()
    } else {
        norm(add_v(dot_prefix(row, col, k - 1), norm(mul_v(row[k - 1], col[k - 1]))))
    }
}

/// The dot product of a full row and column.
pub open spec fn dot_spec(row: Seq<Ratv>, col: Seq<Ratv>) -> Ratv {
    dot_prefix(row, col, row.len() as int)
}

/// Every renormalized intermediate of the dot product over the first `k`
/// positions fits into machine words.
pub open spec fn dot_prefix_ok(row: Seq<Ratv>, col: Seq<Ratv>, k: int) -> bool
    decreases k,
{
    if k <= 0 {
        true
    } else {
        &&& dot_prefix_ok(row, col, k - 1)
        &&& mul_ok(row[k - 1], col[k - 1])
        &&& add_ok(dot_prefix(row, col, k - 1), norm(mul_v(row[k - 1], col[k - 1])))
    }
}

pub open spec fn dot_ok(row: Seq<Ratv>, col: Seq<Ratv>) -> bool {
    dot_prefix_ok(row, col, row.len() as int)
}

/// Column `c` of a grid.
pub open spec fn col_of(m: Seq<Seq<Ratv>>, c: int) -> Seq<Ratv> {
    Seq::new(m.len(), |k: int| m[k][c])
}

/// The matrix product: entry `(r, c)` is the dot product of row `r` of `a`
/// and column `c` of `b`.
pub open spec fn mmul_v(a: Seq<Seq<Ratv>>, b: Seq<Seq<Ratv>>, bcols: int) -> Seq<Seq<Ratv>> {
    Seq::new(a.len(), |r: int| Seq::new(bcols as nat, |c: int| dot_spec(a[r], col_of(b, c))))
}

pub open spec fn mmul_ok(a: Seq<Seq<Ratv>>, b: Seq<Seq<Ratv>>, bcols: int) -> bool {
    forall|r: int, c: int|
        0 <= r < a.len() && 0 <= c < bcols ==> #[trigger] dot_ok(a[r], col_of(b, c))
}

proof fn lemma_dot_ok_prefix(row: Seq<Ratv>, col: Seq<Ratv>, k: int, n: int)
    requires
        0 <= k <= n,
        dot_prefix_ok(row, col, n),
    ensures
        dot_prefix_ok(row, col, k),
    decreases n - k,
{
    if k < n {
        lemma_dot_ok_prefix(row, col, k, n - 1);
    }
}

/// One Gauss-Jordan elimination step, expressed cell by cell as a function
/// of the matrix before the step; `p` is the pivot index.
pub open spec fn gj_cell(m: Seq<Seq<Ratv>>, p: int, i: int, j: int) -> Ratv {
    let piv = m[p][p];
    if i == p && j == p {
        norm(div_v(one_v(), piv))
    } else if i == p {
        norm(div_v(m[p][j], piv))
    } else if j == p {
        norm(div_v(neg_v(m[i][p]), piv))
    } else {
        norm(add_v(m[i][j], norm(mul_v(m[p][j], norm(div_v(neg_v(m[i][p]), piv))))))
    }
}

/// Every renormalized intermediate of one elimination cell fits, and the
/// pivot it divides by is nonzero.
pub open spec fn gj_cell_ok(m: Seq<Seq<Ratv>>, p: int, i: int, j: int) -> bool {
    let piv = m[p][p];
    if i == p && j == p {
        div_ok(one_v(), piv)
    } else if i == p {
        div_ok(m[p][j], piv)
    } else if j == p {
        div_ok(neg_v(m[i][p]), piv)
    } else {
        &&& div_ok(neg_v(m[i][p]), piv)
        &&& mul_ok(m[p][j], norm(div_v(neg_v(m[i][p]), piv)))
        &&& add_ok(m[i][j], norm(mul_v(m[p][j], norm(div_v(neg_v(m[i][p]), piv)))))
    }
}

pub open spec fn gj_step(m: Seq<Seq<Ratv>>, p: int, n: int) -> Seq<Seq<Ratv>> {
    Seq::new(n as nat, |i: int| Seq::new(n as nat, |j: int| gj_cell(m, p, i, j)))
}

pub open spec fn gj_step_ok(m: Seq<Seq<Ratv>>, p: int, n: int) -> bool {
    forall|i: int, j: int| 0 <= i < n && 0 <= j < n ==> gj_cell_ok(m, p, i, j)
}

/// The matrix after the first `k` elimination steps.
pub open spec fn gj_iter(m: Seq<Seq<Ratv>>, k: int, n: int) -> Seq<Seq<Ratv>>
    decreases k,
{
    if k <= 0 {
        m
    } else {
        gj_step(gj_iter(m, k - 1, n), k - 1, n)
    }
}

/// All `k` elimination steps meet a nonzero pivot and stay within machine
/// words. This is the non-singularity precondition of `inverse`.
pub open spec fn gj_ok(m: Seq<Seq<Ratv>>, k: int, n: int) -> bool
    decreases k,
{
    if k <= 0 {
        true
    } else {
        gj_ok(m, k - 1, n) && gj_step_ok(gj_iter(m, k - 1, n), k - 1, n)
    }
}

/// The in-place Gauss-Jordan inverse of an `n` by `n` grid.
pub open spec fn inverse_v(m: Seq<Seq<Ratv>>, n: int) -> Seq<Seq<Ratv>> {
    gj_iter(m, n, n)
}

proof fn lemma_gj_ok_prefix(m: Seq<Seq<Ratv>>, k: int, kk: int, n: int)
    requires
        0 <= k <= kk,
        gj_ok(m, kk, n),
    ensures
        gj_ok(m, k, n),
    decreases kk - k,
{
    if k < kk {
        lemma_gj_ok_prefix(m, k, kk - 1, n);
    }
}

/// Grids of equal dimensions whose corresponding entries are equal
/// rationals.
pub open spec fn mat_eq_v(a: Seq<Seq<Ratv>>, b: Seq<Seq<Ratv>>) -> bool {
    &&& a.len() == b.len()
    &&& forall|i: int| 0 <= i < a.len() ==> (#[trigger] a[i]).len() == b[i].len()
    &&& forall|i: int, j: int|
        0 <= i < a.len() && 0 <= j < a[i].len() ==> ratv_eq(#[trigger] a[i][j], b[i][j])
}

/// A matrix of rational scalars with dimensions fixed at construction.
#[derive(Clone, Debug)]
pub struct Matrix {
    cols: usize,
    data: Vec<Vec<Rat>>,
}

impl View for Matrix {
    type V = Seq<Seq<Ratv>>;

    closed spec fn view(&self) -> Seq<Seq<Ratv>> {
        grid_view(self.data)
    }
}

impl Matrix {
    /// The column count fixed at construction.
    pub closed spec fn spec_cols(&self) -> int {
        self.cols as int
    }

    /// A well-formed matrix is a nonempty rectangular grid of well-formed
    /// machine scalars, consistent with its recorded column count.
    pub open spec fn wf(self) -> bool {
        &&& self@.len() >= 1
        &&& self.spec_cols() >= 1
        &&& mat_dims(self@, self@.len() as int, self.spec_cols())
        &&& mat_wf(self@)
    }

    /// Builds a matrix from a nonempty rectangular grid of scalars.
    pub fn new(data: Vec<Vec<Rat>>) -> (m: Matrix)
        requires
            grid_view(data).len() >= 1,
            grid_view(data)[0].len() >= 1,
            forall|i: int|
                0 <= i < grid_view(data).len() ==> (#[trigger] grid_view(data)[i]).len()
                    == grid_view(data)[0].len(),
            mat_wf(grid_view(data)),
        ensures
            m.wf(),
            m@ == grid_view(data),
            m.spec_cols() == grid_view(data)[0].len(),
    {
        let cols = data[0].len();
        Matrix { cols, data }
    }

    pub fn nrows(&self) -> (r: usize)
        ensures
            r == self@.len(),
    {
        self.data.len()
    }

    pub fn ncols(&self) -> (r: usize)
        ensures
            r as int == self.spec_cols(),
    {
        self.cols
    }

    /// The entry in row `r`, column `c`.
    pub fn at(&self, r: usize, c: usize) -> (x: Rat)
        requires
            self.wf(),
            (r as int) < self@.len(),
            (c as int) < self.spec_cols(),
        ensures
            x@ == self@[r as int][c as int],
            x.wf(),
    {
        proof {
            assert(self@[r as int] == seq_view(self.data@[r as int]));
            assert(self@[r as int][c as int] == self.data@[r as int]@[c as int]@);
        }
        self.data[r][c]
    }

    /// The identity matrix of size `t`: 1 on the diagonal, 0 elsewhere.
    pub fn identity(t: usize) -> (m: Matrix)
        requires
            t >= 1,
        ensures
            m.wf(),
            m@ == id_v(t as int),
            m.spec_cols() == t as int,
    {
        let mut data: Vec<Vec<Rat>> = Vec::new();
        let mut i: usize = 0;
        while i < t
            invariant
                i <= t,
                data@.len() == i,
                forall|a: int| 0 <= a < i ==> seq_view(#[trigger] data@[a]) == id_v(t as int)[a],
            decreases t - i,
        {
            let mut row: Vec<Rat> = Vec::new();
            let mut j: usize = 0;
            while j < t
                invariant
                    j <= t,
                    i < t,
                    row@.len() == j,
                    forall|b: int|
                        0 <= b < j ==> (#[trigger] row@[b])@ == (if b == i as int {
                            one_v()
                        } else {
                            zero_v()
                        }),
                decreases t - j,
            {
                if j == i {
                    row.push(Rat::one());
                } else {
                    row.push(Rat::zero());
                }
                j += 1;
            }
            proof {
                assert forall|b: int| 0 <= b < t as int implies seq_view(row)[b] == id_v(
                    t as int,
                )[i as int][b] by {
                    assert(seq_view(row)[b] == row@[b]@);
                }
                assert(seq_view(row) =~= id_v(t as int)[i as int]);
            }
            data.push(row);
            i += 1;
        }
        proof {
            assert forall|a: int| 0 <= a < t as int implies grid_view(data)[a] == id_v(
                t as int,
            )[a] by {
                assert(grid_view(data)[a] == seq_view(data@[a]));
            }
            assert(grid_view(data) =~= id_v(t as int));
        }
        Matrix { cols: t, data }
    }

    /// A matrix of the given dimensions with every entry equal to `v`.
    pub fn fill(rows: usize, cols: usize, v: Rat) -> (m: Matrix)
        requires
            rows >= 1,
            cols >= 1,
            v.wf(),
        ensures
            m.wf(),
            m@ == Seq::new(rows as nat, |i: int| Seq::new(cols as nat, |j: int| v@)),
            m.spec_cols() == cols as int,
    {
        let ghost target = Seq::new(rows as nat, |i: int| Seq::new(cols as nat, |j: int| v@));
        let mut data: Vec<Vec<Rat>> = Vec::new();
        let mut i: usize = 0;
        while i < rows
            invariant
                i <= rows,
                data@.len() == i,
                v.wf(),
                target == Seq::new(rows as nat, |i: int| Seq::new(cols as nat, |j: int| v@)),
                forall|a: int| 0 <= a < i ==> seq_view(#[trigger] data@[a]) == target[a],
            decreases rows - i,
        {
            let mut row: Vec<Rat> = Vec::new();
            let mut j: usize = 0;
            while j < cols
                invariant
                    j <= cols,
                    row@.len() == j,
                    v.wf(),
                    forall|b: int| 0 <= b < j ==> (#[trigger] row@[b])@ == v@,
                decreases cols - j,
            {
                row.push(v);
                j += 1;
            }
            proof {
                assert forall|b: int| 0 <= b < cols as int implies seq_view(row)[b] == target[
                    i as int
                ][b] by {
                    assert(seq_view(row)[b] == row@[b]@);
                }
                assert(seq_view(row) =~= target[i as int]);
            }
            data.push(row);
            i += 1;
        }
        proof {
            assert forall|a: int| 0 <= a < rows as int implies grid_view(data)[a] == target[a] by {
                assert(grid_view(data)[a] == seq_view(data@[a]));
            }
            assert(grid_view(data) =~= target);
        }
        Matrix { cols, data }
    }

    /// One row, as a fresh vector of scalars.
    pub fn row(&self, i: usize) -> (r: Vec<Rat>)
        requires
            self.wf(),
            (i as int) < self@.len(),
        ensures
            seq_view(r) == self@[i as int],
    {
        let mut out: Vec<Rat> = Vec::new();
        let mut j: usize = 0;
        let n = self.ncols();
        while j < n
            invariant
                j <= n,
                self.wf(),
                (i as int) < self@.len(),
                n as int == self.spec_cols(),
                out@.len() == j,
                forall|b: int| 0 <= b < j ==> (#[trigger] out@[b])@ == self@[i as int][b],
            decreases n - j,
        {
            out.push(self.at(i, j));
            j += 1;
        }
        proof {
            assert forall|b: int| 0 <= b < n as int implies seq_view(out)[b] == self@[i as int][b]
            by {
                assert(seq_view(out)[b] == out@[b]@);
            }
            assert(seq_view(out) =~= self@[i as int]);
        }
        out
    }

    /// The sequence of rows, each a fresh vector; row order preserved.
    pub fn rows(&self) -> (r: Vec<Vec<Rat>>)
        requires
            self.wf(),
        ensures
            grid_view(r) == self@,
    {
        let mut out: Vec<Vec<Rat>> = Vec::new();
        let mut i: usize = 0;
        let n = self.nrows();
        while i < n
            invariant
                i <= n,
                self.wf(),
                n == self@.len(),
                out@.len() == i,
                forall|a: int| 0 <= a < i ==> seq_view(#[trigger] out@[a]) == self@[a],
            decreases n - i,
        {
            out.push(self.row(i));
            i += 1;
        }
        proof {
            assert forall|a: int| 0 <= a < n as int implies grid_view(out)[a] == self@[a] by {
                assert(grid_view(out)[a] == seq_view(out@[a]));
            }
            assert(grid_view(out) =~= self@);
        }
        out
    }

    /// The matrix with row and column roles exchanged.
    pub fn transpose(&self) -> (m: Matrix)
        requires
            self.wf(),
        ensures
            m.wf(),
            m@ == transpose_v(self@, self.spec_cols()),
            m.spec_cols() == self@.len(),
    {
        let ghost target = transpose_v(self@, self.spec_cols());
        let rows = self.nrows();
        let cols = self.ncols();
        let mut data: Vec<Vec<Rat>> = Vec::new();
        let mut i: usize = 0;
        while i < cols
            invariant
                i <= cols,
                self.wf(),
                rows == self@.len(),
                cols as int == self.spec_cols(),
                target == transpose_v(self@, self.spec_cols()),
                data@.len() == i,
                forall|a: int| 0 <= a < i ==> seq_view(#[trigger] data@[a]) == target[a],
            decreases cols - i,
        {
            let mut row: Vec<Rat> = Vec::new();
            let mut j: usize = 0;
            while j < rows
                invariant
                    j <= rows,
                    i < cols,
                    self.wf(),
                    rows == self@.len(),
                    cols as int == self.spec_cols(),
                    row@.len() == j,
                    forall|b: int| 0 <= b < j ==> (#[trigger] row@[b])@ == self@[b][i as int],
                decreases rows - j,
            {
                row.push(self.at(j, i));
                j += 1;
            }
            proof {
                assert forall|b: int| 0 <= b < rows as int implies seq_view(row)[b] == target[
                    i as int
                ][b] by {
                    assert(seq_view(row)[b] == row@[b]@);
                }
                assert(seq_view(row) =~= target[i as int]);
            }
            data.push(row);
            i += 1;
        }
        proof {
            assert forall|a: int| 0 <= a < cols as int implies grid_view(data)[a] == target[a] by {
                assert(grid_view(data)[a] == seq_view(data@[a]));
            }
            assert(grid_view(data) =~= target);
        }
        Matrix { cols: rows, data }
    }

    /// The sequence of columns, each a fresh vector; column order preserved.
    pub fn cols(&self) -> (r: Vec<Vec<Rat>>)
        requires
            self.wf(),
        ensures
            grid_view(r) == transpose_v(self@, self.spec_cols()),
    {
        self.transpose().rows()
    }

    /// Row-major flattening of the entries.
    pub fn elements(&self) -> (r: Vec<Rat>)
        requires
            self.wf(),
        ensures
            seq_view(r) == elems_v(self@, self.spec_cols()),
    {
        let rows = self.nrows();
        let cols = self.ncols();
        let mut out: Vec<Rat> = Vec::new();
        let mut i: usize = 0;
        while i < rows
            invariant
                i <= rows,
                self.wf(),
                rows == self@.len(),
                cols as int == self.spec_cols(),
                out@.len() == i * cols,
                forall|k: int|
                    0 <= k < i * cols ==> (#[trigger] out@[k])@ == self@[k / (cols as int)][k % (
                    cols as int)],
            decreases rows - i,
        {
            let mut j: usize = 0;
            while j < cols
                invariant
                    j <= cols,
                    i < rows,
                    self.wf(),
                    rows == self@.len(),
                    cols as int == self.spec_cols(),
                    out@.len() == i * cols + j,
                    forall|k: int|
                        0 <= k < i * cols + j ==> (#[trigger] out@[k])@ == self@[k / (cols as int)][
                        k % (cols as int)],
                decreases cols - j,
            {
                out.push(self.at(i, j));
                proof {
                    let c = cols as int;
                    vstd::arithmetic::div_mod::lemma_fundamental_div_mod_converse(
                        i * c + j,
                        c,
                        i as int,
                        j as int,
                    );
                }
                j += 1;
            }
            i += 1;
            proof {
                assert(i * cols as int == (i - 1) * cols as int + cols as int) by (nonlinear_arith);
            }
        }
        proof {
            let c = self.spec_cols();
            assert forall|k: int| 0 <= k < self@.len() * c implies seq_view(out)[k] == elems_v(
                self@,
                c,
            )[k] by {
                assert(seq_view(out)[k] == out@[k]@);
            }
            assert(seq_view(out) =~= elems_v(self@, self.spec_cols()));
        }
        out
    }

    /// Epsilon comparison: corresponding entries of the two flattened grids
    /// differ by at most `epsilon` in absolute value.
    pub fn abs_diff_eq(&self, other: &Matrix, epsilon: Rat) -> (r: bool)
        requires
            self.wf(),
            other.wf(),
            epsilon.wf(),
            self@.len() == other@.len(),
            self.spec_cols() == other.spec_cols(),
            forall|i: int, j: int|
                0 <= i < self@.len() && 0 <= j < self.spec_cols() ==> sub_ok(
                    #[trigger] self@[i][j],
                    #[trigger] other@[i][j],
                ),
        ensures
            r == (forall|i: int, j: int|
                0 <= i < self@.len() && 0 <= j < self.spec_cols() ==> ratv_le(
                    abs_v(sub_v(#[trigger] self@[i][j], #[trigger] other@[i][j])),
                    epsilon@,
                )),
    {
        let rows = self.nrows();
        let cols = self.ncols();
        let mut i: usize = 0;
        while i < rows
            invariant
                i <= rows,
                self.wf(),
                other.wf(),
                epsilon.wf(),
                rows == self@.len(),
                cols as int == self.spec_cols(),
                self@.len() == other@.len(),
                self.spec_cols() == other.spec_cols(),
                forall|a: int, b: int|
                    0 <= a < self@.len() && 0 <= b < self.spec_cols() ==> sub_ok(
                        #[trigger] self@[a][b],
                        #[trigger] other@[a][b],
                    ),
                forall|a: int, b: int|
                    0 <= a < i && 0 <= b < self.spec_cols() ==> ratv_le(
                        abs_v(sub_v(#[trigger] self@[a][b], #[trigger] other@[a][b])),
                        epsilon@,
                    ),
            decreases rows - i,
        {
            let mut j: usize = 0;
            while j < cols
                invariant
                    j <= cols,
                    i < rows,
                    self.wf(),
                    other.wf(),
                    epsilon.wf(),
                    rows == self@.len(),
                    cols as int == self.spec_cols(),
                    self@.len() == other@.len(),
                    self.spec_cols() == other.spec_cols(),
                    forall|a: int, b: int|
                        0 <= a < self@.len() && 0 <= b < self.spec_cols() ==> sub_ok(
                            #[trigger] self@[a][b],
                            #[trigger] other@[a][b],
                        ),
                    forall|a: int, b: int|
                        0 <= a < i && 0 <= b < self.spec_cols() ==> ratv_le(
                            abs_v(sub_v(#[trigger] self@[a][b], #[trigger] other@[a][b])),
                            epsilon@,
                        ),
                    forall|b: int|
                        0 <= b < j ==> ratv_le(
                            abs_v(sub_v(#[trigger] self@[i as int][b], other@[i as int][b])),
                            epsilon@,
                        ),
                decreases cols - j,
            {
                if !rat_close(self.at(i, j), other.at(i, j), epsilon) {
                    return false;
                }
                j += 1;
            }
            i += 1;
        }
        true
    }

    /// The matrix product `self * rhs`. The inner dimensions must agree;
    /// entry `(r, c)` is the dot product of row `r` of `self` and column
    /// `c` of `rhs`.
    pub fn mul(&self, rhs: &Matrix) -> (m: Matrix)
        requires
            self.wf(),
            rhs.wf(),
            self.spec_cols() == rhs@.len(),
            mmul_ok(self@, rhs@, rhs.spec_cols()),
        ensures
            m.wf(),
            m@ == mmul_v(self@, rhs@, rhs.spec_cols()),
            m@.len() == self@.len(),
            m.spec_cols() == rhs.spec_cols(),
    {
        let ghost target = mmul_v(self@, rhs@, rhs.spec_cols());
        let rows = self.nrows();
        let cols = rhs.ncols();
        let rhs_cols = rhs.cols();
        proof {
            assert(grid_view(rhs_cols).len() == rhs_cols@.len());
            assert forall|c: int| 0 <= c < rhs.spec_cols() implies seq_view(
                #[trigger] rhs_cols@[c],
            ) == col_of(rhs@, c) by {
                assert(grid_view(rhs_cols)[c] == seq_view(rhs_cols@[c]));
                assert(transpose_v(rhs@, rhs.spec_cols())[c] =~= col_of(rhs@, c));
            }
        }
        let mut data: Vec<Vec<Rat>> = Vec::new();
        let mut i: usize = 0;
        while i < rows
            invariant
                i <= rows,
                self.wf(),
                rhs.wf(),
                self.spec_cols() == rhs@.len(),
                mmul_ok(self@, rhs@, rhs.spec_cols()),
                rows == self@.len(),
                cols as int == rhs.spec_cols(),
                rhs_cols@.len() == rhs.spec_cols(),
                forall|c: int|
                    0 <= c < rhs.spec_cols() ==> seq_view(#[trigger] rhs_cols@[c]) == col_of(
                        rhs@,
                        c,
                    ),
                target == mmul_v(self@, rhs@, rhs.spec_cols()),
                data@.len() == i,
                forall|a: int| 0 <= a < i ==> seq_view(#[trigger] data@[a]) == target[a],
            decreases rows - i,
        {
            let row_i = self.row(i);
            let mut row: Vec<Rat> = Vec::new();
            let mut j: usize = 0;
            while j < cols
                invariant
                    j <= cols,
                    i < rows,
                    self.wf(),
                    rhs.wf(),
                    self.spec_cols() == rhs@.len(),
                    mmul_ok(self@, rhs@, rhs.spec_cols()),
                    rows == self@.len(),
                    cols as int == rhs.spec_cols(),
                    rhs_cols@.len() == rhs.spec_cols(),
                    forall|c: int|
                        0 <= c < rhs.spec_cols() ==> seq_view(#[trigger] rhs_cols@[c]) == col_of(
                            rhs@,
                            c,
                        ),
                    seq_view(row_i) == self@[i as int],
                    target == mmul_v(self@, rhs@, rhs.spec_cols()),
                    row@.len() == j,
                    forall|b: int| 0 <= b < j ==> (#[trigger] row@[b])@ == target[i as int][b],
                decreases cols - j,
            {
                proof {
                    assert(col_of(rhs@, j as int).len() == rhs@.len());
                    assert forall|k: int|
                        0 <= k < self@[i as int].len() implies rat_fits(
                        #[trigger] seq_view(row_i)[k]) by {
                        assert(seq_view(row_i)[k] == self@[i as int][k]);
                    }
                    assert forall|k: int|
                        0 <= k < col_of(rhs@, j as int).len() implies rat_fits(
                        #[trigger] col_of(rhs@, j as int)[k]) by {
                        assert(col_of(rhs@, j as int)[k] == rhs@[k][j as int]);
                    }
                }
                let x = dot(&row_i, &rhs_cols[j]);
                row.push(x);
                j += 1;
            }
            proof {
                assert forall|b: int| 0 <= b < cols as int implies seq_view(row)[b] == target[
                    i as int
                ][b] by {
                    assert(seq_view(row)[b] == row@[b]@);
                }
                assert(seq_view(row) =~= target[i as int]);
            }
            data.push(row);
            i += 1;
        }
        proof {
            assert forall|a: int| 0 <= a < rows as int implies grid_view(data)[a] == target[a] by {
                assert(grid_view(data)[a] == seq_view(data@[a]));
            }
            assert(grid_view(data) =~= target);
            assert forall|r: int, c: int|
                0 <= r < self@.len() && 0 <= c < rhs.spec_cols() implies rat_fits(
                #[trigger] target[r][c]) by {
                assert(dot_ok(self@[r], col_of(rhs@, c)));
                assert(self@[r].len() >= 1);
                assert(rat_fits(dot_prefix(self@[r], col_of(rhs@, c), self@[r].len() as int)));
            }
        }
        Matrix { cols, data }
    }

    /// The inverse of a square matrix, by in-place Gauss-Jordan elimination
    /// with no row pivoting. The precondition `gj_ok` demands that every
    /// pivot met along the elimination is nonzero (the matrix is
    /// non-singular in the sense of this algorithm) and that every
    /// intermediate fits into machine words. With floating-point scalars
    /// this algorithm silently produces non-finite entries on a zero
    /// pivot; exact rationals have no such value, so the non-singularity
    /// demand stands here as an explicit precondition instead.
    pub fn inverse(&self) -> (m: Matrix)
        requires
            self.wf(),
            self.spec_cols() == self@.len(),
            gj_ok(self@, self@.len() as int, self@.len() as int),
        ensures
            m.wf(),
            m@ == inverse_v(self@, self@.len() as int),
            m@.len() == self@.len(),
            m.spec_cols() == self@.len(),
    {
        let n = self.nrows();
        let mut cur = self.rows();
        proof {
            assert(grid_view(cur).len() == cur@.len());
            assert forall|a: int| 0 <= a < n as int implies (#[trigger] cur@[a])@.len()
                == n as int by {
                assert(grid_view(cur)[a] == seq_view(cur@[a]));
                assert(seq_view(cur@[a]).len() == cur@[a]@.len());
            }
        }
        let mut p: usize = 0;
        while p < n
            invariant
                p <= n,
                self.wf(),
                n == self@.len(),
                self.spec_cols() == n as int,
                gj_ok(self@, n as int, n as int),
                cur@.len() == n,
                forall|a: int| 0 <= a < n ==> (#[trigger] cur@[a])@.len() == n,
                grid_view(cur) == gj_iter(self@, p as int, n as int),
                mat_wf(grid_view(cur)),
            decreases n - p,
        {
            let ghost g = grid_view(cur);
            proof {
                lemma_gj_ok_prefix(self@, p as int + 1, n as int, n as int);
                assert(gj_step_ok(g, p as int, n as int));
            }
            let pivot = cur[p][p];
            proof {
                assert(pivot@ == g[p as int][p as int]) by {
                    assert(g[p as int] == seq_view(cur@[p as int]));
                }
            }
            let mut next: Vec<Vec<Rat>> = Vec::new();
            let mut i: usize = 0;
            while i < n
                invariant
                    i <= n,
                    p < n,
                    n == self@.len(),
                    cur@.len() == n,
                    forall|a: int| 0 <= a < n ==> (#[trigger] cur@[a])@.len() == n,
                    g == grid_view(cur),
                    mat_wf(g),
                    mat_dims(g, n as int, n as int),
                    gj_step_ok(g, p as int, n as int),
                    pivot@ == g[p as int][p as int],
                    pivot.wf(),
                    next@.len() == i,
                    forall|a: int|
                        0 <= a < i ==> seq_view(#[trigger] next@[a]) == gj_step(
                            g,
                            p as int,
                            n as int,
                        )[a],
                decreases n - i,
            {
                let mut row: Vec<Rat> = Vec::new();
                let mut j: usize = 0;
                while j < n
                    invariant
                        j <= n,
                        i < n,
                        p < n,
                        n == self@.len(),
                        cur@.len() == n,
                        forall|a: int| 0 <= a < n ==> (#[trigger] cur@[a])@.len() == n,
                        g == grid_view(cur),
                        mat_wf(g),
                        mat_dims(g, n as int, n as int),
                        gj_step_ok(g, p as int, n as int),
                        pivot@ == g[p as int][p as int],
                        pivot.wf(),
                        row@.len() == j,
                        forall|b: int|
                            0 <= b < j ==> (#[trigger] row@[b])@ == gj_cell(
                                g,
                                p as int,
                                i as int,
                                b,
                            ),
                    decreases n - j,
                {
                    proof {
                        assert(g[i as int] == seq_view(cur@[i as int]));
                        assert(g[p as int] == seq_view(cur@[p as int]));
                        assert(gj_cell_ok(g, p as int, i as int, j as int));
                    }
                    let x: Rat = if i == p && j == p {
                        Rat::one().div(pivot)
                    } else if i == p {
                        cur[p][j].div(pivot)
                    } else if j == p {
                        cur[i][p].neg().div(pivot)
                    } else {
                        cur[i][j].add(cur[p][j].mul(cur[i][p].neg().div(pivot)))
                    };
                    row.push(x);
                    j += 1;
                }
                proof {
                    assert forall|b: int| 0 <= b < n as int implies seq_view(row)[b] == gj_step(
                        g,
                        p as int,
                        n as int,
                    )[i as int][b] by {
                        assert(seq_view(row)[b] == row@[b]@);
                    }
                    assert(seq_view(row) =~= gj_step(g, p as int, n as int)[i as int]);
                }
                next.push(row);
                i += 1;
            }
            proof {
                assert forall|a: int| 0 <= a < n as int implies grid_view(next)[a] == gj_step(
                    g,
                    p as int,
                    n as int,
                )[a] by {
                    assert(grid_view(next)[a] == seq_view(next@[a]));
                }
                assert(grid_view(next) =~= gj_step(g, p as int, n as int));
                assert forall|a: int| 0 <= a < n as int implies (#[trigger] next@[a])@.len()
                    == n as int by {
                    assert(seq_view(next@[a]).len() == next@[a]@.len());
                }
                assert forall|a: int, b: int|
                    0 <= a < n as int && 0 <= b < n as int implies rat_fits(
                    #[trigger] gj_step(g, p as int, n as int)[a][b]) by {
                    assert(gj_cell_ok(g, p as int, a, b));
                }
            }
            cur = next;
            p += 1;
        }
        Matrix { cols: n, data: cur }
    }

    /// The default absolute tolerance for matrix comparisons; looser than
    /// the vector tolerance, reflecting cumulative error in chained
    /// arithmetic.
    pub fn default_epsilon() -> (r: Rat)
        ensures
            r.wf(),
            r@ == (Ratv { n: 1, d: 10_000 }),
    {
        Rat::recip(10_000)
    }
}

/// The dot product over the first `k` positions as a plain rational sum,
/// with no renormalization: the mathematical value of `dot_prefix`.
pub open spec fn dot_math(row: Seq<Ratv>, col: Seq<Ratv>, k: int) -> Ratv
    decreases k,
{
    if k <= 0 {
        zero_v()
    } else {
        add_v(dot_math(row, col, k - 1), mul_v(row[k - 1], col[k - 1]))
    }
}

/// The renormalized dot product equals the plain rational sum.
pub proof fn lemma_dot_collapse(row: Seq<Ratv>, col: Seq<Ratv>, k: int)
    requires
        forall|i: int| 0 <= i < k ==> ratv_wf(#[trigger] row[i]),
        forall|i: int| 0 <= i < k ==> ratv_wf(#[trigger] col[i]),
    ensures
        ratv_wf(dot_prefix(row, col, k)),
        ratv_wf(dot_math(row, col, k)),
        ratv_eq(dot_prefix(row, col, k), dot_math(row, col, k)),
    decreases k,
{
    if k <= 0 {
    } else {
        lemma_dot_collapse(row, col, k - 1);
        let pk = dot_prefix(row, col, k - 1);
        let mk = dot_math(row, col, k - 1);
        let prod = mul_v(row[k - 1], col[k - 1]);
        lemma_norm_mul(row[k - 1], col[k - 1]);
        lemma_wf_ops(row[k - 1], col[k - 1]);
        lemma_wf_ops(pk, norm(prod));
        lemma_wf_ops(mk, prod);
        lemma_norm(add_v(pk, norm(prod)));
        lemma_add_congr(pk, mk, norm(prod), prod);
        lemma_ratv_eq_trans(
            dot_prefix(row, col, k),
            add_v(pk, norm(prod)),
            add_v(mk, prod),
        );
    }
}

/// The pointwise sum of two rows.
pub open spec fn seq_add(u: Seq<Ratv>, v: Seq<Ratv>) -> Seq<Ratv> {
    Seq::new(u.len(), |i: int| add_v(u[i], v[i]))
}

/// A row scaled by a single value.
pub open spec fn seq_scale(c: Ratv, u: Seq<Ratv>) -> Seq<Ratv> {
    Seq::new(u.len(), |i: int| mul_v(c, u[i]))
}

proof fn lemma_dot_math_wf(u: Seq<Ratv>, v: Seq<Ratv>, k: int)
    requires
        forall|i: int| 0 <= i < k ==> ratv_wf(#[trigger] u[i]),
        forall|i: int| 0 <= i < k ==> ratv_wf(#[trigger] v[i]),
    ensures
        ratv_wf(dot_math(u, v, k)),
    decreases k,
{
    if k > 0 {
        lemma_dot_math_wf(u, v, k - 1);
        lemma_wf_ops(u[k - 1], v[k - 1]);
        lemma_wf_ops(dot_math(u, v, k - 1), mul_v(u[k - 1], v[k - 1]));
    }
}

/// The plain dot product respects rational equality of both arguments.
proof fn lemma_dot_math_congr(u: Seq<Ratv>, u2: Seq<Ratv>, v: Seq<Ratv>, v2: Seq<Ratv>, k: int)
    requires
        forall|i: int| 0 <= i < k ==> ratv_eq(#[trigger] u[i], u2[i]),
        forall|i: int| 0 <= i < k ==> ratv_eq(#[trigger] v[i], v2[i]),
    ensures
        ratv_eq(dot_math(u, v, k), dot_math(u2, v2, k)),
    decreases k,
{
    if k > 0 {
        lemma_dot_math_congr(u, u2, v, v2, k - 1);
        crate::rat::lemma_mul_congr(u[k - 1], u2[k - 1], v[k - 1], v2[k - 1]);
        lemma_add_congr(
            dot_math(u, v, k - 1),
            dot_math(u2, v2, k - 1),
            mul_v(u[k - 1], v[k - 1]),
            mul_v(u2[k - 1], v2[k - 1]),
        );
    }
}

/// A dot product whose left row holds only zero values is zero.
proof fn lemma_dot_math_zero_left(u: Seq<Ratv>, v: Seq<Ratv>, k: int)
    requires
        forall|i: int| 0 <= i < k ==> #[trigger] u[i] == zero_v(),
        forall|i: int| 0 <= i < k ==> ratv_wf(#[trigger] v[i]),
    ensures
        ratv_eq(dot_math(u, v, k), zero_v()),
        ratv_wf(dot_math(u, v, k)),
    decreases k,
{
    if k > 0 {
        lemma_dot_math_zero_left(u, v, k - 1);
        lemma_mul_zero_num(v[k - 1], zero_v());
        lemma_wf_ops(zero_v(), v[k - 1]);
        assert(mul_v(zero_v(), v[k - 1]).n == 0);
        crate::rat::lemma_zero_val(mul_v(zero_v(), v[k - 1]));
        lemma_add_congr(
            dot_math(u, v, k - 1),
            zero_v(),
            mul_v(zero_v(), v[k - 1]),
            zero_v(),
        );
        lemma_unit_ops(zero_v());
        lemma_wf_ops(dot_math(u, v, k - 1), mul_v(zero_v(), v[k - 1]));
        lemma_ratv_eq_trans(
            dot_math(u, v, k),
            add_v(zero_v(), zero_v()),
            zero_v(),
        );
    }
}

/// The plain dot product is additive in its left row.
proof fn lemma_dot_math_add_left(u: Seq<Ratv>, u2: Seq<Ratv>, v: Seq<Ratv>, k: int)
    requires
        0 <= k <= u.len(),
        k <= u2.len(),
        forall|i: int| 0 <= i < k ==> ratv_wf(#[trigger] u[i]),
        forall|i: int| 0 <= i < k ==> ratv_wf(#[trigger] u2[i]),
        forall|i: int| 0 <= i < k ==> ratv_wf(#[trigger] v[i]),
    ensures
        ratv_eq(
            dot_math(seq_add(u, u2), v, k),
            add_v(dot_math(u, v, k), dot_math(u2, v, k)),
        ),
    decreases k,
{
    if k == 0 {
        lemma_unit_ops(zero_v());
    } else {
        lemma_dot_math_add_left(u, u2, v, k - 1);
        let l = k - 1;
        let p1 = dot_math(u, v, l);
        let q1 = dot_math(u2, v, l);
        let p2 = mul_v(u[l], v[l]);
        let q2 = mul_v(u2[l], v[l]);
        lemma_dot_math_wf(u, v, l);
        lemma_dot_math_wf(u2, v, l);
        lemma_wf_ops(u[l], v[l]);
        lemma_wf_ops(u2[l], v[l]);
        // the new product splits over the summed entry
        assert(seq_add(u, u2)[l] == add_v(u[l], u2[l]));
        crate::rat::lemma_add_mul_dist(u[l], u2[l], v[l]);
        lemma_add_congr(
            dot_math(seq_add(u, u2), v, l),
            add_v(p1, q1),
            mul_v(seq_add(u, u2)[l], v[l]),
            add_v(p2, q2),
        );
        crate::rat::lemma_add_shuffle(p1, q1, p2, q2);
        lemma_wf_ops(p1, q1);
        lemma_wf_ops(p2, q2);
        lemma_wf_ops(add_v(p1, q1), add_v(p2, q2));
        lemma_ratv_eq_trans(
            dot_math(seq_add(u, u2), v, k),
            add_v(add_v(p1, q1), add_v(p2, q2)),
            add_v(add_v(p1, p2), add_v(q1, q2)),
        );
    }
}

/// A common factor of the left row moves out of the plain dot product.
proof fn lemma_dot_math_scale_left(c: Ratv, u: Seq<Ratv>, v: Seq<Ratv>, k: int)
    requires
        0 <= k <= u.len(),
        ratv_wf(c),
        forall|i: int| 0 <= i < k ==> ratv_wf(#[trigger] u[i]),
        forall|i: int| 0 <= i < k ==> ratv_wf(#[trigger] v[i]),
    ensures
        ratv_eq(dot_math(seq_scale(c, u), v, k), mul_v(c, dot_math(u, v, k))),
    decreases k,
{
    if k == 0 {
        lemma_mul_zero_num(c, zero_v());
        assert(ratv_eq(zero_v(), mul_v(c, zero_v())));
    } else {
        lemma_dot_math_scale_left(c, u, v, k - 1);
        let l = k - 1;
        lemma_dot_math_wf(u, v, l);
        lemma_wf_ops(u[l], v[l]);
        assert(seq_scale(c, u)[l] == mul_v(c, u[l]));
        crate::rat::lemma_mul_assoc(c, u[l], v[l]);
        lemma_add_congr(
            dot_math(seq_scale(c, u), v, l),
            mul_v(c, dot_math(u, v, l)),
            mul_v(seq_scale(c, u)[l], v[l]),
            mul_v(c, mul_v(u[l], v[l])),
        );
        crate::rat::lemma_mul_add_dist(c, dot_math(u, v, l), mul_v(u[l], v[l]));
        lemma_wf_ops(c, dot_math(u, v, l));
        lemma_wf_ops(c, mul_v(u[l], v[l]));
        lemma_wf_ops(mul_v(c, dot_math(u, v, l)), mul_v(c, mul_v(u[l], v[l])));
        lemma_ratv_eq_trans(
            dot_math(seq_scale(c, u), v, k),
            add_v(mul_v(c, dot_math(u, v, l)), mul_v(c, mul_v(u[l], v[l]))),
            mul_v(c, dot_math(u, v, k)),
        );
    }
}

/// The double sum at the heart of associativity: summing the products of
/// row-times-column dot products in either grouping gives the same value.
proof fn lemma_assoc_cell(
    a_row: Seq<Ratv>,
    b: Seq<Seq<Ratv>>,
    ccol: Seq<Ratv>,
    m: int,
    nn: int,
)
    requires
        0 <= nn <= a_row.len(),
        nn <= b.len(),
        0 <= m <= ccol.len(),
        forall|k: int| 0 <= k < nn ==> ratv_wf(#[trigger] a_row[k]),
        forall|k: int| 0 <= k < nn ==> m <= (#[trigger] b[k]).len(),
        forall|k: int, j: int| 0 <= k < nn && 0 <= j < m ==> ratv_wf(#[trigger] b[k][j]),
        forall|j: int| 0 <= j < m ==> ratv_wf(#[trigger] ccol[j]),
    ensures
        ratv_eq(
            dot_math(Seq::new(m as nat, |j: int| dot_math(a_row, col_of(b, j), nn)), ccol, m),
            dot_math(a_row, Seq::new(b.len(), |k: int| dot_math(b[k], ccol, m)), nn),
        ),
    decreases nn,
{
    let dcol = Seq::new(b.len(), |k: int| dot_math(b[k], ccol, m));
    let cur = Seq::new(m as nat, |j: int| dot_math(a_row, col_of(b, j), nn));
    if nn == 0 {
        assert forall|j: int| 0 <= j < m implies #[trigger] cur[j] == zero_v() by {}
        lemma_dot_math_zero_left(cur, ccol, m);
    } else {
        let l = nn - 1;
        lemma_assoc_cell(a_row, b, ccol, m, l);
        let prev = Seq::new(m as nat, |j: int| dot_math(a_row, col_of(b, j), l));
        let scaled = Seq::new(m as nat, |j: int| mul_v(a_row[l], b[l][j]));
        // peeling the last term of every inner dot splits the current row
        assert(cur =~= seq_add(prev, scaled)) by {
            assert forall|j: int| 0 <= j < m implies cur[j] == seq_add(prev, scaled)[j] by {
                assert(col_of(b, j)[l] == b[l][j]);
                assert(scaled[j] == mul_v(a_row[l], b[l][j]));
            }
        }
        assert forall|j: int| 0 <= j < m implies ratv_wf(#[trigger] prev[j]) by {
            lemma_dot_math_wf(a_row, col_of(b, j), l);
        }
        assert forall|j: int| 0 <= j < m implies ratv_wf(#[trigger] scaled[j]) by {
            lemma_wf_ops(a_row[l], b[l][j]);
        }
        lemma_dot_math_add_left(prev, scaled, ccol, m);
        assert forall|j: int|
            0 <= j < m implies ratv_eq(#[trigger] scaled[j], seq_scale(a_row[l], b[l])[j]) by {
            assert(scaled[j] == seq_scale(a_row[l], b[l])[j]);
        }
        assert forall|j: int| 0 <= j < m implies ratv_wf(#[trigger] seq_scale(a_row[l], b[l])[j])
        by {
            lemma_wf_ops(a_row[l], b[l][j]);
        }
        lemma_dot_math_congr(scaled, seq_scale(a_row[l], b[l]), ccol, ccol, m);
        lemma_dot_math_scale_left(a_row[l], b[l], ccol, m);
        lemma_dot_math_wf(prev, ccol, m);
        lemma_dot_math_wf(scaled, ccol, m);
        lemma_dot_math_wf(b[l], ccol, m);
        assert forall|k: int| 0 <= k < nn implies ratv_wf(#[trigger] dcol[k]) by {
            lemma_dot_math_wf(b[k], ccol, m);
        }
        lemma_dot_math_wf(a_row, dcol, l);
        lemma_dot_math_wf(seq_scale(a_row[l], b[l]), ccol, m);
        lemma_ratv_eq_trans(
            dot_math(scaled, ccol, m),
            dot_math(seq_scale(a_row[l], b[l]), ccol, m),
            mul_v(a_row[l], dot_math(b[l], ccol, m)),
        );
        // the scaled part is the last term of the other grouping
        assert(dcol[l] == dot_math(b[l], ccol, m));
        lemma_wf_ops(a_row[l], dot_math(b[l], ccol, m));
        lemma_add_congr(
            dot_math(prev, ccol, m),
            dot_math(a_row, dcol, l),
            dot_math(scaled, ccol, m),
            mul_v(a_row[l], dcol[l]),
        );
        lemma_wf_ops(dot_math(prev, ccol, m), dot_math(scaled, ccol, m));
        lemma_ratv_eq_trans(
            dot_math(cur, ccol, m),
            add_v(dot_math(prev, ccol, m), dot_math(scaled, ccol, m)),
            add_v(dot_math(a_row, dcol, l), mul_v(a_row[l], dcol[l])),
        );
        assert(dot_math(a_row, dcol, nn) == add_v(dot_math(a_row, dcol, l), mul_v(
            a_row[l],
            dcol[l],
        )));
    }
}

/// Matrix multiplication is associative: for all compatible square grids,
/// each entry of `(A * B) * C` equals the corresponding entry of
/// `A * (B * C)` as a rational number.
pub proof fn lemma_mul_associative(a: Seq<Seq<Ratv>>, b: Seq<Seq<Ratv>>, c: Seq<Seq<Ratv>>, n: int)
    requires
        n >= 1,
        mat_dims(a, n, n),
        mat_dims(b, n, n),
        mat_dims(c, n, n),
        forall|i: int, j: int| 0 <= i < n && 0 <= j < n ==> ratv_wf(#[trigger] a[i][j]),
        forall|i: int, j: int| 0 <= i < n && 0 <= j < n ==> ratv_wf(#[trigger] b[i][j]),
        forall|i: int, j: int| 0 <= i < n && 0 <= j < n ==> ratv_wf(#[trigger] c[i][j]),
    ensures
        forall|i: int, l: int|
            0 <= i < n && 0 <= l < n ==> ratv_eq(
                #[trigger] mmul_v(mmul_v(a, b, n), c, n)[i][l],
                mmul_v(a, mmul_v(b, c, n), n)[i][l],
            ),
{
    let ab = mmul_v(a, b, n);
    let bc = mmul_v(b, c, n);
    assert forall|i: int, l: int|
        0 <= i < n && 0 <= l < n implies ratv_eq(
        #[trigger] mmul_v(ab, c, n)[i][l],
        mmul_v(a, bc, n)[i][l],
    ) by {
        let ccol = col_of(c, l);
        let ab_row = ab[i];
        let abm_row = Seq::new(n as nat, |j: int| dot_math(a[i], col_of(b, j), n));
        let dcol = Seq::new(b.len(), |k: int| dot_math(b[k], ccol, n));
        let bc_col = col_of(bc, l);
        assert forall|j: int| 0 <= j < n implies ratv_wf(#[trigger] ccol[j]) by {
            assert(ccol[j] == c[j][l]);
        }
        // left side: collapse the outer and inner renormalized dots
        assert(mmul_v(ab, c, n)[i][l] == dot_spec(ab_row, ccol));
        assert forall|j: int|
            0 <= j < n implies ratv_eq(#[trigger] ab_row[j], abm_row[j]) && ratv_wf(ab_row[j])
            && ratv_wf(abm_row[j]) by {
            assert(ab_row[j] == dot_spec(a[i], col_of(b, j)));
            assert forall|k: int| 0 <= k < n implies ratv_wf(#[trigger] col_of(b, j)[k]) by {
                assert(col_of(b, j)[k] == b[k][j]);
            }
            lemma_dot_collapse(a[i], col_of(b, j), n);
            lemma_dot_math_wf(a[i], col_of(b, j), n);
        }
        assert forall|j: int| 0 <= j < n implies ratv_wf(#[trigger] abm_row[j]) by {
            assert forall|k: int| 0 <= k < n implies ratv_wf(#[trigger] col_of(b, j)[k]) by {
                assert(col_of(b, j)[k] == b[k][j]);
            }
            lemma_dot_math_wf(a[i], col_of(b, j), n);
        }
        assert forall|k: int| 0 <= k < n implies ratv_wf(#[trigger] dcol[k]) by {
            lemma_dot_math_wf(b[k], ccol, n);
        }
        lemma_dot_collapse(ab_row, ccol, n);
        lemma_dot_math_congr(ab_row, abm_row, ccol, ccol, n);
        lemma_dot_math_wf(abm_row, ccol, n);
        lemma_ratv_eq_trans(
            dot_spec(ab_row, ccol),
            dot_math(ab_row, ccol, n),
            dot_math(abm_row, ccol, n),
        );
        // the exchanged double sum
        assert forall|k: int, j: int|
            0 <= k < n && 0 <= j < n implies ratv_wf(#[trigger] b[k][j]) by {}
        lemma_assoc_cell(a[i], b, ccol, n, n);
        lemma_dot_math_wf(a[i], dcol, n);
        lemma_ratv_eq_trans(
            dot_spec(ab_row, ccol),
            dot_math(abm_row, ccol, n),
            dot_math(a[i], dcol, n),
        );
        // right side: collapse its outer and inner renormalized dots
        assert(mmul_v(a, bc, n)[i][l] == dot_spec(a[i], bc_col));
        assert forall|k: int|
            0 <= k < n implies ratv_eq(#[trigger] bc_col[k], dcol[k]) && ratv_wf(bc_col[k])
            && ratv_wf(dcol[k]) by {
            assert(bc_col[k] == dot_spec(b[k], ccol));
            lemma_dot_collapse(b[k], ccol, n);
            lemma_dot_math_wf(b[k], ccol, n);
        }
        lemma_dot_collapse(a[i], bc_col, n);
        lemma_dot_math_congr(a[i], a[i], bc_col, dcol, n);
        lemma_ratv_eq_trans(
            dot_spec(a[i], bc_col),
            dot_math(a[i], bc_col, n),
            dot_math(a[i], dcol, n),
        );
        lemma_ratv_eq_trans(
            dot_spec(ab_row, ccol),
            dot_math(a[i], dcol, n),
            dot_spec(a[i], bc_col),
        );
    }
}

/// The dot product against a basis column (1 in position `c`, numerator 0
/// elsewhere) stays in machine range and picks out `row[c]`.
proof fn lemma_dot_basis_col(row: Seq<Ratv>, basis: Seq<Ratv>, c: int, k: int)
    requires
        0 <= k <= row.len(),
        basis.len() == row.len(),
        0 <= c < row.len(),
        forall|i: int| 0 <= i < row.len() ==> rat_fits(#[trigger] row[i]),
        forall|i: int| 0 <= i < basis.len() ==> ratv_wf(#[trigger] basis[i]),
        forall|i: int| 0 <= i < basis.len() && i != c ==> (#[trigger] basis[i]).n == 0,
        basis[c] == one_v(),
    ensures
        dot_prefix_ok(row, basis, k),
        k <= c ==> dot_prefix(row, basis, k) == zero_v(),
        k > c ==> rat_fits(dot_prefix(row, basis, k)) && ratv_eq(
            dot_prefix(row, basis, k),
            row[c],
        ),
    decreases k,
{
    if k > 0 {
        lemma_dot_basis_col(row, basis, c, k - 1);
        let prod = mul_v(row[k - 1], basis[k - 1]);
        lemma_wf_ops(row[k - 1], basis[k - 1]);
        let prev = dot_prefix(row, basis, k - 1);
        if k - 1 == c {
            // the product is exactly row[c]; the running sum so far is zero
            assert(basis[k - 1] == one_v());
            lemma_unit_ops(row[k - 1]);
            assert(prod == row[c]);
            lemma_norm_shrink(row[c]);
            lemma_unit_ops(norm(prod));
            lemma_norm_shrink(norm(prod));
            lemma_ratv_eq_trans(norm(norm(prod)), norm(prod), row[c]);
            assert(dot_prefix(row, basis, k) == norm(norm(prod)));
        } else {
            // the product has numerator zero and normalizes to zero
            lemma_mul_zero_num(row[k - 1], basis[k - 1]);
            assert(prod.n == 0);
            lemma_norm_zero_num(prod.d);
            assert(norm(prod) == zero_v());
            if k - 1 < c {
                lemma_unit_ops(zero_v());
                lemma_norm_zero_num(1);
                assert(dot_prefix(row, basis, k) == zero_v());
            } else {
                // prev already holds the picked value; adding zero keeps it
                lemma_unit_ops(prev);
                assert(add_v(prev, zero_v()) == prev);
                lemma_norm_shrink(prev);
                lemma_ratv_eq_trans(norm(prev), prev, row[c]);
                assert(dot_prefix(row, basis, k) == norm(prev));
            }
        }
    }
}

/// The dot product of a basis row (1 in position `r`, numerator 0
/// elsewhere) against a column stays in machine range and picks out
/// `col[r]`.
proof fn lemma_dot_basis_row(basis: Seq<Ratv>, col: Seq<Ratv>, r: int, k: int)
    requires
        0 <= k <= basis.len(),
        col.len() == basis.len(),
        0 <= r < basis.len(),
        forall|i: int| 0 <= i < col.len() ==> rat_fits(#[trigger] col[i]),
        forall|i: int| 0 <= i < basis.len() ==> ratv_wf(#[trigger] basis[i]),
        forall|i: int| 0 <= i < basis.len() && i != r ==> (#[trigger] basis[i]).n == 0,
        basis[r] == one_v(),
    ensures
        dot_prefix_ok(basis, col, k),
        k <= r ==> dot_prefix(basis, col, k) == zero_v(),
        k > r ==> rat_fits(dot_prefix(basis, col, k)) && ratv_eq(
            dot_prefix(basis, col, k),
            col[r],
        ),
    decreases k,
{
    if k > 0 {
        lemma_dot_basis_row(basis, col, r, k - 1);
        let prod = mul_v(basis[k - 1], col[k - 1]);
        lemma_wf_ops(basis[k - 1], col[k - 1]);
        let prev = dot_prefix(basis, col, k - 1);
        if k - 1 == r {
            assert(basis[k - 1] == one_v());
            lemma_unit_ops(col[k - 1]);
            assert(prod == col[r]);
            lemma_norm_shrink(col[r]);
            lemma_unit_ops(norm(prod));
            lemma_norm_shrink(norm(prod));
            lemma_ratv_eq_trans(norm(norm(prod)), norm(prod), col[r]);
            assert(dot_prefix(basis, col, k) == norm(norm(prod)));
        } else {
            lemma_mul_zero_num(col[k - 1], basis[k - 1]);
            assert(prod.n == 0);
            lemma_norm_zero_num(prod.d);
            assert(norm(prod) == zero_v());
            if k - 1 < r {
                lemma_unit_ops(zero_v());
                lemma_norm_zero_num(1);
                assert(dot_prefix(basis, col, k) == zero_v());
            } else {
                lemma_unit_ops(prev);
                assert(add_v(prev, zero_v()) == prev);
                lemma_norm_shrink(prev);
                lemma_ratv_eq_trans(norm(prev), prev, col[r]);
                assert(dot_prefix(basis, col, k) == norm(prev));
            }
        }
    }
}

/// Multiplying on the right by the identity keeps every entry: for any
/// well-formed grid `m`, `m * I` is defined and each entry of the product
/// equals the corresponding entry of `m` as a rational number.
pub proof fn lemma_mul_identity_right(m: Seq<Seq<Ratv>>, cols: int)
    requires
        cols >= 1,
        m.len() >= 1,
        mat_dims(m, m.len() as int, cols),
        mat_wf(m),
    ensures
        mmul_ok(m, id_v(cols), cols),
        forall|r: int, c: int|
            0 <= r < m.len() && 0 <= c < cols ==> ratv_eq(
                #[trigger] mmul_v(m, id_v(cols), cols)[r][c],
                m[r][c],
            ),
{
    assert forall|r: int, c: int|
        0 <= r < m.len() && 0 <= c < cols implies #[trigger] dot_ok(
        m[r],
        col_of(id_v(cols), c),
    ) && ratv_eq(dot_spec(m[r], col_of(id_v(cols), c)), m[r][c]) by {
        let basis = col_of(id_v(cols), c);
        assert forall|i: int| 0 <= i < basis.len() implies ratv_wf(#[trigger] basis[i]) && (i != c
            ==> basis[i].n == 0) by {
            assert(basis[i] == id_v(cols)[i][c]);
        }
        assert(basis[c] == id_v(cols)[c][c]);
        lemma_dot_basis_col(m[r], basis, c, m[r].len() as int);
    }
    assert forall|r: int, c: int|
        0 <= r < m.len() && 0 <= c < cols implies ratv_eq(
        #[trigger] mmul_v(m, id_v(cols), cols)[r][c],
        m[r][c],
    ) by {
        assert(dot_ok(m[r], col_of(id_v(cols), c)));
        assert(mmul_v(m, id_v(cols), cols)[r][c] == dot_spec(m[r], col_of(id_v(cols), c)));
    }
}

/// Multiplying on the left by the identity keeps every entry: `I * m` is
/// defined and each entry of the product equals the corresponding entry of
/// `m` as a rational number.
pub proof fn lemma_mul_identity_left(m: Seq<Seq<Ratv>>, cols: int)
    requires
        cols >= 1,
        m.len() >= 1,
        mat_dims(m, m.len() as int, cols),
        mat_wf(m),
    ensures
        mmul_ok(id_v(m.len() as int), m, cols),
        forall|r: int, c: int|
            0 <= r < m.len() && 0 <= c < cols ==> ratv_eq(
                #[trigger] mmul_v(id_v(m.len() as int), m, cols)[r][c],
                m[r][c],
            ),
{
    let n = m.len() as int;
    assert forall|r: int, c: int|
        0 <= r < n && 0 <= c < cols implies #[trigger] dot_ok(id_v(n)[r], col_of(m, c))
        && ratv_eq(dot_spec(id_v(n)[r], col_of(m, c)), m[r][c]) by {
        let basis = id_v(n)[r];
        let col = col_of(m, c);
        assert forall|i: int| 0 <= i < col.len() implies rat_fits(#[trigger] col[i]) by {
            assert(col[i] == m[i][c]);
        }
        lemma_dot_basis_row(basis, col, r, basis.len() as int);
        assert(col[r] == m[r][c]);
    }
    assert forall|r: int, c: int|
        0 <= r < n && 0 <= c < cols implies ratv_eq(
        #[trigger] mmul_v(id_v(n), m, cols)[r][c],
        m[r][c],
    ) by {
        assert(dot_ok(id_v(n)[r], col_of(m, c)));
        assert(mmul_v(id_v(n), m, cols)[r][c] == dot_spec(id_v(n)[r], col_of(m, c)));
    }
}

/// Transposing twice gives back the original grid exactly.
pub proof fn lemma_transpose_involution(m: Seq<Seq<Ratv>>, cols: int)
    requires
        cols >= 0,
        mat_dims(m, m.len() as int, cols),
    ensures
        transpose_v(transpose_v(m, cols), m.len() as int) == m,
{
    let t = transpose_v(m, cols);
    let tt = transpose_v(t, m.len() as int);
    assert forall|i: int| 0 <= i < m.len() implies tt[i] =~= m[i] by {
        assert forall|j: int| 0 <= j < cols implies tt[i][j] == m[i][j] by {
            assert(t[j][i] == m[i][j]);
        }
    }
    assert(tt =~= m);
}

/// The dot product of two equal-length scalar vectors, renormalizing after
/// each product and each partial sum.
fn dot(row: &Vec<Rat>, col: &Vec<Rat>) -> (r: Rat)
    requires
        row@.len() == col@.len(),
        forall|k: int| 0 <= k < seq_view(*row).len() ==> rat_fits(#[trigger] seq_view(*row)[k]),
        forall|k: int| 0 <= k < seq_view(*col).len() ==> rat_fits(#[trigger] seq_view(*col)[k]),
        dot_ok(seq_view(*row), seq_view(*col)),
    ensures
        r.wf(),
        r@ == dot_spec(seq_view(*row), seq_view(*col)),
{
    let ghost rv = seq_view(*row);
    let ghost cv = seq_view(*col);
    let n = row.len();
    let mut acc = Rat::zero();
    let mut k: usize = 0;
    while k < n
        invariant
            k <= n,
            n == row@.len(),
            row@.len() == col@.len(),
            rv == seq_view(*row),
            cv == seq_view(*col),
            forall|a: int| 0 <= a < rv.len() ==> rat_fits(#[trigger] rv[a]),
            forall|a: int| 0 <= a < cv.len() ==> rat_fits(#[trigger] cv[a]),
            dot_prefix_ok(rv, cv, n as int),
            acc.wf(),
            acc@ == dot_prefix(rv, cv, k as int),
        decreases n - k,
    {
        proof {
            lemma_dot_ok_prefix(rv, cv, k as int + 1, n as int);
            assert(rv[k as int] == row@[k as int]@);
            assert(cv[k as int] == col@[k as int]@);
        }
        let p = row[k].mul(col[k]);
        acc = acc.add(p);
        k += 1;
    }
    acc
}

impl PartialEq for Matrix {
    /// Equality of dimensions and of all corresponding rational values.
    fn eq(&self, other: &Matrix) -> (r: bool) {
        if self.cols != other.cols || self.data.len() != other.data.len() {
            return false;
        }
        let n = self.data.len();
        let mut i: usize = 0;
        while i < n
            invariant
                i <= n,
                n == self@.len(),
                self@.len() == other@.len(),
                self.spec_cols() == other.spec_cols(),
                forall|a: int|
                    0 <= a < i ==> (#[trigger] self@[a]).len() == other@[a].len(),
                forall|a: int, b: int|
                    0 <= a < i && 0 <= b < self@[a].len() ==> ratv_eq(
                        #[trigger] self@[a][b],
                        other@[a][b],
                    ),
            decreases n - i,
        {
            proof {
                assert(self@[i as int] == seq_view(self.data@[i as int]));
                assert(other@[i as int] == seq_view(other.data@[i as int]));
            }
            if self.data[i].len() != other.data[i].len() {
                return false;
            }
            let m = self.data[i].len();
            let mut j: usize = 0;
            while j < m
                invariant
                    j <= m,
                    i < n,
                    n == self@.len(),
                    self@.len() == other@.len(),
                    m == self@[i as int].len(),
                    self@[i as int].len() == other@[i as int].len(),
                    forall|b: int|
                        0 <= b < j ==> ratv_eq(#[trigger] self@[i as int][b], other@[i as int][b]),
                decreases m - j,
            {
                let a = self.data[i][j];
                let b = other.data[i][j];
                proof {
                    assert(a@ == self@[i as int][j as int]);
                    assert(b@ == other@[i as int][j as int]);
                }
                if !(a == b) {
                    return false;
                }
                j += 1;
            }
            i += 1;
        }
        true
    }
}

impl vstd::std_specs::cmp::PartialEqSpecImpl for Matrix {
    open spec fn obeys_eq_spec() -> bool {
        true
    }

    open spec fn eq_spec(&self, other: &Matrix) -> bool {
        self.spec_cols() == other.spec_cols() && mat_eq_v(self@, other@)
    }
}

} // verus!
