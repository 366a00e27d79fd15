//! The dense 2-D container and its layout-aware arithmetic. A `Matrix` keeps
//! its entries in one flat row-major buffer; its mathematical model (the
//! view) is a sequence of rows, each a sequence of scalar values. Every
//! operation that combines two matrices checks the shapes first and fails
//! with an explicit error value when they disagree: nothing is ever padded,
//! truncated or half-updated.

use crate::activation::{dsig_v, num_dsigmoid, num_sigmoid, sig_v};
use crate::fixed::{add_v, fits, mul_v, sub_v, Fx};
use vstd::prelude::*;

verus! {

/// A matrix as mathematics sees it: the sequence of its rows.
pub type Grid = Seq<Seq<int>>;

/// How an operation on matrices or networks can be refused.
#[derive(Clone, Copy, Debug, PartialEq, Eq, Structural)]
pub enum NnError {
    /// A construction was asked for zero rows or zero columns.
    EmptyInput,
    /// Two shapes that an operation must combine disagree.
    DimensionMismatch,
    /// A mini-batch does not fit the network: its rows and the label rows
    /// differ in number, or a row's length disagrees with a declared size.
    IncompatibleBatch,
}

/// A well-formed grid: at least one row, at least one column, and every row
/// of the same length.
pub open spec fn wf_grid(g: Grid) -> bool {
    &&& g.len() > 0
    &&& g[0].len() > 0
    &&& forall|i: int| 0 <= i < g.len() ==> (#[trigger] g[i]).len() == g[0].len()
}

/// The grid read off a flat row-major buffer with the given shape.
pub open spec fn grid_of(s: Seq<Fx>, rows: int, cols: int) -> Grid {
    Seq::new(rows as nat, |i: int| Seq::new(cols as nat, |j: int| s[i * cols + j]@))
}

/// Elementwise sum of two grids of the same shape.
pub open spec fn g_add(a: Grid, b: Grid) -> Grid {
    Seq::new(a.len(), |i: int| Seq::new(a[i].len(), |j: int| add_v(a[i][j], b[i][j])))
}

/// Elementwise difference of two grids of the same shape.
pub open spec fn g_sub(a: Grid, b: Grid) -> Grid {
    Seq::new(a.len(), |i: int| Seq::new(a[i].len(), |j: int| sub_v(a[i][j], b[i][j])))
}

/// Hadamard product of two grids of the same shape.
pub open spec fn g_had(a: Grid, b: Grid) -> Grid {
    Seq::new(a.len(), |i: int| Seq::new(a[i].len(), |j: int| mul_v(a[i][j], b[i][j])))
}

/// Every entry multiplied by the scalar `t`.
pub open spec fn g_scale(a: Grid, t: int) -> Grid {
    Seq::new(a.len(), |i: int| Seq::new(a[i].len(), |j: int| mul_v(a[i][j], t)))
}

/// The squashing function applied to every entry.
pub open spec fn g_sig(a: Grid) -> Grid {
    Seq::new(a.len(), |i: int| Seq::new(a[i].len(), |j: int| sig_v(a[i][j])))
}

/// The derivative of the squashing function applied to every entry.
pub open spec fn g_dsig(a: Grid) -> Grid {
    Seq::new(a.len(), |i: int| Seq::new(a[i].len(), |j: int| dsig_v(a[i][j])))
}

/// Column `j` of a grid, read top to bottom.
pub open spec fn g_col(a: Grid, j: int) -> Seq<int> {
    Seq::new(a.len(), |i: int| a[i][j])
}

/// The accumulated dot product after the first `n` terms: each product is
/// brought back to scale, then folded into the accumulator left to right, as
/// the fused multiply-add loop computes it.
pub open spec fn dot_n(a: Seq<int>, b: Seq<int>, n: int) -> int
    decreases n,
{
    if n <= 0 {
        0
    } else {
        add_v(dot_n(a, b, n - 1), mul_v(a[n - 1], b[n - 1]))
    }
}

/// The dot product of two sequences of equal length.
pub open spec fn g_dot(a: Seq<int>, b: Seq<int>) -> int {
    dot_n(a, b, a.len() as int)
}

/// The standard matrix product: entry (i, j) is the dot product of row `i`
/// of `a` with column `j` of `b`.
pub open spec fn g_mul(a: Grid, b: Grid) -> Grid {
    Seq::new(a.len(), |i: int| Seq::new(b[0].len(), |j: int| g_dot(a[i], g_col(b, j))))
}

/// The product with the left operand read in transposed order: entry (i, j)
/// is the dot product of column `i` of `a` with column `j` of `b`.
pub open spec fn g_t1mul(a: Grid, b: Grid) -> Grid {
    Seq::new(a[0].len(), |i: int| Seq::new(b[0].len(), |j: int| g_dot(g_col(a, i), g_col(b, j))))
}

/// The product with the right operand read in transposed order: entry (i, j)
/// is the dot product of row `i` of `a` with row `j` of `b`.
pub open spec fn g_t2mul(a: Grid, b: Grid) -> Grid {
    Seq::new(a.len(), |i: int| Seq::new(b.len(), |j: int| g_dot(a[i], b[j])))
}

/// The transposed grid.
pub open spec fn g_transpose(a: Grid) -> Grid {
    Seq::new(a[0].len(), |i: int| Seq::new(a.len(), |j: int| a[j][i]))
}

/// The sum of the first `n` entries of column `j`, folded top to bottom.
pub open spec fn colsum_n(a: Grid, j: int, n: int) -> int
    decreases n,
{
    if n <= 0 {
        0
    } else {
        add_v(colsum_n(a, j, n - 1), a[n - 1][j])
    }
}

/// The single row holding each column's sum over all rows.
pub open spec fn g_colsum(a: Grid) -> Grid {
    seq![Seq::new(a[0].len(), |j: int| colsum_n(a, j, a.len() as int))]
}

/// The single-row grid `v` added to every row of `a`.
pub open spec fn g_broadcast(a: Grid, v: Grid) -> Grid {
    Seq::new(a.len(), |i: int| Seq::new(a[i].len(), |j: int| add_v(a[i][j], v[0][j])))
}

/// Whether every entry of a grid lies inside the representable range.
pub open spec fn g_fits(a: Grid) -> bool {
    forall|i: int, j: int|
        0 <= i < a.len() && 0 <= j < a[i].len() ==> fits(#[trigger] a[i][j])
}

/// The transposed-left product equals the plain product of the laid-out
/// transpose: for all compatible grids, reading the left operand in
/// transposed index order loses nothing against first materialising the
/// transpose.
pub proof fn lemma_t1mul_is_mul_of_transpose(a: Grid, b: Grid)
    requires
        wf_grid(a),
        wf_grid(b),
        a.len() == b.len(),
    ensures
        g_t1mul(a, b) == g_mul(g_transpose(a), b),
{
    let ta = g_transpose(a);
    assert forall|i: int| 0 <= i < ta.len() implies ta[i] == g_col(a, i) by {
        assert(ta[i] =~= g_col(a, i));
    }
    assert(g_t1mul(a, b) =~~= g_mul(ta, b));
}

/// The transposed-right product equals the plain product of the laid-out
/// transpose, likewise.
pub proof fn lemma_t2mul_is_mul_of_transpose(a: Grid, b: Grid)
    requires
        wf_grid(a),
        wf_grid(b),
        a[0].len() == b[0].len(),
    ensures
        g_t2mul(a, b) == g_mul(a, g_transpose(b)),
{
    let tb = g_transpose(b);
    assert forall|j: int| 0 <= j < b.len() implies g_col(tb, j) == b[j] by {
        assert(g_col(tb, j) =~= b[j]);
    }
    assert(g_t2mul(a, b) =~~= g_mul(a, tb));
}

/// Transposing twice restores any well-formed grid.
pub proof fn lemma_transpose_transpose(a: Grid)
    requires
        wf_grid(a),
    ensures
        g_transpose(g_transpose(a)) == a,
{
    assert(g_transpose(g_transpose(a)) =~~= a);
}

/// Adding a grid and then subtracting it restores the first operand, as
/// long as no sum saturates: on such inputs the elementwise sum and
/// difference are mutual inverses.
pub proof fn lemma_sub_of_add_restores(a: Grid, b: Grid)
    requires
        wf_grid(a),
        wf_grid(b),
        a.len() == b.len(),
        a[0].len() == b[0].len(),
        g_fits(a),
        forall|i: int, j: int|
            0 <= i < a.len() && 0 <= j < a[i].len() ==> fits(#[trigger] (a[i][j] + b[i][j])),
    ensures
        g_sub(g_add(a, b), b) == a,
{
    assert(g_sub(g_add(a, b), b) =~~= a);
}

/// One elementwise combination of two scalars.
#[derive(Clone, Copy)]
enum ZipOp {
    Sum,
    Diff,
    Had,
}

/// What a `ZipOp` makes of a pair of values.
spec fn zip_v(op: ZipOp, x: int, y: int) -> int {
    match op {
        ZipOp::Sum => add_v(x, y),
        ZipOp::Diff => sub_v(x, y),
        ZipOp::Had => mul_v(x, y),
    }
}

/// One elementwise transformation of a scalar.
#[derive(Clone, Copy)]
enum MapOp {
    Sig,
    Dsig,
    Scale(Fx),
}

/// What a `MapOp` makes of a value.
spec fn map_v(op: MapOp, x: int) -> int {
    match op {
        MapOp::Sig => sig_v(x),
        MapOp::Dsig => dsig_v(x),
        MapOp::Scale(t) => mul_v(x, t@),
    }
}

fn zip_apply(op: ZipOp, x: Fx, y: Fx) -> (r: Fx)
    ensures
        r@ == zip_v(op, x@, y@),
{
    match op {
        ZipOp::Sum => x.add(y),
        ZipOp::Diff => x.sub(y),
        ZipOp::Had => x.mul(y),
    }
}

fn map_apply(op: MapOp, x: Fx) -> (r: Fx)
    ensures
        r@ == map_v(op, x@),
{
    match op {
        MapOp::Sig => num_sigmoid(x),
        MapOp::Dsig => num_dsigmoid(x),
        MapOp::Scale(t) => x.mul(t),
    }
}

/// Positions in rows before row `i` come before the whole of row `i` in the
/// flat buffer.
proof fn lemma_row_major_prefix(p: int, q: int, i: int, cols: int)
    requires
        0 <= q < cols,
        0 <= p < i,
    ensures
        0 <= p * cols + q < i * cols,
{
    assert(0 <= p * cols + q < i * cols) by (nonlinear_arith)
        requires
            0 <= q < cols,
            0 <= p < i,
    ;
}

/// A dense matrix of fixed-point scalars, stored row-major in one flat
/// buffer. `row_size` in the constructors is the length of each row (the
/// number of columns); `col_size` is the length of each column (the number
/// of rows), as `nrows` and `ncols` report.
#[derive(Debug)]
pub struct Matrix {
    data: Vec<Fx>,
    rows: usize,
    cols: usize,
}

impl View for Matrix {
    type V = Grid;

    closed spec fn view(&self) -> Grid {
        grid_of(self.data@, self.rows as int, self.cols as int)
    }
}

/// A flat index stays inside a `rows * cols` buffer.
pub(crate) proof fn lemma_flat_index(i: int, j: int, rows: int, cols: int)
    requires
        0 <= i < rows,
        0 <= j < cols,
    ensures
        0 <= i * cols + j < rows * cols,
        i * cols + j < rows * cols,
{
    assert(0 <= i * cols + j < rows * cols) by (nonlinear_arith)
        requires
            0 <= i < rows,
            0 <= j < cols,
    ;
}

impl Matrix {
    #[verifier::type_invariant]
    spec fn inv(self) -> bool {
        &&& self.rows > 0
        &&& self.cols > 0
        &&& self.data.len() == self.rows * self.cols
    }

    /// The number of rows. Like every shape reader, it also certifies that
    /// the model is a well-formed grid.
    pub fn nrows(&self) -> (r: usize)
        ensures
            r == self@.len(),
            r > 0,
            wf_grid(self@),
    {
        proof {
            use_type_invariant(self);
        }
        self.rows
    }

    /// The number of columns.
    pub fn ncols(&self) -> (r: usize)
        ensures
            r == self@[0].len(),
            r > 0,
            wf_grid(self@),
    {
        proof {
            use_type_invariant(self);
        }
        self.cols
    }

    /// The shape, as (rows, columns).
    pub fn dimensions(&self) -> (r: (usize, usize))
        ensures
            r.0 == self@.len(),
            r.1 == self@[0].len(),
            wf_grid(self@),
    {
        proof {
            use_type_invariant(self);
        }
        (self.rows, self.cols)
    }

    /// The entry at a row and column, or nothing when the position lies
    /// outside the matrix.
    pub fn get(&self, i: usize, j: usize) -> (r: Option<Fx>)
        ensures
            i < self@.len() && j < self@[0].len() ==> (r matches Some(v) && v@ == self@[i as int][
            j as int]),
            !(i < self@.len() && j < self@[0].len()) ==> r is None,
    {
        proof {
            use_type_invariant(self);
        }
        if i < self.rows && j < self.cols {
            Some(self.at(i, j))
        } else {
            None
        }
    }

    /// The entry at row `i`, column `j`.
    fn at(&self, i: usize, j: usize) -> (r: Fx)
        requires
            i < self.rows,
            j < self.cols,
        ensures
            r@ == self@[i as int][j as int],
    {
        proof {
            use_type_invariant(self);
            lemma_flat_index(i as int, j as int, self.rows as int, self.cols as int);
        }
        self.data[i * self.cols + j]
    }

    /// Validate a shape against a borrowed buffer and copy it into a matrix.
    /// Zero rows or columns are refused as `EmptyInput`; a buffer whose
    /// length is not `row_size * col_size` is refused as `DimensionMismatch`.
    pub fn new(buffer: &[Fx], row_size: usize, col_size: usize) -> (r: Result<Matrix, NnError>)
        ensures
            row_size == 0 || col_size == 0 ==> r == Err::<Matrix, NnError>(NnError::EmptyInput),
            row_size > 0 && col_size > 0 && row_size * col_size != buffer@.len() ==> r == Err::<
                Matrix,
                NnError,
            >(NnError::DimensionMismatch),
            row_size > 0 && col_size > 0 && row_size * col_size == buffer@.len() ==> (r matches Ok(
                m,
            ) && m@ == grid_of(buffer@, col_size as int, row_size as int)),
    {
        let v: Vec<Fx> = slice_to_vec(buffer);
        Matrix::into_matrix(v, row_size, col_size)
    }

    /// The same validation as `new`, taking ownership of the buffer.
    pub fn into_matrix(buffer: Vec<Fx>, row_size: usize, col_size: usize) -> (r: Result<
        Matrix,
        NnError,
    >)
        ensures
            row_size == 0 || col_size == 0 ==> r == Err::<Matrix, NnError>(NnError::EmptyInput),
            row_size > 0 && col_size > 0 && row_size * col_size != buffer@.len() ==> r == Err::<
                Matrix,
                NnError,
            >(NnError::DimensionMismatch),
            row_size > 0 && col_size > 0 && row_size * col_size == buffer@.len() ==> (r matches Ok(
                m,
            ) && m@ == grid_of(buffer@, col_size as int, row_size as int)),
    {
        if row_size == 0 || col_size == 0 {
            return Err(NnError::EmptyInput);
        }
        let blen = buffer.len();
        if let Some(n) = row_size.checked_mul(col_size) {
            if n == blen {
                proof {
                    assert(col_size * row_size == row_size * col_size) by (nonlinear_arith);
                }
                let m = Matrix { data: buffer, rows: col_size, cols: row_size };
                Ok(m)
            } else {
                Err(NnError::DimensionMismatch)
            }
        } else {
            proof {
                assert(row_size * col_size > usize::MAX);
                assert(blen <= usize::MAX);
            }
            Err(NnError::DimensionMismatch)
        }
    }

    /// Elementwise sum. The shapes must agree exactly.
    pub fn sum(a: &Matrix, b: &Matrix) -> (r: Result<Matrix, NnError>)
        ensures
            a@.len() == b@.len() && a@[0].len() == b@[0].len() ==> (r matches Ok(m) && m@ == g_add(
                a@,
                b@,
            )),
            !(a@.len() == b@.len() && a@[0].len() == b@[0].len()) ==> r == Err::<Matrix, NnError>(
                NnError::DimensionMismatch,
            ),
    {
        proof {
            use_type_invariant(a);
            use_type_invariant(b);
        }
        if a.rows == b.rows && a.cols == b.cols {
            let m = zip_elems(ZipOp::Sum, a, b);
            proof {
                assert(m@ =~~= g_add(a@, b@));
            }
            Ok(m)
        } else {
            Err(NnError::DimensionMismatch)
        }
    }

    /// Elementwise difference. The shapes must agree exactly.
    pub fn sub(a: &Matrix, b: &Matrix) -> (r: Result<Matrix, NnError>)
        ensures
            a@.len() == b@.len() && a@[0].len() == b@[0].len() ==> (r matches Ok(m) && m@ == g_sub(
                a@,
                b@,
            )),
            !(a@.len() == b@.len() && a@[0].len() == b@[0].len()) ==> r == Err::<Matrix, NnError>(
                NnError::DimensionMismatch,
            ),
    {
        proof {
            use_type_invariant(a);
            use_type_invariant(b);
        }
        if a.rows == b.rows && a.cols == b.cols {
            let m = zip_elems(ZipOp::Diff, a, b);
            proof {
                assert(m@ =~~= g_sub(a@, b@));
            }
            Ok(m)
        } else {
            Err(NnError::DimensionMismatch)
        }
    }

    /// Hadamard (entry by entry) product. The shapes must agree exactly.
    pub fn elementwise_mult(a: &Matrix, b: &Matrix) -> (r: Result<Matrix, NnError>)
        ensures
            a@.len() == b@.len() && a@[0].len() == b@[0].len() ==> (r matches Ok(m) && m@ == g_had(
                a@,
                b@,
            )),
            !(a@.len() == b@.len() && a@[0].len() == b@[0].len()) ==> r == Err::<Matrix, NnError>(
                NnError::DimensionMismatch,
            ),
    {
        proof {
            use_type_invariant(a);
            use_type_invariant(b);
        }
        if a.rows == b.rows && a.cols == b.cols {
            let m = zip_elems(ZipOp::Had, a, b);
            proof {
                assert(m@ =~~= g_had(a@, b@));
            }
            Ok(m)
        } else {
            Err(NnError::DimensionMismatch)
        }
    }

    /// Elementwise sum stored back into `self`. On a shape mismatch nothing
    /// is changed and the mismatch is reported.
    pub fn sum_inplace(&mut self, a: &Matrix) -> (r: Result<(), NnError>)
        ensures
            old(self)@.len() == a@.len() && old(self)@[0].len() == a@[0].len() ==> r == Ok::<
                (),
                NnError,
            >(()) && final(self)@ == g_add(old(self)@, a@),
            !(old(self)@.len() == a@.len() && old(self)@[0].len() == a@[0].len()) ==> r == Err::<
                (),
                NnError,
            >(NnError::DimensionMismatch) && final(self)@ == old(self)@,
    {
        proof {
            use_type_invariant(&*self);
            use_type_invariant(a);
        }
        if self.rows == a.rows && self.cols == a.cols {
            let m = zip_elems(ZipOp::Sum, &*self, a);
            proof {
                assert(m@ =~~= g_add(self@, a@));
            }
            *self = m;
            Ok(())
        } else {
            Err(NnError::DimensionMismatch)
        }
    }

    /// Elementwise difference stored back into `self`. On a shape mismatch
    /// nothing is changed and the mismatch is reported.
    pub fn sub_inplace(&mut self, a: &Matrix) -> (r: Result<(), NnError>)
        ensures
            old(self)@.len() == a@.len() && old(self)@[0].len() == a@[0].len() ==> r == Ok::<
                (),
                NnError,
            >(()) && final(self)@ == g_sub(old(self)@, a@),
            !(old(self)@.len() == a@.len() && old(self)@[0].len() == a@[0].len()) ==> r == Err::<
                (),
                NnError,
            >(NnError::DimensionMismatch) && final(self)@ == old(self)@,
    {
        proof {
            use_type_invariant(&*self);
            use_type_invariant(a);
        }
        if self.rows == a.rows && self.cols == a.cols {
            let m = zip_elems(ZipOp::Diff, &*self, a);
            proof {
                assert(m@ =~~= g_sub(self@, a@));
            }
            *self = m;
            Ok(())
        } else {
            Err(NnError::DimensionMismatch)
        }
    }

    /// The squashing function applied to every entry.
    pub fn sigmoid(&self) -> (r: Matrix)
        ensures
            r@ == g_sig(self@),
    {
        let m = map_elems(MapOp::Sig, self);
        proof {
            assert(m@ =~~= g_sig(self@));
        }
        m
    }

    /// The derivative of the squashing function applied to every entry, read
    /// on the pre-activation values.
    pub fn dsigmoid(&self) -> (r: Matrix)
        ensures
            r@ == g_dsig(self@),
    {
        let m = map_elems(MapOp::Dsig, self);
        proof {
            assert(m@ =~~= g_dsig(self@));
        }
        m
    }

    /// Every entry multiplied in place by the scalar `x`. Always succeeds.
    pub fn cons_prod(&mut self, x: Fx)
        ensures
            final(self)@ == g_scale(old(self)@, x@),
    {
        let m = map_elems(MapOp::Scale(x), &*self);
        proof {
            assert(m@ =~~= g_scale(self@, x@));
        }
        *self = m;
    }

    /// The standard matrix product `a * b`. The number of columns of `a`
    /// must equal the number of rows of `b`.
    pub fn mult(a: &Matrix, b: &Matrix) -> (r: Result<Matrix, NnError>)
        ensures
            a@[0].len() == b@.len() ==> (r matches Ok(m) && m@ == g_mul(a@, b@)),
            a@[0].len() != b@.len() ==> r == Err::<Matrix, NnError>(NnError::DimensionMismatch),
    {
        proof {
            use_type_invariant(a);
            use_type_invariant(b);
        }
        if a.cols == b.rows {
            let m = product_core(ProdOp::Plain, a, b);
            proof {
                assert(m@ =~~= g_mul(a@, b@));
            }
            Ok(m)
        } else {
            Err(NnError::DimensionMismatch)
        }
    }

    /// The product with `a` read in transposed order, so that the result is
    /// what multiplying the transpose of `a` by `b` would give, without the
    /// transpose being laid out. The two operands must have equally many
    /// rows.
    pub fn t1mult(a: &Matrix, b: &Matrix) -> (r: Result<Matrix, NnError>)
        ensures
            a@.len() == b@.len() ==> (r matches Ok(m) && m@ == g_t1mul(a@, b@)),
            a@.len() != b@.len() ==> r == Err::<Matrix, NnError>(NnError::DimensionMismatch),
    {
        proof {
            use_type_invariant(a);
            use_type_invariant(b);
        }
        if a.rows == b.rows {
            let m = product_core(ProdOp::TLeft, a, b);
            proof {
                assert(m@ =~~= g_t1mul(a@, b@));
            }
            Ok(m)
        } else {
            Err(NnError::DimensionMismatch)
        }
    }

    /// The product with `b` read in transposed order, so that the result is
    /// what multiplying `a` by the transpose of `b` would give, without the
    /// transpose being laid out. The two operands must have equally many
    /// columns.
    pub fn t2mult(a: &Matrix, b: &Matrix) -> (r: Result<Matrix, NnError>)
        ensures
            a@[0].len() == b@[0].len() ==> (r matches Ok(m) && m@ == g_t2mul(a@, b@)),
            a@[0].len() != b@[0].len() ==> r == Err::<Matrix, NnError>(NnError::DimensionMismatch),
    {
        proof {
            use_type_invariant(a);
            use_type_invariant(b);
        }
        if a.cols == b.cols {
            let m = product_core(ProdOp::TRight, a, b);
            proof {
                assert(m@ =~~= g_t2mul(a@, b@));
            }
            Ok(m)
        } else {
            Err(NnError::DimensionMismatch)
        }
    }

    /// The standard product stored back into `self`. On a shape mismatch
    /// nothing is changed and the mismatch is reported.
    pub fn mult_inplace(&mut self, a: &Matrix) -> (r: Result<(), NnError>)
        ensures
            old(self)@[0].len() == a@.len() ==> r == Ok::<(), NnError>(()) && final(self)@ == g_mul(
                old(self)@,
                a@,
            ),
            old(self)@[0].len() != a@.len() ==> r == Err::<(), NnError>(
                NnError::DimensionMismatch,
            ) && final(self)@ == old(self)@,
    {
        match Matrix::mult(&*self, a) {
            Ok(m) => {
                *self = m;
                Ok(())
            },
            Err(e) => Err(e),
        }
    }

    /// The transposed-left product stored back into `self`.
    pub fn t1mult_inplace(&mut self, a: &Matrix) -> (r: Result<(), NnError>)
        ensures
            old(self)@.len() == a@.len() ==> r == Ok::<(), NnError>(()) && final(self)@ == g_t1mul(
                old(self)@,
                a@,
            ),
            old(self)@.len() != a@.len() ==> r == Err::<(), NnError>(NnError::DimensionMismatch)
                && final(self)@ == old(self)@,
    {
        match Matrix::t1mult(&*self, a) {
            Ok(m) => {
                *self = m;
                Ok(())
            },
            Err(e) => Err(e),
        }
    }

    /// The transposed-right product stored back into `self`.
    pub fn t2mult_inplace(&mut self, a: &Matrix) -> (r: Result<(), NnError>)
        ensures
            old(self)@[0].len() == a@[0].len() ==> r == Ok::<(), NnError>(()) && final(self)@
                == g_t2mul(old(self)@, a@),
            old(self)@[0].len() != a@[0].len() ==> r == Err::<(), NnError>(
                NnError::DimensionMismatch,
            ) && final(self)@ == old(self)@,
    {
        match Matrix::t2mult(&*self, a) {
            Ok(m) => {
                *self = m;
                Ok(())
            },
            Err(e) => Err(e),
        }
    }

    /// The transposed matrix, laid out in full. Always succeeds.
    #[verifier::loop_isolation(false)]
    pub fn transpose(&self) -> (r: Matrix)
        ensures
            r@ == g_transpose(self@),
    {
        proof {
            use_type_invariant(self);
        }
        let rows = self.cols;
        let cols = self.rows;
        let mut data: Vec<Fx> = Vec::new();
        let mut i: usize = 0;
        while i < rows
            invariant
                i <= rows,
                data@.len() == i * cols,
                forall|p: int, q: int|
                    0 <= p < i && 0 <= q < cols ==> #[trigger] data@[p * cols + q]@ == self@[q][p],
            decreases rows - i,
        {
            let mut j: usize = 0;
            while j < cols
                invariant
                    j <= cols,
                    data@.len() == i * cols + j,
                    forall|p: int, q: int|
                        0 <= p < i && 0 <= q < cols ==> #[trigger] data@[p * cols + q]@
                            == self@[q][p],
                    forall|q: int|
                        0 <= q < j ==> #[trigger] data@[i * cols + q]@ == self@[q][i as int],
                decreases cols - j,
            {
                let v = self.at(j, i);
                data.push(v);
                proof {
                    assert forall|p: int, q: int| 0 <= p < i && 0 <= q < cols implies #[trigger]
                    data@[p * cols + q]@ == self@[q][p] by {
                        lemma_row_major_prefix(p, q, i as int, cols as int);
                    }
                }
                j = j + 1;
            }
            i = i + 1;
            proof {
                assert(data@.len() == i * cols) by (nonlinear_arith)
                    requires
                        data@.len() == (i - 1) * cols + cols,
                ;
            }
        }
        let m = Matrix { data, rows, cols };
        proof {
            assert forall|i: int, j: int| 0 <= i < rows && 0 <= j < cols implies m@[i][j]
                == self@[j][i] by {
                lemma_flat_index(i, j, rows as int, cols as int);
            }
            assert(m@ =~~= g_transpose(self@));
        }
        m
    }

    /// The single-row matrix holding each column's sum over all rows, folded
    /// top to bottom. Used to gather a bias gradient over a mini-batch.
    #[verifier::loop_isolation(false)]
    pub fn sum_of_cols(&self) -> (r: Matrix)
        ensures
            r@ == g_colsum(self@),
    {
        proof {
            use_type_invariant(self);
        }
        let rows = self.rows;
        let cols = self.cols;
        let mut data: Vec<Fx> = Vec::new();
        let mut j: usize = 0;
        while j < cols
            invariant
                j <= cols,
                data@.len() == j,
                forall|q: int|
                    0 <= q < j ==> #[trigger] data@[q]@ == colsum_n(self@, q, rows as int),
            decreases cols - j,
        {
            let mut acc = Fx { units: 0 };
            let mut t: usize = 0;
            while t < rows
                invariant
                    t <= rows,
                    acc@ == colsum_n(self@, j as int, t as int),
                decreases rows - t,
            {
                acc = acc.add(self.at(t, j));
                t = t + 1;
            }
            data.push(acc);
            j = j + 1;
        }
        let m = Matrix { data, rows: 1, cols };
        proof {
            assert forall|q: int| 0 <= q < cols implies m@[0][q] == colsum_n(
                self@,
                q,
                rows as int,
            ) by {
                assert(m@[0][q] == m.data@[0 * cols + q]@);
            }
            assert(m@ =~~= g_colsum(self@));
        }
        m
    }

    /// The single-row matrix `other` added to every row of `self`, in place:
    /// the broadcast that lays one bias row over a whole mini-batch. `other`
    /// must have one row and the column count of `self`.
    pub fn sum_all_rows(&mut self, other: &Matrix) -> (r: Result<(), NnError>)
        ensures
            other@.len() == 1 && other@[0].len() == old(self)@[0].len() ==> r == Ok::<(), NnError>(
                (),
            ) && final(self)@ == g_broadcast(old(self)@, other@),
            !(other@.len() == 1 && other@[0].len() == old(self)@[0].len()) ==> r == Err::<
                (),
                NnError,
            >(NnError::DimensionMismatch) && final(self)@ == old(self)@,
    {
        proof {
            use_type_invariant(&*self);
            use_type_invariant(other);
        }
        if !(other.rows == 1 && other.cols == self.cols) {
            return Err(NnError::DimensionMismatch);
        }
        let m = zip_rows(&*self, other);
        *self = m;
        Ok(())
    }

    /// The backing buffer of a single-row matrix. A matrix with more than
    /// one row is refused.
    pub fn to_vec(self) -> (r: Result<Vec<Fx>, NnError>)
        ensures
            self@.len() == 1 ==> (r matches Ok(v) && v@.map_values(|f: Fx| f@) == self@[0]),
            self@.len() != 1 ==> r == Err::<Vec<Fx>, NnError>(NnError::DimensionMismatch),
    {
        proof {
            use_type_invariant(&self);
        }
        if self.rows == 1 {
            proof {
                assert(self.data@.map_values(|f: Fx| f@) =~= self@[0]);
            }
            Ok(self.data)
        } else {
            Err(NnError::DimensionMismatch)
        }
    }
}

/// Combine two matrices of one shape entry by entry.
#[verifier::loop_isolation(false)]
fn zip_elems(op: ZipOp, a: &Matrix, b: &Matrix) -> (r: Matrix)
    requires
        a.rows == b.rows,
        a.cols == b.cols,
    ensures
        r@ == Seq::new(
            a@.len(),
            |i: int| Seq::new(a@[0].len(), |j: int| zip_v(op, a@[i][j], b@[i][j])),
        ),
{
    proof {
        use_type_invariant(a);
        use_type_invariant(b);
    }
    let rows = a.rows;
    let cols = a.cols;
    let mut data: Vec<Fx> = Vec::new();
    let mut i: usize = 0;
    while i < rows
        invariant
            i <= rows,
            data@.len() == i * cols,
            forall|p: int, q: int|
                0 <= p < i && 0 <= q < cols ==> #[trigger] data@[p * cols + q]@ == zip_v(
                    op,
                    a@[p][q],
                    b@[p][q],
                ),
        decreases rows - i,
    {
        let mut j: usize = 0;
        while j < cols
            invariant
                j <= cols,
                data@.len() == i * cols + j,
                forall|p: int, q: int|
                    0 <= p < i && 0 <= q < cols ==> #[trigger] data@[p * cols + q]@ == zip_v(
                        op,
                        a@[p][q],
                        b@[p][q],
                    ),
                forall|q: int|
                    0 <= q < j ==> #[trigger] data@[i * cols + q]@ == zip_v(
                        op,
                        a@[i as int][q],
                        b@[i as int][q],
                    ),
            decreases cols - j,
        {
            let v = zip_apply(op, a.at(i, j), b.at(i, j));
            data.push(v);
            proof {
                assert forall|p: int, q: int| 0 <= p < i && 0 <= q < cols implies #[trigger] data@[p
                    * cols + q]@ == zip_v(op, a@[p][q], b@[p][q]) by {
                    lemma_row_major_prefix(p, q, i as int, cols as int);
                }
            }
            j = j + 1;
        }
        i = i + 1;
        proof {
            assert(data@.len() == i * cols) by (nonlinear_arith)
                requires
                    data@.len() == (i - 1) * cols + cols,
            ;
        }
    }
    let m = Matrix { data, rows, cols };
    proof {
        assert forall|i: int, j: int| 0 <= i < rows && 0 <= j < cols implies m@[i][j] == zip_v(
            op,
            a@[i][j],
            b@[i][j],
        ) by {
            lemma_flat_index(i, j, rows as int, cols as int);
        }
        assert(m@ =~~= Seq::new(
            a@.len(),
            |i: int| Seq::new(a@[0].len(), |j: int| zip_v(op, a@[i][j], b@[i][j])),
        ));
    }
    m
}

/// Transform one matrix entry by entry.
#[verifier::loop_isolation(false)]
fn map_elems(op: MapOp, a: &Matrix) -> (r: Matrix)
    ensures
        r@ == Seq::new(a@.len(), |i: int| Seq::new(a@[0].len(), |j: int| map_v(op, a@[i][j]))),
{
    proof {
        use_type_invariant(a);
    }
    let rows = a.rows;
    let cols = a.cols;
    let mut data: Vec<Fx> = Vec::new();
    let mut i: usize = 0;
    while i < rows
        invariant
            i <= rows,
            data@.len() == i * cols,
            forall|p: int, q: int|
                0 <= p < i && 0 <= q < cols ==> #[trigger] data@[p * cols + q]@ == map_v(
                    op,
                    a@[p][q],
                ),
        decreases rows - i,
    {
        let mut j: usize = 0;
        while j < cols
            invariant
                j <= cols,
                data@.len() == i * cols + j,
                forall|p: int, q: int|
                    0 <= p < i && 0 <= q < cols ==> #[trigger] data@[p * cols + q]@ == map_v(
                        op,
                        a@[p][q],
                    ),
                forall|q: int|
                    0 <= q < j ==> #[trigger] data@[i * cols + q]@ == map_v(op, a@[i as int][q]),
            decreases cols - j,
        {
            let v = map_apply(op, a.at(i, j));
            data.push(v);
            proof {
                assert forall|p: int, q: int| 0 <= p < i && 0 <= q < cols implies #[trigger] data@[p
                    * cols + q]@ == map_v(op, a@[p][q]) by {
                    lemma_row_major_prefix(p, q, i as int, cols as int);
                }
            }
            j = j + 1;
        }
        i = i + 1;
        proof {
            assert(data@.len() == i * cols) by (nonlinear_arith)
                requires
                    data@.len() == (i - 1) * cols + cols,
            ;
        }
    }
    let m = Matrix { data, rows, cols };
    proof {
        assert forall|i: int, j: int| 0 <= i < rows && 0 <= j < cols implies m@[i][j] == map_v(
            op,
            a@[i][j],
        ) by {
            lemma_flat_index(i, j, rows as int, cols as int);
        }
        assert(m@ =~~= Seq::new(
            a@.len(),
            |i: int| Seq::new(a@[0].len(), |j: int| map_v(op, a@[i][j])),
        ));
    }
    m
}

/// Which operand of a product, if any, is read in transposed index order.
#[derive(Clone, Copy)]
enum ProdOp {
    Plain,
    TLeft,
    TRight,
}

/// The row count of the product.
spec fn prod_rows(op: ProdOp, a: Grid) -> int {
    match op {
        ProdOp::Plain => a.len() as int,
        ProdOp::TLeft => a[0].len() as int,
        ProdOp::TRight => a.len() as int,
    }
}

/// The column count of the product.
spec fn prod_cols(op: ProdOp, b: Grid) -> int {
    match op {
        ProdOp::Plain => b[0].len() as int,
        ProdOp::TLeft => b[0].len() as int,
        ProdOp::TRight => b.len() as int,
    }
}

/// The sequence the dot product reads from the left operand for row `i`.
spec fn prod_left(op: ProdOp, a: Grid, i: int) -> Seq<int> {
    match op {
        ProdOp::Plain => a[i],
        ProdOp::TLeft => g_col(a, i),
        ProdOp::TRight => a[i],
    }
}

/// The sequence the dot product reads from the right operand for column `j`.
spec fn prod_right(op: ProdOp, b: Grid, j: int) -> Seq<int> {
    match op {
        ProdOp::Plain => g_col(b, j),
        ProdOp::TLeft => g_col(b, j),
        ProdOp::TRight => b[j],
    }
}

/// The one dot-product loop behind the three multiplication variants: the
/// variants differ only in which index of each operand runs along the
/// accumulated dimension, so the transposed readings cost no extra buffer.
#[verifier::loop_isolation(false)]
fn product_core(op: ProdOp, a: &Matrix, b: &Matrix) -> (r: Matrix)
    requires
        match op {
            ProdOp::Plain => a.cols == b.rows,
            ProdOp::TLeft => a.rows == b.rows,
            ProdOp::TRight => a.cols == b.cols,
        },
    ensures
        r@ == Seq::new(
            prod_rows(op, a@) as nat,
            |i: int|
                Seq::new(
                    prod_cols(op, b@) as nat,
                    |j: int| g_dot(prod_left(op, a@, i), prod_right(op, b@, j)),
                ),
        ),
{
    proof {
        use_type_invariant(a);
        use_type_invariant(b);
    }
    let rows: usize = match op {
        ProdOp::Plain => a.rows,
        ProdOp::TLeft => a.cols,
        ProdOp::TRight => a.rows,
    };
    let cols: usize = match op {
        ProdOp::Plain => b.cols,
        ProdOp::TLeft => b.cols,
        ProdOp::TRight => b.rows,
    };
    let inner: usize = match op {
        ProdOp::Plain => a.cols,
        ProdOp::TLeft => a.rows,
        ProdOp::TRight => a.cols,
    };
    let mut data: Vec<Fx> = Vec::new();
    let mut i: usize = 0;
    while i < rows
        invariant
            i <= rows,
            data@.len() == i * cols,
            forall|p: int, q: int|
                0 <= p < i && 0 <= q < cols ==> #[trigger] data@[p * cols + q]@ == g_dot(
                    prod_left(op, a@, p),
                    prod_right(op, b@, q),
                ),
        decreases rows - i,
    {
        let mut j: usize = 0;
        while j < cols
            invariant
                j <= cols,
                data@.len() == i * cols + j,
                forall|p: int, q: int|
                    0 <= p < i && 0 <= q < cols ==> #[trigger] data@[p * cols + q]@ == g_dot(
                        prod_left(op, a@, p),
                        prod_right(op, b@, q),
                    ),
                forall|q: int|
                    0 <= q < j ==> #[trigger] data@[i * cols + q]@ == g_dot(
                        prod_left(op, a@, i as int),
                        prod_right(op, b@, q),
                    ),
            decreases cols - j,
        {
            let ghost ls = prod_left(op, a@, i as int);
            let ghost rs = prod_right(op, b@, j as int);
            let mut acc = Fx { units: 0 };
            let mut t: usize = 0;
            while t < inner
                invariant
                    t <= inner,
                    acc@ == dot_n(ls, rs, t as int),
                decreases inner - t,
            {
                let xa: Fx = match op {
                    ProdOp::Plain => a.at(i, t),
                    ProdOp::TLeft => a.at(t, i),
                    ProdOp::TRight => a.at(i, t),
                };
                let xb: Fx = match op {
                    ProdOp::Plain => b.at(t, j),
                    ProdOp::TLeft => b.at(t, j),
                    ProdOp::TRight => b.at(j, t),
                };
                proof {
                    assert(xa@ == ls[t as int]);
                    assert(xb@ == rs[t as int]);
                }
                acc = acc.add(xa.mul(xb));
                t = t + 1;
            }
            proof {
                assert(ls.len() == inner);
                assert(acc@ == g_dot(ls, rs));
            }
            data.push(acc);
            proof {
                assert forall|p: int, q: int| 0 <= p < i && 0 <= q < cols implies #[trigger] data@[p
                    * cols + q]@ == g_dot(prod_left(op, a@, p), prod_right(op, b@, q)) by {
                    lemma_row_major_prefix(p, q, i as int, cols as int);
                }
            }
            j = j + 1;
        }
        i = i + 1;
        proof {
            assert(data@.len() == i * cols) by (nonlinear_arith)
                requires
                    data@.len() == (i - 1) * cols + cols,
            ;
        }
    }
    let m = Matrix { data, rows, cols };
    proof {
        assert forall|i: int, j: int| 0 <= i < rows && 0 <= j < cols implies m@[i][j] == g_dot(
            prod_left(op, a@, i),
            prod_right(op, b@, j),
        ) by {
            lemma_flat_index(i, j, rows as int, cols as int);
        }
        assert(m@ =~~= Seq::new(
            prod_rows(op, a@) as nat,
            |i: int|
                Seq::new(
                    prod_cols(op, b@) as nat,
                    |j: int| g_dot(prod_left(op, a@, i), prod_right(op, b@, j)),
                ),
        ));
    }
    m
}

/// The standard product, for callers that have already settled the shapes.
pub(crate) fn mult_exact(a: &Matrix, b: &Matrix) -> (r: Matrix)
    requires
        a@[0].len() == b@.len(),
    ensures
        r@ == g_mul(a@, b@),
{
    proof {
        use_type_invariant(a);
        use_type_invariant(b);
    }
    let m = product_core(ProdOp::Plain, a, b);
    proof {
        assert(m@ =~~= g_mul(a@, b@));
    }
    m
}

/// The transposed-left product, for callers that have already settled the
/// shapes.
pub(crate) fn t1mult_exact(a: &Matrix, b: &Matrix) -> (r: Matrix)
    requires
        a@.len() == b@.len(),
    ensures
        r@ == g_t1mul(a@, b@),
{
    proof {
        use_type_invariant(a);
        use_type_invariant(b);
    }
    let m = product_core(ProdOp::TLeft, a, b);
    proof {
        assert(m@ =~~= g_t1mul(a@, b@));
    }
    m
}

/// The transposed-right product, for callers that have already settled the
/// shapes.
pub(crate) fn t2mult_exact(a: &Matrix, b: &Matrix) -> (r: Matrix)
    requires
        a@[0].len() == b@[0].len(),
    ensures
        r@ == g_t2mul(a@, b@),
{
    proof {
        use_type_invariant(a);
        use_type_invariant(b);
    }
    let m = product_core(ProdOp::TRight, a, b);
    proof {
        assert(m@ =~~= g_t2mul(a@, b@));
    }
    m
}

/// The elementwise difference, for callers that have already settled the
/// shapes.
pub(crate) fn sub_exact(a: &Matrix, b: &Matrix) -> (r: Matrix)
    requires
        a@.len() == b@.len(),
        a@[0].len() == b@[0].len(),
    ensures
        r@ == g_sub(a@, b@),
{
    proof {
        use_type_invariant(a);
        use_type_invariant(b);
    }
    let m = zip_elems(ZipOp::Diff, a, b);
    proof {
        assert(m@ =~~= g_sub(a@, b@));
    }
    m
}

/// The Hadamard product, for callers that have already settled the shapes.
pub(crate) fn had_exact(a: &Matrix, b: &Matrix) -> (r: Matrix)
    requires
        a@.len() == b@.len(),
        a@[0].len() == b@[0].len(),
    ensures
        r@ == g_had(a@, b@),
{
    proof {
        use_type_invariant(a);
        use_type_invariant(b);
    }
    let m = zip_elems(ZipOp::Had, a, b);
    proof {
        assert(m@ =~~= g_had(a@, b@));
    }
    m
}

/// The broadcast sum of a single-row matrix over every row, for callers
/// that have already settled the shapes.
pub(crate) fn broadcast_exact(a: &Matrix, v: &Matrix) -> (r: Matrix)
    requires
        v@.len() == 1,
        v@[0].len() == a@[0].len(),
    ensures
        r@ == g_broadcast(a@, v@),
{
    proof {
        use_type_invariant(a);
        use_type_invariant(v);
    }
    let m = zip_rows(a, v);
    m
}

/// The broadcast loop behind `sum_all_rows` and the layer forward pass.
#[verifier::loop_isolation(false)]
fn zip_rows(a: &Matrix, v: &Matrix) -> (r: Matrix)
    requires
        v.rows == 1,
        v.cols == a.cols,
    ensures
        r@ == g_broadcast(a@, v@),
{
    proof {
        use_type_invariant(a);
        use_type_invariant(v);
    }
    let rows = a.rows;
    let cols = a.cols;
    let mut data: Vec<Fx> = Vec::new();
    let mut i: usize = 0;
    while i < rows
        invariant
            i <= rows,
            data@.len() == i * cols,
            forall|p: int, q: int|
                0 <= p < i && 0 <= q < cols ==> #[trigger] data@[p * cols + q]@ == add_v(
                    a@[p][q],
                    v@[0][q],
                ),
        decreases rows - i,
    {
        let mut j: usize = 0;
        while j < cols
            invariant
                j <= cols,
                data@.len() == i * cols + j,
                forall|p: int, q: int|
                    0 <= p < i && 0 <= q < cols ==> #[trigger] data@[p * cols + q]@ == add_v(
                        a@[p][q],
                        v@[0][q],
                    ),
                forall|q: int|
                    0 <= q < j ==> #[trigger] data@[i * cols + q]@ == add_v(
                        a@[i as int][q],
                        v@[0][q],
                    ),
            decreases cols - j,
        {
            let w = a.at(i, j).add(v.at(0, j));
            data.push(w);
            proof {
                assert forall|p: int, q: int| 0 <= p < i && 0 <= q < cols implies #[trigger] data@[p
                    * cols + q]@ == add_v(a@[p][q], v@[0][q]) by {
                    lemma_row_major_prefix(p, q, i as int, cols as int);
                }
            }
            j = j + 1;
        }
        i = i + 1;
        proof {
            assert(data@.len() == i * cols) by (nonlinear_arith)
                requires
                    data@.len() == (i - 1) * cols + cols,
            ;
        }
    }
    let m = Matrix { data, rows, cols };
    proof {
        assert forall|i: int, j: int| 0 <= i < rows && 0 <= j < cols implies m@[i][j] == add_v(
            a@[i][j],
            v@[0][j],
        ) by {
            lemma_flat_index(i, j, rows as int, cols as int);
        }
        assert(m@ =~~= g_broadcast(a@, v@));
    }
    m
}

/// Copy a borrowed slice of scalars into an owned buffer.
fn slice_to_vec(s: &[Fx]) -> (r: Vec<Fx>)
    ensures
        r@ == s@,
{
    let mut v: Vec<Fx> = Vec::new();
    let mut i: usize = 0;
    while i < s.len()
        invariant
            i <= s@.len(),
            v@ == s@.subrange(0, i as int),
        decreases s@.len() - i,
    {
        v.push(s[i]);
        proof {
            assert(v@ =~= s@.subrange(0, i + 1 as int));
        }
        i = i + 1;
    }
    proof {
        assert(v@ =~= s@);
    }
    v
}

} // verus!
