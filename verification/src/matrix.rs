//! A dense matrix that owns its cells in one row-major buffer.
//!
//! Every operation allocates its result and leaves its operands as they
//! were; [`Matrix::set`] is the one exception. What an operation returns is
//! stated over the matrix's view, a [`Grid`].
use crate::grid::{lemma_cell_index, peak_index_upto, peak_upto, pointwise, sum_upto, Grid};
use crate::algebra::{
    lemma_peak_index_holds_peak, lemma_peak_index_upto, lemma_transpose_involutive,
    lemma_transpose_of_product, products_commute,
};
use crate::scalar::{strictly_ordered_among, Scalar};
use vstd::prelude::*;

verus! {

/// A `rows` by `cols` matrix; cell `(r, c)` is held at `r * cols + c`.
#[derive(Debug, PartialEq)]
pub struct Matrix<T> {
    rows: usize,
    cols: usize,
    data: Vec<T>,
}

impl<T> View for Matrix<T> {
    type V = Grid<T>;

    closed spec fn view(&self) -> Grid<T> {
        Grid { rows: self.rows as nat, cols: self.cols as nat, cells: self.data@ }
    }
}

impl<T> Matrix<T> {
    /// What holds of every matrix: the buffer fills the shape exactly.
    #[verifier::type_invariant]
    pub closed spec fn well_formed(self) -> bool {
        self.data.len() == self.rows * self.cols
    }

    /// The view of a matrix is well formed and storable: its shape and the
    /// number of its cells fit a `usize`.
    pub proof fn lemma_storable(self)
        requires
            self.well_formed(),
        ensures
            self@.storable(),
    {
    }
}

impl<T: Copy> Matrix<T> {
    /// A matrix of the given shape over a copy of `data`.
    pub fn new(shape: (usize, usize), data: &[T]) -> (out: Self)
        requires
            shape.0 * shape.1 == data.len(),
        ensures
            out@ == (Grid { rows: shape.0 as nat, cols: shape.1 as nat, cells: data@ }),
            out@.wf(),
    {
        Matrix { rows: shape.0, cols: shape.1, data: vstd::slice::slice_to_vec(data) }
    }

    /// A matrix of the given shape with `num` in every cell.
    pub fn new_from(shape: (usize, usize), num: T) -> (out: Self)
        requires
            shape.0 * shape.1 <= usize::MAX,
        ensures
            out@ == Grid::filled(shape.0 as nat, shape.1 as nat, num),
    {
        let n: usize = shape.0 * shape.1;
        let mut data: Vec<T> = Vec::with_capacity(n);
        let mut i: usize = 0;
        while i < n
            invariant
                i <= n,
                data.len() == i,
                forall|k: int| 0 <= k < i ==> data[k] == num,
            decreases n - i,
        {
            data.push(num);
            i += 1;
        }
        assert(data@ =~= Seq::new((shape.0 * shape.1) as nat, |k: int| num));
        Matrix { rows: shape.0, cols: shape.1, data }
    }

    /// The number of rows and the number of columns.
    pub fn shape(&self) -> (s: (usize, usize))
        ensures
            s.0 == self@.rows,
            s.1 == self@.cols,
            self@.wf(),
    {
        proof {
            use_type_invariant(self);
        }
        (self.rows, self.cols)
    }

    /// The number of cells.
    pub fn len(&self) -> (n: usize)
        ensures
            n == self@.cells.len(),
            n == self@.rows * self@.cols,
    {
        proof {
            use_type_invariant(self);
        }
        self.data.len()
    }

    /// A copy of the cells in row-major order.
    pub fn data(&self) -> (cells: Vec<T>)
        ensures
            cells@ == self@.cells,
    {
        vstd::slice::slice_to_vec(self.data.as_slice())
    }

    /// A walk over the cells in row-major order.
    pub fn iter(&self) -> (cells: core::slice::Iter<'_, T>)
        ensures
            vstd::std_specs::slice::into_iter_elts(cells) == self@.cells,
    {
        self.data.as_slice().iter()
    }

    /// The cell at flat index `row * cols + col`.
    pub fn get(&self, row: usize, col: usize) -> (value: T)
        requires
            row * self@.cols + col < self@.cells.len(),
        ensures
            value == self@.at(row as int, col as int),
    {
        proof {
            use_type_invariant(self);
            lemma_flat_index_fits(row as int, self.cols as int, col as int);
        }
        self.data[row * self.cols + col]
    }

    /// Puts `value` at flat index `row * cols + col`.
    pub fn set(&mut self, row: usize, col: usize, value: T)
        requires
            row * old(self)@.cols + col < old(self)@.cells.len(),
        ensures
            final(self)@ == old(self)@.with_cell(row as int, col as int, value),
        no_unwind
    {
        proof {
            use_type_invariant(&*self);
            lemma_flat_index_fits(row as int, self.cols as int, col as int);
        }
        let idx: usize = row * self.cols + col;
        self.data[idx] = value;
    }

    /// Row `row` as a matrix of one row.
    pub fn get_row(&self, row: usize) -> (out: Matrix<T>)
        requires
            row * self@.cols + self@.cols <= self@.cells.len(),
        ensures
            out@ == self@.row(row as int),
    {
        proof {
            use_type_invariant(self);
            lemma_flat_index_fits(row as int, self.cols as int, self.cols as int);
        }
        let start: usize = row * self.cols;
        let end: usize = start + self.cols;
        let mut data: Vec<T> = Vec::with_capacity(self.cols);
        let mut i: usize = start;
        while i < end
            invariant
                start <= i <= end,
                end <= self.data.len(),
                data@ == self.data@.subrange(start as int, i as int),
            decreases end - i,
        {
            data.push(self.data[i]);
            assert(data@ =~= self.data@.subrange(start as int, i + 1));
            i += 1;
        }
        assert(1 * self.cols == self.cols) by (nonlinear_arith);
        Matrix { rows: 1, cols: self.cols, data }
    }

    /// The matrix with rows and columns exchanged.
    pub fn transpose(&self) -> (out: Self)
        ensures
            out@ == self@.transposed(),
            out@.transposed() == self@,
    {
        proof {
            use_type_invariant(self);
            assert(self.cols * self.rows == self.rows * self.cols) by (nonlinear_arith);
            lemma_transpose_involutive(self@);
        }
        let n: usize = self.data.len();
        let mut data: Vec<T> = Vec::with_capacity(n);
        let mut j: usize = 0;
        while j < self.cols
            invariant
                j <= self.cols,
                self.data.len() == self.rows * self.cols,
                data.len() == j * self.rows,
                forall|k: int|
                    0 <= k < data.len() ==> data[k] == self@.at(
                        k % (self.rows as int),
                        k / (self.rows as int),
                    ),
            decreases self.cols - j,
        {
            let mut i: usize = 0;
            while i < self.rows
                invariant
                    i <= self.rows,
                    j < self.cols,
                    self.data.len() == self.rows * self.cols,
                    data.len() == j * self.rows + i,
                    forall|k: int|
                        0 <= k < data.len() ==> data[k] == self@.at(
                            k % (self.rows as int),
                            k / (self.rows as int),
                        ),
                decreases self.rows - i,
            {
                proof {
                    lemma_cell_index(self.rows as int, self.cols as int, i as int, j as int);
                    lemma_cell_index(self.cols as int, self.rows as int, j as int, i as int);
                    assert(0 <= i * self.cols) by (nonlinear_arith)
                        requires
                            0 <= i,
                            0 <= self.cols,
                    ;
                }
                data.push(self.data[i * self.cols + j]);
                i += 1;
            }
            proof {
                assert(j * self.rows + self.rows == (j + 1) * self.rows) by (nonlinear_arith);
            }
            j += 1;
        }
        assert(data@ =~= self@.transposed().cells);
        Matrix { rows: self.cols, cols: self.rows, data }
    }
}

impl<T: Copy> Clone for Matrix<T> {
    fn clone(&self) -> (out: Self)
        ensures
            out@ == self@,
    {
        proof {
            use_type_invariant(self);
        }
        Matrix {
            rows: self.rows,
            cols: self.cols,
            data: vstd::slice::slice_to_vec(self.data.as_slice()),
        }
    }
}

impl<T: Scalar> Matrix<T> {
    /// A matrix of the given shape with zero in every cell.
    pub fn new_zeros(shape: (usize, usize)) -> (out: Self)
        requires
            shape.0 * shape.1 <= usize::MAX,
        ensures
            out@ == Grid::filled(shape.0 as nat, shape.1 as nat, T::zero_value()),
    {
        Self::new_from(shape, T::zero())
    }

    /// A matrix of the given shape with one in every cell.
    pub fn new_ones(shape: (usize, usize)) -> (out: Self)
        requires
            shape.0 * shape.1 <= usize::MAX,
        ensures
            out@ == Grid::filled(shape.0 as nat, shape.1 as nat, T::one_value()),
    {
        Self::new_from(shape, T::one())
    }

    /// The matrix product of this matrix with `other`.
    pub fn dot(&self, other: &Matrix<T>) -> (out: Matrix<T>)
        requires
            self@.cols == other@.rows,
            self@.rows * other@.cols <= usize::MAX,
        ensures
            out@ == self@.product(other@),
            out@.rows == self@.rows,
            out@.cols == other@.cols,
            out@.cells.len() == self@.rows * other@.cols,
            products_commute(self@, other@) ==> out@.transposed() == other@.transposed().product(
                self@.transposed(),
            ),
    {
        proof {
            use_type_invariant(self);
            use_type_invariant(other);
            if products_commute(self@, other@) {
                lemma_transpose_of_product(self@, other@);
            }
        }
        let n: usize = self.rows * other.cols;
        let mut data: Vec<T> = Vec::with_capacity(n);
        let mut i: usize = 0;
        while i < self.rows
            invariant
                i <= self.rows,
                self.cols == other.rows,
                self.data.len() == self.rows * self.cols,
                other.data.len() == other.rows * other.cols,
                n == self.rows * other.cols,
                data.len() == i * other.cols,
                forall|m: int|
                    0 <= m < data.len() ==> data[m] == self@.inner(
                        other@,
                        m / (other.cols as int),
                        m % (other.cols as int),
                        self.cols as nat,
                    ),
            decreases self.rows - i,
        {
            let mut j: usize = 0;
            while j < other.cols
                invariant
                    i < self.rows,
                    j <= other.cols,
                    self.cols == other.rows,
                    self.data.len() == self.rows * self.cols,
                    other.data.len() == other.rows * other.cols,
                    n == self.rows * other.cols,
                    data.len() == i * other.cols + j,
                    forall|m: int|
                        0 <= m < data.len() ==> data[m] == self@.inner(
                            other@,
                            m / (other.cols as int),
                            m % (other.cols as int),
                            self.cols as nat,
                        ),
                decreases other.cols - j,
            {
                let mut sum: T = T::zero();
                let mut k: usize = 0;
                while k < self.cols
                    invariant
                        i < self.rows,
                        j < other.cols,
                        k <= self.cols,
                        self.cols == other.rows,
                        self.data.len() == self.rows * self.cols,
                        other.data.len() == other.rows * other.cols,
                        sum == self@.inner(other@, i as int, j as int, k as nat),
                    decreases self.cols - k,
                {
                    proof {
                        lemma_cell_index(self.rows as int, self.cols as int, i as int, k as int);
                        lemma_cell_index(other.rows as int, other.cols as int, k as int, j as int);
                        lemma_flat_index_fits(i as int, self.cols as int, k as int);
                        lemma_flat_index_fits(k as int, other.cols as int, j as int);
                    }
                    let a: T = self.data[i * self.cols + k];
                    let b: T = other.data[k * other.cols + j];
                    sum = sum.plus(a.times(b));
                    k += 1;
                }
                proof {
                    lemma_cell_index(self.rows as int, other.cols as int, i as int, j as int);
                }
                data.push(sum);
                j += 1;
            }
            proof {
                assert(i * other.cols + other.cols == (i + 1) * other.cols) by (nonlinear_arith);
            }
            i += 1;
        }
        assert(data@ =~= self@.product(other@).cells);
        Matrix { rows: self.rows, cols: other.cols, data }
    }

    /// The cell-by-cell product of this matrix with `other`.
    pub fn multiply(&self, other: &Matrix<T>) -> (out: Matrix<T>)
        requires
            self@.same_shape(other@),
        ensures
            out@ == self@.hadamard(other@),
    {
        let out = self.zipped(other, Op::Times);
        assert(out@.cells =~= self@.hadamard(other@).cells);
        out
    }

    /// Every cell times `input`.
    pub fn scale(&self, input: T) -> (out: Matrix<T>)
        ensures
            out@ == self@.scaled(input),
    {
        let out = self.spread(input, Op::Times);
        assert(out@.cells =~= self@.scaled(input).cells);
        out
    }

    /// Cell by cell, `op` on the cell here and the cell of `other`.
    fn zipped(&self, other: &Matrix<T>, op: Op) -> (out: Matrix<T>)
        requires
            self@.same_shape(other@),
        ensures
            out@.same_shape(self@),
            out@.cells.len() == self@.cells.len(),
            forall|k: int|
                0 <= k < self@.cells.len() ==> out@.cells[k] == applied(
                    op,
                    self@.cells[k],
                    other@.cells[k],
                ),
    {
        proof {
            use_type_invariant(self);
            use_type_invariant(other);
        }
        let n: usize = self.data.len();
        let mut data: Vec<T> = Vec::with_capacity(n);
        let mut i: usize = 0;
        while i < n
            invariant
                i <= n,
                n == self.data.len(),
                n == other.data.len(),
                data.len() == i,
                forall|k: int| 0 <= k < i ==> data[k] == applied(op, self.data[k], other.data[k]),
            decreases n - i,
        {
            data.push(apply(&op, self.data[i], other.data[i]));
            i += 1;
        }
        Matrix { rows: self.rows, cols: self.cols, data }
    }

    /// Cell by cell, `op` on the cell here and `s`.
    fn spread(&self, s: T, op: Op) -> (out: Matrix<T>)
        ensures
            out@.same_shape(self@),
            out@.cells.len() == self@.cells.len(),
            forall|k: int|
                0 <= k < self@.cells.len() ==> out@.cells[k] == applied(op, self@.cells[k], s),
    {
        proof {
            use_type_invariant(self);
        }
        let n: usize = self.data.len();
        let mut data: Vec<T> = Vec::with_capacity(n);
        let mut i: usize = 0;
        while i < n
            invariant
                i <= n,
                n == self.data.len(),
                data.len() == i,
                forall|k: int| 0 <= k < i ==> data[k] == applied(op, self.data[k], s),
            decreases n - i,
        {
            data.push(apply(&op, self.data[i], s));
            i += 1;
        }
        Matrix { rows: self.rows, cols: self.cols, data }
    }

    /// The matrix that holds, cell by cell, what `exp` returns on the cell
    /// here. The exponential is the caller's: the kernel applies it and
    /// promises of each result what `exp` itself promises.
    pub fn exp<F: Fn(T) -> T>(&self, exp: F) -> (out: Matrix<T>)
        requires
            forall|k: int| 0 <= k < self@.cells.len() ==> call_requires(exp, (self@.cells[k],)),
        ensures
            out@.same_shape(self@),
            pointwise(exp, self@.cells, out@.cells),
    {
        self.mapped(exp)
    }

    /// The matrix that holds, cell by cell, what `f` returns on the cell here.
    pub(crate) fn mapped<F: Fn(T) -> T>(&self, f: F) -> (out: Matrix<T>)
        requires
            forall|k: int| 0 <= k < self@.cells.len() ==> call_requires(f, (self@.cells[k],)),
        ensures
            out@.same_shape(self@),
            pointwise(f, self@.cells, out@.cells),
    {
        proof {
            use_type_invariant(self);
        }
        let n: usize = self.data.len();
        let mut data: Vec<T> = Vec::with_capacity(n);
        let mut i: usize = 0;
        while i < n
            invariant
                i <= n,
                n == self.data.len(),
                data.len() == i,
                forall|k: int| 0 <= k < n ==> call_requires(f, (self@.cells[k],)),
                forall|k: int|
                    0 <= k < i ==> call_ensures(f, (self@.cells[k],), #[trigger] data[k]),
            decreases n - i,
        {
            let x: T = self.data[i];
            assert(x == self@.cells[i as int]);
            data.push(f(x));
            i += 1;
        }
        Matrix { rows: self.rows, cols: self.cols, data }
    }

    /// The sum of all cells, taken in row-major order.
    pub fn sum(&self) -> (total: T)
        ensures
            total == self@.total(),
    {
        let n: usize = self.data.len();
        let mut total: T = T::zero();
        let mut i: usize = 0;
        while i < n
            invariant
                i <= n,
                n == self.data.len(),
                total == sum_upto(self.data@, i as nat),
            decreases n - i,
        {
            total = total.plus(self.data[i]);
            i += 1;
        }
        total
    }

    /// The sum of all cells over their number.
    pub fn mean(&self) -> (mean: T)
        ensures
            mean == self@.mean(),
            mean == self@.total().quotient_of(T::count_value(self@.cells.len() as usize)),
    {
        self.sum().over(T::from_count(self.data.len()))
    }

    /// The largest cell, or the lowest scalar for a matrix without cells.
    pub fn max(&self) -> (peak: T)
        ensures
            peak == self@.peak(),
    {
        let n: usize = self.data.len();
        let mut peak: T = T::lowest();
        let mut i: usize = 0;
        while i < n
            invariant
                i <= n,
                n == self.data.len(),
                peak == peak_upto(self.data@, i as nat),
            decreases n - i,
        {
            let x: T = self.data[i];
            if peak.lt(x) {
                peak = x;
            }
            i += 1;
        }
        peak
    }

    /// The row-major index of the largest cell, the first of them where
    /// several are equally large.
    pub fn max_index(&self) -> (index: usize)
        requires
            self@.cells.len() > 0,
        ensures
            index == self@.peak_index(),
            index < self@.cells.len(),
            T::lowest_value().less_than(self@.cells[0]) || self@.cells[0] == T::lowest_value()
                ==> self@.cells[index as int] == self@.peak(),
            strictly_ordered_among(self@.cells) ==> {
                &&& forall|j: int|
                    0 <= j < self@.cells.len() ==> !self@.cells[index as int].less_than(
                        #[trigger] self@.cells[j],
                    )
                &&& forall|j: int|
                    0 <= j < index ==> (#[trigger] self@.cells[j]).less_than(
                        self@.cells[index as int],
                    )
            },
    {
        proof {
            lemma_peak_index_upto(self@.cells, self@.cells.len());
            if T::lowest_value().less_than(self@.cells[0]) || self@.cells[0]
                == T::lowest_value() {
                lemma_peak_index_holds_peak(self@);
            }
        }
        let n: usize = self.data.len();
        let mut best: usize = 0;
        let mut i: usize = 1;
        while i < n
            invariant
                1 <= i <= n,
                n == self.data.len(),
                best < i,
                best == peak_index_upto(self.data@, i as nat),
            decreases n - i,
        {
            if self.data[best].lt(self.data[i]) {
                best = i;
            }
            i += 1;
        }
        best
    }
}

impl<T: Copy> Matrix<T> {
    /// The rows of this matrix, from the first, one at a time.
    pub fn iter_row(&self) -> (rows: RowIter<'_, T>)
        ensures
            rows.source() == self@,
            rows.position() == 0,
    {
        RowIter { matrix_: self, current: 0 }
    }
}

/// A walk over the rows of a matrix. It hands out each row once, as a
/// matrix of one row, and cannot be started again.
pub struct RowIter<'a, T> {
    matrix_: &'a Matrix<T>,
    current: usize,
}

impl<'a, T: Copy> RowIter<'a, T> {
    /// The matrix whose rows are handed out.
    pub closed spec fn source(&self) -> Grid<T> {
        self.matrix_@
    }

    /// The number of rows handed out so far.
    pub closed spec fn position(&self) -> nat {
        self.current as nat
    }

    /// The next row, or `None` once every row was handed out.
    pub fn next(&mut self) -> (row: Option<Matrix<T>>)
        ensures
            final(self).source() == old(self).source(),
            old(self).position() < old(self).source().rows ==> {
                &&& row matches Some(r)
                &&& r@ == old(self).source().row(old(self).position() as int)
                &&& final(self).position() == old(self).position() + 1
            },
            old(self).position() >= old(self).source().rows ==> {
                &&& row is None
                &&& final(self).position() == old(self).position()
            },
    {
        if self.current < self.matrix_.rows {
            proof {
                use_type_invariant(self.matrix_);
                assert(self.current * self.matrix_.cols + self.matrix_.cols <= self.matrix_.rows
                    * self.matrix_.cols) by (nonlinear_arith)
                    requires
                        self.current + 1 <= self.matrix_.rows,
                        0 <= self.matrix_.cols,
                ;
            }
            let row = self.matrix_.get_row(self.current);
            self.current += 1;
            Some(row)
        } else {
            None
        }
    }
}

impl<T: Scalar> Default for Matrix<T> {
    /// The one-by-one matrix that holds zero.
    fn default() -> (out: Self)
        ensures
            out@ == Grid::filled(1, 1, T::zero_value()),
    {
        Matrix::new_from((1, 1), T::zero())
    }
}

/// The three cell operations that the binary operators share.
enum Op {
    Minus,
    Times,
    Over,
}

spec fn applied<T: Scalar>(op: Op, a: T, b: T) -> T {
    match op {
        Op::Minus => a.difference_of(b),
        Op::Times => a.product_of(b),
        Op::Over => a.quotient_of(b),
    }
}

fn apply<T: Scalar>(op: &Op, a: T, b: T) -> (r: T)
    ensures
        r == applied(*op, a, b),
{
    match op {
        Op::Minus => a.minus(b),
        Op::Times => a.times(b),
        Op::Over => a.over(b),
    }
}

/// `a - b`, cell by cell, for matrices of one shape.
impl<T: Scalar> core::ops::Sub for Matrix<T> {
    type Output = Matrix<T>;

    fn sub(self, rhs: Self) -> (out: Matrix<T>)
        ensures
            out@ == self@.minus(rhs@),
    {
        let out = self.zipped(&rhs, Op::Minus);
        assert(out@.cells =~= self@.minus(rhs@).cells);
        out
    }
}

/// The operator's precondition. Its result is a fresh matrix, which the
/// method states over views; no `spec` function stands for it here.
impl<T: Scalar> vstd::std_specs::ops::SubSpecImpl for Matrix<T> {
    open spec fn obeys_sub_spec() -> bool {
        false
    }

    open spec fn sub_req(self, rhs: Self) -> bool {
        self@.same_shape(rhs@)
    }

    open spec fn sub_spec(self, rhs: Self) -> Self {
        self
    }
}

/// `a / b`, cell by cell, for matrices of one shape.
impl<T: Scalar> core::ops::Div for Matrix<T> {
    type Output = Matrix<T>;

    fn div(self, rhs: Self) -> (out: Matrix<T>)
        ensures
            out@ == self@.divided(rhs@),
    {
        let out = self.zipped(&rhs, Op::Over);
        assert(out@.cells =~= self@.divided(rhs@).cells);
        out
    }
}

/// The operator's precondition. Its result is a fresh matrix, which the
/// method states over views; no `spec` function stands for it here.
impl<T: Scalar> vstd::std_specs::ops::DivSpecImpl for Matrix<T> {
    open spec fn obeys_div_spec() -> bool {
        false
    }

    open spec fn div_req(self, rhs: Self) -> bool {
        self@.same_shape(rhs@)
    }

    open spec fn div_spec(self, rhs: Self) -> Self {
        self
    }
}

/// `a * b`, cell by cell, for matrices of one shape: [`Matrix::multiply`].
impl<T: Scalar> core::ops::Mul for Matrix<T> {
    type Output = Matrix<T>;

    fn mul(self, rhs: Self) -> (out: Matrix<T>)
        ensures
            out@ == self@.hadamard(rhs@),
    {
        self.multiply(&rhs)
    }
}

/// The operator's precondition. Its result is a fresh matrix, which the
/// method states over views; no `spec` function stands for it here.
impl<T: Scalar> vstd::std_specs::ops::MulSpecImpl for Matrix<T> {
    open spec fn obeys_mul_spec() -> bool {
        false
    }

    open spec fn mul_req(self, rhs: Self) -> bool {
        self@.same_shape(rhs@)
    }

    open spec fn mul_spec(self, rhs: Self) -> Self {
        self
    }
}

/// `a / s`: every cell over the scalar `s`.
impl<T: Scalar> core::ops::Div<T> for Matrix<T> {
    type Output = Matrix<T>;

    fn div(self, rhs: T) -> (out: Matrix<T>)
        ensures
            out@ == self@.divided_by(rhs),
    {
        let out = self.spread(rhs, Op::Over);
        assert(out@.cells =~= self@.divided_by(rhs).cells);
        out
    }
}

/// The operator's precondition. Its result is a fresh matrix, which the
/// method states over views; no `spec` function stands for it here.
impl<T: Scalar> vstd::std_specs::ops::DivSpecImpl<T> for Matrix<T> {
    open spec fn obeys_div_spec() -> bool {
        false
    }

    open spec fn div_req(self, rhs: T) -> bool {
        true
    }

    open spec fn div_spec(self, rhs: T) -> Self {
        self
    }
}

/// `a * s`: every cell times the scalar `s`.
impl<T: Scalar> core::ops::Mul<T> for Matrix<T> {
    type Output = Matrix<T>;

    fn mul(self, rhs: T) -> (out: Matrix<T>)
        ensures
            out@ == self@.scaled(rhs),
    {
        self.scale(rhs)
    }
}

/// The operator's precondition. Its result is a fresh matrix, which the
/// method states over views; no `spec` function stands for it here.
impl<T: Scalar> vstd::std_specs::ops::MulSpecImpl<T> for Matrix<T> {
    open spec fn obeys_mul_spec() -> bool {
        false
    }

    open spec fn mul_req(self, rhs: T) -> bool {
        true
    }

    open spec fn mul_spec(self, rhs: T) -> Self {
        self
    }
}

/// `a - s`: every cell minus the scalar `s`.
impl<T: Scalar> core::ops::Sub<T> for Matrix<T> {
    type Output = Matrix<T>;

    fn sub(self, rhs: T) -> (out: Matrix<T>)
        ensures
            out@ == self@.lowered(rhs),
    {
        let out = self.spread(rhs, Op::Minus);
        assert(out@.cells =~= self@.lowered(rhs).cells);
        out
    }
}

/// The operator's precondition. Its result is a fresh matrix, which the
/// method states over views; no `spec` function stands for it here.
impl<T: Scalar> vstd::std_specs::ops::SubSpecImpl<T> for Matrix<T> {
    open spec fn obeys_sub_spec() -> bool {
        false
    }

    open spec fn sub_req(self, rhs: T) -> bool {
        true
    }

    open spec fn sub_spec(self, rhs: T) -> Self {
        self
    }
}

/// A flat index below a buffer's length is reached without overflow.
proof fn lemma_flat_index_fits(row: int, cols: int, col: int)
    by (nonlinear_arith)
    requires
        0 <= row,
        0 <= cols,
        0 <= col,
    ensures
        0 <= row * cols <= row * cols + col,
{
}

} // verus!
