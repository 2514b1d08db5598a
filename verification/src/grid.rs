//! The mathematical model of a matrix: a shape and its cells in row-major
//! order, with every operation of the kernel as a function on that model.
use crate::scalar::{larger_of, Scalar};
use vstd::prelude::*;

verus! {

/// A `rows` by `cols` arrangement of cells; cell `(r, c)` is `cells[r * cols + c]`.
pub struct Grid<T> {
    pub rows: nat,
    pub cols: nat,
    pub cells: Seq<T>,
}

/// The sum of the first `n` entries of `s`, added from the left onto zero.
pub open spec fn sum_upto<T: Scalar>(s: Seq<T>, n: nat) -> T
    decreases n,
{
    if n == 0 {
        T::zero_value()
    } else {
        sum_upto(s, (n - 1) as nat).sum_of(s[n - 1])
    }
}

/// The largest of the first `n` entries of `s`, or `lowest_value` for none.
pub open spec fn peak_upto<T: Scalar>(s: Seq<T>, n: nat) -> T
    decreases n,
{
    if n == 0 {
        T::lowest_value()
    } else {
        larger_of(peak_upto(s, (n - 1) as nat), s[n - 1])
    }
}

/// Where the largest of the first `n` entries of `s` stands: the running
/// best moves only to an entry that the best so far is strictly below.
pub open spec fn peak_index_upto<T: Scalar>(s: Seq<T>, n: nat) -> int
    decreases n,
{
    if n <= 1 {
        0
    } else {
        let best = peak_index_upto(s, (n - 1) as nat);
        if s[best].less_than(s[n - 1]) {
            n - 1
        } else {
            best
        }
    }
}

/// `b` holds, entry by entry, a value that `f` may return on the entry of `a`.
pub open spec fn pointwise<T, F: Fn(T) -> T>(f: F, a: Seq<T>, b: Seq<T>) -> bool {
    &&& a.len() == b.len()
    &&& forall|i: int| 0 <= i < a.len() ==> call_ensures(f, (a[i],), #[trigger] b[i])
}

impl<T> Grid<T> {
    /// The cells fill the shape exactly.
    pub open spec fn wf(self) -> bool {
        self.cells.len() == self.rows * self.cols
    }

    /// The grid is well formed and small enough to be held: its shape and the
    /// number of its cells fit a `usize`.
    pub open spec fn storable(self) -> bool {
        &&& self.wf()
        &&& self.rows <= usize::MAX
        &&& self.cols <= usize::MAX
        &&& self.cells.len() <= usize::MAX
    }

    /// The two grids have the same number of rows and of columns.
    pub open spec fn same_shape(self, other: Grid<T>) -> bool {
        self.rows == other.rows && self.cols == other.cols
    }

    /// The cell in row `r` and column `c`.
    pub open spec fn at(self, r: int, c: int) -> T {
        self.cells[r * self.cols + c]
    }

    /// A grid of the given shape with `v` in every cell.
    pub open spec fn filled(rows: nat, cols: nat, v: T) -> Grid<T> {
        Grid { rows, cols, cells: Seq::new(rows * cols, |k: int| v) }
    }

    /// Row `i` as a grid of one row.
    pub open spec fn row(self, i: int) -> Grid<T> {
        Grid {
            rows: 1,
            cols: self.cols,
            cells: self.cells.subrange(i * self.cols, i * self.cols + self.cols),
        }
    }

    /// The grid with `v` in cell `(r, c)` and every other cell as it was.
    pub open spec fn with_cell(self, r: int, c: int, v: T) -> Grid<T> {
        Grid { cells: self.cells.update(r * self.cols + c, v), ..self }
    }

    /// Rows and columns exchanged: cell `(c, r)` of the result is cell `(r, c)` here.
    pub open spec fn transposed(self) -> Grid<T> {
        Grid {
            rows: self.cols,
            cols: self.rows,
            cells: Seq::new(
                self.rows * self.cols,
                |k: int| self.at(k % (self.rows as int), k / (self.rows as int)),
            ),
        }
    }
}

impl<T: Scalar> Grid<T> {
    /// The first `k` terms of the inner product of row `i` here with column
    /// `j` of `other`, added from the left onto zero.
    pub open spec fn inner(self, other: Grid<T>, i: int, j: int, k: nat) -> T
        decreases k,
    {
        if k == 0 {
            T::zero_value()
        } else {
            self.inner(other, i, j, (k - 1) as nat).sum_of(
                self.at(i, k - 1).product_of(other.at(k - 1, j)),
            )
        }
    }

    /// The matrix product: cell `(i, j)` is the inner product of row `i`
    /// here with column `j` of `other`.
    pub open spec fn product(self, other: Grid<T>) -> Grid<T> {
        Grid {
            rows: self.rows,
            cols: other.cols,
            cells: Seq::new(
                self.rows * other.cols,
                |n: int|
                    self.inner(other, n / (other.cols as int), n % (other.cols as int), self.cols),
            ),
        }
    }

    /// Cell by cell, this times `other`.
    pub open spec fn hadamard(self, other: Grid<T>) -> Grid<T> {
        Grid {
            cells: Seq::new(self.cells.len(), |k: int| self.cells[k].product_of(other.cells[k])),
            ..self
        }
    }

    /// Cell by cell, this minus `other`.
    pub open spec fn minus(self, other: Grid<T>) -> Grid<T> {
        Grid {
            cells: Seq::new(
                self.cells.len(),
                |k: int| self.cells[k].difference_of(other.cells[k]),
            ),
            ..self
        }
    }

    /// Cell by cell, this over `other`.
    pub open spec fn divided(self, other: Grid<T>) -> Grid<T> {
        Grid {
            cells: Seq::new(self.cells.len(), |k: int| self.cells[k].quotient_of(other.cells[k])),
            ..self
        }
    }

    /// Every cell times `s`.
    pub open spec fn scaled(self, s: T) -> Grid<T> {
        Grid { cells: Seq::new(self.cells.len(), |k: int| self.cells[k].product_of(s)), ..self }
    }

    /// Every cell minus `s`.
    pub open spec fn lowered(self, s: T) -> Grid<T> {
        Grid { cells: Seq::new(self.cells.len(), |k: int| self.cells[k].difference_of(s)), ..self }
    }

    /// Every cell over `s`.
    pub open spec fn divided_by(self, s: T) -> Grid<T> {
        Grid { cells: Seq::new(self.cells.len(), |k: int| self.cells[k].quotient_of(s)), ..self }
    }

    /// Every cell moved against `grads` by `rate`: `w - rate * g`.
    pub open spec fn descended(self, rate: T, grads: Grid<T>) -> Grid<T> {
        Grid {
            cells: Seq::new(
                self.cells.len(),
                |k: int| self.cells[k].difference_of(rate.product_of(grads.cells[k])),
            ),
            ..self
        }
    }

    /// Every cell over the total of all cells.
    pub open spec fn normalized(self) -> Grid<T> {
        self.divided_by(self.total())
    }

    /// The sum of all cells, taken in row-major order.
    pub open spec fn total(self) -> T {
        sum_upto(self.cells, self.cells.len())
    }

    /// The total over the number of cells.
    pub open spec fn mean(self) -> T {
        self.total().quotient_of(T::count_value(self.cells.len() as usize))
    }

    /// The largest cell, or `lowest_value` for a grid without cells.
    pub open spec fn peak(self) -> T {
        peak_upto(self.cells, self.cells.len())
    }

    /// The row-major index of the largest cell, the first of them where
    /// several are equally large.
    pub open spec fn peak_index(self) -> int {
        peak_index_upto(self.cells, self.cells.len())
    }
}

/// A row-major index stays inside the grid and splits back into its row and
/// column.
pub proof fn lemma_cell_index(rows: int, cols: int, r: int, c: int)
    requires
        0 <= r < rows,
        0 <= c < cols,
    ensures
        0 <= r * cols + c < rows * cols,
        (r * cols + c) / cols == r,
        (r * cols + c) % cols == c,
{
    assert(r * cols + cols <= rows * cols) by (nonlinear_arith)
        requires
            r + 1 <= rows,
            cols > 0,
    ;
    assert(0 <= r * cols) by (nonlinear_arith)
        requires
            0 <= r,
            0 < cols,
    ;
    vstd::arithmetic::div_mod::lemma_fundamental_div_mod_converse(r * cols + c, cols, r, c);
}

/// Every row of a well-formed grid lies within its cells.
pub proof fn lemma_row_in_bounds<T>(g: Grid<T>, i: int)
    requires
        g.wf(),
        0 <= i < g.rows,
    ensures
        0 <= i * g.cols,
        i * g.cols + g.cols <= g.cells.len(),
{
    assert(0 <= i * g.cols && i * g.cols + g.cols <= g.rows * g.cols) by (nonlinear_arith)
        requires
            0 <= i,
            i + 1 <= g.rows,
            0 <= g.cols,
    ;
}

/// An index below `rows * cols` splits into a row and a column of the grid.
pub proof fn lemma_index_split(rows: int, cols: int, k: int)
    requires
        0 <= k < rows * cols,
        0 <= rows,
        0 <= cols,
    ensures
        cols > 0,
        0 <= k / cols < rows,
        0 <= k % cols < cols,
        k == (k / cols) * cols + k % cols,
{
    assert(cols > 0) by (nonlinear_arith)
        requires
            0 <= k < rows * cols,
            0 <= rows,
            0 <= cols,
    ;
    vstd::arithmetic::div_mod::lemma_fundamental_div_mod(k, cols);
    assert(cols * (k / cols) == (k / cols) * cols) by (nonlinear_arith);
    assert(0 <= k % cols < cols);
    assert(0 <= k / cols) by (nonlinear_arith)
        requires
            0 <= k,
            cols > 0,
    ;
    assert(k / cols < rows) by (nonlinear_arith)
        requires
            k == (k / cols) * cols + k % cols,
            0 <= k % cols,
            k < rows * cols,
            cols > 0,
    ;
}

} // verus!
