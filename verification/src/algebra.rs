//! Identities of the grid model: what holds of transposition, of the matrix
//! product and of the largest cell, whatever the cells are.
use crate::grid::{lemma_cell_index, lemma_index_split, peak_index_upto, peak_upto, Grid};
use crate::scalar::{product_commutes, strictly_ordered_among, Scalar};
use vstd::prelude::*;

verus! {

/// Transposing keeps a grid well formed, and cell `(c, r)` of the transposed
/// grid is cell `(r, c)` of the grid.
pub proof fn lemma_transposed_cell<T>(g: Grid<T>, r: int, c: int)
    requires
        g.wf(),
        0 <= r < g.rows,
        0 <= c < g.cols,
    ensures
        g.transposed().wf(),
        g.transposed().at(c, r) == g.at(r, c),
{
    lemma_cell_index(g.cols as int, g.rows as int, c, r);
    assert(g.cols * g.rows == g.rows * g.cols) by (nonlinear_arith);
}

/// Transposing twice gives the grid back.
pub proof fn lemma_transpose_involutive<T>(g: Grid<T>)
    requires
        g.wf(),
    ensures
        g.transposed().transposed() == g,
{
    let t = g.transposed();
    let tt = t.transposed();
    assert(g.cols * g.rows == g.rows * g.cols) by (nonlinear_arith);
    assert forall|k: int| 0 <= k < g.cells.len() implies tt.cells[k] == g.cells[k] by {
        lemma_index_split(g.rows as int, g.cols as int, k);
        let r = k / (g.cols as int);
        let c = k % (g.cols as int);
        lemma_cell_index(g.cols as int, g.rows as int, c, r);
    }
    assert(tt.cells =~= g.cells);
}

/// The product of an `r` by `k` grid with a `k` by `c` grid is `r` by `c`
/// and well formed.
pub proof fn lemma_product_shape<T: Scalar>(a: Grid<T>, b: Grid<T>)
    ensures
        a.product(b).rows == a.rows,
        a.product(b).cols == b.cols,
        a.product(b).wf(),
{
}

/// Cell `(i, j)` of a product is the inner product of row `i` of the first
/// grid with column `j` of the second.
pub proof fn lemma_product_cell<T: Scalar>(a: Grid<T>, b: Grid<T>, i: int, j: int)
    requires
        0 <= i < a.rows,
        0 <= j < b.cols,
    ensures
        a.product(b).at(i, j) == a.inner(b, i, j, a.cols),
{
    lemma_cell_index(a.rows as int, b.cols as int, i, j);
}

/// Every product that the matrix product of `a` and `b` takes gives the same
/// value with its operands exchanged.
pub open spec fn products_commute<T: Scalar>(a: Grid<T>, b: Grid<T>) -> bool {
    forall|i: int, k: int, j: int|
        0 <= i < a.rows && 0 <= k < a.cols && 0 <= j < b.cols ==> #[trigger] a.at(
            i,
            k,
        ).product_of(b.at(k, j)) == b.at(k, j).product_of(a.at(i, k))
}

/// Where multiplication commutes on all scalars, it commutes on the
/// products of any two grids.
pub proof fn lemma_products_commute<T: Scalar>(a: Grid<T>, b: Grid<T>)
    requires
        product_commutes::<T>(),
    ensures
        products_commute(a, b),
{
}

/// Where the products taken commute, an inner product of the transposed
/// grids, taken in the other order, is the inner product of the grids.
proof fn lemma_inner_of_transposed<T: Scalar>(a: Grid<T>, b: Grid<T>, i: int, j: int, k: nat)
    requires
        a.wf(),
        b.wf(),
        a.cols == b.rows,
        0 <= i < a.rows,
        0 <= j < b.cols,
        k <= a.cols,
        products_commute(a, b),
    ensures
        b.transposed().inner(a.transposed(), j, i, k) == a.inner(b, i, j, k),
    decreases k,
{
    if k > 0 {
        lemma_inner_of_transposed(a, b, i, j, (k - 1) as nat);
        lemma_transposed_cell(a, i, k - 1);
        lemma_transposed_cell(b, k - 1, j);
        let x = a.at(i, k - 1);
        let y = b.at(k - 1, j);
        assert(y.product_of(x) == x.product_of(y));
    }
}

/// Where the products taken commute, the transpose of a product is the
/// product of the transposes in the other order.
pub proof fn lemma_transpose_of_product<T: Scalar>(a: Grid<T>, b: Grid<T>)
    requires
        a.wf(),
        b.wf(),
        a.cols == b.rows,
        products_commute(a, b),
    ensures
        a.product(b).transposed() == b.transposed().product(a.transposed()),
{
    let left = a.product(b).transposed();
    let right = b.transposed().product(a.transposed());
    assert(b.cols * a.rows == a.rows * b.cols) by (nonlinear_arith);
    assert forall|n: int| 0 <= n < left.cells.len() implies left.cells[n] == right.cells[n] by {
        lemma_index_split(b.cols as int, a.rows as int, n);
        let j = n / (a.rows as int);
        let i = n % (a.rows as int);
        lemma_product_cell(a, b, i, j);
        lemma_inner_of_transposed(a, b, i, j, a.cols);
    }
    assert(left.cells =~= right.cells);
}

/// The running best of the first `n` entries is one of them. Where the
/// entries are strictly and totally ordered, nothing among the first `n` is
/// above it and every entry before it is below it: it is the first of the
/// largest.
pub proof fn lemma_peak_index_upto<T: Scalar>(s: Seq<T>, n: nat)
    requires
        0 < n <= s.len(),
    ensures
        0 <= peak_index_upto(s, n) < n,
        strictly_ordered_among(s) ==> {
            &&& forall|j: int|
                0 <= j < n ==> !s[peak_index_upto(s, n)].less_than(#[trigger] s[j])
            &&& forall|j: int|
                0 <= j < peak_index_upto(s, n) ==> (#[trigger] s[j]).less_than(
                    s[peak_index_upto(s, n)],
                )
        },
    decreases n,
{
    if n == 1 {
        assert(s.contains(s[0]));
    } else {
        let m = (n - 1) as nat;
        lemma_peak_index_upto(s, m);
        let best = peak_index_upto(s, m);
        let x = s[n - 1];
        if strictly_ordered_among(s) {
            assert(s.contains(x));
            assert(s.contains(s[best]));
            if s[best].less_than(x) {
                assert forall|j: int| 0 <= j < n implies !x.less_than(#[trigger] s[j]) by {
                    assert(s.contains(s[j]));
                    if j < m && x.less_than(s[j]) {
                        assert(s[best].less_than(s[j]));
                    }
                }
                assert forall|j: int| 0 <= j < n - 1 implies (#[trigger] s[j]).less_than(x) by {
                    assert(s.contains(s[j]));
                    if s[j] != s[best] {
                        assert(s[j].less_than(s[best]) || s[best].less_than(s[j]));
                        assert(s[j].less_than(s[best]));
                    }
                }
            } else {
                assert forall|j: int| 0 <= j < n implies !s[best].less_than(#[trigger] s[j]) by {}
            }
        }
    }
}

/// Where the first entry is the lowest scalar or above it, the running best
/// of the first `n` entries holds their largest value.
pub proof fn lemma_peak_index_holds_peak_upto<T: Scalar>(s: Seq<T>, n: nat)
    requires
        0 < n <= s.len(),
        T::lowest_value().less_than(s[0]) || s[0] == T::lowest_value(),
    ensures
        0 <= peak_index_upto(s, n) < n,
        s[peak_index_upto(s, n)] == peak_upto(s, n),
    decreases n,
{
    if n == 1 {
        assert(peak_upto(s, 0) == T::lowest_value());
    } else {
        lemma_peak_index_holds_peak_upto(s, (n - 1) as nat);
    }
}

/// Where the first cell of a grid is the lowest scalar or above it, the
/// cell at the grid's peak index holds the grid's largest value.
pub proof fn lemma_peak_index_holds_peak<T: Scalar>(g: Grid<T>)
    requires
        g.cells.len() > 0,
        T::lowest_value().less_than(g.cells[0]) || g.cells[0] == T::lowest_value(),
    ensures
        0 <= g.peak_index() < g.cells.len(),
        g.cells[g.peak_index()] == g.peak(),
{
    lemma_peak_index_holds_peak_upto(g.cells, g.cells.len());
}

} // verus!
