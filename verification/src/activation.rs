//! The softmax activation: `s = exp(z) / sum(exp(z))`, taken over all cells
//! of its input at once, and its backward pass.
use crate::grid::{pointwise, Grid};
use crate::matrix::Matrix;
use crate::scalar::Scalar;
use vstd::prelude::*;

verus! {

/// A softmax that remembers its last output for the backward pass.
#[derive(Debug)]
pub struct Softmax<T> {
    /// The output of the most recent forward pass.
    pub last_input: Matrix<T>,
}

/// `out` is a softmax of `input` under the exponential `exp`: some grid `e`
/// holds an exponential of every cell of `input`, and `out` is `e` with
/// every cell over the total of `e`.
pub open spec fn is_softmax<T: Scalar, F: Fn(T) -> T>(
    exp: F,
    input: Grid<T>,
    out: Grid<T>,
) -> bool {
    exists|e: Grid<T>|
        #![trigger pointwise(exp, input.cells, e.cells)]
        {
            &&& e.same_shape(input)
            &&& pointwise(exp, input.cells, e.cells)
            &&& out == e.normalized()
        }
}

/// The gradient that a softmax with output `s` passes back for the upstream
/// gradient `g`: with `h = s ⊙ g`, it is `(h - s · sum(h)) / sum(s)²`.
pub open spec fn softmax_gradient<T: Scalar>(s: Grid<T>, g: Grid<T>) -> Grid<T> {
    let h = s.hadamard(g);
    h.minus(s.scaled(h.total())).divided_by(s.total().product_of(s.total()))
}

impl<T> View for Softmax<T> {
    type V = Grid<T>;

    open spec fn view(&self) -> Grid<T> {
        self.last_input@
    }
}

impl<T: Scalar> Softmax<T> {
    /// A softmax whose remembered output is the one-by-one zero matrix.
    pub fn new() -> (softmax: Self)
        ensures
            softmax@ == Grid::filled(1, 1, T::zero_value()),
    {
        Softmax { last_input: Matrix::default() }
    }

    /// The softmax of `input` under the exponential `exp`, which is also
    /// remembered.
    pub fn forward<F: Fn(T) -> T>(&mut self, input: &Matrix<T>, exp: F) -> (out: Matrix<T>)
        requires
            forall|k: int| 0 <= k < input@.cells.len() ==> call_requires(exp, (input@.cells[k],)),
        ensures
            is_softmax(exp, input@, out@),
            out@.same_shape(input@),
            final(self)@ == out@,
    {
        let e = input.exp(exp);
        let total = e.sum();
        let out = e.clone() / total;
        self.last_input = out.clone();
        out
    }

    /// The gradient for the upstream gradient `grad`, from the remembered
    /// output. The softmax stays as it is.
    pub fn backward(&mut self, grad: Matrix<T>) -> (out: Matrix<T>)
        requires
            grad@.same_shape(old(self)@),
        ensures
            final(self)@ == old(self)@,
            out@ == softmax_gradient(old(self)@, grad@),
    {
        let soft_grad = self.last_input.multiply(&grad);
        let soft_deri = soft_grad.clone() - self.last_input.scale(soft_grad.sum());
        let soft_sum = self.last_input.sum();
        soft_deri / soft_sum.times(soft_sum)
    }
}

} // verus!
