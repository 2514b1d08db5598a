//! The cross-entropy loss against a one-hot target, with the gradient
//! `p - y` that the layer before it consumes.
use crate::grid::{pointwise, Grid};
use crate::matrix::Matrix;
use crate::scalar::{larger_of, smaller_of, Scalar};
use vstd::prelude::*;

verus! {

/// The loss of the most recent forward pass and its gradient.
#[derive(Debug)]
pub struct CrossEntropyLoss<T> {
    /// The scalar loss, as a one-by-one matrix.
    pub loss: Matrix<T>,
    /// The gradient with respect to each input, in the shape of the inputs.
    pub input_grads: Matrix<T>,
}

/// The distance that a probability is kept from zero and from one: a
/// hundred-millionth.
pub open spec fn epsilon_value<T: Scalar>() -> T {
    T::one_value().quotient_of(T::count_value(100_000_000))
}

/// `p` held between `epsilon` and `1 - epsilon`.
pub open spec fn clamped<T: Scalar>(p: T) -> T {
    smaller_of(
        larger_of(epsilon_value::<T>(), p),
        T::one_value().difference_of(epsilon_value::<T>()),
    )
}

/// Every entry of `cells`, clamped.
pub open spec fn clamped_cells<T: Scalar>(cells: Seq<T>) -> Seq<T> {
    Seq::new(cells.len(), |k: int| clamped(cells[k]))
}

/// The loss over the first `n` entries: from zero, each entry takes away
/// its label times the logarithm of its probability.
pub open spec fn loss_upto<T: Scalar>(labels: Seq<T>, logs: Seq<T>, n: nat) -> T
    decreases n,
{
    if n == 0 {
        T::zero_value()
    } else {
        loss_upto(labels, logs, (n - 1) as nat).difference_of(
            labels[n - 1].product_of(logs[n - 1]),
        )
    }
}

/// The gradient of the loss: the clamped inputs minus the labels.
pub open spec fn loss_gradient<T: Scalar>(inputs: Grid<T>, labels: Grid<T>) -> Grid<T> {
    Grid { cells: clamped_cells(inputs.cells), ..inputs }.minus(labels)
}

/// `loss` is a cross-entropy of `inputs` against `labels` under the
/// logarithm `ln`: some sequence `logs` holds a logarithm of every clamped
/// input, and `loss` is the one-by-one grid of the loss over all entries.
pub open spec fn is_cross_entropy<T: Scalar, F: Fn(T) -> T>(
    ln: F,
    inputs: Grid<T>,
    labels: Grid<T>,
    loss: Grid<T>,
) -> bool {
    exists|logs: Seq<T>|
        #![trigger pointwise(ln, clamped_cells(inputs.cells), logs)]
        {
            &&& pointwise(ln, clamped_cells(inputs.cells), logs)
            &&& loss == (Grid {
                rows: 1,
                cols: 1,
                cells: seq![loss_upto(labels.cells, logs, inputs.cells.len())],
            })
        }
}

impl<T: Scalar> CrossEntropyLoss<T> {
    /// A loss whose two matrices are the one-by-one zero matrix.
    pub fn new() -> (loss: Self)
        ensures
            loss.loss@ == Grid::filled(1, 1, T::zero_value()),
            loss.input_grads@ == Grid::filled(1, 1, T::zero_value()),
    {
        CrossEntropyLoss { loss: Matrix::default(), input_grads: Matrix::default() }
    }

    /// Takes the loss of `inputs` against `labels` under the logarithm `ln`
    /// and keeps it together with its gradient.
    pub fn forward<F: Fn(T) -> T>(&mut self, inputs: &Matrix<T>, labels: &Matrix<T>, ln: F)
        requires
            inputs@.same_shape(labels@),
            forall|k: int|
                0 <= k < inputs@.cells.len() ==> call_requires(ln, (clamped(inputs@.cells[k]),)),
        ensures
            is_cross_entropy(ln, inputs@, labels@, final(self).loss@),
            final(self).input_grads@ == loss_gradient(inputs@, labels@),
    {
        let epsilon: T = T::one().over(T::from_count(100_000_000));
        let ceiling: T = T::one().minus(epsilon);
        let (rows, cols) = inputs.shape();
        proof {
            use_type_invariant(labels);
            labels.lemma_storable();
        }
        let cells: Vec<T> = inputs.data();
        let n: usize = cells.len();
        let mut kept: Vec<T> = Vec::with_capacity(n);
        let mut i: usize = 0;
        while i < n
            invariant
                i <= n,
                n == cells.len(),
                kept.len() == i,
                epsilon == epsilon_value::<T>(),
                ceiling == T::one_value().difference_of(epsilon_value::<T>()),
                forall|k: int| 0 <= k < i ==> kept[k] == clamped(cells[k]),
            decreases n - i,
        {
            let p: T = cells[i];
            let raised: T = if epsilon.lt(p) {
                p
            } else {
                epsilon
            };
            let held: T = if raised.lt(ceiling) {
                raised
            } else {
                ceiling
            };
            kept.push(held);
            i += 1;
        }
        assert(kept@ =~= clamped_cells(inputs@.cells));
        let probabilities: Matrix<T> = Matrix::new((rows, cols), kept.as_slice());
        let logs: Vec<T> = probabilities.mapped(ln).data();
        let targets: Vec<T> = labels.data();
        let mut result: T = T::zero();
        let mut j: usize = 0;
        while j < n
            invariant
                j <= n,
                n == logs.len(),
                n == targets.len(),
                result == loss_upto(targets@, logs@, j as nat),
            decreases n - j,
        {
            result = result.minus(targets[j].times(logs[j]));
            j += 1;
        }
        let loss: Matrix<T> = Matrix::new_from((1, 1), result);
        assert(loss@.cells =~= seq![result]);
        self.input_grads = probabilities - labels.clone();
        self.loss = loss;
    }
}

} // verus!
