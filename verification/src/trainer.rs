//! The network and its training: a linear layer, a softmax, a second linear
//! layer and the cross-entropy loss, trained one sample at a time by plain
//! gradient descent.
use crate::activation::{is_softmax, softmax_gradient, Softmax};
use crate::grid::{lemma_row_in_bounds, Grid};
use crate::dataset::IMAGE_SIZE;
use crate::layer::{is_initial, Layer, LayerState};
use crate::loss::{is_cross_entropy, loss_gradient, CrossEntropyLoss};
use crate::matrix::Matrix;
use crate::scalar::Scalar;
use vstd::prelude::*;

verus! {

/// The width of an input of the digit network: the pixels of one image.
pub const INPUT_SIZE: usize = IMAGE_SIZE;

/// The width of the hidden layer of the digit network.
pub const HIDDEN_SIZE: usize = 100;

/// The number of classes of the digit network: the ten digits.
pub const OUTPUT_SIZE: usize = 10;

/// The number of passes over the samples that a training run makes.
pub const EPOCHS: u32 = 3;

/// The four stages of the network, in the order of a forward pass.
#[derive(Debug)]
pub struct Trainer<T> {
    pub layer1: Layer<T>,
    pub act: Softmax<T>,
    pub layer2: Layer<T>,
    pub loss: CrossEntropyLoss<T>,
}

/// The model of a trainer: the state of each stage.
pub struct TrainerState<T> {
    pub layer1: LayerState<T>,
    pub act: Grid<T>,
    pub layer2: LayerState<T>,
    pub loss: Grid<T>,
    pub input_grads: Grid<T>,
}

impl<T> View for Trainer<T> {
    type V = TrainerState<T>;

    open spec fn view(&self) -> TrainerState<T> {
        TrainerState {
            layer1: self.layer1@,
            act: self.act@,
            layer2: self.layer2@,
            loss: self.loss.loss@,
            input_grads: self.loss.input_grads@,
        }
    }
}

/// `f` may be called on every scalar.
pub open spec fn callable<T, F: Fn(T) -> T>(f: F) -> bool {
    forall|v: T| call_requires(f, (v,))
}

impl<T: Scalar> TrainerState<T> {
    /// The stages fit each other and an input `x`, and no matrix of a pass
    /// over `x` outgrows what a machine can index.
    pub open spec fn fits(self, x: Grid<T>) -> bool {
        &&& x.cols == self.layer1.weights.rows
        &&& self.layer1.weights.cols == self.layer2.weights.rows
        &&& x.rows * self.layer1.weights.cols <= usize::MAX
        &&& x.rows * self.layer2.weights.cols <= usize::MAX
    }

    /// The two weight grids have the shapes of those of `other`.
    pub open spec fn same_shapes(self, other: TrainerState<T>) -> bool {
        &&& self.layer1.weights.same_shape(other.layer1.weights)
        &&& self.layer2.weights.same_shape(other.layer2.weights)
    }

    /// `next` is a state after a forward pass from this state on `x`, and
    /// `out` is what the pass returns: the softmax of `x · W1` is in
    /// `next.act`, both layers remember their inputs, `out` is
    /// `next.act · W2`, and nothing else has changed.
    pub open spec fn is_forward_pass<E: Fn(T) -> T>(
        self,
        exp: E,
        x: Grid<T>,
        next: TrainerState<T>,
        out: Grid<T>,
    ) -> bool {
        &&& is_softmax(exp, self.layer1.output(x), next.act)
        &&& out == self.layer2.output(next.act)
        &&& next.layer1 == self.layer1.forwarded(x)
        &&& next.layer2 == self.layer2.forwarded(next.act)
        &&& next.loss == self.loss
        &&& next.input_grads == self.input_grads
    }

    /// `next` is a state after one training step from this state on the
    /// sample `x` with target `y`: a forward pass, the loss of its output
    /// against `y`, the gradients passed back through the second layer, the
    /// softmax and the first layer, and both layers' weights moved against
    /// their gradients.
    pub open spec fn is_training_step<E: Fn(T) -> T, L: Fn(T) -> T>(
        self,
        exp: E,
        ln: L,
        x: Grid<T>,
        y: Grid<T>,
        next: TrainerState<T>,
    ) -> bool {
        let seen1 = self.layer1.forwarded(x);
        let seen2 = self.layer2.forwarded(next.act);
        let out = self.layer2.output(next.act);
        let back2 = seen2.input_grads(next.input_grads);
        let back1 = softmax_gradient(next.act, back2);
        &&& is_softmax(exp, self.layer1.output(x), next.act)
        &&& is_cross_entropy(ln, out, y, next.loss)
        &&& next.input_grads == loss_gradient(out, y)
        &&& next.layer1 == seen1.updated(seen1.weight_grads(back1))
        &&& next.layer2 == seen2.updated(seen2.weight_grads(next.input_grads))
    }

    /// `end` is a state after training from this state on the first `n`
    /// rows of `data`, each with its target in `labels`, in order, and
    /// `total` is the sum of the losses of those steps, added from the left
    /// onto zero.
    pub open spec fn is_epoch<E: Fn(T) -> T, L: Fn(T) -> T>(
        self,
        exp: E,
        ln: L,
        data: Grid<T>,
        labels: Seq<Grid<T>>,
        n: nat,
        end: TrainerState<T>,
        total: T,
    ) -> bool
        decreases n,
    {
        if n == 0 {
            end == self && total == T::zero_value()
        } else {
            exists|mid: TrainerState<T>, sub: T|
                #![trigger
                    mid.is_training_step(exp, ln, data.row(n - 1), labels[n - 1], end),
                    sub.sum_of(end.loss.cells[0])
                ]
                {
                    &&& self.is_epoch(exp, ln, data, labels, (n - 1) as nat, mid, sub)
                    &&& mid.is_training_step(exp, ln, data.row(n - 1), labels[n - 1], end)
                    &&& total == sub.sum_of(end.loss.cells[0])
                }
        }
    }

    /// `end` is a state after forward passes from this state on the first
    /// `n` rows of `data`, in order, and `correct` is the number of those
    /// rows whose output has its largest cell where the row's target in
    /// `labels` has its own.
    pub open spec fn is_tally<E: Fn(T) -> T>(
        self,
        exp: E,
        data: Grid<T>,
        labels: Seq<Grid<T>>,
        n: nat,
        end: TrainerState<T>,
        correct: nat,
    ) -> bool
        decreases n,
    {
        if n == 0 {
            end == self && correct == 0
        } else {
            exists|mid: TrainerState<T>, sub: nat, out: Grid<T>|
                #![trigger
                    mid.is_forward_pass(exp, data.row(n - 1), end, out),
                    tallied(sub, out, labels[n - 1])
                ]
                {
                    &&& self.is_tally(exp, data, labels, (n - 1) as nat, mid, sub)
                    &&& mid.is_forward_pass(exp, data.row(n - 1), end, out)
                    &&& correct == tallied(sub, out, labels[n - 1])
                }
        }
    }
}

/// The count `sub` with one more where the largest cell of `out` stands
/// where that of `target` stands.
pub open spec fn tallied<T: Scalar>(sub: nat, out: Grid<T>, target: Grid<T>) -> nat {
    if out.peak_index() == target.peak_index() {
        sub + 1
    } else {
        sub
    }
}

/// The views of a sequence of matrices.
pub open spec fn grids<T>(matrices: Seq<Matrix<T>>) -> Seq<Grid<T>> {
    Seq::new(matrices.len(), |i: int| matrices[i]@)
}

/// The number of samples that `data` and `labels` have in common.
pub open spec fn sample_count<T>(data: Grid<T>, labels: Seq<Matrix<T>>) -> nat {
    if data.rows <= labels.len() {
        data.rows
    } else {
        labels.len()
    }
}

impl<T: Scalar> Trainer<T> {
    /// A network of the two layers with a fresh softmax and a fresh loss.
    pub fn new(layer1: Layer<T>, layer2: Layer<T>) -> (trainer: Self)
        ensures
            trainer@.layer1 == layer1@,
            trainer@.layer2 == layer2@,
            trainer@.act == Grid::filled(1, 1, T::zero_value()),
            trainer@.loss == Grid::filled(1, 1, T::zero_value()),
            trainer@.input_grads == Grid::filled(1, 1, T::zero_value()),
    {
        Trainer { layer1, act: Softmax::new(), layer2, loss: CrossEntropyLoss::new() }
    }

    /// The digit network, freshly made: a first layer from `INPUT_SIZE` to
    /// `HIDDEN_SIZE` and a second from `HIDDEN_SIZE` to `OUTPUT_SIZE`, each
    /// with weights drawn by `draw` for its own limit.
    pub fn digits<S: Fn(T) -> T + Copy, D: Fn(T) -> T + Copy>(sqrt: S, draw: D) -> (trainer: Self)
        requires
            callable(sqrt),
            callable(draw),
        ensures
            is_initial(sqrt, draw, INPUT_SIZE, HIDDEN_SIZE, trainer@.layer1),
            is_initial(sqrt, draw, HIDDEN_SIZE, OUTPUT_SIZE, trainer@.layer2),
            trainer@.act == Grid::filled(1, 1, T::zero_value()),
            trainer@.loss == Grid::filled(1, 1, T::zero_value()),
            trainer@.input_grads == Grid::filled(1, 1, T::zero_value()),
    {
        let layer1: Layer<T> = Layer::new(INPUT_SIZE, HIDDEN_SIZE, sqrt, draw);
        let layer2: Layer<T> = Layer::new(HIDDEN_SIZE, OUTPUT_SIZE, sqrt, draw);
        Trainer::new(layer1, layer2)
    }

    /// One forward pass on `x`; returns the output of the second layer.
    pub fn forward<E: Fn(T) -> T>(&mut self, x: Matrix<T>, exp: E) -> (out: Matrix<T>)
        requires
            old(self)@.fits(x@),
            callable(exp),
        ensures
            old(self)@.is_forward_pass(exp, x@, final(self)@, out@),
            out@.rows == x@.rows,
            out@.cols == old(self)@.layer2.weights.cols,
    {
        let a1 = self.layer1.forward(x);
        let a2 = self.act.forward(&a1, exp);
        self.layer2.forward(a2)
    }

    /// One training step on the sample `x` with target `y`; returns the loss.
    pub fn train_sample<E: Fn(T) -> T, L: Fn(T) -> T>(
        &mut self,
        x: Matrix<T>,
        y: &Matrix<T>,
        exp: E,
        ln: L,
    ) -> (loss: T)
        requires
            old(self)@.fits(x@),
            y@.rows == x@.rows,
            y@.cols == old(self)@.layer2.weights.cols,
            callable(exp),
            callable(ln),
        ensures
            old(self)@.is_training_step(exp, ln, x@, y@, final(self)@),
            final(self)@.same_shapes(old(self)@),
            loss == final(self)@.loss.cells[0],
    {
        proof {
            // Every gradient has the size of the input or of a weight
            // matrix, which bounds the products taken on the way back.
            use_type_invariant(&x);
            use_type_invariant(&self.layer1);
            use_type_invariant(&self.layer2);
            x.lemma_storable();
            self.layer1.lemma_valid();
            self.layer2.lemma_valid();
        }
        let a3 = self.forward(x, exp);
        self.loss.forward(&a3, y, ln);
        let g2 = self.layer2.backward(&self.loss.input_grads);
        let g1 = self.act.backward(g2.inputs_grad);
        let g0 = self.layer1.backward(&g1);
        self.layer1.apply_gradient(&g0.weight_grads);
        self.layer2.apply_gradient(&g2.weight_grads);
        self.loss.loss.get(0, 0)
    }

    /// One pass over the samples: a training step on each row of `data`
    /// with its target in `labels`, in order, for as many samples as both
    /// have. Returns the sum of the losses.
    pub fn train_epoch<E: Fn(T) -> T + Copy, L: Fn(T) -> T + Copy>(
        &mut self,
        data: &Matrix<T>,
        labels: &Vec<Matrix<T>>,
        exp: E,
        ln: L,
    ) -> (total: T)
        requires
            data@.cols == old(self)@.layer1.weights.rows,
            old(self)@.layer1.weights.cols == old(self)@.layer2.weights.rows,
            forall|i: int|
                0 <= i < labels.len() ==> (#[trigger] labels[i])@.rows == 1 && labels[i]@.cols
                    == old(self)@.layer2.weights.cols,
            callable(exp),
            callable(ln),
        ensures
            old(self)@.is_epoch(
                exp,
                ln,
                data@,
                grids(labels@),
                sample_count(data@, labels@),
                final(self)@,
                total,
            ),
            final(self)@.same_shapes(old(self)@),
    {
        let (rows, _) = data.shape();
        let n: usize = if rows <= labels.len() {
            rows
        } else {
            labels.len()
        };
        let mut total: T = T::zero();
        let mut i: usize = 0;
        while i < n
            invariant
                i <= n,
                n == sample_count(data@, labels@),
                data@.wf(),
                data@.cols == old(self)@.layer1.weights.rows,
                old(self)@.layer1.weights.cols == old(self)@.layer2.weights.rows,
                forall|k: int|
                    0 <= k < labels.len() ==> (#[trigger] labels[k])@.rows == 1 && labels[k]@.cols
                        == old(self)@.layer2.weights.cols,
                callable(exp),
                callable(ln),
                self@.same_shapes(old(self)@),
                old(self)@.is_epoch(exp, ln, data@, grids(labels@), i as nat, self@, total),
            decreases n - i,
        {
            let ghost before = self@;
            let ghost sub = total;
            proof {
                // A single row times either weight matrix has as many
                // cells as the matrix has columns.
                use_type_invariant(&self.layer1);
                use_type_invariant(&self.layer2);
                self.layer1.lemma_valid();
                self.layer2.lemma_valid();
                lemma_row_in_bounds(data@, i as int);
            }
            let x: Matrix<T> = data.get_row(i);
            let loss: T = self.train_sample(x, &labels[i], exp, ln);
            total = total.plus(loss);
            i += 1;
            proof {
                let m: nat = i as nat;
                let targets = grids(labels@);
                assert(targets[m - 1] == labels[m - 1]@);
                assert(old(self)@.is_epoch(exp, ln, data@, targets, (m - 1) as nat, before, sub));
                assert(before.is_training_step(exp, ln, data@.row(m - 1), targets[m - 1], self@));
                assert(total == sub.sum_of(self@.loss.cells[0]));
                assert(old(self)@.is_epoch(exp, ln, data@, targets, m, self@, total));
            }
        }
        total
    }

    /// One forward pass on each row of `data`, in order, for as many
    /// samples as `data` and `labels` have in common. Returns the number of
    /// rows whose output has its largest cell where the row's target has
    /// its own.
    pub fn count_correct<E: Fn(T) -> T + Copy>(
        &mut self,
        data: &Matrix<T>,
        labels: &Vec<Matrix<T>>,
        exp: E,
    ) -> (correct: usize)
        requires
            data@.cols == old(self)@.layer1.weights.rows,
            old(self)@.layer1.weights.cols == old(self)@.layer2.weights.rows,
            old(self)@.layer2.weights.cols > 0,
            forall|i: int| 0 <= i < labels.len() ==> (#[trigger] labels[i])@.cells.len() > 0,
            callable(exp),
        ensures
            old(self)@.is_tally(
                exp,
                data@,
                grids(labels@),
                sample_count(data@, labels@),
                final(self)@,
                correct as nat,
            ),
            correct <= sample_count(data@, labels@),
    {
        let (rows, _) = data.shape();
        let n: usize = if rows <= labels.len() {
            rows
        } else {
            labels.len()
        };
        let mut correct: usize = 0;
        let mut i: usize = 0;
        while i < n
            invariant
                i <= n,
                correct <= i,
                n == sample_count(data@, labels@),
                data@.wf(),
                data@.cols == old(self)@.layer1.weights.rows,
                old(self)@.layer1.weights.cols == old(self)@.layer2.weights.rows,
                old(self)@.layer2.weights.cols > 0,
                forall|k: int| 0 <= k < labels.len() ==> (#[trigger] labels[k])@.cells.len() > 0,
                callable(exp),
                self@.layer1.weights == old(self)@.layer1.weights,
                self@.layer2.weights == old(self)@.layer2.weights,
                old(self)@.is_tally(exp, data@, grids(labels@), i as nat, self@, correct as nat),
            decreases n - i,
        {
            let ghost before = self@;
            let ghost sub = correct as nat;
            proof {
                use_type_invariant(&self.layer1);
                use_type_invariant(&self.layer2);
                self.layer1.lemma_valid();
                self.layer2.lemma_valid();
                lemma_row_in_bounds(data@, i as int);
            }
            let x: Matrix<T> = data.get_row(i);
            let out: Matrix<T> = self.forward(x, exp);
            proof {
                use_type_invariant(&out);
                out.lemma_storable();
            }
            if out.max_index() == labels[i].max_index() {
                correct += 1;
            }
            i += 1;
            proof {
                let m: nat = i as nat;
                let targets = grids(labels@);
                assert(targets[m - 1] == labels[m - 1]@);
                assert(old(self)@.is_tally(exp, data@, targets, (m - 1) as nat, before, sub));
                assert(before.is_forward_pass(exp, data@.row(m - 1), self@, out@));
                assert(correct == tallied(sub, out@, targets[m - 1]));
                assert(old(self)@.is_tally(exp, data@, targets, m, self@, correct as nat));
            }
        }
        correct
    }
}

} // verus!
