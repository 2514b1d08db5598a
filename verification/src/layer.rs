//! A fully connected layer without bias: `y = x · W`.
use crate::grid::{lemma_cell_index, Grid};
use crate::matrix::Matrix;
use crate::scalar::Scalar;
use vstd::prelude::*;

verus! {

/// What a layer's backward pass returns: the gradient with respect to the
/// weights and the gradient with respect to the last input.
#[derive(Debug)]
pub struct LayerGrads<T> {
    pub weight_grads: Matrix<T>,
    pub inputs_grad: Matrix<T>,
}

/// A layer of `input_size` by `output_size` weights that remembers the last
/// input it was given.
#[derive(Debug)]
pub struct Layer<T> {
    weights: Matrix<T>,
    last_inputs: Matrix<T>,
    input_size: usize,
    output_size: usize,
}

/// The model of a layer: its weights, the input it saw last, and the two
/// sizes it was made with.
pub struct LayerState<T> {
    pub weights: Grid<T>,
    pub last_inputs: Grid<T>,
    pub input_size: nat,
    pub output_size: nat,
}

/// The step length of a weight update: nine ten-thousandths.
pub open spec fn learning_rate_value<T: Scalar>() -> T {
    T::count_value(9).quotient_of(T::count_value(10000))
}

/// The step length of a weight update.
pub fn learning_rate<T: Scalar>() -> (rate: T)
    ensures
        rate == learning_rate_value::<T>(),
{
    T::from_count(9).over(T::from_count(10000))
}

impl<T> LayerState<T> {
    /// What holds of every layer: the weights are `input_size` by
    /// `output_size`, and both grids are storable.
    pub open spec fn valid(self) -> bool {
        &&& self.weights.storable()
        &&& self.last_inputs.storable()
        &&& self.weights.rows == self.input_size
        &&& self.weights.cols == self.output_size
    }
}

impl<T: Scalar> LayerState<T> {
    /// The state after a forward pass on `x`: `x` is remembered.
    pub open spec fn forwarded(self, x: Grid<T>) -> LayerState<T> {
        LayerState { last_inputs: x, ..self }
    }

    /// What a forward pass on `x` returns: `x · W`.
    pub open spec fn output(self, x: Grid<T>) -> Grid<T> {
        x.product(self.weights)
    }

    /// The gradient of the weights for the upstream gradient `grad`:
    /// the transposed last input times `grad`.
    pub open spec fn weight_grads(self, grad: Grid<T>) -> Grid<T> {
        self.last_inputs.transposed().product(grad)
    }

    /// The gradient of the last input for the upstream gradient `grad`:
    /// `grad` times the transposed weights.
    pub open spec fn input_grads(self, grad: Grid<T>) -> Grid<T> {
        grad.product(self.weights.transposed())
    }

    /// The state after a weight update by `grads`.
    pub open spec fn updated(self, grads: Grid<T>) -> LayerState<T> {
        LayerState { weights: self.weights.descended(learning_rate_value(), grads), ..self }
    }
}

impl<T> View for Layer<T> {
    type V = LayerState<T>;

    closed spec fn view(&self) -> LayerState<T> {
        LayerState {
            weights: self.weights@,
            last_inputs: self.last_inputs@,
            input_size: self.input_size as nat,
            output_size: self.output_size as nat,
        }
    }
}

impl<T> Layer<T> {
    /// What holds of every layer: its view is valid.
    #[verifier::type_invariant]
    pub closed spec fn well_formed(self) -> bool {
        self@.valid()
    }

    /// The view of a layer is valid.
    pub proof fn lemma_valid(self)
        requires
            self.well_formed(),
        ensures
            self@.valid(),
    {
    }
}

/// The ratio whose square root bounds the initial weights: `6 / (input + output)`.
pub open spec fn spread_value<T: Scalar>(input: usize, output: usize) -> T {
    T::count_value(6).quotient_of(T::count_value((input + output) as usize))
}

/// `layer` is a freshly made layer of `input` by `output` weights: some
/// `limit` is a square root of `6 / (input + output)` under `sqrt`, every
/// weight is a draw for that limit under `draw`, and the remembered input
/// is all zero, in the shape of the weights.
pub open spec fn is_initial<T: Scalar, S: Fn(T) -> T, D: Fn(T) -> T>(
    sqrt: S,
    draw: D,
    input: usize,
    output: usize,
    layer: LayerState<T>,
) -> bool {
    &&& layer.input_size == input
    &&& layer.output_size == output
    &&& layer.weights.rows == input
    &&& layer.weights.cols == output
    &&& layer.weights.wf()
    &&& layer.last_inputs == Grid::filled(input as nat, output as nat, T::zero_value())
    &&& exists|limit: T|
        #![trigger call_ensures(sqrt, (spread_value::<T>(input, output),), limit)]
        {
            &&& call_ensures(sqrt, (spread_value::<T>(input, output),), limit)
            &&& forall|k: int|
                0 <= k < layer.weights.cells.len() ==> call_ensures(
                    draw,
                    (limit,),
                    #[trigger] layer.weights.cells[k],
                )
        }
}

impl<T: Scalar> Layer<T> {
    /// A layer of `input` by `output` weights, each drawn by `draw` for the
    /// limit `sqrt(6 / (input + output))`, with a remembered input of zeros
    /// in the shape of the weights. The square root and the draw are the
    /// caller's: a draw is meant to be uniform from zero up to the limit.
    pub fn new<S: Fn(T) -> T, D: Fn(T) -> T>(
        input: usize,
        output: usize,
        sqrt: S,
        draw: D,
    ) -> (layer: Self)
        requires
            input * output <= usize::MAX,
            input + output <= usize::MAX,
            call_requires(sqrt, (spread_value::<T>(input, output),)),
            forall|limit: T|
                call_ensures(sqrt, (spread_value::<T>(input, output),), limit) ==> call_requires(
                    draw,
                    (limit,),
                ),
        ensures
            is_initial(sqrt, draw, input, output, layer@),
    {
        let limit: T = sqrt(T::from_count(6).over(T::from_count(input + output)));
        let n: usize = input * output;
        let mut v_weight: Vec<T> = Vec::with_capacity(n);
        let mut i: usize = 0;
        while i < n
            invariant
                i <= n,
                v_weight.len() == i,
                call_requires(draw, (limit,)),
                forall|k: int| 0 <= k < i ==> call_ensures(draw, (limit,), #[trigger] v_weight[k]),
            decreases n - i,
        {
            v_weight.push(draw(limit));
            i += 1;
        }
        let weights: Matrix<T> = Matrix::new((input, output), v_weight.as_slice());
        let last_inputs: Matrix<T> = Matrix::new_zeros((input, output));
        proof {
            use_type_invariant(&weights);
            use_type_invariant(&last_inputs);
            weights.lemma_storable();
            last_inputs.lemma_storable();
        }
        Layer { weights, last_inputs, input_size: input, output_size: output }
    }

    /// The weights.
    pub fn weights(&self) -> (w: &Matrix<T>)
        ensures
            w@ == self@.weights,
    {
        &self.weights
    }

    /// The number of rows of the weights: the width of an input.
    pub fn input_size(&self) -> (n: usize)
        ensures
            n == self@.input_size,
            n == self@.weights.rows,
    {
        proof {
            use_type_invariant(self);
        }
        self.input_size
    }

    /// The number of columns of the weights: the width of an output.
    pub fn output_size(&self) -> (n: usize)
        ensures
            n == self@.output_size,
            n == self@.weights.cols,
    {
        proof {
            use_type_invariant(self);
        }
        self.output_size
    }

    /// Remembers `inputs` and returns `inputs · W`.
    pub fn forward(&mut self, inputs: Matrix<T>) -> (out: Matrix<T>)
        requires
            inputs@.cols == old(self)@.weights.rows,
            inputs@.rows * old(self)@.weights.cols <= usize::MAX,
        ensures
            final(self)@ == old(self)@.forwarded(inputs@),
            out@ == old(self)@.output(inputs@),
    {
        let out = inputs.dot(&self.weights);
        proof {
            use_type_invariant(&*self);
            use_type_invariant(&inputs);
            inputs.lemma_storable();
        }
        self.last_inputs = inputs;
        out
    }

    /// The gradients for the upstream gradient `grads`, from the weights and
    /// the remembered input. The layer stays as it is.
    pub fn backward(&mut self, grads: &Matrix<T>) -> (out: LayerGrads<T>)
        requires
            old(self)@.last_inputs.rows == grads@.rows,
            grads@.cols == old(self)@.weights.cols,
            old(self)@.last_inputs.cols * grads@.cols <= usize::MAX,
            grads@.rows * old(self)@.weights.rows <= usize::MAX,
        ensures
            final(self)@ == old(self)@,
            out.weight_grads@ == old(self)@.weight_grads(grads@),
            out.inputs_grad@ == old(self)@.input_grads(grads@),
            old(self)@.last_inputs.cols == old(self)@.weights.rows ==> {
                &&& out.weight_grads@.same_shape(old(self)@.weights)
                &&& out.inputs_grad@.same_shape(old(self)@.last_inputs)
            },
    {
        LayerGrads {
            weight_grads: self.last_inputs.transpose().dot(grads),
            inputs_grad: grads.dot(&self.weights.transpose()),
        }
    }

    /// Moves every weight against its gradient: `w - rate * g`, in place.
    pub fn apply_gradient(&mut self, grads: &Matrix<T>)
        requires
            grads@.same_shape(old(self)@.weights),
        ensures
            final(self)@ == old(self)@.updated(grads@),
            final(self)@.weights.same_shape(old(self)@.weights),
            forall|k: int|
                0 <= k < old(self)@.weights.cells.len() ==> #[trigger] final(self)@.weights.cells[k]
                    == old(self)@.weights.cells[k].difference_of(
                    learning_rate_value::<T>().product_of(grads@.cells[k]),
                ),
    {
        let ghost before = self.weights@;
        let ghost target = before.descended(learning_rate_value::<T>(), grads@);
        let rate: T = learning_rate();
        let (rows, cols) = self.weights.shape();
        proof {
            use_type_invariant(&*self);
            use_type_invariant(grads);
            grads.lemma_storable();
        }
        let mut r: usize = 0;
        while r < rows
            invariant
                r <= rows,
                rate == learning_rate_value::<T>(),
                before.wf(),
                grads@.wf(),
                grads@.same_shape(before),
                before.rows == rows,
                before.cols == cols,
                target == before.descended(rate, grads@),
                self.weights@.same_shape(before),
                self.weights@.cells.len() == before.cells.len(),
                self.last_inputs@ == old(self)@.last_inputs,
                self.input_size == old(self)@.input_size,
                self.output_size == old(self)@.output_size,
                old(self)@.valid(),
                before == old(self)@.weights,
                forall|k: int| 0 <= k < r * cols ==> self.weights@.cells[k] == target.cells[k],
                forall|k: int|
                    r * cols <= k < before.cells.len() ==> self.weights@.cells[k]
                        == before.cells[k],
            decreases rows - r,
        {
            let mut c: usize = 0;
            while c < cols
                invariant
                    r < rows,
                    c <= cols,
                    rate == learning_rate_value::<T>(),
                    before.wf(),
                    grads@.wf(),
                    grads@.same_shape(before),
                    before.rows == rows,
                    before.cols == cols,
                    target == before.descended(rate, grads@),
                    self.weights@.same_shape(before),
                    self.weights@.cells.len() == before.cells.len(),
                    self.last_inputs@ == old(self)@.last_inputs,
                    self.input_size == old(self)@.input_size,
                    self.output_size == old(self)@.output_size,
                    old(self)@.valid(),
                    before == old(self)@.weights,
                    forall|k: int|
                        0 <= k < r * cols + c ==> self.weights@.cells[k] == target.cells[k],
                    forall|k: int|
                        r * cols + c <= k < before.cells.len() ==> self.weights@.cells[k]
                            == before.cells[k],
                decreases cols - c,
            {
                proof {
                    lemma_cell_index(rows as int, cols as int, r as int, c as int);
                }
                let w: T = self.weights.get(r, c);
                let g: T = grads.get(r, c);
                self.weights.set(r, c, w.minus(rate.times(g)));
                c += 1;
            }
            proof {
                assert(r * cols + cols == (r + 1) * cols) by (nonlinear_arith);
            }
            r += 1;
        }
        assert(self.weights@.cells =~= target.cells);
    }
}

/// A backward pass right after a forward pass on `x` works from `x`: the
/// weight gradient is the transposed `x` times the upstream gradient, and
/// the input gradient is the upstream gradient times the transposed
/// weights. This holds of every upstream gradient `grad`, and so of the
/// one that holds one in every cell.
pub proof fn lemma_backward_after_forward<T: Scalar>(
    layer: LayerState<T>,
    x: Grid<T>,
    grad: Grid<T>,
)
    ensures
        layer.forwarded(x).weight_grads(grad) == x.transposed().product(grad),
        layer.forwarded(x).input_grads(grad) == grad.product(layer.weights.transposed()),
        layer.forwarded(x).weight_grads(Grid::filled(x.rows, layer.weights.cols, T::one_value()))
            == x.transposed().product(Grid::filled(x.rows, layer.weights.cols, T::one_value())),
        layer.forwarded(x).input_grads(Grid::filled(x.rows, layer.weights.cols, T::one_value()))
            == Grid::filled(x.rows, layer.weights.cols, T::one_value()).product(
            layer.weights.transposed(),
        ),
{
}

} // verus!
