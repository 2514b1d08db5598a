//! The layers, the softmax, the loss and the training loop on
//! single-precision floats.
use dense_net::activation::Softmax;
use dense_net::dataset::{load_label, one_hot_encode, one_hot_encode_matrix};
use dense_net::layer::{learning_rate, Layer};
use dense_net::loss::CrossEntropyLoss;
use dense_net::matrix::Matrix;
use dense_net::scalar::Scalar;
use dense_net::trainer::{Trainer, EPOCHS, HIDDEN_SIZE, INPUT_SIZE, OUTPUT_SIZE};

#[derive(Clone, Copy, Debug, PartialEq)]
struct Real(f32);

impl Scalar for Real {
    fn zero_value() -> Self {
        Real(0.0)
    }

    fn one_value() -> Self {
        Real(1.0)
    }

    fn lowest_value() -> Self {
        Real(f32::NEG_INFINITY)
    }

    fn count_value(n: usize) -> Self {
        Real(n as f32)
    }

    fn sum_of(self, rhs: Self) -> Self {
        Real(self.0 + rhs.0)
    }

    fn difference_of(self, rhs: Self) -> Self {
        Real(self.0 - rhs.0)
    }

    fn product_of(self, rhs: Self) -> Self {
        Real(self.0 * rhs.0)
    }

    fn quotient_of(self, rhs: Self) -> Self {
        Real(self.0 / rhs.0)
    }

    fn less_than(self, rhs: Self) -> bool {
        self.0 < rhs.0
    }

    fn index_value(self) -> usize {
        self.0 as usize
    }

    fn zero() -> Self {
        Self::zero_value()
    }

    fn one() -> Self {
        Self::one_value()
    }

    fn lowest() -> Self {
        Self::lowest_value()
    }

    fn from_count(n: usize) -> Self {
        Self::count_value(n)
    }

    fn plus(self, rhs: Self) -> Self {
        self.sum_of(rhs)
    }

    fn minus(self, rhs: Self) -> Self {
        self.difference_of(rhs)
    }

    fn times(self, rhs: Self) -> Self {
        self.product_of(rhs)
    }

    fn over(self, rhs: Self) -> Self {
        self.quotient_of(rhs)
    }

    fn lt(self, rhs: Self) -> bool {
        self.less_than(rhs)
    }

    fn to_index(self) -> usize {
        self.index_value()
    }
}

fn reals(values: &[f32]) -> Vec<Real> {
    values.iter().map(|v| Real(*v)).collect()
}

fn matrix(shape: (usize, usize), values: &[f32]) -> Matrix<Real> {
    Matrix::new(shape, &reals(values))
}

fn floats(m: &Matrix<Real>) -> Vec<f32> {
    m.data().iter().map(|v| v.0).collect()
}

fn exp(v: Real) -> Real {
    Real(v.0.exp())
}

fn ln(v: Real) -> Real {
    Real(v.0.ln())
}

fn sqrt(v: Real) -> Real {
    Real(v.0.sqrt())
}

fn layer(input: usize, output: usize, weights: &[f32]) -> Layer<Real> {
    let next = std::cell::Cell::new(0usize);
    Layer::new(input, output, sqrt, |_limit: Real| {
        let k = next.get();
        next.set(k + 1);
        Real(weights[k])
    })
}

fn close(a: f32, b: f32, tolerance: f32) -> bool {
    (a - b).abs() <= tolerance
}

#[test]
fn learning_rate_is_nine_ten_thousandths() {
    assert_eq!(learning_rate::<Real>(), Real(0.0009));
}

#[test]
fn new_layer_draws_each_weight_in_order() {
    let made = layer(2, 2, &[0.1, 0.2, 0.3, 0.4]);
    assert_eq!(made.weights().shape(), (2, 2));
    assert_eq!(floats(made.weights()), vec![0.1, 0.2, 0.3, 0.4]);
}

#[test]
fn new_layer_keeps_its_sizes() {
    let mut made = layer(2, 3, &[1., 2., 3., 4., 5., 6.]);
    assert_eq!(made.input_size(), 2);
    assert_eq!(made.output_size(), 3);
    made.forward(matrix((4, 2), &[0.; 8]));
    made.apply_gradient(&matrix((2, 3), &[1.; 6]));
    assert_eq!(made.input_size(), 2);
    assert_eq!(made.output_size(), 3);
    assert_eq!(made.weights().shape(), (2, 3));
}

#[test]
fn digit_network_has_the_fixed_sizes() {
    assert_eq!((INPUT_SIZE, HIDDEN_SIZE, OUTPUT_SIZE, EPOCHS), (784, 100, 10, 3));
    let mut trainer: Trainer<Real> = Trainer::digits(sqrt, |limit: Real| Real(limit.0 * 0.5));
    assert_eq!(trainer.layer1.weights().shape(), (784, 100));
    assert_eq!(trainer.layer2.weights().shape(), (100, 10));
    assert_eq!(trainer.layer1.input_size(), 784);
    assert_eq!(trainer.layer2.output_size(), 10);
    let first = (6.0f32 / 884.0).sqrt() * 0.5;
    let second = (6.0f32 / 110.0).sqrt() * 0.5;
    assert_eq!(floats(trainer.layer1.weights()), vec![first; 78400]);
    assert_eq!(floats(trainer.layer2.weights()), vec![second; 1000]);
    let out = trainer.forward(matrix((1, 784), &[0.5; 784]), exp);
    assert_eq!(out.shape(), (1, 10));
}

#[test]
fn new_layer_draws_for_the_xavier_limit() {
    let limit = (6.0f32 / 884.0).sqrt();
    let at_limit = Layer::new(784, 100, sqrt, |limit: Real| limit);
    assert_eq!(at_limit.weights().shape(), (784, 100));
    assert_eq!(floats(at_limit.weights()), vec![limit; 78400]);
    let halved = Layer::new(3, 5, sqrt, |limit: Real| Real(limit.0 * 0.5));
    assert_eq!(floats(halved.weights()), vec![(6.0f32 / 8.0).sqrt() * 0.5; 15]);
}

#[test]
fn new_layer_remembers_zeros_in_the_shape_of_its_weights() {
    let mut made = layer(2, 3, &[1., 2., 3., 4., 5., 6.]);
    let grads = made.backward(&matrix((2, 1), &[1., 1.]));
    assert_eq!(grads.weight_grads.shape(), (3, 1));
    assert_eq!(floats(&grads.weight_grads), vec![0., 0., 0.]);
}

#[test]
fn forward_is_input_times_weights() {
    let mut made = layer(3, 2, &[1., 2., 3., 4., 5., 6.]);
    let out = made.forward(matrix((1, 3), &[0.5, -1., 2.]));
    assert_eq!(out.shape(), (1, 2));
    assert_eq!(floats(&out), vec![7.5, 9.0]);
}

#[test]
fn backward_with_unit_gradient() {
    let weights = [1., 2., 3., 4., 5., 6.];
    let mut made = layer(3, 2, &weights);
    let x = matrix((1, 3), &[0.5, -1., 2.]);
    made.forward(x.clone());
    let unit: Matrix<Real> = Matrix::new_ones((1, 2));
    let grads = made.backward(&unit);
    assert_eq!(grads.weight_grads, x.transpose().dot(&unit));
    assert_eq!(grads.weight_grads.shape(), (3, 2));
    assert_eq!(floats(&grads.weight_grads), vec![0.5, 0.5, -1., -1., 2., 2.]);
    assert_eq!(grads.inputs_grad, unit.dot(&matrix((3, 2), &weights).transpose()));
    assert_eq!(grads.inputs_grad.shape(), (1, 3));
    assert_eq!(floats(&grads.inputs_grad), vec![3., 7., 11.]);
    assert_eq!(floats(made.weights()), weights.to_vec());
}

#[test]
fn apply_gradient_moves_each_weight() {
    let weights = [0.5f32, -0.25, 1.0, 0.0];
    let grads = [1.0f32, -2.0, 0.5, 1000.0];
    let mut made = layer(2, 2, &weights);
    made.apply_gradient(&matrix((2, 2), &grads));
    let moved = floats(made.weights());
    for k in 0..4 {
        assert_eq!(moved[k], weights[k] - 0.0009 * grads[k]);
    }
    assert_eq!(moved[3], -0.9);
    assert_eq!(made.weights().shape(), (2, 2));
}

#[test]
fn softmax_of_zeros_is_uniform() {
    let mut softmax = Softmax::new();
    let out = softmax.forward(&matrix((1, 4), &[0., 0., 0., 0.]), exp);
    assert_eq!(floats(&out), vec![0.25, 0.25, 0.25, 0.25]);
    assert_eq!(floats(&softmax.last_input), vec![0.25, 0.25, 0.25, 0.25]);
}

#[test]
fn softmax_sums_to_one() {
    let mut softmax = Softmax::new();
    let inputs = [
        vec![1.0f32, 2.0, 3.0],
        vec![-5.0, 0.0, 5.0, 10.0],
        vec![0.001, 0.002, -0.003, 0.5, 12.0, -12.0],
        vec![42.0],
    ];
    for input in inputs.iter() {
        let out = softmax.forward(&matrix((1, input.len()), input), exp);
        assert!(close(out.sum().0, 1.0, 1e-5));
        for p in floats(&out) {
            assert!((0.0..=1.0).contains(&p));
        }
    }
    let square = softmax.forward(&matrix((2, 2), &[1., 2., 3., 4.]), exp);
    assert_eq!(square.shape(), (2, 2));
    assert!(close(square.sum().0, 1.0, 1e-5));
}

#[test]
fn softmax_backward_of_uniform_output() {
    let mut softmax = Softmax::new();
    softmax.forward(&matrix((1, 4), &[0., 0., 0., 0.]), exp);
    let back = softmax.backward(matrix((1, 4), &[1., 0., 0., 0.]));
    assert_eq!(back.shape(), (1, 4));
    assert_eq!(floats(&back), vec![0.1875, -0.0625, -0.0625, -0.0625]);
    assert_eq!(floats(&softmax.last_input), vec![0.25, 0.25, 0.25, 0.25]);
}

#[test]
fn softmax_backward_divides_by_the_squared_sum() {
    let mut softmax = Softmax { last_input: matrix((1, 2), &[1., 1.]) };
    let back = softmax.backward(matrix((1, 2), &[4., 8.]));
    assert_eq!(floats(&back), vec![-2., -1.]);
}

#[test]
fn cross_entropy_of_a_perfect_prediction() {
    let mut logits = vec![1e-7f32; 10];
    logits[0] = 0.999999;
    let mut target = vec![0.0f32; 10];
    target[0] = 1.0;
    let mut loss = CrossEntropyLoss::new();
    loss.forward(&matrix((1, 10), &logits), &matrix((1, 10), &target), ln);
    assert_eq!(loss.loss.shape(), (1, 1));
    assert!(loss.loss.get(0, 0).0 < 1e-5);
    assert!(loss.loss.get(0, 0).0 >= 0.0);
    assert_eq!(loss.input_grads.shape(), (1, 10));
    let grads = floats(&loss.input_grads);
    assert!(close(grads[0], -1e-8, 1e-5));
    assert_eq!(grads[0], 0.999999 - 1.0);
    assert_eq!(grads[1], 1e-7);
}

#[test]
fn cross_entropy_of_the_target_itself() {
    let target = [0.0f32, 1.0, 0.0];
    let mut loss = CrossEntropyLoss::new();
    loss.forward(&matrix((1, 3), &target), &matrix((1, 3), &target), ln);
    let epsilon = 1e-8f32;
    assert!(close(loss.loss.get(0, 0).0, epsilon, 1e-7));
    let grads = floats(&loss.input_grads);
    assert!(close(grads[1], -epsilon, 1e-7));
    assert_eq!(grads[0], epsilon);
    assert_eq!(grads[2], epsilon);
}

#[test]
fn cross_entropy_clamps_and_takes_the_hot_logarithm() {
    let mut loss = CrossEntropyLoss::new();
    loss.forward(&matrix((1, 3), &[0.25, 0.5, 2.0]), &matrix((1, 3), &[0., 1., 0.]), ln);
    assert_eq!(loss.loss.get(0, 0), Real(-(0.5f32.ln())));
    assert_eq!(floats(&loss.input_grads), vec![0.25, -0.5, 1.0]);
    loss.forward(&matrix((1, 2), &[-3.0, 0.5]), &matrix((1, 2), &[1., 0.]), ln);
    assert_eq!(loss.loss.get(0, 0), Real(-(1e-8f32.ln())));
    assert_eq!(floats(&loss.input_grads), vec![1e-8 - 1.0, 0.5]);
}

fn synthetic() -> (Matrix<Real>, Vec<Matrix<Real>>) {
    let mut cells: Vec<f32> = Vec::new();
    let mut labels: Vec<Real> = Vec::new();
    for sample in 0..25usize {
        let class = sample % 3;
        for feature in 0..6usize {
            let on = feature / 2 == class;
            let jitter = ((sample * 7 + feature * 3) % 5) as f32 * 0.01;
            cells.push(if on { 0.9 - jitter } else { 0.1 + jitter });
        }
        labels.push(Real(class as f32));
    }
    (matrix((25, 6), &cells), one_hot_encode_matrix(&labels, 3))
}

fn seeded() -> Trainer<Real> {
    Trainer::new(
        Layer::new(6, 4, sqrt, |_limit: Real| Real(0.01)),
        Layer::new(4, 3, sqrt, |_limit: Real| Real(0.01)),
    )
}

#[test]
fn training_lowers_the_loss() {
    let (data, labels) = synthetic();
    let mut trainer = seeded();
    let mut losses: Vec<f32> = Vec::new();
    for _ in 0..25 {
        losses.push(trainer.train_epoch(&data, &labels, exp, ln).0);
    }
    assert!(losses[0].is_finite());
    assert!(losses[24].is_finite());
    assert!(losses[0] > losses[24]);
    assert_eq!(trainer.layer1.weights().shape(), (6, 4));
    assert_eq!(trainer.layer2.weights().shape(), (4, 3));
}

#[test]
fn one_training_step_by_hand() {
    let (data, labels) = synthetic();
    let x = data.get_row(0);
    let y = labels[0].clone();
    let mut trainer = seeded();
    let reported = trainer.train_sample(x.clone(), &y, exp, ln);

    let w1 = matrix((6, 4), &[0.01; 24]);
    let w2 = matrix((4, 3), &[0.01; 12]);
    let a1 = x.dot(&w1);
    let e = a1.exp(exp);
    let a2 = e.clone() / e.sum();
    let a3 = a2.dot(&w2);
    let mut loss = CrossEntropyLoss::new();
    loss.forward(&a3, &y, ln);
    let g2w = a2.transpose().dot(&loss.input_grads);
    let g2i = loss.input_grads.dot(&w2.transpose());
    let h = a2.multiply(&g2i);
    let s = a2.sum();
    let g1 = (h.clone() - a2.scale(h.sum())) / s.times(s);
    let g0w = x.transpose().dot(&g1);

    assert_eq!(reported, loss.loss.get(0, 0));
    assert_eq!(floats(&trainer.act.last_input), floats(&a2));
    assert_eq!(floats(&trainer.loss.input_grads), floats(&loss.input_grads));
    let moved2: Vec<f32> = floats(&g2w).iter().map(|g| 0.01 - 0.0009 * g).collect();
    let moved1: Vec<f32> = floats(&g0w).iter().map(|g| 0.01 - 0.0009 * g).collect();
    assert_eq!(floats(trainer.layer2.weights()), moved2);
    assert_eq!(floats(trainer.layer1.weights()), moved1);
}

#[test]
fn epoch_loss_is_the_sum_of_the_sample_losses() {
    let (data, labels) = synthetic();
    let mut whole = seeded();
    let total = whole.train_epoch(&data, &labels, exp, ln);
    let mut stepwise = seeded();
    let mut sum = Real(0.0);
    let mut rows = data.iter_row();
    let mut i = 0;
    while let Some(x) = rows.next() {
        sum = sum.plus(stepwise.train_sample(x, &labels[i], exp, ln));
        i += 1;
    }
    assert_eq!(i, 25);
    assert_eq!(total, sum);
    assert_eq!(floats(whole.layer1.weights()), floats(stepwise.layer1.weights()));
    assert_eq!(floats(whole.layer2.weights()), floats(stepwise.layer2.weights()));
}

#[test]
fn epoch_stops_at_the_shorter_of_data_and_labels() {
    let (data, labels) = synthetic();
    let few: Vec<Matrix<Real>> = labels.iter().take(4).cloned().collect();
    let mut short = seeded();
    let total = short.train_epoch(&data, &few, exp, ln);
    let mut stepwise = seeded();
    let mut sum = Real(0.0);
    for i in 0..4 {
        sum = sum.plus(stepwise.train_sample(data.get_row(i), &labels[i], exp, ln));
    }
    assert_eq!(total, sum);
    assert_eq!(short.count_correct(&data, &few, exp), stepwise.count_correct(&data, &few, exp));
}

#[test]
fn counting_compares_the_largest_cells() {
    let mut trainer =
        Trainer::new(layer(2, 2, &[1., 0., 0., 1.]), layer(2, 2, &[5., 1., 1., 5.]));
    let data = matrix((3, 2), &[4., 0., 0., 4., 4., 0.]);
    let labels = one_hot_encode_matrix(&reals(&[0., 1., 1.]), 2);
    assert_eq!(trainer.count_correct(&data, &labels, exp), 2);
    let out = trainer.forward(matrix((1, 2), &[0., 4.]), exp);
    assert_eq!(out.shape(), (1, 2));
    assert_eq!(out.max_index(), 1);
}

#[test]
fn labels_become_floats() {
    let bytes: Vec<u8> = vec![0, 0, 8, 1, 0, 0, 0, 3, 5, 0, 4];
    let labels: Vec<Real> = load_label(&bytes);
    assert_eq!(labels, reals(&[5., 0., 4.]));
}

#[test]
fn one_hot_of_float_labels() {
    let rows = one_hot_encode(&reals(&[0., 9., 3.7, 10., 250., -2.]), 10);
    let hot: Vec<usize> = rows
        .iter()
        .map(|row| row.iter().position(|v| *v == Real(1.0)).unwrap())
        .collect();
    assert_eq!(hot, vec![0, 9, 3, 1, 1, 0]);
    for row in rows.iter() {
        assert_eq!(row.len(), 10);
        assert_eq!(row.iter().filter(|v| **v == Real(0.0)).count(), 9);
    }
    let matrices = one_hot_encode_matrix(&reals(&[2., 11.]), 10);
    assert_eq!(matrices[0].shape(), (1, 10));
    assert_eq!(matrices[0].max_index(), 2);
    assert_eq!(matrices[1].max_index(), 1);
}

#[test]
fn overflowing_exponentials_are_passed_on() {
    let mut softmax = Softmax::new();
    let out = softmax.forward(&matrix((1, 2), &[1000., 0.]), exp);
    let cells = floats(&out);
    assert!(cells[0].is_nan());
    assert_eq!(cells[1], 0.0);
}

#[test]
fn softmax_backward_of_a_zero_sum_is_not_finite() {
    let mut softmax = Softmax { last_input: matrix((1, 2), &[0., 0.]) };
    let back = softmax.backward(matrix((1, 2), &[1., 1.]));
    assert!(floats(&back).iter().all(|v| v.is_nan()));
}
