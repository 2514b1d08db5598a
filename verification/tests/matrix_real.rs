//! The matrix kernel on single-precision floats.
use dense_net::dataset::load_dataset;
use dense_net::matrix::Matrix;
use dense_net::scalar::Scalar;

#[derive(Clone, Copy, Debug, PartialEq)]
struct Real(f32);

impl Scalar for Real {
    fn zero_value() -> Self {
        Real(0.0)
    }

    fn one_value() -> Self {
        Real(1.0)
    }

    fn lowest_value() -> Self {
        Real(f32::NEG_INFINITY)
    }

    fn count_value(n: usize) -> Self {
        Real(n as f32)
    }

    fn sum_of(self, rhs: Self) -> Self {
        Real(self.0 + rhs.0)
    }

    fn difference_of(self, rhs: Self) -> Self {
        Real(self.0 - rhs.0)
    }

    fn product_of(self, rhs: Self) -> Self {
        Real(self.0 * rhs.0)
    }

    fn quotient_of(self, rhs: Self) -> Self {
        Real(self.0 / rhs.0)
    }

    fn less_than(self, rhs: Self) -> bool {
        self.0 < rhs.0
    }

    fn index_value(self) -> usize {
        self.0 as usize
    }

    fn zero() -> Self {
        Self::zero_value()
    }

    fn one() -> Self {
        Self::one_value()
    }

    fn lowest() -> Self {
        Self::lowest_value()
    }

    fn from_count(n: usize) -> Self {
        Self::count_value(n)
    }

    fn plus(self, rhs: Self) -> Self {
        self.sum_of(rhs)
    }

    fn minus(self, rhs: Self) -> Self {
        self.difference_of(rhs)
    }

    fn times(self, rhs: Self) -> Self {
        self.product_of(rhs)
    }

    fn over(self, rhs: Self) -> Self {
        self.quotient_of(rhs)
    }

    fn lt(self, rhs: Self) -> bool {
        self.less_than(rhs)
    }

    fn to_index(self) -> usize {
        self.index_value()
    }
}

fn reals(values: &[f32]) -> Vec<Real> {
    values.iter().map(|v| Real(*v)).collect()
}

fn matrix(shape: (usize, usize), values: &[f32]) -> Matrix<Real> {
    Matrix::new(shape, &reals(values))
}

fn floats(m: &Matrix<Real>) -> Vec<f32> {
    m.data().iter().map(|v| v.0).collect()
}

#[test]
fn dot_operation() {
    let a = matrix((4, 2), &[1., 2., 3., 4., 5., 6., 7., 8.]);
    let b = a.clone().transpose();

    assert_eq!(
        a.dot(&b),
        matrix(
            (4, 4),
            &[
                5., 11., 17., 23., 11., 25., 39., 53., 17., 39., 61., 83., 23., 53., 83., 113.
            ]
        )
    )
}

#[test]
fn test_dot_operation() {
    let a = matrix((2, 2), &[1.0, 2.0, 3.0, 4.0]);
    let b = matrix((2, 2), &[5.0, 6.0, 7.0, 8.0]);

    let result = a.dot(&b);
    let expected = matrix((2, 2), &[19.0, 22.0, 43.0, 50.0]);

    assert_eq!(result.shape(), expected.shape());
    assert_eq!(result.data(), expected.data());
}

#[test]
fn test_dot_operation_with_decimals() {
    let a = matrix((2, 3), &[1.5, 2.0, 3.25, 4.75, 5.5, 6.1]);
    let b = matrix((3, 2), &[0.5, 0.75, 1.25, 1.5, 2.0, 2.1]);

    let result = a.dot(&b);
    let expected = matrix((2, 2), &[9.75, 10.95, 21.45, 24.6225]);

    assert_eq!(result.shape(), expected.shape());
    assert_eq!(result.data(), expected.data());
}

#[test]
fn transpose() {
    let a = matrix((2, 4), &[1., 2., 3., 4., 5., 6., 7., 8.]);
    assert_eq!(a.transpose(), matrix((4, 2), &[1., 5., 2., 6., 3., 7., 4., 8.]))
}

#[test]
fn transpose_matrix() {
    let test = matrix((2, 3), &[1.0, 2.0, 3.0, 4.0, 5.0, 6.0]);
    let result = test.transpose();
    let expected = matrix((3, 2), &[1.0, 4.0, 2.0, 5.0, 3.0, 6.0]);

    assert_eq!(result.shape(), expected.shape());
    assert_eq!(result.data(), expected.data());
}

#[test]
fn initialization() {
    let v = (0..4 * 5).map(|z| z as f32).collect::<Vec<f32>>();
    let data = matrix((4, 5), &v);

    assert_eq!(data.shape(), (4, 5));
    assert_eq!(data.len(), 20);
    assert_eq!(floats(&data), v);
    assert_eq!(data, matrix((4, 5), &v));
}

#[test]
fn dot_rectangular_shape() {
    let a = matrix((3, 2), &[1., 2., 3., 4., 5., 6.]);
    let b = matrix((2, 4), &[1., 0., 2., 0., 0., 1., 0., 2.]);
    let c = a.dot(&b);
    assert_eq!(c.shape(), (3, 4));
    assert_eq!(floats(&c), vec![1., 2., 2., 4., 3., 4., 6., 8., 5., 6., 10., 12.]);
}

#[test]
fn transpose_twice_is_identity() {
    let a = matrix((3, 4), &[0.5, 1., 1.5, 2., 2.5, 3., 3.5, 4., 4.5, 5., 5.5, 6.]);
    assert_eq!(a.transpose().transpose(), a);
    let row = matrix((1, 3), &[7., 8., 9.]);
    assert_eq!(row.transpose().shape(), (3, 1));
    assert_eq!(row.transpose().transpose(), row);
}

#[test]
fn transpose_of_product_is_product_of_transposes() {
    let a = matrix((2, 3), &[1.5, 2.0, 3.25, 4.75, 5.5, 6.1]);
    let b = matrix((3, 2), &[0.5, 0.75, 1.25, 1.5, 2.0, 2.1]);
    let left = a.dot(&b).transpose();
    let right = b.transpose().dot(&a.transpose());
    assert_eq!(left, right);
}

#[test]
fn constructors_fill_every_cell() {
    let z: Matrix<Real> = Matrix::new_zeros((2, 3));
    assert_eq!(z.shape(), (2, 3));
    assert_eq!(floats(&z), vec![0.0; 6]);
    let o: Matrix<Real> = Matrix::new_ones((3, 1));
    assert_eq!(floats(&o), vec![1.0; 3]);
    let c = Matrix::new_from((2, 2), Real(0.01));
    assert_eq!(floats(&c), vec![0.01; 4]);
    let d: Matrix<Real> = Matrix::default();
    assert_eq!(d.shape(), (1, 1));
    assert_eq!(floats(&d), vec![0.0]);
    let e: Matrix<Real> = Matrix::new_zeros((0, 5));
    assert_eq!(e.len(), 0);
}

#[test]
fn get_set_and_rows() {
    let mut a = matrix((2, 3), &[1., 2., 3., 4., 5., 6.]);
    assert_eq!(a.get(1, 0), Real(4.));
    assert_eq!(a.get(0, 2), Real(3.));
    a.set(1, 2, Real(9.5));
    assert_eq!(floats(&a), vec![1., 2., 3., 4., 5., 9.5]);
    let row = a.get_row(1);
    assert_eq!(row.shape(), (1, 3));
    assert_eq!(floats(&row), vec![4., 5., 9.5]);
    let mut rows = a.iter_row();
    assert_eq!(floats(&rows.next().unwrap()), vec![1., 2., 3.]);
    assert_eq!(floats(&rows.next().unwrap()), vec![4., 5., 9.5]);
    assert!(rows.next().is_none());
    assert!(rows.next().is_none());
}

#[test]
fn elementwise_operators() {
    let a = matrix((2, 2), &[1., 2., 3., 4.]);
    let b = matrix((2, 2), &[0.5, 4., 1.5, 8.]);
    assert_eq!(floats(&a.multiply(&b)), vec![0.5, 8., 4.5, 32.]);
    assert_eq!(floats(&(a.clone() * b.clone())), vec![0.5, 8., 4.5, 32.]);
    assert_eq!(floats(&(a.clone() - b.clone())), vec![0.5, -2., 1.5, -4.]);
    assert_eq!(floats(&(a.clone() / b.clone())), vec![2., 0.5, 2., 0.5]);
    assert_eq!(floats(&a.scale(Real(2.5))), vec![2.5, 5., 7.5, 10.]);
    assert_eq!(floats(&(a.clone() * Real(2.5))), vec![2.5, 5., 7.5, 10.]);
    assert_eq!(floats(&(a.clone() / Real(2.))), vec![0.5, 1., 1.5, 2.]);
    assert_eq!(floats(&(a.clone() - Real(1.5))), vec![-0.5, 0.5, 1.5, 2.5]);
}

#[test]
fn division_by_zero_is_passed_on() {
    let a = matrix((1, 3), &[1., -1., 0.]);
    let q = floats(&(a / Real(0.)));
    assert_eq!(q[0], f32::INFINITY);
    assert_eq!(q[1], f32::NEG_INFINITY);
    assert!(q[2].is_nan());
}

#[test]
fn reductions() {
    let a = matrix((2, 3), &[1.5, -2., 3.25, 4.75, 0., 6.5]);
    assert_eq!(a.sum(), Real(14.));
    assert_eq!(a.mean(), Real(14. / 6.));
    assert_eq!(a.max(), Real(6.5));
    assert_eq!(a.max_index(), 5);
    let negative = matrix((1, 3), &[-3., -1., -2.]);
    assert_eq!(negative.max(), Real(-1.));
    assert_eq!(negative.max_index(), 1);
    let empty: Matrix<Real> = Matrix::new_zeros((0, 0));
    assert_eq!(empty.max(), Real(f32::NEG_INFINITY));
    assert_eq!(empty.sum(), Real(0.));
}

#[test]
fn max_index_takes_the_first_of_equals() {
    let a = matrix((2, 3), &[1., 7., 3., 7., 2., 7.]);
    assert_eq!(a.max_index(), 1);
    assert_eq!(a.data()[a.max_index()], a.max());
    let flat = matrix((1, 4), &[2., 2., 2., 2.]);
    assert_eq!(flat.max_index(), 0);
}

#[test]
fn exp_applies_the_given_exponential() {
    let a = matrix((1, 3), &[0., 1., -1.]);
    let e = a.exp(|v: Real| Real(v.0.exp()));
    assert_eq!(e.shape(), (1, 3));
    assert_eq!(floats(&e), vec![1.0, 1f32.exp(), (-1f32).exp()]);
}

#[test]
fn images_become_rows_of_brightness() {
    let mut bytes = vec![0u8; 60000 * 784 + 16];
    bytes[0] = 255;
    bytes[1] = 51;
    bytes[784] = 102;
    bytes[60000 * 784 - 1] = 204;
    bytes[60000 * 784] = 77;
    let images: Matrix<Real> = load_dataset(&bytes);
    assert_eq!(images.shape(), (60000, 784));
    assert_eq!(images.get(0, 0), Real(1.0));
    assert_eq!(images.get(0, 1), Real(51.0 / 255.0));
    assert_eq!(images.get(0, 2), Real(0.0));
    assert_eq!(images.get(1, 0), Real(102.0 / 255.0));
    assert_eq!(images.get(59999, 783), Real(204.0 / 255.0));
}

#[test]
fn iter_walks_the_cells_in_row_major_order() {
    let a = matrix((2, 2), &[1., 2., 3., 4.]);
    let seen: Vec<f32> = a.iter().map(|v| v.0).collect();
    assert_eq!(seen, vec![1., 2., 3., 4.]);
    assert_eq!(a.iter().count(), a.len());
}

#[test]
fn max_index_holds_the_maximum_after_a_finite_first_cell() {
    let a = matrix((1, 4), &[1.0, f32::NAN, 3.0, 2.0]);
    assert_eq!(a.max_index(), 2);
    assert_eq!(a.data()[a.max_index()], a.max());
    let zeros = matrix((1, 3), &[-0.0, 0.0, -0.0]);
    assert_eq!(zeros.max_index(), 0);
    assert_eq!(zeros.data()[0], zeros.max());
    let lowest = matrix((1, 2), &[f32::NEG_INFINITY, f32::NEG_INFINITY]);
    assert_eq!(lowest.max_index(), 0);
    assert_eq!(lowest.max(), Real(f32::NEG_INFINITY));
}
