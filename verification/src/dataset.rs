//! From the raw bytes of an image file and of a label file to the matrices
//! that training works on. Reading the files is the caller's part.
use crate::grid::Grid;
use crate::matrix::Matrix;
use crate::scalar::Scalar;
use vstd::prelude::*;

verus! {

/// The number of pixels in one image: 28 by 28.
pub const IMAGE_SIZE: usize = 784;

/// The number of images in a training file.
pub const IMAGE_COUNT: usize = 60000;

/// The number of bytes at the front of a label file that carry no label:
/// the file's header.
pub const LABEL_HEADER: usize = 8;

/// The brightness of a pixel as a scalar between zero and one: `b / 255`.
pub open spec fn pixel_value<T: Scalar>(b: u8) -> T {
    T::count_value(b as usize).quotient_of(T::count_value(255))
}

/// The label that counts: the label itself, or one where the label is not
/// below the number of classes.
pub open spec fn counted_label<T: Scalar>(label: T, num_classes: usize) -> T {
    if label.less_than(T::count_value(num_classes)) {
        label
    } else {
        T::one_value()
    }
}

/// The cell that a label is hot in: the position of the label that counts.
pub open spec fn hot_index<T: Scalar>(label: T, num_classes: usize) -> int {
    counted_label(label, num_classes).index_value() as int
}

/// A row of `num_classes` cells with one in the cell of `label` and zero in
/// every other.
pub open spec fn one_hot_row<T: Scalar>(label: T, num_classes: usize) -> Seq<T> {
    Seq::new(
        num_classes as nat,
        |k: int|
            if k == hot_index(label, num_classes) {
                T::one_value()
            } else {
                T::zero_value()
            },
    )
}

/// The images of a training file as a matrix with one image in each row:
/// the bytes are taken from the front, 784 to an image, each as its
/// brightness, and what is left after the last whole image is dropped.
pub fn load_dataset<T: Scalar>(bytes: &[u8]) -> (images: Matrix<T>)
    requires
        bytes.len() / IMAGE_SIZE == IMAGE_COUNT,
    ensures
        images@ == (Grid {
            rows: IMAGE_COUNT as nat,
            cols: IMAGE_SIZE as nat,
            cells: Seq::new((IMAGE_COUNT * IMAGE_SIZE) as nat, |k: int| pixel_value::<T>(bytes[k])),
        }),
{
    let n: usize = IMAGE_COUNT * IMAGE_SIZE;
    let full: T = T::from_count(255);
    let mut cells: Vec<T> = Vec::with_capacity(n);
    let mut i: usize = 0;
    while i < n
        invariant
            i <= n,
            n == IMAGE_COUNT * IMAGE_SIZE,
            n <= bytes.len(),
            full == T::count_value(255),
            cells.len() == i,
            forall|k: int| 0 <= k < i ==> cells[k] == pixel_value::<T>(bytes[k]),
        decreases n - i,
    {
        cells.push(T::from_count(bytes[i] as usize).over(full));
        i += 1;
    }
    assert(cells@ =~= Seq::new(
        (IMAGE_COUNT * IMAGE_SIZE) as nat,
        |k: int| pixel_value::<T>(bytes[k]),
    ));
    Matrix::new((IMAGE_COUNT, IMAGE_SIZE), cells.as_slice())
}

/// The labels of a label file: every byte after the eight of the header, in
/// the order of the file, each as the scalar of its value.
pub fn load_label<T: Scalar>(bytes: &[u8]) -> (labels: Vec<T>)
    requires
        bytes.len() >= LABEL_HEADER,
    ensures
        labels.len() == bytes.len() - LABEL_HEADER,
        forall|k: int|
            0 <= k < labels.len() ==> #[trigger] labels[k] == T::count_value(
                bytes[k + LABEL_HEADER] as usize,
            ),
{
    let n: usize = bytes.len() - LABEL_HEADER;
    let mut labels: Vec<T> = Vec::with_capacity(n);
    let mut i: usize = 0;
    while i < n
        invariant
            i <= n,
            n + LABEL_HEADER == bytes.len(),
            labels.len() == i,
            forall|k: int|
                0 <= k < i ==> #[trigger] labels[k] == T::count_value(
                    bytes[k + LABEL_HEADER] as usize,
                ),
        decreases n - i,
    {
        labels.push(T::from_count(bytes[i + LABEL_HEADER] as usize));
        i += 1;
    }
    labels
}

/// One row of `num_classes` cells for `label`.
fn hot_row<T: Scalar>(label: T, num_classes: usize) -> (row: Vec<T>)
    requires
        hot_index(label, num_classes) < num_classes,
    ensures
        row@ == one_hot_row::<T>(label, num_classes),
{
    let counted: T = if label.lt(T::from_count(num_classes)) {
        label
    } else {
        T::one()
    };
    let hot: usize = counted.to_index();
    let mut row: Vec<T> = Vec::with_capacity(num_classes);
    let mut k: usize = 0;
    while k < num_classes
        invariant
            k <= num_classes,
            hot == hot_index(label, num_classes),
            row.len() == k,
            forall|m: int|
                0 <= m < k ==> row[m] == if m == hot {
                    T::one_value()
                } else {
                    T::zero_value()
                },
        decreases num_classes - k,
    {
        if k == hot {
            row.push(T::one());
        } else {
            row.push(T::zero());
        }
        k += 1;
    }
    assert(row@ =~= one_hot_row::<T>(label, num_classes));
    row
}

/// For each label a row with one in the label's cell and zero elsewhere. A
/// label that is not below `num_classes` counts as label 1.
pub fn one_hot_encode<T: Scalar>(labels: &[T], num_classes: usize) -> (rows: Vec<Vec<T>>)
    requires
        forall|i: int| 0 <= i < labels.len() ==> hot_index(labels[i], num_classes) < num_classes,
    ensures
        rows.len() == labels.len(),
        forall|i: int|
            0 <= i < labels.len() ==> (#[trigger] rows[i])@ == one_hot_row::<T>(
                labels[i],
                num_classes,
            ),
{
    let mut rows: Vec<Vec<T>> = Vec::with_capacity(labels.len());
    let mut i: usize = 0;
    while i < labels.len()
        invariant
            i <= labels.len(),
            rows.len() == i,
            forall|k: int|
                0 <= k < labels.len() ==> hot_index(labels[k], num_classes) < num_classes,
            forall|k: int|
                0 <= k < i ==> (#[trigger] rows[k])@ == one_hot_row::<T>(labels[k], num_classes),
        decreases labels.len() - i,
    {
        rows.push(hot_row(labels[i], num_classes));
        i += 1;
    }
    rows
}

/// For each label a matrix of one row with one in the label's cell and zero
/// elsewhere. A label that is not below `num_classes` counts as label 1.
pub fn one_hot_encode_matrix<T: Scalar>(labels: &[T], num_classes: usize) -> (rows: Vec<
    Matrix<T>,
>)
    requires
        forall|i: int| 0 <= i < labels.len() ==> hot_index(labels[i], num_classes) < num_classes,
    ensures
        rows.len() == labels.len(),
        forall|i: int|
            0 <= i < labels.len() ==> (#[trigger] rows[i])@ == (Grid {
                rows: 1,
                cols: num_classes as nat,
                cells: one_hot_row::<T>(labels[i], num_classes),
            }),
{
    let mut rows: Vec<Matrix<T>> = Vec::with_capacity(labels.len());
    let mut i: usize = 0;
    while i < labels.len()
        invariant
            i <= labels.len(),
            rows.len() == i,
            forall|k: int|
                0 <= k < labels.len() ==> hot_index(labels[k], num_classes) < num_classes,
            forall|k: int|
                0 <= k < i ==> (#[trigger] rows[k])@ == (Grid {
                    rows: 1,
                    cols: num_classes as nat,
                    cells: one_hot_row::<T>(labels[k], num_classes),
                }),
        decreases labels.len() - i,
    {
        let row: Vec<T> = hot_row(labels[i], num_classes);
        rows.push(Matrix::new((1, num_classes), row.as_slice()));
        i += 1;
    }
    rows
}

} // verus!
