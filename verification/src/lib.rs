//! A dense-matrix numeric kernel and the layers of a small feed-forward
//! network built on it, generic over the scalar type of the cells.
pub mod activation;
pub mod algebra;
pub mod dataset;
pub mod grid;
pub mod layer;
pub mod loss;
pub mod matrix;
pub mod scalar;
pub mod trainer;
