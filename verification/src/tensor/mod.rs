//! Shapes, views, and the quantised weight matrix.
pub mod quant_matrix;
pub mod shape;
pub mod view;

pub use quant_matrix::QuantMatrix;
pub use shape::{Shape, MAX_RANK};
pub use view::{TensorView, TensorViewMut};
