//! A small numeric container library: a rank-2 `Matrix` and a general
//! strided `NDArray`, with verified conversions between the two.

pub mod convert;
pub mod matrix;
pub mod ndarray;

pub use matrix::Matrix;
pub use ndarray::{NDArray, NDArrayError};
