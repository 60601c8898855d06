//! A dense two-dimensional array: one flat buffer read as rows of equal width,
//! with row views and row-by-row traversal, read-only or mutable.

pub mod iter;
pub mod matrix;

pub use iter::{Iter, IterMut};
pub use matrix::{Matrix, ShapeError};
