//! Fixed-size rational vectors and matrices.
pub mod matrix;
pub mod vector;
