//! Exact rational and surd arithmetic, integer factoring, and fixed-size
//! rational matrices with LU-based solving.
pub mod geom;
pub mod num;
