//! The matrix engine: the mathematical model, the flat store and its operations.

pub mod elementwise;
pub mod exactness;
pub mod grid;
pub mod matrix;
pub mod product;
pub mod random;
pub mod reduce;
pub mod render;
pub mod strassen;
pub mod text;
