//! Dense row-major matrices with verified storage, elementwise arithmetic,
//! structural operations and two interchangeable multiplication strategies,
//! and the integer bookkeeping of a training loop built on them.

pub mod linalg;
pub mod nn;

pub use linalg::grid::Grid;
pub use linalg::matrix::Matrix;
pub use nn::network::TrainOptions;
