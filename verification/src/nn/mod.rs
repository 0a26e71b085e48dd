//! What a feed-forward network built on the matrix engine needs beside
//! floating-point arithmetic: class indices and the bookkeeping of training.

pub mod formatter;
pub mod functions;
pub mod network;
