//! Verified building blocks of a multilayer perceptron: layer topology,
//! mini-batch partitioning, the training schedule and class selection.
//!
//! Everything here works on sizes, indices and bit patterns. The numeric
//! kernels (weighted sums, activations, gradients) belong to the embedding
//! application, which asks this crate where data goes and in which order.

pub mod error;
pub mod topology;
pub mod batch;
pub mod labels;
pub mod predict;
pub mod schedule;
