//! Feedforward neural-network evaluation on decimal fixed-point numbers.
//!
//! Every number is a [`fixed::Fixed`]: a count of ten-millionths held in an `i32`.
//! All arithmetic is integer arithmetic with stated rounding (towards minus
//! infinity) and saturation, so each result is an exact function of its inputs.
pub mod activation;
pub mod builder;
pub mod error;
pub mod exp;
pub mod fixed;
pub mod layer;
pub mod perceptron;
pub mod random;
