//! The ways in which an operation of the library is refused.
use vstd::prelude::*;

verus! {

/// Why an operation was refused.
#[derive(Clone, Copy, Debug, PartialEq, Eq, Structural)]
pub enum NeuralError {
    /// A vector of `found` entries was given where `expected` entries are needed.
    ShapeMismatch { expected: usize, found: usize },
    /// The operation is not defined for this activation.
    UnsupportedOperation,
}

} // verus!
