//! The general error type of the library and its result alias.

use vstd::prelude::*;

verus! {

/// The failures that the library reports outside of the matrix containers
/// themselves.
#[derive(Debug, Clone, PartialEq, Eq)]
pub enum MathError {
    /// A general arithmetic failure, with a human-readable description.
    MathError(String),
    /// A matrix-level failure, with a human-readable description.
    MatrixError(String),
    /// A polynomial-level failure, with a human-readable description.
    PolynomialError(String),
    /// A division by zero was attempted.
    DivisionByZero,
}

} // verus!
