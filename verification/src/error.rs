//! Error kinds shared by every fallible operation of the toolkit.

use vstd::prelude::*;

verus! {

/// Two operands have incompatible dimensions for the requested operation.
#[derive(Debug, Clone, PartialEq, Eq, Structural)]
pub struct MismatchError;

/// An input had zero rows, zero columns, or no elements at all.
#[derive(Debug, Clone, PartialEq, Eq, Structural)]
pub struct EmptyVectorError;

/// A numeric value could not be carried into the requested result type.
#[derive(Debug, Clone, PartialEq, Eq, Structural)]
pub struct BadTypeError;

/// The rows of a would-be matrix do not all have the same length; also
/// reused to report a similarity-transform sequence that never reached
/// tridiagonal form.
#[derive(Debug, Clone, PartialEq, Eq, Structural)]
pub struct NonUniformError;

/// The operation requires a square matrix and did not receive one.
#[derive(Debug, Clone, PartialEq, Eq, Structural)]
pub struct NotImplementedError;

/// An inverse was requested of a matrix whose determinant is exactly zero.
#[derive(Debug, Clone, PartialEq, Eq, Structural)]
pub struct SingularMatrixError;

/// The error taxonomy of the library: one variant per failure kind.
#[derive(Debug, Clone, PartialEq, Eq, Structural)]
pub enum CustomErrors {
    EmptyVector(EmptyVectorError),
    Mismatch(MismatchError),
    NonUniform(NonUniformError),
    BadType(BadTypeError),
    NotImplemented(NotImplementedError),
    SingularMatrix(SingularMatrixError),
}

impl CustomErrors {
    /// The one-line display text shared by every error kind.
    pub fn message(&self) -> (s: String)
        ensures
            s@ == "Matrix dimensions are mismatched."@,
    {
        proof {
            broadcast use vstd::string::to_string_from_display_ensures_for_str;

        }
        "Matrix dimensions are mismatched.".to_string()
    }
}

} // verus!
