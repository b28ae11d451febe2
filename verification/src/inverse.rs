//! The inverse by Cramer's rule: the adjugate divided by the determinant.

use vstd::prelude::*;
use crate::adjugate::{adjugate_view, get_adjugate};
use crate::error::{CustomErrors, SingularMatrixError};
use crate::matrix::{Matrix, RatMatrix};
use crate::operations::{get_determinant, scalar_divide, spec_determinant};
use crate::rational::Rat;

verus! {

/// The inverse of a square matrix with a nonzero determinant: every
/// entry of the adjugate divided, exactly, by the determinant.  Fails
/// with `NotImplemented` on a non-square matrix, with `SingularMatrix`
/// when the determinant is exactly zero, and with `EmptyVector` on a
/// one-by-one matrix.
pub fn cramer_inverse(matrix: &Matrix) -> (r: Result<RatMatrix, CustomErrors>)
    requires
        matrix.wf(),
    ensures
        match r {
            Ok(inv) => {
                &&& matrix.m == matrix.n
                &&& matrix.m >= 2
                &&& spec_determinant(matrix@, matrix.n as int) != 0
                &&& inv.wf()
                &&& inv.m == matrix.m
                &&& inv.n == matrix.n
                &&& forall|i: int, j: int|
                    0 <= i < inv.m && 0 <= j < inv.n ==> inv@[i][j] == (Rat {
                        num: adjugate_view(matrix@, matrix.n as int)[i][j],
                        den: spec_determinant(matrix@, matrix.n as int),
                    })
            },
            Err(e) => {
                if matrix.m != matrix.n {
                    e == CustomErrors::NotImplemented(crate::error::NotImplementedError)
                } else if spec_determinant(matrix@, matrix.n as int) == 0 {
                    e == CustomErrors::SingularMatrix(SingularMatrixError)
                } else {
                    matrix.m == 1 && e == CustomErrors::EmptyVector(
                        crate::error::EmptyVectorError,
                    )
                }
            },
        },
{
    let det = match get_determinant(matrix) {
        Ok(det) => det,
        Err(err) => {
            return Err(err);
        },
    };

    if det == 0 {
        return Err(CustomErrors::SingularMatrix(SingularMatrixError));
    }

    let adjugate_matrix = match get_adjugate(matrix) {
        Ok(adjugate_matrix) => adjugate_matrix,
        Err(err) => {
            return Err(err);
        },
    };
    match scalar_divide(&adjugate_matrix, det) {
        Ok(inverse_matrix) => Ok(inverse_matrix),
        Err(err) => Err(err),
    }
}

} // verus!
