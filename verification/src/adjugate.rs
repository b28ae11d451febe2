//! The adjugate: the transpose of the cofactor matrix.

use vstd::prelude::*;
use crate::cofactor::{cofactor_view, get_cofactor};
use crate::error::CustomErrors;
use crate::matrix::Matrix;

verus! {

/// The transpose of an `m`-by-`n` table.
pub open spec fn transpose_view(mat: Seq<Seq<i64>>, m: int, n: int) -> Seq<Seq<i64>> {
    Seq::new(n as nat, |j: int| Seq::new(m as nat, |i: int| mat[i][j]))
}

/// The adjugate of a square table: the transpose of its cofactor table.
pub open spec fn adjugate_view(mat: Seq<Seq<i64>>, n: int) -> Seq<Seq<i64>> {
    transpose_view(cofactor_view(mat, n, n), n, n)
}

/// The adjugate of a square matrix.  For every square input this is
/// exactly the transpose of the cofactor matrix; the failure cases are
/// those of the cofactor computation.
pub fn get_adjugate(matrix: &Matrix) -> (r: Result<Matrix, CustomErrors>)
    requires
        matrix.wf(),
    ensures
        match r {
            Ok(a) => {
                &&& matrix.m == matrix.n
                &&& matrix.m >= 2
                &&& a.wf()
                &&& a.m == matrix.m
                &&& a.n == matrix.n
                &&& a@ == adjugate_view(matrix@, matrix.n as int)
            },
            Err(e) => {
                if matrix.m == 1 || matrix.n == 1 {
                    e == CustomErrors::EmptyVector(crate::error::EmptyVectorError)
                } else {
                    matrix.m != matrix.n && e == CustomErrors::NotImplemented(
                        crate::error::NotImplementedError,
                    )
                }
            },
        },
{
    match get_cofactor(matrix) {
        Ok(cofactor_matrix) => {
            let a = cofactor_matrix.transpose();
            proof {
                assert(a@ =~~= adjugate_view(matrix@, matrix.n as int));
            }
            Ok(a)
        },
        Err(err) => Err(err),
    }
}

} // verus!
