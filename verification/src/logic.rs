//! Shape predicates over matrices.

use vstd::prelude::*;
use crate::matrix::Matrix;

verus! {

/// Every in-band position of the three central bands is nonzero.  The
/// predicate inspects only the sub-diagonal, main diagonal and
/// super-diagonal; it says nothing about entries outside the bands.
pub open spec fn tridiagonal_bands_nonzero(mat: Seq<Seq<i64>>, m: int, n: int) -> bool {
    forall|i: int, j: int|
        0 <= i < m && 0 <= j < n && i - 1 <= j <= i + 1 ==> #[trigger] mat[i][j] != 0
}

/// Whether two matrices have the shapes that elementwise addition or
/// subtraction admits: the same number of rows and of columns.
pub fn can_add(matrix_1: &Matrix, matrix_2: &Matrix) -> (r: bool)
    ensures
        r == (matrix_1.m == matrix_2.m && matrix_1.n == matrix_2.n),
{
    if matrix_1.m != matrix_2.m {
        return false;
    }

    if matrix_1.n != matrix_2.n {
        return false;
    }

    true
}

/// Whether the column count of the first matrix matches the row count of
/// the second, as matrix multiplication requires.
pub fn can_multiply(matrix_1: &Matrix, matrix_2: &Matrix) -> (r: bool)
    ensures
        r == (matrix_1.n == matrix_2.m),
{
    if matrix_1.n != matrix_2.m {
        return false;
    }
    true
}

/// Whether the matrix has as many rows as columns.
pub fn is_square(matrix: &Matrix) -> (r: bool)
    ensures
        r == (matrix.m == matrix.n),
{
    if matrix.m != matrix.n {
        return false;
    }
    true
}

/// Whether every entry on the three central bands is nonzero.  This is a
/// necessary condition for tridiagonal form, not a sufficient one: off-band
/// entries are not inspected.
pub fn is_tridiagonal(matrix: &Matrix) -> (r: bool)
    requires
        matrix.wf(),
    ensures
        r == tridiagonal_bands_nonzero(matrix@, matrix.m as int, matrix.n as int),
{
    let m = matrix.m;
    let n = matrix.n;

    for i in 0..m
        invariant
            forall|k: int, j: int|
                0 <= k < i && 0 <= j < n && k - 1 <= j <= k + 1 ==> #[trigger] matrix@[k][j]
                    != 0,
    {
        proof {
            assert(matrix@[i as int].len() == n);
        }
        if i >= 1 && i - 1 < n {
            if matrix.rows[i][i - 1] == 0 {
                proof {
                    assert(matrix@[i as int][i - 1] == 0);
                }
                return false;
            }
        }
        if i < n {
            if matrix.rows[i][i] == 0 {
                proof {
                    assert(matrix@[i as int][i as int] == 0);
                }
                return false;
            }
        }
        if i + 1 < n {
            if matrix.rows[i][i + 1] == 0 {
                proof {
                    assert(matrix@[i as int][i + 1] == 0);
                }
                return false;
            }
        }
    }

    true
}

} // verus!
