//! Submatrix extraction and determinant-based cofactor computation.

use vstd::prelude::*;
use crate::error::CustomErrors;
use crate::matrix::{table_view, Matrix};
use crate::operations::{get_determinant, spec_determinant};
use crate::scalar::wmul;

verus! {

/// A row with the entry at column `cp` removed (when `cp` is in range).
pub open spec fn delete_col(row: Seq<i64>, cp: int) -> Seq<i64> {
    if 0 <= cp < row.len() {
        row.subrange(0, cp) + row.subrange(cp + 1, row.len() as int)
    } else {
        row
    }
}

/// The table with row `rp` and column `cp` removed (each only when in
/// range).
pub open spec fn minor_view(mat: Seq<Seq<i64>>, rp: int, cp: int) -> Seq<Seq<i64>> {
    let rows = if 0 <= rp < mat.len() {
        mat.subrange(0, rp) + mat.subrange(rp + 1, mat.len() as int)
    } else {
        mat
    };
    Seq::new(rows.len(), |i: int| delete_col(rows[i], cp))
}

/// The sign attached to the cofactor of cell `(i, j)`: positive when
/// `i + j` is even.
pub open spec fn cofactor_sign(i: int, j: int) -> i64 {
    if (i + j) % 2 == 0 {
        1i64
    } else {
        -1i64
    }
}

/// The cofactor table of an `n`-by-`n` table: each cell holds the signed
/// determinant of the minor at that cell.
pub open spec fn cofactor_view(mat: Seq<Seq<i64>>, m: int, n: int) -> Seq<Seq<i64>> {
    Seq::new(
        m as nat,
        |i: int|
            Seq::new(
                n as nat,
                |j: int|
                    wmul(cofactor_sign(i, j), spec_determinant(minor_view(mat, i, j), n - 1)),
            ),
    )
}

/// The submatrix with the given row and column removed; fails with
/// `EmptyVector` when no row or no column would remain.
pub fn get_minor(row_pos: usize, col_pos: usize, matrix: &Matrix) -> (r: Result<
    Matrix,
    CustomErrors,
>)
    requires
        matrix.wf(),
    ensures
        match r {
            Ok(mm) => {
                &&& mm.wf()
                &&& mm@ == minor_view(matrix@, row_pos as int, col_pos as int)
                &&& mm.m == matrix.m - (if row_pos < matrix.m {
                    1int
                } else {
                    0int
                })
                &&& mm.n == matrix.n - (if col_pos < matrix.n {
                    1int
                } else {
                    0int
                })
            },
            Err(e) => {
                &&& ((row_pos < matrix.m && matrix.m == 1) || (col_pos < matrix.n && matrix.n
                    == 1))
                &&& e == crate::matrix::rows_error(
                    minor_view(matrix@, row_pos as int, col_pos as int),
                )
            },
        },
{
    let n = matrix.n;
    let m = matrix.m;

    let mut minor_rows: Vec<Vec<i64>> = Vec::new();

    for i in 0..m
        invariant
            minor_rows@.len() == i - (if row_pos < i {
                1int
            } else {
                0int
            }),
            forall|t: int|
                0 <= t < minor_rows@.len() ==> (#[trigger] minor_rows@[t])@ == delete_col(
                    matrix@[if t < row_pos {
                        t
                    } else {
                        t + 1
                    }],
                    col_pos as int,
                ),
    {
        if i != row_pos {
            proof {
                assert(matrix@[i as int].len() == n);
            }
            let mut minor_row: Vec<i64> = Vec::new();

            for j in 0..n
                invariant
                    0 <= i < matrix@.len(),
                    matrix@[i as int].len() == n,
                    minor_row@.len() == j - (if col_pos < j {
                        1int
                    } else {
                        0int
                    }),
                    forall|l: int|
                        0 <= l < minor_row@.len() ==> minor_row@[l] == matrix@[i as int][if l
                            < col_pos {
                            l
                        } else {
                            l + 1
                        }],
            {
                if j != col_pos {
                    minor_row.push(matrix.rows[i][j]);
                }
            }
            proof {
                assert(minor_row@ =~= delete_col(matrix@[i as int], col_pos as int));
            }
            minor_rows.push(minor_row);
        }
    }

    proof {
        assert(table_view(minor_rows) =~~= minor_view(matrix@, row_pos as int, col_pos as int));
    }
    match Matrix::new(minor_rows) {
        Ok(mm) => Ok(mm),
        Err(err) => Err(err),
    }
}

/// The cofactor matrix: cell `(i, j)` holds the determinant of the minor
/// at `(i, j)`, signed by the parity of `i + j`.  Fails with
/// `EmptyVector` on a matrix with a single row or column, and with
/// `NotImplemented` on any other non-square matrix.
pub fn get_cofactor(matrix: &Matrix) -> (r: Result<Matrix, CustomErrors>)
    requires
        matrix.wf(),
    ensures
        match r {
            Ok(c) => {
                &&& matrix.m == matrix.n
                &&& matrix.m >= 2
                &&& c.wf()
                &&& c.m == matrix.m
                &&& c.n == matrix.n
                &&& c@ == cofactor_view(matrix@, matrix.m as int, matrix.n as int)
            },
            Err(e) => {
                if matrix.m == 1 || matrix.n == 1 {
                    e == CustomErrors::EmptyVector(crate::error::EmptyVectorError)
                } else {
                    matrix.m != matrix.n && e == CustomErrors::NotImplemented(
                        crate::error::NotImplementedError,
                    )
                }
            },
        },
{
    let m = matrix.m;
    let n = matrix.n;
    let mut cofactor_rows: Vec<Vec<i64>> = Vec::new();

    for i in 0..m
        invariant
            cofactor_rows@.len() == i,
            i > 0 ==> m == n && m >= 2,
            forall|k: int| 0 <= k < i ==> (#[trigger] cofactor_rows@[k])@.len() == n,
            forall|k: int, j: int|
                0 <= k < i && 0 <= j < n ==> cofactor_rows@[k]@[j] == cofactor_view(
                    matrix@,
                    m as int,
                    n as int,
                )[k][j],
    {
        let mut cofactor_row: Vec<i64> = Vec::new();
        for j in 0..n
            invariant
                0 <= i < m,
                i > 0 ==> m == n && m >= 2,
                j > 0 ==> m == n && m >= 2,
                cofactor_row@.len() == j,
                forall|l: int|
                    0 <= l < j ==> cofactor_row@[l] == cofactor_view(
                        matrix@,
                        m as int,
                        n as int,
                    )[i as int][l],
        {
            let element_minor = match get_minor(i, j, &matrix) {
                Ok(minor) => minor,
                Err(err) => {
                    return Err(err);
                },
            };
            let minor_det = match get_determinant(&element_minor) {
                Ok(det) => det,
                Err(err) => {
                    return Err(err);
                },
            };

            let sign: i64 = if i % 2 == j % 2 {
                1
            } else {
                -1
            };
            proof {
                assert(sign == cofactor_sign(i as int, j as int));
            }
            let cofactor = sign.wrapping_mul(minor_det);
            cofactor_row.push(cofactor);
        }
        cofactor_rows.push(cofactor_row);
    }

    let c = Matrix { rows: cofactor_rows, m, n };
    proof {
        if m >= 1 && n >= 1 {
            assert(c@ =~~= cofactor_view(matrix@, m as int, n as int));
        }
    }
    Ok(c)
}

} // verus!
