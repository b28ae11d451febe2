//! The rectangular matrix container and its structural operations.

use vstd::prelude::*;
use crate::error::{CustomErrors, EmptyVectorError, NonUniformError};
use crate::rational::Rat;
use crate::scalar::wadd;

verus! {

/// The mathematical contents of a row table: the sequence of its rows,
/// each a sequence of scalars.
pub open spec fn table_view(rows: Vec<Vec<i64>>) -> Seq<Seq<i64>> {
    Seq::new(rows@.len(), |i: int| rows@[i]@)
}

/// A dense matrix of scalars: `m` rows of `n` columns each, with
/// `m >= 1` and `n >= 1`.  Instances built through [`Matrix::new`]
/// always satisfy [`Matrix::wf`].
#[derive(Debug, Clone)]
pub struct Matrix {
    pub rows: Vec<Vec<i64>>,
    pub m: usize,
    pub n: usize,
}

impl View for Matrix {
    type V = Seq<Seq<i64>>;

    open spec fn view(&self) -> Seq<Seq<i64>> {
        table_view(self.rows)
    }
}

/// A row table is acceptable to the constructor: at least one row, at
/// least one column, and every row of the same length as the first.
pub open spec fn rows_ok(rv: Seq<Seq<i64>>) -> bool {
    &&& rv.len() > 0
    &&& rv[0].len() > 0
    &&& forall|i: int| 0 <= i < rv.len() ==> (#[trigger] rv[i]).len() == rv[0].len()
}

/// The error kind the constructor reports for an unacceptable row table.
pub open spec fn rows_error(rv: Seq<Seq<i64>>) -> CustomErrors {
    if rv.len() == 0 || rv[0].len() == 0 {
        CustomErrors::EmptyVector(EmptyVectorError)
    } else {
        CustomErrors::NonUniform(NonUniformError)
    }
}

/// The wrapped sum of the first `k` diagonal entries of a matrix.
pub open spec fn diag_wsum(mat: Seq<Seq<i64>>, k: int) -> i64
    decreases k,
{
    if k <= 0 {
        0i64
    } else {
        wadd(diag_wsum(mat, k - 1), mat[k - 1][k - 1])
    }
}

impl Matrix {
    /// Shape invariant: the dimension fields agree with the row data.
    pub open spec fn wf(&self) -> bool {
        &&& self.m == self@.len()
        &&& self.m >= 1
        &&& self.n >= 1
        &&& forall|i: int| 0 <= i < self@.len() ==> (#[trigger] self@[i]).len() == self.n
    }

    /// Validates a row table and wraps it as a matrix.  Fails with
    /// `EmptyVector` when there are no rows or the first row is empty,
    /// and with `NonUniform` when the rows differ in length.
    pub fn new(rows: Vec<Vec<i64>>) -> (r: Result<Matrix, CustomErrors>)
        ensures
            match r {
                Ok(mat) => {
                    &&& rows_ok(table_view(rows))
                    &&& mat.wf()
                    &&& mat@ == table_view(rows)
                    &&& mat.m == table_view(rows).len()
                    &&& mat.n == table_view(rows)[0].len()
                },
                Err(e) => !rows_ok(table_view(rows)) && e == rows_error(table_view(rows)),
            },
    {
        let m = rows.len();

        if m == 0 {
            return Err(CustomErrors::EmptyVector(EmptyVectorError));
        }

        let n = rows[0].len();

        if n == 0 {
            return Err(CustomErrors::EmptyVector(EmptyVectorError));
        }

        for i in 1..m
            invariant
                forall|k: int| 0 <= k < i ==> (#[trigger] table_view(rows)[k]).len() == n,
        {
            if rows[i].len() != n {
                proof {
                    assert(table_view(rows)[i as int].len() != table_view(rows)[0].len());
                }
                return Err(CustomErrors::NonUniform(NonUniformError));
            }
        }
        Ok(Matrix { rows, m, n })
    }

    /// The wrapped sum of the main diagonal, over `min(m, n)` positions.
    /// A square matrix is expected for the result to be meaningful; a
    /// non-square matrix silently sums the shorter diagonal prefix.
    pub fn trace(&self) -> (r: i64)
        requires
            self.wf(),
        ensures
            r == diag_wsum(self@, if self.m <= self.n { self.m as int } else { self.n as int }),
    {
        let lim = if self.m <= self.n { self.m } else { self.n };
        let mut acc: i64 = 0;
        for i in 0..lim
            invariant
                acc == diag_wsum(self@, i as int),
        {
            proof {
                assert(self@[i as int].len() == self.n);
            }
            acc = acc.wrapping_add(self.rows[i][i]);
        }
        acc
    }

    /// The transpose: rows and columns swapped.
    pub fn transpose(&self) -> (r: Matrix)
        requires
            self.wf(),
        ensures
            r.wf(),
            r.m == self.n,
            r.n == self.m,
            forall|j: int, i: int|
                0 <= j < self.n && 0 <= i < self.m ==> r@[j][i] == self@[i][j],
    {
        let mut new_matrix: Vec<Vec<i64>> = Vec::new();
        let loop1: usize = self.m;
        let loop2: usize = self.n;

        for j in 0..loop2
            invariant
                new_matrix@.len() == j,
                forall|k: int| 0 <= k < j ==> (#[trigger] new_matrix@[k])@.len() == loop1,
                forall|k: int, i: int|
                    0 <= k < j && 0 <= i < loop1 ==> new_matrix@[k]@[i] == self@[i][k],
        {
            let mut transposed_row: Vec<i64> = Vec::new();
            for i in 0..loop1
                invariant
                    transposed_row@.len() == i,
                    forall|l: int| 0 <= l < i ==> transposed_row@[l] == self@[l][j as int],
            {
                proof {
                    assert(self@[i as int].len() == self.n);
                }
                transposed_row.push(self.rows[i][j]);
            }
            new_matrix.push(transposed_row);
        }
        Matrix { rows: new_matrix, m: self.n, n: self.m }
    }
}

impl PartialEq for Matrix {
    /// Two matrices are equal when their dimension fields and all their
    /// entries coincide.
    fn eq(&self, other: &Matrix) -> (r: bool) {
        if self.m != other.m || self.n != other.n {
            return false;
        }
        if self.rows.len() != other.rows.len() {
            proof {
                assert(self@.len() != other@.len());
            }
            return false;
        }
        let rcount = self.rows.len();
        for i in 0..rcount
            invariant
                self.rows@.len() == other.rows@.len(),
                forall|k: int| 0 <= k < i ==> self@[k] == other@[k],
        {
            if self.rows[i].len() != other.rows[i].len() {
                proof {
                    assert(self@[i as int].len() != other@[i as int].len());
                }
                return false;
            }
            let ccount = self.rows[i].len();
            for j in 0..ccount
                invariant
                    0 <= i < self.rows@.len(),
                    self.rows@.len() == other.rows@.len(),
                    self.rows@[i as int]@.len() == other.rows@[i as int]@.len(),
                    forall|l: int| 0 <= l < j ==> self@[i as int][l] == other@[i as int][l],
            {
                if self.rows[i][j] != other.rows[i][j] {
                    proof {
                        assert(self@[i as int][j as int] != other@[i as int][j as int]);
                    }
                    return false;
                }
            }
            proof {
                assert(self@[i as int] =~= other@[i as int]);
            }
        }
        proof {
            assert(self@ =~~= other@);
        }
        true
    }
}

impl vstd::std_specs::cmp::PartialEqSpecImpl for Matrix {
    open spec fn obeys_eq_spec() -> bool {
        true
    }

    open spec fn eq_spec(&self, other: &Matrix) -> bool {
        self.m == other.m && self.n == other.n && self@ == other@
    }
}


/// The mathematical contents of a table of rational rows.
pub open spec fn rat_table_view(rows: Vec<Vec<Rat>>) -> Seq<Seq<Rat>> {
    Seq::new(rows@.len(), |i: int| rows@[i]@)
}

/// A dense matrix of exact rationals, produced by the operations that
/// divide (scalar division, the Cramer inverse).
#[derive(Debug, Clone)]
pub struct RatMatrix {
    pub rows: Vec<Vec<Rat>>,
    pub m: usize,
    pub n: usize,
}

impl View for RatMatrix {
    type V = Seq<Seq<Rat>>;

    open spec fn view(&self) -> Seq<Seq<Rat>> {
        rat_table_view(self.rows)
    }
}

impl RatMatrix {
    /// Shape invariant, plus well-formedness of every rational entry.
    pub open spec fn wf(&self) -> bool {
        &&& self.m == self@.len()
        &&& self.m >= 1
        &&& self.n >= 1
        &&& forall|i: int| 0 <= i < self@.len() ==> (#[trigger] self@[i]).len() == self.n
        &&& forall|i: int, j: int|
            0 <= i < self@.len() && 0 <= j < self.n ==> (#[trigger] self@[i][j]).wf()
    }
}

} // verus!
