//! The elimination solver: direct solution of a linear system given as an
//! augmented matrix, by in-place row reduction over exact rationals.
//!
//! The contract mirrors the reduction step by step: `spec_solve` performs
//! the same pivot walk over unbounded ghost state, reporting `None`
//! exactly when some intermediate fraction leaves the `i64` range.

use vstd::prelude::*;
use crate::error::{BadTypeError, CustomErrors, MismatchError};
use crate::matrix::{rat_table_view, Matrix};
use crate::rational::{rat_add, rat_div, rat_mul, rat_sub, Rat};

verus! {

/// Every rational of the sequence is well formed.
pub open spec fn rat_vec_wf(s: Seq<Rat>) -> bool {
    forall|t: int| 0 <= t < s.len() ==> (#[trigger] s[t]).wf()
}

/// A row divided elementwise by `e`, or `None` when a quotient overflows.
pub open spec fn div_row(row: Seq<Rat>, e: Rat) -> Option<Seq<Rat>> {
    if forall|t: int| 0 <= t < row.len() ==> (#[trigger] rat_div(row[t], e)) is Some {
        Some(Seq::new(row.len(), |t: int| rat_div(row[t], e)->0))
    } else {
        None
    }
}

/// Two rows added elementwise, or `None` on length mismatch or overflow.
pub open spec fn add_rows(a: Seq<Rat>, b: Seq<Rat>) -> Option<Seq<Rat>> {
    if a.len() == b.len() && (forall|t: int|
        0 <= t < a.len() ==> (#[trigger] rat_add(a[t], b[t])) is Some) {
        Some(Seq::new(a.len(), |t: int| rat_add(a[t], b[t])->0))
    } else {
        None
    }
}

/// Two rows subtracted elementwise, or `None` on length mismatch or
/// overflow.
pub open spec fn sub_rows(a: Seq<Rat>, b: Seq<Rat>) -> Option<Seq<Rat>> {
    if a.len() == b.len() && (forall|t: int|
        0 <= t < a.len() ==> (#[trigger] rat_sub(a[t], b[t])) is Some) {
        Some(Seq::new(a.len(), |t: int| rat_sub(a[t], b[t])->0))
    } else {
        None
    }
}

/// A row multiplied elementwise by `factor`, or `None` on overflow.
pub open spec fn scale_row(row: Seq<Rat>, factor: Rat) -> Option<Seq<Rat>> {
    if forall|t: int| 0 <= t < row.len() ==> (#[trigger] rat_mul(row[t], factor)) is Some {
        Some(Seq::new(row.len(), |t: int| rat_mul(row[t], factor)->0))
    } else {
        None
    }
}

/// One step of the normalization pass: if the pivot-column entry of row
/// `j` is neither zero nor one, the whole row and the matching
/// solve-row entry are divided by it.
pub open spec fn norm_step(
    rows: Seq<Seq<Rat>>,
    solve: Seq<Rat>,
    i: int,
    j: int,
) -> Option<(Seq<Seq<Rat>>, Seq<Rat>)> {
    let e = rows[j][i];
    if e.num == 0 {
        Some((rows, solve))
    } else if e.num == e.den {
        Some((rows, solve))
    } else {
        match div_row(rows[j], e) {
            None => None,
            Some(nr) => match rat_div(solve[j], e) {
                None => None,
                Some(sj) => Some((rows.update(j, nr), solve.update(j, sj))),
            },
        }
    }
}

/// The normalization pass for pivot `i`, applied to rows `j` and below.
pub open spec fn norm_phase(
    rows: Seq<Seq<Rat>>,
    solve: Seq<Rat>,
    m: int,
    i: int,
    j: int,
) -> Option<(Seq<Seq<Rat>>, Seq<Rat>)>
    decreases m - j,
{
    if j < 0 || j >= m {
        Some((rows, solve))
    } else {
        match norm_step(rows, solve, i, j) {
            None => None,
            Some(st) => norm_phase(st.0, st.1, m, i, j + 1),
        }
    }
}

/// The pivot column from row `i` down to row `m - 1`.
pub open spec fn col_of_m(rows: Seq<Seq<Rat>>, m: int, i: int) -> Seq<Rat> {
    Seq::new((m - i) as nat, |t: int| rows[t + i][i])
}

/// Every entry of the column is exactly zero.
pub open spec fn col_zero(col: Seq<Rat>) -> bool {
    forall|t: int| 0 <= t < col.len() ==> (#[trigger] col[t]).num == 0
}

/// The column is in diagonalized form for `pos`: one at `pos`, zero
/// everywhere else.
pub open spec fn col_diag(col: Seq<Rat>, pos: int) -> bool {
    forall|t: int|
        0 <= t < col.len() ==> (if t == pos {
            (#[trigger] col[t]).num == col[t].den
        } else {
            col[t].num == 0
        })
}

/// One step of the reduction pass for pivot `i`, applied to row `k`: the
/// pivot column is eliminated from row `k`, either by the additive
/// exchange (when the pivot row's entry is zero) or by scaled
/// subtraction.
pub open spec fn reduce_step(
    rows: Seq<Seq<Rat>>,
    solve: Seq<Rat>,
    i: int,
    k: int,
) -> Option<(Seq<Seq<Rat>>, Seq<Rat>)> {
    if k == i || rows[k][i].num == 0 {
        Some((rows, solve))
    } else {
        let old_row = rows[k];
        let sub = rows[i];
        if sub[i].num == 0 && old_row[i].num == 0 {
            Some((rows, solve))
        } else if sub[i].num == 0 {
            match add_rows(sub, old_row) {
                None => None,
                Some(new_sub) => match rat_add(solve[k], solve[i]) {
                    None => None,
                    Some(si) => {
                        let rows1 = rows.update(i, new_sub);
                        let solve1 = solve.update(i, si);
                        match sub_rows(old_row, new_sub) {
                            None => None,
                            Some(new_row) => match rat_sub(solve1[k], solve1[i]) {
                                None => None,
                                Some(sk) => Some(
                                    (rows1.update(k, new_row), solve1.update(k, sk)),
                                ),
                            },
                        }
                    },
                },
            }
        } else {
            match rat_div(old_row[i], sub[i]) {
                None => None,
                Some(factor) => match scale_row(sub, factor) {
                    None => None,
                    Some(scaled) => match sub_rows(old_row, scaled) {
                        None => None,
                        Some(new_row) => match rat_mul(factor, solve[i]) {
                            None => None,
                            Some(p) => match rat_sub(solve[k], p) {
                                None => None,
                                Some(sk) => Some(
                                    (rows.update(k, new_row), solve.update(k, sk)),
                                ),
                            },
                        },
                    },
                },
            }
        }
    }
}

/// The reduction pass for pivot `i`, applied to rows `k` and beyond.
pub open spec fn reduce_phase(
    rows: Seq<Seq<Rat>>,
    solve: Seq<Rat>,
    m: int,
    i: int,
    k: int,
) -> Option<(Seq<Seq<Rat>>, Seq<Rat>)>
    decreases m - k,
{
    if k < 0 || k >= m {
        Some((rows, solve))
    } else {
        match reduce_step(rows, solve, i, k) {
            None => None,
            Some(st) => reduce_phase(st.0, st.1, m, i, k + 1),
        }
    }
}

/// The elimination walk from pivot `i` on, with `counter` pivots placed
/// so far: normalize the pivot column, skip it entirely when it is all
/// zero, reduce it when it is not yet in diagonalized position, and
/// count it as placed.
pub open spec fn elim(
    rows: Seq<Seq<Rat>>,
    solve: Seq<Rat>,
    m: int,
    i: int,
    counter: int,
) -> Option<(Seq<Seq<Rat>>, Seq<Rat>)>
    decreases m - i,
{
    if i < 0 || i >= m {
        Some((rows, solve))
    } else {
        match norm_phase(rows, solve, m, i, i) {
            None => None,
            Some(st) => {
                let col = col_of_m(st.0, m, i);
                if col_zero(col) {
                    elim(st.0, st.1, m, i + 1, counter)
                } else if col_diag(col, counter) {
                    elim(st.0, st.1, m, i + 1, counter + 1)
                } else {
                    match reduce_phase(st.0, st.1, m, i, 0) {
                        None => None,
                        Some(st2) => elim(st2.0, st2.1, m, i + 1, counter + 1),
                    }
                }
            },
        }
    }
}

/// The initial working rows of the solver: the coefficient block of the
/// augmented table, as exact rationals.
pub open spec fn init_rows(mat: Seq<Seq<i64>>, m: int) -> Seq<Seq<Rat>> {
    Seq::new(m as nat, |r: int| Seq::new(m as nat, |c: int| Rat { num: mat[r][c], den: 1i64 }))
}

/// The initial solve row: the last column of the augmented table.
pub open spec fn init_solve(mat: Seq<Seq<i64>>, m: int, n: int) -> Seq<Rat> {
    Seq::new(m as nat, |r: int| Rat { num: mat[r][n - 1], den: 1i64 })
}

/// The outcome of the whole elimination on an augmented table, or `None`
/// when some intermediate fraction overflows.
pub open spec fn spec_solve(mat: Seq<Seq<i64>>, m: int, n: int) -> Option<Seq<Rat>> {
    match elim(init_rows(mat, m), init_solve(mat, m, n), m, 0, 0) {
        None => None,
        Some(st) => Some(st.1),
    }
}

/// The working state of one solve call is well formed: square shape and
/// well-formed rationals throughout.
pub open spec fn solver_state_wf(rows: Seq<Seq<Rat>>, solve: Seq<Rat>, m: int) -> bool {
    &&& rows.len() == m
    &&& solve.len() == m
    &&& rat_vec_wf(solve)
    &&& forall|r: int|
        0 <= r < m ==> (#[trigger] rows[r]).len() == m && rat_vec_wf(rows[r])
}

fn copy_rat_row(v: &Vec<Rat>) -> (r: Vec<Rat>)
    ensures
        r@ == v@,
{
    let mut r: Vec<Rat> = Vec::new();
    let len = v.len();
    for t in 0..len
        invariant
            r@.len() == t,
            forall|k: int| 0 <= k < t ==> r@[k] == v@[k],
    {
        r.push(v[t]);
    }
    proof {
        assert(r@ =~= v@);
    }
    r
}

fn rat_row_div(row: &Vec<Rat>, e: Rat) -> (r: Option<Vec<Rat>>)
    requires
        rat_vec_wf(row@),
        e.wf(),
        e.num != 0,
    ensures
        match r {
            Some(v) => div_row(row@, e) == Some(v@) && v@.len() == row@.len() && rat_vec_wf(v@),
            None => div_row(row@, e) is None,
        },
{
    let mut out: Vec<Rat> = Vec::new();
    let len = row.len();
    for t in 0..len
        invariant
            out@.len() == t,
            forall|k: int|
                0 <= k < t ==> (#[trigger] rat_div(row@[k], e)) is Some && out@[k] == rat_div(
                    row@[k],
                    e,
                )->0,
            rat_vec_wf(out@),
    {
        match row[t].checked_div(e) {
            Some(x) => {
                out.push(x);
            },
            None => {
                return None;
            },
        }
    }
    proof {
        assert(out@ =~= Seq::new(row@.len(), |t: int| rat_div(row@[t], e)->0));
    }
    Some(out)
}

fn rat_row_add(a: &Vec<Rat>, b: &Vec<Rat>) -> (r: Option<Vec<Rat>>)
    requires
        rat_vec_wf(a@),
        rat_vec_wf(b@),
        a@.len() == b@.len(),
    ensures
        match r {
            Some(v) => add_rows(a@, b@) == Some(v@) && v@.len() == a@.len() && rat_vec_wf(v@),
            None => add_rows(a@, b@) is None,
        },
{
    let mut out: Vec<Rat> = Vec::new();
    let len = a.len();
    for t in 0..len
        invariant
            out@.len() == t,
            forall|k: int|
                0 <= k < t ==> (#[trigger] rat_add(a@[k], b@[k])) is Some && out@[k] == rat_add(
                    a@[k],
                    b@[k],
                )->0,
            rat_vec_wf(out@),
    {
        match a[t].checked_add(b[t]) {
            Some(x) => {
                out.push(x);
            },
            None => {
                return None;
            },
        }
    }
    proof {
        assert(out@ =~= Seq::new(a@.len(), |t: int| rat_add(a@[t], b@[t])->0));
    }
    Some(out)
}

fn rat_row_sub(a: &Vec<Rat>, b: &Vec<Rat>) -> (r: Option<Vec<Rat>>)
    requires
        rat_vec_wf(a@),
        rat_vec_wf(b@),
        a@.len() == b@.len(),
    ensures
        match r {
            Some(v) => sub_rows(a@, b@) == Some(v@) && v@.len() == a@.len() && rat_vec_wf(v@),
            None => sub_rows(a@, b@) is None,
        },
{
    let mut out: Vec<Rat> = Vec::new();
    let len = a.len();
    for t in 0..len
        invariant
            out@.len() == t,
            forall|k: int|
                0 <= k < t ==> (#[trigger] rat_sub(a@[k], b@[k])) is Some && out@[k] == rat_sub(
                    a@[k],
                    b@[k],
                )->0,
            rat_vec_wf(out@),
    {
        match a[t].checked_sub(b[t]) {
            Some(x) => {
                out.push(x);
            },
            None => {
                return None;
            },
        }
    }
    proof {
        assert(out@ =~= Seq::new(a@.len(), |t: int| rat_sub(a@[t], b@[t])->0));
    }
    Some(out)
}

fn rat_row_scale(row: &Vec<Rat>, factor: Rat) -> (r: Option<Vec<Rat>>)
    requires
        rat_vec_wf(row@),
        factor.wf(),
    ensures
        match r {
            Some(v) => scale_row(row@, factor) == Some(v@) && v@.len() == row@.len()
                && rat_vec_wf(v@),
            None => scale_row(row@, factor) is None,
        },
{
    let mut out: Vec<Rat> = Vec::new();
    let len = row.len();
    for t in 0..len
        invariant
            out@.len() == t,
            forall|k: int|
                0 <= k < t ==> (#[trigger] rat_mul(row@[k], factor)) is Some && out@[k]
                    == rat_mul(row@[k], factor)->0,
            rat_vec_wf(out@),
    {
        match row[t].checked_mul(factor) {
            Some(x) => {
                out.push(x);
            },
            None => {
                return None;
            },
        }
    }
    proof {
        assert(out@ =~= Seq::new(row@.len(), |t: int| rat_mul(row@[t], factor)->0));
    }
    Some(out)
}

fn rat_col_zero(col: &Vec<Rat>) -> (r: bool)
    ensures
        r == col_zero(col@),
{
    let len = col.len();
    for t in 0..len
        invariant
            forall|k: int| 0 <= k < t ==> (#[trigger] col@[k]).num == 0,
    {
        if col[t].num != 0 {
            return false;
        }
    }
    true
}

fn rat_col_diag(col: &Vec<Rat>, pos: usize) -> (r: bool)
    ensures
        r == col_diag(col@, pos as int),
{
    let len = col.len();
    for t in 0..len
        invariant
            forall|k: int|
                0 <= k < t ==> (if k == pos {
                    (#[trigger] col@[k]).num == col@[k].den
                } else {
                    col@[k].num == 0
                }),
    {
        if t == pos {
            if col[t].num != col[t].den {
                return false;
            }
        } else {
            if col[t].num != 0 {
                return false;
            }
        }
    }
    true
}

/// Runs the normalization pass for pivot `i` and returns the pivot
/// column, or `None` when a quotient overflowed.
fn normalize_pivot(rows: &mut Vec<Vec<Rat>>, solve: &mut Vec<Rat>, i: usize, m: usize) -> (r:
    Option<Vec<Rat>>)
    requires
        solver_state_wf(rat_table_view(*old(rows)), old(solve)@, m as int),
        i < m,
    ensures
        match norm_phase(
            rat_table_view(*old(rows)),
            old(solve)@,
            m as int,
            i as int,
            i as int,
        ) {
            Some(st) => {
                &&& r is Some
                &&& rat_table_view(*final(rows)) == st.0
                &&& final(solve)@ == st.1
                &&& (r->0)@ == col_of_m(st.0, m as int, i as int)
                &&& solver_state_wf(st.0, st.1, m as int)
            },
            None => r is None,
        },
{
    for j in i..m
        invariant
            i < m,
            solver_state_wf(rat_table_view(*rows), solve@, m as int),
            norm_phase(
                rat_table_view(*old(rows)),
                old(solve)@,
                m as int,
                i as int,
                i as int,
            ) == norm_phase(rat_table_view(*rows), solve@, m as int, i as int, j as int),
    {
        let ghost pre_rows = rat_table_view(*rows);
        let ghost pre_solve = solve@;
        let e = rows[j][i];
        if e.num != 0 && e.num != e.den {
            let nr = match rat_row_div(&rows[j], e) {
                Some(nr) => nr,
                None => {
                    return None;
                },
            };
            let sj = match solve[j].checked_div(e) {
                Some(sj) => sj,
                None => {
                    return None;
                },
            };
            rows[j] = nr;
            solve[j] = sj;
            proof {
                assert(rat_table_view(*rows) =~~= pre_rows.update(j as int, nr@));
                assert(solve@ =~= pre_solve.update(j as int, sj));
            }
        }
        proof {
            assert(norm_phase(pre_rows, pre_solve, m as int, i as int, j as int)
                == norm_phase(
                rat_table_view(*rows),
                solve@,
                m as int,
                i as int,
                j + 1,
            ));
        }
    }

    let mut col: Vec<Rat> = Vec::new();
    for j in i..m
        invariant
            i < m,
            solver_state_wf(rat_table_view(*rows), solve@, m as int),
            col@.len() == j - i,
            forall|t: int|
                0 <= t < col@.len() ==> col@[t] == rat_table_view(*rows)[t + i][i as int],
    {
        proof {
            assert(rat_table_view(*rows)[j as int] == rows@[j as int]@);
        }
        col.push(rows[j][i]);
    }
    proof {
        assert(col@ =~= col_of_m(rat_table_view(*rows), m as int, i as int));
    }
    Some(col)
}

/// Runs the reduction pass for pivot `i` over every other row; reports
/// `false` when an intermediate fraction overflowed.
fn reduce_pivot(rows: &mut Vec<Vec<Rat>>, solve: &mut Vec<Rat>, i: usize, m: usize) -> (ok: bool)
    requires
        solver_state_wf(rat_table_view(*old(rows)), old(solve)@, m as int),
        i < m,
    ensures
        match reduce_phase(
            rat_table_view(*old(rows)),
            old(solve)@,
            m as int,
            i as int,
            0,
        ) {
            Some(st) => {
                &&& ok
                &&& rat_table_view(*final(rows)) == st.0
                &&& final(solve)@ == st.1
                &&& solver_state_wf(st.0, st.1, m as int)
            },
            None => !ok,
        },
{
    for k in 0..m
        invariant
            i < m,
            solver_state_wf(rat_table_view(*rows), solve@, m as int),
            reduce_phase(rat_table_view(*old(rows)), old(solve)@, m as int, i as int, 0)
                == reduce_phase(rat_table_view(*rows), solve@, m as int, i as int, k as int),
    {
        let ghost pre_rows = rat_table_view(*rows);
        let ghost pre_solve = solve@;
        if k != i && rows[k][i].num != 0 {
            let old_row = copy_rat_row(&rows[k]);
            if rows[i][i].num == 0 && old_row[i].num == 0 {
                // nothing to eliminate from this row
            } else if rows[i][i].num == 0 {
                let new_sub = match rat_row_add(&rows[i], &old_row) {
                    Some(v) => v,
                    None => {
                        return false;
                    },
                };
                let si = match solve[k].checked_add(solve[i]) {
                    Some(v) => v,
                    None => {
                        return false;
                    },
                };
                rows[i] = new_sub;
                solve[i] = si;
                proof {
                    assert(rat_table_view(*rows) =~~= pre_rows.update(
                        i as int,
                        add_rows(pre_rows[i as int], pre_rows[k as int])->0,
                    ));
                    assert(solve@ =~= pre_solve.update(
                        i as int,
                        rat_add(pre_solve[k as int], pre_solve[i as int])->0,
                    ));
                }
                let new_row = match rat_row_sub(&old_row, &rows[i]) {
                    Some(v) => v,
                    None => {
                        return false;
                    },
                };
                let sk = match solve[k].checked_sub(solve[i]) {
                    Some(v) => v,
                    None => {
                        return false;
                    },
                };
                rows[k] = new_row;
                solve[k] = sk;
                proof {
                    assert(rat_table_view(*rows) =~~= pre_rows.update(
                        i as int,
                        add_rows(pre_rows[i as int], pre_rows[k as int])->0,
                    ).update(k as int, new_row@));
                    assert(solve@ =~= pre_solve.update(
                        i as int,
                        rat_add(pre_solve[k as int], pre_solve[i as int])->0,
                    ).update(k as int, sk));
                }
            } else {
                let factor = match old_row[i].checked_div(rows[i][i]) {
                    Some(v) => v,
                    None => {
                        return false;
                    },
                };
                let scaled = match rat_row_scale(&rows[i], factor) {
                    Some(v) => v,
                    None => {
                        return false;
                    },
                };
                let new_row = match rat_row_sub(&old_row, &scaled) {
                    Some(v) => v,
                    None => {
                        return false;
                    },
                };
                let p = match factor.checked_mul(solve[i]) {
                    Some(v) => v,
                    None => {
                        return false;
                    },
                };
                let sk = match solve[k].checked_sub(p) {
                    Some(v) => v,
                    None => {
                        return false;
                    },
                };
                rows[k] = new_row;
                solve[k] = sk;
                proof {
                    assert(rat_table_view(*rows) =~~= pre_rows.update(k as int, new_row@));
                    assert(solve@ =~= pre_solve.update(k as int, sk));
                }
            }
        }
        proof {
            assert(reduce_phase(pre_rows, pre_solve, m as int, i as int, k as int)
                == reduce_phase(rat_table_view(*rows), solve@, m as int, i as int, k + 1));
        }
    }
    true
}

/// Solves the linear system given by an augmented matrix whose last
/// column is the right-hand side, by in-place row reduction over exact
/// rationals.  Fails with `Mismatch` unless the column count is one more
/// than the row count, and with `BadType` when an intermediate fraction
/// leaves the representable range.
pub fn solve_system(coeff_matrix: Matrix) -> (r: Result<Vec<Rat>, CustomErrors>)
    requires
        coeff_matrix.wf(),
    ensures
        match r {
            Ok(v) => {
                &&& coeff_matrix.n == coeff_matrix.m + 1
                &&& spec_solve(
                    coeff_matrix@,
                    coeff_matrix.m as int,
                    coeff_matrix.n as int,
                ) == Some(v@)
                &&& v@.len() == coeff_matrix.m
                &&& rat_vec_wf(v@)
            },
            Err(e) => {
                if coeff_matrix.n != coeff_matrix.m + 1 {
                    e == CustomErrors::Mismatch(MismatchError)
                } else {
                    spec_solve(coeff_matrix@, coeff_matrix.m as int, coeff_matrix.n as int)
                        is None && e == CustomErrors::BadType(BadTypeError)
                }
            },
        },
{
    let m = coeff_matrix.m;
    let n = coeff_matrix.n;

    if m != n - 1 {
        return Err(CustomErrors::Mismatch(MismatchError));
    }

    // unpack the augmented matrix into the coefficient block and the
    // right-hand-side column
    let mut var_coefficient_rows: Vec<Vec<Rat>> = Vec::new();
    let mut solve_row: Vec<Rat> = Vec::new();

    for i in 0..m
        invariant
            m == n - 1,
            var_coefficient_rows@.len() == i,
            solve_row@.len() == i,
            forall|k: int|
                0 <= k < i ==> (#[trigger] var_coefficient_rows@[k])@ == init_rows(
                    coeff_matrix@,
                    m as int,
                )[k],
            forall|k: int|
                0 <= k < i ==> solve_row@[k] == init_solve(coeff_matrix@, m as int, n as int)[k],
    {
        proof {
            assert(coeff_matrix@[i as int].len() == n);
        }
        let mut var_coeff_row: Vec<Rat> = Vec::new();

        for j in 0..m
            invariant
                0 <= i < coeff_matrix@.len(),
                m == n - 1,
                coeff_matrix@[i as int].len() == n,
                var_coeff_row@.len() == j,
                forall|l: int|
                    0 <= l < j ==> var_coeff_row@[l] == (Rat {
                        num: coeff_matrix@[i as int][l],
                        den: 1i64,
                    }),
        {
            var_coeff_row.push(Rat { num: coeff_matrix.rows[i][j], den: 1 });
        }
        proof {
            assert(var_coeff_row@ =~= init_rows(coeff_matrix@, m as int)[i as int]);
        }
        var_coefficient_rows.push(var_coeff_row);
        solve_row.push(Rat { num: coeff_matrix.rows[i][n - 1], den: 1 });
    }

    let ghost rows0 = rat_table_view(var_coefficient_rows);
    let ghost solve0 = solve_row@;
    proof {
        assert(rows0 =~~= init_rows(coeff_matrix@, m as int));
        assert(solve0 =~= init_solve(coeff_matrix@, m as int, n as int));
    }

    // counts valid positions of one in diagonalized columns
    let mut counter: usize = 0;

    for i in 0..m
        invariant
            m == n - 1,
            counter <= i,
            solver_state_wf(rat_table_view(var_coefficient_rows), solve_row@, m as int),
            elim(rows0, solve0, m as int, 0, 0) == elim(
                rat_table_view(var_coefficient_rows),
                solve_row@,
                m as int,
                i as int,
                counter as int,
            ),
    {
        let col = match normalize_pivot(&mut var_coefficient_rows, &mut solve_row, i, m) {
            Some(col) => col,
            None => {
                return Err(CustomErrors::BadType(BadTypeError));
            },
        };

        if rat_col_zero(&col) {
            // rank-deficient column: skip without counting a pivot
        } else if rat_col_diag(&col, counter) {
            counter = counter + 1;
        } else {
            if !reduce_pivot(&mut var_coefficient_rows, &mut solve_row, i, m) {
                return Err(CustomErrors::BadType(BadTypeError));
            }
            counter = counter + 1;
        }
    }

    Ok(solve_row)
}

} // verus!
