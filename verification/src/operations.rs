//! Matrix arithmetic and the permutation-expansion determinant.

use vstd::prelude::*;
use crate::error::{BadTypeError, CustomErrors, MismatchError, NotImplementedError};
use crate::logic::{can_add, can_multiply, is_square};
use crate::matrix::{Matrix, RatMatrix};
use crate::rational::Rat;
use crate::scalar::{wadd, wmul, wrap_i64, wsub};
use crate::util;
use crate::vector::{add_vec, sub_vec, wdot};

verus! {

/// The wrapped dot product of row `i` of `m1` with column `j` of `m2`,
/// over the first `k` terms.
pub open spec fn mm_dot(m1: Seq<Seq<i64>>, m2: Seq<Seq<i64>>, i: int, j: int, k: int) -> i64
    decreases k,
{
    if k <= 0 {
        0i64
    } else {
        wadd(mm_dot(m1, m2, i, j, k - 1), wmul(m1[i][k - 1], m2[k - 1][j]))
    }
}

/// The wrapped product of one entry per row, the columns chosen by the
/// permutation `p`, over the first `i` rows.
pub open spec fn perm_prod(rows: Seq<Seq<i64>>, p: Seq<usize>, i: int) -> i64
    decreases i,
{
    if i <= 0 {
        1i64
    } else {
        wmul(perm_prod(rows, p, i - 1), rows[i - 1][p[i - 1] as int])
    }
}

/// The sign of a permutation as a scalar: `+1` for an even number of
/// inversions, `-1` for an odd one.
pub open spec fn sign_val(p: Seq<usize>) -> i64 {
    if util::inversions(p) % 2 == 0 {
        1i64
    } else {
        -1i64
    }
}

/// The wrapped signed sum of the permutation terms for the first `k`
/// permutations of the table `perms`.
pub open spec fn det_sum(rows: Seq<Seq<i64>>, perms: Seq<Seq<usize>>, k: int, n: int) -> i64
    decreases k,
{
    if k <= 0 {
        0i64
    } else {
        wadd(
            det_sum(rows, perms, k - 1, n),
            wmul(sign_val(perms[k - 1]), perm_prod(rows, perms[k - 1], n)),
        )
    }
}

/// The determinant of an `n`-by-`n` table by the Leibniz expansion: the
/// signed sum, over all permutations in the generator's order, of the
/// products of one entry per row.
pub open spec fn spec_determinant(rows: Seq<Seq<i64>>, n: int) -> i64 {
    let perms = util::heap_go(util::iota(n as nat), n as nat).0;
    det_sum(rows, perms, perms.len() as int, n)
}

/// Elementwise sum of two matrices of the same shape.
pub fn add_matrices(matrix_1: Matrix, matrix_2: Matrix) -> (r: Result<Matrix, CustomErrors>)
    requires
        matrix_1.wf(),
        matrix_2.wf(),
    ensures
        match r {
            Ok(mm) => {
                &&& matrix_1.m == matrix_2.m && matrix_1.n == matrix_2.n
                &&& mm.wf()
                &&& mm.m == matrix_1.m
                &&& mm.n == matrix_1.n
                &&& forall|i: int, j: int|
                    0 <= i < mm.m && 0 <= j < mm.n ==> mm@[i][j] == wadd(
                        matrix_1@[i][j],
                        matrix_2@[i][j],
                    )
            },
            Err(e) => {
                &&& !(matrix_1.m == matrix_2.m && matrix_1.n == matrix_2.n)
                &&& e == CustomErrors::Mismatch(MismatchError)
            },
        },
{
    if !can_add(&matrix_1, &matrix_2) {
        return Err(CustomErrors::Mismatch(MismatchError));
    }

    let mut new_matrix_rows: Vec<Vec<i64>> = Vec::new();
    let mcount = matrix_1.m;
    for i in 0..mcount
        invariant
            new_matrix_rows@.len() == i,
            forall|k: int| 0 <= k < i ==> (#[trigger] new_matrix_rows@[k])@.len() == matrix_1.n,
            forall|k: int, j: int|
                0 <= k < i && 0 <= j < matrix_1.n ==> new_matrix_rows@[k]@[j] == wadd(
                    matrix_1@[k][j],
                    matrix_2@[k][j],
                ),
    {
        proof {
            assert(matrix_1@[i as int].len() == matrix_1.n);
            assert(matrix_2@[i as int].len() == matrix_2.n);
        }
        let new_row = match add_vec(&matrix_1.rows[i], &matrix_2.rows[i]) {
            Ok(vec) => vec,
            Err(e) => {
                return Err(e);
            },
        };
        new_matrix_rows.push(new_row);
    }
    Ok(Matrix { rows: new_matrix_rows, m: matrix_1.m, n: matrix_1.n })
}

/// Elementwise difference of two matrices of the same shape.
pub fn sub_matrices(matrix_1: Matrix, matrix_2: Matrix) -> (r: Result<Matrix, CustomErrors>)
    requires
        matrix_1.wf(),
        matrix_2.wf(),
    ensures
        match r {
            Ok(mm) => {
                &&& matrix_1.m == matrix_2.m && matrix_1.n == matrix_2.n
                &&& mm.wf()
                &&& mm.m == matrix_1.m
                &&& mm.n == matrix_1.n
                &&& forall|i: int, j: int|
                    0 <= i < mm.m && 0 <= j < mm.n ==> mm@[i][j] == wsub(
                        matrix_1@[i][j],
                        matrix_2@[i][j],
                    )
            },
            Err(e) => {
                &&& !(matrix_1.m == matrix_2.m && matrix_1.n == matrix_2.n)
                &&& e == CustomErrors::Mismatch(MismatchError)
            },
        },
{
    if !can_add(&matrix_1, &matrix_2) {
        return Err(CustomErrors::Mismatch(MismatchError));
    }

    let mut new_matrix_rows: Vec<Vec<i64>> = Vec::new();
    let mcount = matrix_1.m;
    for i in 0..mcount
        invariant
            new_matrix_rows@.len() == i,
            forall|k: int| 0 <= k < i ==> (#[trigger] new_matrix_rows@[k])@.len() == matrix_1.n,
            forall|k: int, j: int|
                0 <= k < i && 0 <= j < matrix_1.n ==> new_matrix_rows@[k]@[j] == wsub(
                    matrix_1@[k][j],
                    matrix_2@[k][j],
                ),
    {
        proof {
            assert(matrix_1@[i as int].len() == matrix_1.n);
            assert(matrix_2@[i as int].len() == matrix_2.n);
        }
        let new_row = match sub_vec(&matrix_1.rows[i], &matrix_2.rows[i]) {
            Ok(vec) => vec,
            Err(e) => {
                return Err(e);
            },
        };
        new_matrix_rows.push(new_row);
    }
    Ok(Matrix { rows: new_matrix_rows, m: matrix_1.m, n: matrix_1.n })
}

/// Multiplies every entry of a matrix by a scalar.
pub fn scalar_multiply(matrix: &Matrix, scalar: i64) -> (r: Result<Matrix, CustomErrors>)
    requires
        matrix.wf(),
    ensures
        match r {
            Ok(mm) => {
                &&& mm.wf()
                &&& mm.m == matrix.m
                &&& mm.n == matrix.n
                &&& forall|i: int, j: int|
                    0 <= i < mm.m && 0 <= j < mm.n ==> mm@[i][j] == wmul(matrix@[i][j], scalar)
            },
            Err(_) => false,
        },
{
    let m = matrix.m;
    let n = matrix.n;

    let mut new_rows: Vec<Vec<i64>> = Vec::new();

    for i in 0..m
        invariant
            new_rows@.len() == i,
            forall|k: int| 0 <= k < i ==> (#[trigger] new_rows@[k])@.len() == n,
            forall|k: int, j: int|
                0 <= k < i && 0 <= j < n ==> new_rows@[k]@[j] == wmul(matrix@[k][j], scalar),
    {
        proof {
            assert(matrix@[i as int].len() == n);
        }
        let mut new_row: Vec<i64> = Vec::new();
        for j in 0..n
            invariant
                0 <= i < matrix@.len(),
                new_row@.len() == j,
                forall|l: int| 0 <= l < j ==> new_row@[l] == wmul(matrix@[i as int][l], scalar),
        {
            let new_val = matrix.rows[i][j].wrapping_mul(scalar);
            new_row.push(new_val);
        }
        new_rows.push(new_row);
    }

    match Matrix::new(new_rows) {
        Ok(mm) => Ok(mm),
        Err(err) => Err(err),
    }
}

/// Divides every entry of a matrix by a nonzero scalar, producing exact
/// rationals.
pub fn scalar_divide(matrix: &Matrix, scalar: i64) -> (r: Result<RatMatrix, CustomErrors>)
    requires
        matrix.wf(),
    ensures
        match r {
            Ok(rm) => {
                &&& scalar != 0
                &&& rm.wf()
                &&& rm.m == matrix.m
                &&& rm.n == matrix.n
                &&& forall|i: int, j: int|
                    0 <= i < rm.m && 0 <= j < rm.n ==> rm@[i][j] == (Rat {
                        num: matrix@[i][j],
                        den: scalar,
                    })
            },
            Err(e) => scalar == 0 && e == CustomErrors::BadType(BadTypeError),
        },
{
    if scalar == 0 {
        return Err(CustomErrors::BadType(BadTypeError));
    }

    let m = matrix.m;
    let n = matrix.n;

    let mut new_rows: Vec<Vec<Rat>> = Vec::new();

    for i in 0..m
        invariant
            new_rows@.len() == i,
            forall|k: int| 0 <= k < i ==> (#[trigger] new_rows@[k])@.len() == n,
            forall|k: int, j: int|
                0 <= k < i && 0 <= j < n ==> new_rows@[k]@[j] == (Rat {
                    num: matrix@[k][j],
                    den: scalar,
                }),
    {
        proof {
            assert(matrix@[i as int].len() == n);
        }
        let mut new_row: Vec<Rat> = Vec::new();
        for j in 0..n
            invariant
                0 <= i < matrix@.len(),
                new_row@.len() == j,
                forall|l: int|
                    0 <= l < j ==> new_row@[l] == (Rat {
                        num: matrix@[i as int][l],
                        den: scalar,
                    }),
        {
            new_row.push(Rat { num: matrix.rows[i][j], den: scalar });
        }
        new_rows.push(new_row);
    }

    let rm = RatMatrix { rows: new_rows, m, n };
    proof {
        assert forall|i: int, j: int| 0 <= i < m && 0 <= j < n implies rm@[i][j] == (Rat {
            num: matrix@[i][j],
            den: scalar,
        }) by {
            assert(rm@[i][j] == new_rows@[i]@[j]);
        }
    }
    Ok(rm)
}

/// The matrix product: entry `(i, j)` is the wrapped dot product of row
/// `i` of the first operand with column `j` of the second.
pub fn multiply_matrices(matrix_1: &Matrix, matrix_2: &Matrix) -> (r: Result<
    Matrix,
    CustomErrors,
>)
    requires
        matrix_1.wf(),
        matrix_2.wf(),
    ensures
        match r {
            Ok(mm) => {
                &&& matrix_1.n == matrix_2.m
                &&& mm.wf()
                &&& mm.m == matrix_1.m
                &&& mm.n == matrix_2.n
                &&& forall|i: int, j: int|
                    0 <= i < mm.m && 0 <= j < mm.n ==> mm@[i][j] == mm_dot(
                        matrix_1@,
                        matrix_2@,
                        i,
                        j,
                        matrix_1.n as int,
                    )
            },
            Err(e) => matrix_1.n != matrix_2.m && e == CustomErrors::Mismatch(MismatchError),
        },
{
    if !can_multiply(matrix_1, matrix_2) {
        return Err(CustomErrors::Mismatch(MismatchError));
    }

    let mut new_matrix_rows: Vec<Vec<i64>> = Vec::new();

    let m1 = matrix_1.m;
    let n2 = matrix_2.n;
    let inner = matrix_1.n;
    for i in 0..m1
        invariant
            new_matrix_rows@.len() == i,
            forall|k: int| 0 <= k < i ==> (#[trigger] new_matrix_rows@[k])@.len() == n2,
            forall|k: int, j: int|
                0 <= k < i && 0 <= j < n2 ==> new_matrix_rows@[k]@[j] == mm_dot(
                    matrix_1@,
                    matrix_2@,
                    k,
                    j,
                    inner as int,
                ),
    {
        let mut new_row: Vec<i64> = Vec::new();
        for j in 0..n2
            invariant
                0 <= i < matrix_1@.len(),
                new_row@.len() == j,
                forall|l: int|
                    0 <= l < j ==> new_row@[l] == mm_dot(
                        matrix_1@,
                        matrix_2@,
                        i as int,
                        l,
                        inner as int,
                    ),
        {
            let mut element_sum: i64 = 0;
            for k in 0..inner
                invariant
                    0 <= i < matrix_1@.len(),
                    0 <= j < n2,
                    element_sum == mm_dot(matrix_1@, matrix_2@, i as int, j as int, k as int),
            {
                proof {
                    assert(matrix_1@[i as int].len() == inner);
                    assert(matrix_2@[k as int].len() == n2);
                }
                element_sum = element_sum.wrapping_add(
                    matrix_1.rows[i][k].wrapping_mul(matrix_2.rows[k][j]),
                );
            }
            new_row.push(element_sum);
        }
        new_matrix_rows.push(new_row);
    }

    Ok(Matrix { rows: new_matrix_rows, m: m1, n: n2 })
}

/// The determinant of a square matrix by the Leibniz expansion over all
/// permutations; fails with `NotImplemented` on a non-square matrix.
pub fn get_determinant(matrix: &Matrix) -> (r: Result<i64, CustomErrors>)
    requires
        matrix.wf(),
    ensures
        match r {
            Ok(d) => matrix.m == matrix.n && d == spec_determinant(matrix@, matrix.n as int),
            Err(e) => matrix.m != matrix.n && e == CustomErrors::NotImplemented(
                NotImplementedError,
            ),
        },
{
    if !is_square(matrix) {
        return Err(CustomErrors::NotImplemented(NotImplementedError));
    }

    let size = matrix.rows.len();
    let perms = util::get_perms(size);
    let mut determinant: i64 = 0;

    let pcount = perms.len();
    proof {
        assert(util::perm_table(perms).len() == perms@.len());
    }
    for pi in 0..pcount
        invariant
            size == matrix.m == matrix.n,
            util::perm_table(perms) == util::heap_go(
                util::iota(size as nat),
                size as nat,
            ).0,
            forall|k: int|
                0 <= k < util::perm_table(perms).len() ==> (#[trigger] util::perm_table(
                    perms,
                )[k]).len() == size,
            forall|k: int, j: int|
                0 <= k < util::perm_table(perms).len() && 0 <= j < size
                    ==> #[trigger] util::perm_table(perms)[k][j] < size,
            determinant == det_sum(
                matrix@,
                util::perm_table(perms),
                pi as int,
                size as int,
            ),
    {
        proof {
            assert(util::perm_table(perms)[pi as int] == perms@[pi as int]@);
        }
        let sign32 = util::get_permutation_sign(util::copy_indices(&perms[pi]));
        let sign: i64 = sign32 as i64;

        let mut term: i64 = 1;
        for i in 0..size
            invariant
                0 <= pi < perms@.len(),
                size == matrix.m == matrix.n,
                forall|k: int|
                    0 <= k < util::perm_table(perms).len() ==> (#[trigger] util::perm_table(
                        perms,
                    )[k]).len() == size,
                forall|k: int, j: int|
                    0 <= k < util::perm_table(perms).len() && 0 <= j < size
                        ==> #[trigger] util::perm_table(perms)[k][j] < size,
                term == perm_prod(matrix@, perms@[pi as int]@, i as int),
        {
            proof {
                assert(matrix@[i as int].len() == matrix.n);
                assert(util::perm_table(perms)[pi as int][i as int] < size);
            }
            term = term.wrapping_mul(matrix.rows[i][perms[pi][i]]);
        }

        determinant = determinant.wrapping_add(sign.wrapping_mul(term));
        proof {
            assert(sign == sign_val(util::perm_table(perms)[pi as int]));
        }
    }

    Ok(determinant)
}

/// The product of a matrix with a column vector of matching length: each
/// result entry is the wrapped dot product of a row with the vector.
pub fn multiply_matrix_vector(mat: &Matrix, vec: &Vec<i64>) -> (r: Result<Vec<i64>, CustomErrors>)
    requires
        mat.wf(),
    ensures
        match r {
            Ok(prod) => {
                &&& mat.n == vec@.len()
                &&& prod@.len() == mat.m
                &&& forall|i: int|
                    0 <= i < prod@.len() ==> prod@[i] == wdot(mat@[i], vec@)
            },
            Err(e) => mat.n != vec@.len() && e == CustomErrors::Mismatch(MismatchError),
        },
{
    let m = mat.m;
    let n = mat.n;

    if n != vec.len() {
        return Err(CustomErrors::Mismatch(MismatchError));
    }

    let mut prod: Vec<i64> = Vec::new();

    for i in 0..m
        invariant
            n == vec@.len(),
            prod@.len() == i,
            forall|k: int| 0 <= k < i ==> prod@[k] == wdot(mat@[k], vec@),
    {
        proof {
            assert(mat@[i as int].len() == n);
        }
        let mut row_prod: i64 = 0;
        for j in 0..n
            invariant
                0 <= i < mat@.len(),
                n == vec@.len(),
                mat@[i as int].len() == n,
                row_prod == wdot(mat@[i as int].subrange(0, j as int), vec@.subrange(0, j as int)),
        {
            proof {
                assert(mat@[i as int].subrange(0, j + 1).drop_last() =~= mat@[
                    i as int
                ].subrange(0, j as int));
                assert(vec@.subrange(0, j + 1).drop_last() =~= vec@.subrange(0, j as int));
            }
            row_prod = row_prod.wrapping_add(mat.rows[i][j].wrapping_mul(vec[j]));
        }
        proof {
            assert(mat@[i as int].subrange(0, n as int) =~= mat@[i as int]);
            assert(vec@.subrange(0, n as int) =~= vec@);
        }
        prod.push(row_prod);
    }

    Ok(prod)
}

proof fn lemma_ident_prod(n: nat, p: Seq<usize>, k: int)
    requires
        n <= usize::MAX,
        p.len() == n,
        forall|j: int| 0 <= j < n ==> p[j] < n,
        0 <= k <= n,
    ensures
        perm_prod(util::ident_view(n), p, k) == (if forall|j: int| 0 <= j < k ==> p[j] == j {
            1i64
        } else {
            0i64
        }),
    decreases k,
{
    if k > 0 {
        lemma_ident_prod(n, p, k - 1);
        assert(util::ident_view(n)[k - 1][p[k - 1] as int] == (if p[k - 1] == k - 1 {
            1i64
        } else {
            0i64
        }));
        if forall|j: int| 0 <= j < k - 1 ==> p[j] == j {
            if p[k - 1] == k - 1 {
                assert(wmul(1i64, 1i64) == 1i64);
            } else {
                assert(wmul(1i64, 0i64) == 0i64);
                assert(!(forall|j: int| 0 <= j < k ==> p[j] == j));
            }
        } else {
            let w = choose|j: int| 0 <= j < k - 1 && p[j] != j;
            assert(0 <= w < k && p[w] != w);
            assert(wmul(0i64, util::ident_view(n)[k - 1][p[k - 1] as int]) == 0i64) by {
                assert(0i64 * util::ident_view(n)[k - 1][p[k - 1] as int] == 0);
            }
            assert(!(forall|j: int| 0 <= j < k ==> p[j] == j));
        }
    }
}

/// Each term of the Leibniz expansion of the identity matrix vanishes,
/// except the identity permutation's, whose signed product is one.
pub proof fn lemma_identity_term(n: nat, p: Seq<usize>)
    requires
        n <= usize::MAX,
        p.len() == n,
        forall|j: int| 0 <= j < n ==> p[j] < n,
    ensures
        wmul(sign_val(p), perm_prod(util::ident_view(n), p, n as int)) == (if p == util::iota(n) {
            1i64
        } else {
            0i64
        }),
{
    lemma_ident_prod(n, p, n as int);
    if p == util::iota(n) {
        assert forall|j: int| 0 <= j < n implies p[j] == j by {
            assert(util::iota(n)[j] == j as usize);
        }
        util::lemma_identity_sign(n);
        assert(sign_val(p) == 1i64);
        assert(wmul(1i64, 1i64) == 1i64);
    } else {
        if forall|j: int| 0 <= j < n ==> p[j] == j {
            assert forall|j: int| 0 <= j < p.len() implies p[j] == util::iota(n)[j] by {
                assert(util::iota(n)[j] == j as usize);
            }
            assert(p =~= util::iota(n));
        }
        assert(perm_prod(util::ident_view(n), p, n as int) == 0i64);
        assert(wmul(sign_val(p), 0i64) == 0i64) by {
            assert(sign_val(p) * 0i64 == 0);
        }
    }
}

/// How many of the first `k` entries of a permutation table equal `t`.
pub open spec fn count_pfx(ps: Seq<Seq<usize>>, t: Seq<usize>, k: int) -> nat
    decreases k,
{
    if k <= 0 {
        0nat
    } else {
        count_pfx(ps, t, k - 1) + (if ps[k - 1] == t {
            1nat
        } else {
            0nat
        })
    }
}

proof fn lemma_wrap_i64_succ(x: int)
    ensures
        wadd(wrap_i64(x), 1i64) == wrap_i64(x + 1),
{
    let r = 0x1_0000_0000_0000_0000int;
    vstd::arithmetic::div_mod::lemma_add_mod_noop(x, 1, r);
    vstd::arithmetic::div_mod::lemma_small_mod(1nat, r as nat);
    let m = x % r;
    if m < r - 1 {
        vstd::arithmetic::div_mod::lemma_small_mod((m + 1) as nat, r as nat);
    } else {
        vstd::arithmetic::div_mod::lemma_mod_multiples_vanish(1, 0, r);
        vstd::arithmetic::div_mod::lemma_small_mod(0nat, r as nat);
    }
}

proof fn lemma_det_sum_counts_identity(n: nat, ps: Seq<Seq<usize>>, k: int)
    requires
        n <= usize::MAX,
        0 <= k <= ps.len(),
        forall|q: int| 0 <= q < ps.len() ==> (#[trigger] ps[q]).len() == n,
        forall|q: int, j: int|
            0 <= q < ps.len() && 0 <= j < n ==> (#[trigger] ps[q][j]) < n,
    ensures
        det_sum(util::ident_view(n), ps, k, n as int) == wrap_i64(
            count_pfx(ps, util::iota(n), k) as int,
        ),
    decreases k,
{
    if k <= 0 {
        assert(wrap_i64(0) == 0i64);
    } else {
        lemma_det_sum_counts_identity(n, ps, k - 1);
        lemma_identity_term(n, ps[k - 1]);
        if ps[k - 1] == util::iota(n) {
            lemma_wrap_i64_succ(count_pfx(ps, util::iota(n), k - 1) as int);
        } else {
            assert(wadd(
                wrap_i64(count_pfx(ps, util::iota(n), k - 1) as int),
                0i64,
            ) == wrap_i64(count_pfx(ps, util::iota(n), k - 1) as int));
        }
    }
}

/// The determinant of the identity matrix equals the number of times the
/// permutation enumeration lists the identity permutation, wrapped to
/// the scalar type: every other permutation's term vanishes on the
/// identity matrix, and the identity permutation's term is one.
proof fn lemma_identity_determinant_counts(n: nat)
    requires
        1 <= n <= usize::MAX,
    ensures
        spec_determinant(util::ident_view(n), n as int) == wrap_i64(
            count_pfx(
                util::heap_go(util::iota(n), n).0,
                util::iota(n),
                util::heap_go(util::iota(n), n).0.len() as int,
            ) as int,
        ),
{
    let ps = util::heap_go(util::iota(n), n).0;
    assert forall|j: int| 0 <= j < util::iota(n).len() implies util::iota(n)[j] < n by {
        assert(util::iota(n)[j] == j as usize);
    }
    util::lemma_heap_go_bounds(util::iota(n), n, n as usize);
    lemma_det_sum_counts_identity(n, ps, ps.len() as int);
}

proof fn lemma_count_pfx_drop(ps: Seq<Seq<usize>>, t: Seq<usize>, k: int)
    requires
        0 <= k <= ps.len() - 1,
    ensures
        count_pfx(ps, t, k) == count_pfx(ps.drop_last(), t, k),
    decreases k,
{
    if k > 0 {
        lemma_count_pfx_drop(ps, t, k - 1);
        assert(ps.drop_last()[k - 1] == ps[k - 1]);
    }
}

proof fn lemma_count_pfx_is_count_eq(ps: Seq<Seq<usize>>, t: Seq<usize>)
    ensures
        count_pfx(ps, t, ps.len() as int) == util::count_eq(ps, t),
    decreases ps.len(),
{
    if ps.len() > 0 {
        lemma_count_pfx_is_count_eq(ps.drop_last(), t);
        lemma_count_pfx_drop(ps, t, ps.len() - 1);
        assert(ps[ps.len() - 1] == ps.last());
    }
}

/// The determinant of the identity matrix is one, for every dimension:
/// the permutation enumeration lists the identity permutation exactly
/// once, and every other permutation's Leibniz term vanishes on the
/// identity matrix.
pub proof fn lemma_identity_determinant(n: nat)
    requires
        1 <= n <= usize::MAX,
    ensures
        spec_determinant(util::ident_view(n), n as int) == 1i64,
{
    let t = util::iota(n);
    let ps = util::heap_go(t, n).0;
    lemma_identity_determinant_counts(n);
    lemma_count_pfx_is_count_eq(ps, t);
    assert forall|j: int| 0 <= j < t.len() implies #[trigger] t[j] < t.len() by {
        assert(t[j] == j as usize);
    }
    assert forall|a: int, b: int| 0 <= a < b < t.len() implies t[a] != t[b] by {
        assert(t[a] == a as usize);
        assert(t[b] == b as usize);
    }
    assert forall|x: usize| util::perm_contains(t, x) implies exists|j: int|
        0 <= j < t.len() && t[j] == x by {
        assert(t[x as int] == x);
    }
    assert(util::is_perm_seq(t));
    util::lemma_count_go(t, t, n);
    assert(util::count_eq(ps, t) == 1);
    assert(wrap_i64(1int) == 1i64);
}

} // verus!
