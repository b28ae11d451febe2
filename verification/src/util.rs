//! Permutation enumeration, permutation sign, and small helper predicates
//! used by the determinant engine and the elimination solver.

use vstd::prelude::*;
use crate::error::{CustomErrors, EmptyVectorError};
use crate::matrix::Matrix;

verus! {

/// The `dim`-by-`dim` identity matrix contents.
pub open spec fn ident_view(dim: nat) -> Seq<Seq<i64>> {
    Seq::new(dim, |i: int| Seq::new(dim, |j: int| if i == j { 1i64 } else { 0i64 }))
}

/// Whether a column vector is in diagonalized form for `position`: a one
/// at `position` and zeros everywhere else.
pub fn vec_is_diagonalized(vec: &Vec<i64>, position: usize) -> (r: bool)
    ensures
        r == (forall|i: int|
            0 <= i < vec@.len() ==> vec@[i] == (if i == position { 1i64 } else { 0i64 })),
{
    let len = vec.len();

    for i in 0..len
        invariant
            forall|k: int|
                0 <= k < i ==> vec@[k] == (if k == position { 1i64 } else { 0i64 }),
    {
        if i == position {
            if vec[i] != 1 {
                return false;
            }
        } else {
            if vec[i] != 0 {
                return false;
            }
        }
    }
    true
}

/// Whether every entry of the vector is zero.
pub fn is_all_zeroes(vec: &Vec<i64>) -> (r: bool)
    ensures
        r == (forall|i: int| 0 <= i < vec@.len() ==> vec@[i] == 0i64),
{
    let len = vec.len();
    for i in 0..len
        invariant
            forall|k: int| 0 <= k < i ==> vec@[k] == 0i64,
    {
        if vec[i] != 0 {
            return false;
        }
    }

    true
}

/// Builds the `dim`-by-`dim` identity matrix; fails with `EmptyVector`
/// when `dim` is zero.
pub fn create_identity_matrix(dim: usize) -> (r: Result<Matrix, CustomErrors>)
    ensures
        match r {
            Ok(mat) => {
                &&& dim > 0
                &&& mat.wf()
                &&& mat.m == dim
                &&& mat.n == dim
                &&& mat@ == ident_view(dim as nat)
            },
            Err(e) => dim == 0 && e == CustomErrors::EmptyVector(EmptyVectorError),
        },
{
    if dim == 0 {
        return Err(CustomErrors::EmptyVector(EmptyVectorError));
    }

    let mut rows: Vec<Vec<i64>> = Vec::new();
    for i in 0..dim
        invariant
            rows@.len() == i,
            forall|k: int| 0 <= k < i ==> (#[trigger] rows@[k])@.len() == dim,
            forall|k: int, j: int|
                0 <= k < i && 0 <= j < dim ==> rows@[k]@[j] == (if k == j {
                    1i64
                } else {
                    0i64
                }),
    {
        let mut matrix_row: Vec<i64> = Vec::new();

        for j in 0..dim
            invariant
                matrix_row@.len() == j,
                forall|l: int|
                    0 <= l < j ==> matrix_row@[l] == (if i == l {
                        1i64
                    } else {
                        0i64
                    }),
        {
            if j == i {
                matrix_row.push(1);
            } else {
                matrix_row.push(0);
            }
        }
        rows.push(matrix_row);
    }
    let mat = Matrix { rows, m: dim, n: dim };
    proof {
        assert(mat@ =~~= ident_view(dim as nat));
    }
    Ok(mat)
}

/// The contents of a table of index vectors.
pub open spec fn perm_table(rows: Vec<Vec<usize>>) -> Seq<Seq<usize>> {
    Seq::new(rows@.len(), |i: int| rows@[i]@)
}

/// The index sequence `0, 1, ..., n-1`.
pub open spec fn iota(n: nat) -> Seq<usize> {
    Seq::new(n, |i: int| i as usize)
}

/// The sequence `s` with the values at positions `a` and `b` exchanged.
pub open spec fn swap_seq(s: Seq<usize>, a: int, b: int) -> Seq<usize> {
    s.update(a, s[b]).update(b, s[a])
}

/// The permutations emitted by the generator run on `v` with bound `size`,
/// paired with the state of `v` when it finishes.  The generator permutes
/// the first `size` positions only: at each round it emits the
/// permutations of the first `size - 1` positions, then exchanges the
/// element at `size - 1` with the first element (odd `size`) or the
/// element at the round index (even `size`).
pub open spec fn heap_go(v: Seq<usize>, size: nat) -> (Seq<Seq<usize>>, Seq<usize>)
    decreases size, size + 1int,
{
    if size == 1 {
        (seq![v], v)
    } else if size == 0 {
        (Seq::empty(), v)
    } else {
        heap_loop(v, size, 0)
    }
}

/// The rounds of the generator from round `i` up to round `size - 1`.
pub open spec fn heap_loop(v: Seq<usize>, size: nat, i: nat) -> (Seq<Seq<usize>>, Seq<usize>)
    decreases size, size - i,
{
    if i >= size {
        (Seq::empty(), v)
    } else {
        let sub = heap_go(v, (size - 1) as nat);
        let v2 = if size % 2 == 1 {
            swap_seq(sub.1, 0, size - 1)
        } else {
            swap_seq(sub.1, i as int, size - 1)
        };
        let rest = heap_loop(v2, size, (i + 1) as nat);
        (sub.0 + rest.0, rest.1)
    }
}

/// Every output of the generator, and its final state, has the length of
/// the input and draws its values from the input's range.
pub proof fn lemma_heap_go_bounds(v: Seq<usize>, size: nat, bound: usize)
    requires
        size <= v.len(),
        forall|j: int| 0 <= j < v.len() ==> v[j] < bound,
    ensures
        heap_go(v, size).1.len() == v.len(),
        forall|j: int| 0 <= j < v.len() ==> #[trigger] heap_go(v, size).1[j] < bound,
        forall|k: int|
            0 <= k < heap_go(v, size).0.len() ==> (#[trigger] heap_go(v, size).0[k]).len()
                == v.len(),
        forall|k: int, j: int|
            0 <= k < heap_go(v, size).0.len() && 0 <= j < v.len() ==> #[trigger] heap_go(
                v,
                size,
            ).0[k][j] < bound,
    decreases size, size + 1int,
{
    if size == 1 {
    } else if size == 0 {
    } else {
        lemma_heap_loop_bounds(v, size, 0, bound);
    }
}

proof fn lemma_heap_loop_bounds(v: Seq<usize>, size: nat, i: nat, bound: usize)
    requires
        2 <= size <= v.len(),
        forall|j: int| 0 <= j < v.len() ==> v[j] < bound,
    ensures
        heap_loop(v, size, i).1.len() == v.len(),
        forall|j: int| 0 <= j < v.len() ==> #[trigger] heap_loop(v, size, i).1[j] < bound,
        forall|k: int|
            0 <= k < heap_loop(v, size, i).0.len() ==> (#[trigger] heap_loop(
                v,
                size,
                i,
            ).0[k]).len() == v.len(),
        forall|k: int, j: int|
            0 <= k < heap_loop(v, size, i).0.len() && 0 <= j < v.len() ==> #[trigger] heap_loop(
                v,
                size,
                i,
            ).0[k][j] < bound,
    decreases size, size - i,
{
    if i >= size {
    } else {
        lemma_heap_go_bounds(v, (size - 1) as nat, bound);
        let sub = heap_go(v, (size - 1) as nat);
        let v2 = if size % 2 == 1 {
            swap_seq(sub.1, 0, size - 1)
        } else {
            swap_seq(sub.1, i as int, size - 1)
        };
        assert(v2.len() == v.len());
        assert forall|j: int| 0 <= j < v2.len() implies v2[j] < bound by {
            assert(sub.1[j] < bound);
        }
        lemma_heap_loop_bounds(v2, size, (i + 1) as nat, bound);
    }
}

/// Copies a vector of indices.
pub(crate) fn copy_indices(v: &Vec<usize>) -> (r: Vec<usize>)
    ensures
        r@ == v@,
{
    let mut r: Vec<usize> = Vec::new();
    let len = v.len();
    for i in 0..len
        invariant
            r@.len() == i,
            forall|k: int| 0 <= k < i ==> r@[k] == v@[k],
    {
        r.push(v[i]);
    }
    proof {
        assert(r@ =~= v@);
    }
    r
}

/// Enumerates the permutations of the first `size` positions of `vec`,
/// leaving `vec` in the state the generator ends with.
pub fn heap_permutation(vec: &mut Vec<usize>, size: usize) -> (r: Vec<Vec<usize>>)
    requires
        size <= old(vec)@.len(),
    ensures
        final(vec)@.len() == old(vec)@.len(),
        perm_table(r) == heap_go(old(vec)@, size as nat).0,
        final(vec)@ == heap_go(old(vec)@, size as nat).1,
    decreases size,
{
    let mut permutations: Vec<Vec<usize>> = Vec::new();

    if size == 1 {
        permutations.push(copy_indices(vec));
        proof {
            assert(perm_table(permutations) =~= seq![old(vec)@]);
        }
        return permutations;
    }
    if size == 0 {
        proof {
            assert(perm_table(permutations) =~= Seq::<Seq<usize>>::empty());
        }
        return permutations;
    }

    for i in 0..size
        invariant
            2 <= size <= vec@.len(),
            vec@.len() == old(vec)@.len(),
            heap_go(old(vec)@, size as nat).0 == perm_table(permutations) + heap_loop(
                vec@,
                size as nat,
                i as nat,
            ).0,
            heap_go(old(vec)@, size as nat).1 == heap_loop(vec@, size as nat, i as nat).1,
    {
        let ghost pre = vec@;
        let ghost perms_pre = perm_table(permutations);
        let mut heap = heap_permutation(vec, size - 1);
        let ghost heap_view = perm_table(heap);

        permutations.append(&mut heap);

        let ghost mid = vec@;
        if size % 2 == 1 {
            let a = vec[0];
            let b = vec[size - 1];
            vec[0] = b;
            vec[size - 1] = a;
        } else {
            let a = vec[i];
            let b = vec[size - 1];
            vec[i] = b;
            vec[size - 1] = a;
        }

        proof {
            assert(perm_table(permutations) =~= perms_pre + heap_view);
            if size % 2 == 1 {
                assert(vec@ =~= swap_seq(mid, 0, size - 1));
            } else {
                assert(vec@ =~= swap_seq(mid, i as int, size - 1));
            }
            assert(heap_loop(pre, size as nat, i as nat).0 == heap_go(
                pre,
                (size - 1) as nat,
            ).0 + heap_loop(vec@, size as nat, (i + 1) as nat).0);
            assert(heap_go(old(vec)@, size as nat).0 =~= perm_table(permutations) + heap_loop(
                vec@,
                size as nat,
                (i + 1) as nat,
            ).0);
        }
    }

    permutations
}

/// Enumerates all permutations of `{0, ..., size - 1}` in the generator's
/// order.  Every emitted vector has length `size` and values below `size`.
pub fn get_perms(size: usize) -> (r: Vec<Vec<usize>>)
    ensures
        perm_table(r) == heap_go(iota(size as nat), size as nat).0,
        perm_table(r).len() == (if size == 0 {
            0nat
        } else {
            fact(size as nat)
        }),
        forall|k: int|
            0 <= k < perm_table(r).len() ==> (#[trigger] perm_table(r)[k]).len() == size,
        forall|k: int, j: int|
            0 <= k < perm_table(r).len() && 0 <= j < size ==> #[trigger] perm_table(r)[k][j]
                < size,
{
    let mut vec: Vec<usize> = Vec::new();
    for i in 0..size
        invariant
            vec@.len() == i,
            forall|k: int| 0 <= k < i ==> vec@[k] == k,
    {
        vec.push(i);
    }
    proof {
        assert(vec@ =~= iota(size as nat));
        lemma_heap_go_bounds(vec@, size as nat, size);
        lemma_heap_go_len(vec@, size as nat);
    }

    heap_permutation(&mut vec, size)
}

/// Count, among positions `q` and later of `s`, of values that `x` exceeds.
pub open spec fn cnt_gt(s: Seq<usize>, x: usize, q: int) -> nat
    decreases s.len() - q,
{
    if q < 0 || q >= s.len() {
        0nat
    } else {
        (if x > s[q] {
            1nat
        } else {
            0nat
        }) + cnt_gt(s, x, q + 1)
    }
}

/// Number of inversions of `s` whose first position is `p` or later.
pub open spec fn invs_from(s: Seq<usize>, p: int) -> nat
    decreases s.len() - p,
{
    if p < 0 || p >= s.len() {
        0nat
    } else {
        cnt_gt(s, s[p], p + 1) + invs_from(s, p + 1)
    }
}

/// Number of pairs of positions of `s` that are out of order.
pub open spec fn inversions(s: Seq<usize>) -> nat {
    invs_from(s, 0)
}

/// A 32-bit two's-complement wrap of a mathematical integer.
pub open spec fn wrap_i32(x: int) -> i32 {
    vstd::wrapping::i32_specs::signed_crop(x)
}

proof fn lemma_cnt_gt_agree(s1: Seq<usize>, s2: Seq<usize>, x: usize, q: int)
    requires
        s1.len() == s2.len(),
        forall|r: int| q <= r < s1.len() ==> s1[r] == s2[r],
    ensures
        cnt_gt(s1, x, q) == cnt_gt(s2, x, q),
    decreases s1.len() - q,
{
    if 0 <= q < s1.len() {
        lemma_cnt_gt_agree(s1, s2, x, q + 1);
    }
}

proof fn lemma_invs_from_agree(s1: Seq<usize>, s2: Seq<usize>, p: int)
    requires
        s1.len() == s2.len(),
        forall|r: int| p <= r < s1.len() ==> s1[r] == s2[r],
    ensures
        invs_from(s1, p) == invs_from(s2, p),
    decreases s1.len() - p,
{
    if 0 <= p < s1.len() {
        lemma_cnt_gt_agree(s1, s2, s1[p], p + 1);
        lemma_invs_from_agree(s1, s2, p + 1);
    }
}

proof fn lemma_swap_cnt_before(s: Seq<usize>, k: int, x: usize, q: int)
    requires
        0 <= k,
        k + 1 < s.len(),
        0 <= q <= k,
    ensures
        cnt_gt(swap_seq(s, k, k + 1), x, q) == cnt_gt(s, x, q),
    decreases k - q,
{
    let s2 = swap_seq(s, k, k + 1);
    if q == k {
        assert(cnt_gt(s, x, k) == (if x > s[k] {
            1nat
        } else {
            0nat
        }) + cnt_gt(s, x, k + 1));
        assert(cnt_gt(s, x, k + 1) == (if x > s[k + 1] {
            1nat
        } else {
            0nat
        }) + cnt_gt(s, x, k + 2));
        assert(cnt_gt(s2, x, k) == (if x > s2[k] {
            1nat
        } else {
            0nat
        }) + cnt_gt(s2, x, k + 1));
        assert(cnt_gt(s2, x, k + 1) == (if x > s2[k + 1] {
            1nat
        } else {
            0nat
        }) + cnt_gt(s2, x, k + 2));
        lemma_cnt_gt_agree(s2, s, x, k + 2);
    } else {
        lemma_swap_cnt_before(s, k, x, q + 1);
    }
}

/// Exchanging an adjacent out-of-order pair removes exactly one inversion.
proof fn lemma_swap_invs(s: Seq<usize>, k: int, p: int)
    requires
        0 <= p <= k,
        k + 1 < s.len(),
        s[k] > s[k + 1],
    ensures
        invs_from(swap_seq(s, k, k + 1), p) + 1 == invs_from(s, p),
    decreases k - p,
{
    let s2 = swap_seq(s, k, k + 1);
    if p == k {
        assert(invs_from(s, k) == cnt_gt(s, s[k], k + 1) + invs_from(s, k + 1));
        assert(invs_from(s, k + 1) == cnt_gt(s, s[k + 1], k + 2) + invs_from(s, k + 2));
        assert(invs_from(s2, k) == cnt_gt(s2, s2[k], k + 1) + invs_from(s2, k + 1));
        assert(invs_from(s2, k + 1) == cnt_gt(s2, s2[k + 1], k + 2) + invs_from(s2, k + 2));
        assert(cnt_gt(s, s[k], k + 1) == (if s[k] > s[k + 1] {
            1nat
        } else {
            0nat
        }) + cnt_gt(s, s[k], k + 2));
        assert(cnt_gt(s2, s[k + 1], k + 1) == (if s[k + 1] > s2[k + 1] {
            1nat
        } else {
            0nat
        }) + cnt_gt(s2, s[k + 1], k + 2));
        lemma_cnt_gt_agree(s2, s, s[k + 1], k + 2);
        lemma_cnt_gt_agree(s2, s, s[k], k + 2);
        lemma_invs_from_agree(s2, s, k + 2);
    } else {
        lemma_swap_cnt_before(s, k, s[p], p + 1);
        lemma_swap_invs(s, k, p + 1);
    }
}

proof fn lemma_cnt_gt_zero(s: Seq<usize>, x: usize, q: int)
    requires
        forall|r: int| q <= r < s.len() ==> x <= s[r],
    ensures
        cnt_gt(s, x, q) == 0,
    decreases s.len() - q,
{
    if 0 <= q < s.len() {
        lemma_cnt_gt_zero(s, x, q + 1);
    }
}

/// A sorted sequence has no inversions.
proof fn lemma_sorted_invs_zero(s: Seq<usize>, p: int)
    requires
        forall|a: int, b: int| p <= a < b < s.len() ==> s[a] <= s[b],
    ensures
        invs_from(s, p) == 0,
    decreases s.len() - p,
{
    if 0 <= p < s.len() {
        lemma_cnt_gt_zero(s, s[p], p + 1);
        lemma_sorted_invs_zero(s, p + 1);
    }
}

proof fn lemma_le_span(s: Seq<usize>, a: int, b: int)
    requires
        0 <= a <= b < s.len(),
        forall|k: int| a <= k < b ==> #[trigger] s[k] <= s[k + 1],
    ensures
        s[a] <= s[b],
    decreases b - a,
{
    if a < b {
        lemma_le_span(s, a, b - 1);
    }
}

proof fn lemma_wrap_i32_succ(x: int)
    ensures
        vstd::wrapping::i32_specs::wrapping_add(wrap_i32(x), 1i32) == wrap_i32(x + 1),
{
    let r = 0x1_0000_0000int;
    vstd::arithmetic::div_mod::lemma_add_mod_noop(x, 1, r);
    vstd::arithmetic::div_mod::lemma_small_mod(1nat, r as nat);
    let m = x % r;
    if m < r - 1 {
        vstd::arithmetic::div_mod::lemma_small_mod((m + 1) as nat, r as nat);
    } else {
        vstd::arithmetic::div_mod::lemma_mod_multiples_vanish(1, 0, r);
        vstd::arithmetic::div_mod::lemma_small_mod(0nat, r as nat);
    }
}

proof fn lemma_wrap_i32_parity(x: int)
    ensures
        (wrap_i32(x) as int) % 2 == x % 2,
{
    let r = 0x1_0000_0000int;
    vstd::arithmetic::div_mod::lemma_mod_mod(x, 2, 0x8000_0000);
    let m = x % r;
    if m > i32::MAX {
        vstd::arithmetic::div_mod::lemma_mod_multiples_vanish(-0x8000_0000, m, 2);
    }
}

/// Sorts the vector with an early-exit exchange sort and reports the
/// number of exchanges performed, wrapped to the counter type.  The
/// exchange count equals the number of inversions of the input.
#[verifier::rlimit(60)]
pub fn modified_bubble_sort(vec: &mut Vec<usize>) -> (r: i32)
    ensures
        final(vec)@.len() == old(vec)@.len(),
        forall|a: int, b: int|
            0 <= a < b < final(vec)@.len() ==> final(vec)@[a] <= final(vec)@[b],
        r == wrap_i32(inversions(old(vec)@) as int),
{
    let mut operations: i32 = 0;
    let ghost mut g: nat = 0nat;
    let n = vec.len();

    for i in 0..n
        invariant
            vec@.len() == n,
            g + inversions(vec@) == inversions(old(vec)@),
            operations == wrap_i32(g as int),
            forall|a: int, b: int| 0 <= a < b < n && b >= n - i ==> vec@[a] <= vec@[b],
    {
        let mut swapped = false;
        let upper_bound = n - i - 1;
        for j in 0..upper_bound
            invariant
                vec@.len() == n,
                upper_bound == n - i - 1,
                g + inversions(vec@) == inversions(old(vec)@),
                operations == wrap_i32(g as int),
                forall|a: int, b: int| 0 <= a < b < n && b >= n - i ==> vec@[a] <= vec@[b],
                forall|k: int| 0 <= k <= j ==> vec@[k] <= vec@[j as int],
                !swapped ==> forall|k: int| 0 <= k < j ==> #[trigger] vec@[k] <= vec@[k + 1],
        {
            if vec[j] > vec[j + 1] {
                let ghost pre = vec@;
                let a = vec[j];
                let b = vec[j + 1];
                vec[j + 1] = a;
                vec[j] = b;
                proof {
                    assert(vec@ =~= swap_seq(pre, j as int, j + 1));
                    lemma_swap_invs(pre, j as int, 0);
                    lemma_wrap_i32_succ(g as int);
                    g = g + 1;
                }
                operations = operations.wrapping_add(1);
                swapped = true;
            }
        }

        if !swapped {
            proof {
                assert forall|a: int, b: int| 0 <= a < b < n implies vec@[a] <= vec@[b] by {
                    if b < n - i {
                        lemma_le_span(vec@, a, b);
                    }
                }
                lemma_sorted_invs_zero(vec@, 0);
            }
            return operations;
        }
    }

    proof {
        lemma_sorted_invs_zero(vec@, 0);
    }
    operations
}

/// The sign of a permutation: `+1` when its inversion count is even,
/// `-1` when it is odd.
pub fn get_permutation_sign(perm: Vec<usize>) -> (r: i32)
    ensures
        r == (if inversions(perm@) % 2 == 0 {
            1i32
        } else {
            -1i32
        }),
{
    let ghost p0 = perm@;
    let mut scratch = perm;
    let operations = modified_bubble_sort(&mut scratch);
    proof {
        lemma_wrap_i32_parity(inversions(p0) as int);
    }
    let rem = match operations.checked_rem_euclid(2) {
        Some(r) => r,
        None => 0,
    };
    if rem == 0 {
        1
    } else {
        -1
    }
}

/// The identity permutation has no inversions, so its sign is `+1`.
pub proof fn lemma_identity_sign(n: nat)
    requires
        n <= usize::MAX,
    ensures
        inversions(iota(n)) == 0,
{
    assert forall|x: int, y: int| 0 <= x < y < iota(n).len() implies iota(n)[x] <= iota(
        n,
    )[y] by {
        assert(iota(n)[x] == x as usize);
        assert(iota(n)[y] == y as usize);
    }
    lemma_sorted_invs_zero(iota(n), 0);
}

proof fn lemma_transposition_cnt_mid(n: nat, a: int, b: int, q: int)
    requires
        n <= usize::MAX,
        0 <= a < b < n,
        a < q <= b,
    ensures
        cnt_gt(swap_seq(iota(n), a, b), (b as usize), q) == b - q + 1,
    decreases b - q,
{
    let t = swap_seq(iota(n), a, b);
    assert(t.len() == n);
    assert(t[a] == b as usize);
    assert(t[b] == a as usize);
    assert forall|r: int| 0 <= r < n && r != a && r != b implies #[trigger] t[r] == r as usize by {
        assert(iota(n)[r] == r as usize);
    }
    if q == b {
        lemma_cnt_gt_zero(t, b as usize, b + 1);
    } else {
        lemma_transposition_cnt_mid(n, a, b, q + 1);
    }
}

proof fn lemma_transposition_cnt_one(n: nat, a: int, b: int, p: int, q: int)
    requires
        n <= usize::MAX,
        0 <= a < b < n,
        a < p < b,
        p < q <= b,
    ensures
        cnt_gt(swap_seq(iota(n), a, b), (p as usize), q) == 1,
    decreases b - q,
{
    let t = swap_seq(iota(n), a, b);
    assert(t.len() == n);
    assert(t[a] == b as usize);
    assert(t[b] == a as usize);
    assert forall|r: int| 0 <= r < n && r != a && r != b implies #[trigger] t[r] == r as usize by {
        assert(iota(n)[r] == r as usize);
    }
    if q == b {
        lemma_cnt_gt_zero(t, p as usize, b + 1);
    } else {
        lemma_transposition_cnt_one(n, a, b, p, q + 1);
    }
}

proof fn lemma_transposition_invs_mid(n: nat, a: int, b: int, p: int)
    requires
        n <= usize::MAX,
        0 <= a < b < n,
        a < p <= b,
    ensures
        invs_from(swap_seq(iota(n), a, b), p) == b - p,
    decreases b - p,
{
    let t = swap_seq(iota(n), a, b);
    assert(t.len() == n);
    assert(t[a] == b as usize);
    assert(t[b] == a as usize);
    assert forall|r: int| 0 <= r < n && r != a && r != b implies #[trigger] t[r] == r as usize by {
        assert(iota(n)[r] == r as usize);
    }
    if p == b {
        lemma_sorted_invs_zero(t, b);
    } else {
        lemma_transposition_cnt_one(n, a, b, p, p + 1);
        lemma_transposition_invs_mid(n, a, b, p + 1);
    }
}

proof fn lemma_transposition_invs_pre(n: nat, a: int, b: int, p: int)
    requires
        n <= usize::MAX,
        0 <= a < b < n,
        0 <= p <= a,
    ensures
        invs_from(swap_seq(iota(n), a, b), p) == 2 * (b - a) - 1,
    decreases a - p,
{
    let t = swap_seq(iota(n), a, b);
    assert(t.len() == n);
    assert(t[a] == b as usize);
    assert(t[b] == a as usize);
    assert forall|r: int| 0 <= r < n && r != a && r != b implies #[trigger] t[r] == r as usize by {
        assert(iota(n)[r] == r as usize);
    }
    if p == a {
        lemma_transposition_cnt_mid(n, a, b, a + 1);
        lemma_transposition_invs_mid(n, a, b, a + 1);
    } else {
        lemma_cnt_gt_zero(t, p as usize, p + 1);
        lemma_transposition_invs_pre(n, a, b, p + 1);
    }
}

/// A permutation reached from the identity by exchanging the two distinct
/// positions `a` and `b` has an odd number of inversions, so its sign is
/// `-1`.
pub proof fn lemma_transposition_sign(n: nat, a: int, b: int)
    requires
        n <= usize::MAX,
        0 <= a < b < n,
    ensures
        inversions(swap_seq(iota(n), a, b)) == 2 * (b - a) - 1,
        inversions(swap_seq(iota(n), a, b)) % 2 == 1,
{
    lemma_transposition_invs_pre(n, a, b, 0);
}

/// The factorial, for counting permutations.
pub open spec fn fact(n: nat) -> nat
    decreases n,
{
    if n == 0 {
        1nat
    } else {
        n * fact((n - 1) as nat)
    }
}

/// For a positive bound the generator emits exactly `size!` permutations
/// (and none for a bound of zero).
pub proof fn lemma_heap_go_len(v: Seq<usize>, size: nat)
    ensures
        heap_go(v, size).0.len() == if size == 0 {
            0nat
        } else {
            fact(size)
        },
    decreases size, size + 1int,
{
    if size == 1 {
        assert(fact(0nat) == 1nat);
        assert(fact(1nat) == 1nat * fact(0nat));
        assert(1nat * 1nat == 1nat) by (nonlinear_arith);
    } else if size == 0 {
    } else {
        lemma_heap_loop_len(v, size, 0);
    }
}

proof fn lemma_heap_loop_len(v: Seq<usize>, size: nat, i: nat)
    requires
        2 <= size,
        i <= size,
    ensures
        heap_loop(v, size, i).0.len() == (size - i) * fact((size - 1) as nat),
    decreases size, size - i,
{
    if i >= size {
        assert((size - i) * fact((size - 1) as nat) == 0) by (nonlinear_arith)
            requires
                i == size,
        ;
    } else {
        let sub = heap_go(v, (size - 1) as nat);
        lemma_heap_go_len(v, (size - 1) as nat);
        let v2 = if size % 2 == 1 {
            swap_seq(sub.1, 0, size - 1)
        } else {
            swap_seq(sub.1, i as int, size - 1)
        };
        lemma_heap_loop_len(v2, size, (i + 1) as nat);
        assert(fact((size - 1) as nat) + (size - i - 1) * fact((size - 1) as nat) == (size - i)
            * fact((size - 1) as nat)) by (nonlinear_arith);
    }
}

/// The sequence with its first `s` values rotated right by one position.
pub open spec fn rot_first(u: Seq<usize>, s: int) -> Seq<usize> {
    Seq::new(
        u.len(),
        |j: int|
            if j == 0 {
                u[s - 1]
            } else if j < s {
                u[j - 1]
            } else {
                u[j]
            },
    )
}

/// `k` applications of [`rot_first`].
pub open spec fn iter_rot(u: Seq<usize>, s: int, k: nat) -> Seq<usize>
    decreases k,
{
    if k == 0 {
        u
    } else {
        iter_rot(rot_first(u, s), s, (k - 1) as nat)
    }
}

/// The exchanges the generator performs at an even bound, from round `i`
/// on: each round swaps the round index with the last position.
pub open spec fn swaps_from(u: Seq<usize>, s: int, i: int) -> Seq<usize>
    decreases s - i,
{
    if i < 0 || i >= s {
        u
    } else {
        swaps_from(swap_seq(u, i, s - 1), s, i + 1)
    }
}

proof fn lemma_neg_one_mod(s: int)
    requires
        s >= 1,
    ensures
        (-1int) % s == s - 1,
{
    vstd::arithmetic::div_mod::lemma_mod_multiples_vanish(-1, s - 1, s);
    vstd::arithmetic::div_mod::lemma_small_mod((s - 1) as nat, s as nat);
}

proof fn lemma_iter_rot_index(u: Seq<usize>, s: int, k: nat)
    requires
        1 <= s <= u.len(),
    ensures
        iter_rot(u, s, k).len() == u.len(),
        forall|j: int| 0 <= j < s ==> iter_rot(u, s, k)[j] == u[(j - k) % s],
        forall|j: int| s <= j < u.len() ==> iter_rot(u, s, k)[j] == u[j],
    decreases k,
{
    if k == 0 {
        assert forall|j: int| 0 <= j < s implies iter_rot(u, s, k)[j] == u[(j - k) % s] by {
            vstd::arithmetic::div_mod::lemma_small_mod(j as nat, s as nat);
        }
    } else {
        let r1 = rot_first(u, s);
        lemma_iter_rot_index(r1, s, (k - 1) as nat);
        assert forall|j: int| s <= j < u.len() implies iter_rot(u, s, k)[j] == u[j] by {
            assert(r1[j] == u[j]);
        }
        assert forall|j: int| 0 <= j < s implies iter_rot(u, s, k)[j] == u[(j - k) % s] by {
            let t = (j - (k - 1)) % s;
            assert(iter_rot(u, s, k)[j] == r1[t]);
            vstd::arithmetic::div_mod::lemma_add_mod_noop(j - (k - 1), -1, s);
            lemma_neg_one_mod(s);
            vstd::arithmetic::div_mod::lemma_small_mod(t as nat, s as nat);
            if t == 0 {
                assert((j - k) % s == (t + (s - 1)) % s);
                vstd::arithmetic::div_mod::lemma_small_mod((s - 1) as nat, s as nat);
                assert(r1[0] == u[s - 1]);
            } else {
                assert((j - k) % s == (t + (s - 1)) % s);
                vstd::arithmetic::div_mod::lemma_mod_multiples_vanish(1, t - 1, s);
                vstd::arithmetic::div_mod::lemma_small_mod((t - 1) as nat, s as nat);
                assert(r1[t] == u[t - 1]);
            }
        }
    }
}

proof fn lemma_iter_rot_full(u: Seq<usize>, s: int)
    requires
        1 <= s <= u.len(),
    ensures
        iter_rot(u, s, s as nat) == u,
{
    lemma_iter_rot_index(u, s, s as nat);
    assert forall|j: int| 0 <= j < s implies iter_rot(u, s, s as nat)[j] == u[j] by {
        vstd::arithmetic::div_mod::lemma_mod_multiples_vanish(-1, j, s);
        vstd::arithmetic::div_mod::lemma_small_mod(j as nat, s as nat);
    }
    assert(iter_rot(u, s, s as nat) =~= u);
}

proof fn lemma_swaps_from_char(u: Seq<usize>, s: int, i: int)
    requires
        2 <= s <= u.len(),
        0 <= i <= s - 1,
    ensures
        swaps_from(u, s, i) == Seq::new(
            u.len(),
            |j: int|
                if j < i {
                    u[j]
                } else if j == i {
                    u[s - 1]
                } else if j < s {
                    u[j - 1]
                } else {
                    u[j]
                },
        ),
    decreases s - i,
{
    let goal = Seq::new(
        u.len(),
        |j: int|
            if j < i {
                u[j]
            } else if j == i {
                u[s - 1]
            } else if j < s {
                u[j - 1]
            } else {
                u[j]
            },
    );
    if i == s - 1 {
        assert(swaps_from(swap_seq(u, s - 1, s - 1), s, s) == swap_seq(u, s - 1, s - 1));
        assert(swaps_from(u, s, i) == swap_seq(u, s - 1, s - 1));
        assert(swap_seq(u, s - 1, s - 1) =~= goal);
    } else {
        let u2 = swap_seq(u, i, s - 1);
        lemma_swaps_from_char(u2, s, i + 1);
        assert(swaps_from(u2, s, i + 1) =~= goal);
    }
}

/// The state the generator leaves behind: unchanged for an odd bound,
/// and with the first `s` values rotated right by one for an even bound
/// of at least two.
pub proof fn lemma_heap_final(u: Seq<usize>, s: nat)
    requires
        s <= u.len(),
    ensures
        heap_go(u, s).1 == (if s >= 2 && s % 2 == 0 {
            rot_first(u, s as int)
        } else {
            u
        }),
    decreases s, s + 1int,
{
    if s <= 1 {
    } else if s % 2 == 1 {
        lemma_heap_loop_final_odd(u, s, 0);
        lemma_iter_rot_full(u, s as int);
    } else {
        lemma_heap_loop_final_even(u, s, 0);
        lemma_swaps_from_char(u, s as int, 0);
        assert(swaps_from(u, s as int, 0) =~= rot_first(u, s as int));
    }
}

proof fn lemma_heap_loop_final_odd(u: Seq<usize>, s: nat, i: nat)
    requires
        s % 2 == 1,
        3 <= s <= u.len(),
        i <= s,
    ensures
        heap_loop(u, s, i).1 == iter_rot(u, s as int, (s - i) as nat),
    decreases s, s - i,
{
    if i >= s {
    } else {
        lemma_heap_final(u, (s - 1) as nat);
        let sub_fin = heap_go(u, (s - 1) as nat).1;
        assert(sub_fin == rot_first(u, (s - 1) as int));
        let v2 = swap_seq(sub_fin, 0, s - 1);
        assert(v2 =~= rot_first(u, s as int));
        lemma_heap_loop_final_odd(v2, s, (i + 1) as nat);
        assert(iter_rot(u, s as int, (s - i) as nat) == iter_rot(
            rot_first(u, s as int),
            s as int,
            (s - i - 1) as nat,
        ));
    }
}

proof fn lemma_heap_loop_final_even(u: Seq<usize>, s: nat, i: nat)
    requires
        s % 2 == 0,
        2 <= s <= u.len(),
        i <= s,
    ensures
        heap_loop(u, s, i).1 == swaps_from(u, s as int, i as int),
    decreases s, s - i,
{
    if i >= s {
    } else {
        lemma_heap_final(u, (s - 1) as nat);
        let v2 = swap_seq(u, i as int, s - 1);
        lemma_heap_loop_final_even(v2, s, (i + 1) as nat);
    }
}

/// How many entries of a permutation table equal `t`.
pub open spec fn count_eq(ps: Seq<Seq<usize>>, t: Seq<usize>) -> nat
    decreases ps.len(),
{
    if ps.len() == 0 {
        0nat
    } else {
        count_eq(ps.drop_last(), t) + (if ps.last() == t {
            1nat
        } else {
            0nat
        })
    }
}

proof fn lemma_count_eq_concat(a: Seq<Seq<usize>>, b: Seq<Seq<usize>>, t: Seq<usize>)
    ensures
        count_eq(a + b, t) == count_eq(a, t) + count_eq(b, t),
    decreases b.len(),
{
    if b.len() == 0 {
        assert(a + b =~= a);
    } else {
        assert((a + b).drop_last() =~= a + b.drop_last());
        assert((a + b).last() == b.last());
        lemma_count_eq_concat(a, b.drop_last(), t);
    }
}

/// A marker for quantifying over the values a permutation holds.
pub open spec fn perm_contains(v: Seq<usize>, x: usize) -> bool {
    x < v.len()
}

/// The sequence is a permutation of `{0, ..., len - 1}`: in range,
/// injective, and onto.
pub open spec fn is_perm_seq(v: Seq<usize>) -> bool {
    &&& forall|j: int| 0 <= j < v.len() ==> (#[trigger] v[j]) < v.len()
    &&& forall|a: int, b: int| 0 <= a < b < v.len() ==> v[a] != v[b]
    &&& forall|x: usize| perm_contains(v, x) ==> exists|j: int| 0 <= j < v.len() && v[j] == x
}

proof fn lemma_swap_perm(v: Seq<usize>, a: int, b: int)
    requires
        is_perm_seq(v),
        0 <= a < v.len(),
        0 <= b < v.len(),
    ensures
        is_perm_seq(swap_seq(v, a, b)),
{
    let w = swap_seq(v, a, b);
    assert(w.len() == v.len());
    assert forall|j: int| 0 <= j < w.len() implies #[trigger] w[j] < w.len() by {
        assert(w[j] == v[if j == a {
            b
        } else if j == b {
            a
        } else {
            j
        }]);
    }
    assert forall|p: int, q: int| 0 <= p < q < w.len() implies w[p] != w[q] by {
        let p1: int = if p == a {
            b
        } else if p == b {
            a
        } else {
            p
        };
        let q1: int = if q == a {
            b
        } else if q == b {
            a
        } else {
            q
        };
        assert(w[p] == v[p1]);
        assert(w[q] == v[q1]);
        assert(p1 != q1);
        if p1 < q1 {
            assert(v[p1] != v[q1]);
        } else {
            assert(v[q1] != v[p1]);
        }
    }
    assert forall|x: usize| perm_contains(w, x) implies exists|j: int|
        0 <= j < w.len() && w[j] == x by {
        assert(perm_contains(v, x));
        let j0 = choose|j: int| 0 <= j < v.len() && v[j] == x;
        let j1: int = if j0 == a {
            b
        } else if j0 == b {
            a
        } else {
            j0
        };
        assert(w[j1] == x);
    }
}

proof fn lemma_rot_perm(v: Seq<usize>, s: int)
    requires
        is_perm_seq(v),
        1 <= s <= v.len(),
    ensures
        is_perm_seq(rot_first(v, s)),
{
    let w = rot_first(v, s);
    assert(w.len() == v.len());
    assert forall|j: int| 0 <= j < w.len() implies #[trigger] w[j] < w.len() by {
        assert(w[j] == v[if j == 0 {
            s - 1
        } else if j < s {
            j - 1
        } else {
            j
        }]);
    }
    assert forall|x: usize| perm_contains(w, x) implies exists|j: int|
        0 <= j < w.len() && w[j] == x by {
        assert(perm_contains(v, x));
        let j0 = choose|j: int| 0 <= j < v.len() && v[j] == x;
        let j1: int = if j0 == s - 1 {
            0
        } else if j0 < s - 1 {
            j0 + 1
        } else {
            j0
        };
        assert(w[j1] == x);
    }
    assert forall|a: int, b: int| 0 <= a < b < w.len() implies w[a] != w[b] by {
        let a1: int = if a == 0 {
            s - 1
        } else if a < s {
            a - 1
        } else {
            a
        };
        let b1: int = if b == 0 {
            s - 1
        } else if b < s {
            b - 1
        } else {
            b
        };
        assert(w[a] == v[a1]);
        assert(w[b] == v[b1]);
        assert(a1 != b1);
        if a1 < b1 {
            assert(v[a1] != v[b1]);
        } else {
            assert(v[b1] != v[a1]);
        }
    }
}

/// The generator's output block for bound `s` contains `t` exactly once
/// when `t` agrees with the working state on every position at or past
/// `s`, and not at all otherwise.
pub proof fn lemma_count_go(t: Seq<usize>, v: Seq<usize>, s: nat)
    requires
        is_perm_seq(v),
        is_perm_seq(t),
        t.len() == v.len(),
        1 <= s <= v.len(),
    ensures
        count_eq(heap_go(v, s).0, t) == (if forall|j: int|
            s <= j < v.len() ==> t[j] == v[j] {
            1nat
        } else {
            0nat
        }),
    decreases s, s + 1int,
{
    if s == 1 {
        let block = heap_go(v, s).0;
        assert(block == seq![v]);
        assert(block.drop_last() =~= Seq::<Seq<usize>>::empty());
        assert(block.last() == v);
        assert(count_eq(block.drop_last(), t) == 0);
        assert(count_eq(block, t) == (if v == t {
            1nat
        } else {
            0nat
        }));
        if forall|j: int| 1 <= j < v.len() ==> t[j] == v[j] {
            let x = t[0];
            assert(x < v.len());
            assert(perm_contains(v, x));
            let j0 = choose|j: int| 0 <= j < v.len() && v[j] == x;
            if j0 >= 1 {
                assert(v[j0] == t[j0]);
                assert(t[j0] == t[0]);
                assert(false);
            }
            assert(v[0] == t[0]);
            assert(t =~= v);
        } else {
            assert(v != t);
        }
    } else if s % 2 == 1 {
        lemma_count_loop_odd(t, v, s, 0);
        if forall|j: int| s <= j < v.len() ==> t[j] == v[j] {
            let x = t[s - 1];
            assert(x < v.len());
            assert(perm_contains(v, x));
            let j0 = choose|j: int| 0 <= j < v.len() && v[j] == x;
            if j0 >= s {
                assert(v[j0] == t[j0]);
                assert(t[j0] == t[s - 1]);
                assert(false);
            }
            assert(0 <= j0 < s && v[j0] == t[s - 1]);
        }
    } else {
        lemma_count_loop_even(t, v, s, 0);
        if forall|j: int| s <= j < v.len() ==> t[j] == v[j] {
            let x = t[s - 1];
            assert(x < v.len());
            assert(perm_contains(v, x));
            let j0 = choose|j: int| 0 <= j < v.len() && v[j] == x;
            if j0 >= s {
                assert(v[j0] == t[j0]);
                assert(t[j0] == t[s - 1]);
                assert(false);
            }
            if j0 == s - 1 {
                assert(t[s - 1] == v[s - 1]);
            } else {
                assert(0 <= j0 < s - 1 && v[j0] == t[s - 1]);
            }
        }
    }
}

proof fn lemma_count_loop_odd(t: Seq<usize>, v: Seq<usize>, s: nat, i: nat)
    requires
        is_perm_seq(v),
        is_perm_seq(t),
        t.len() == v.len(),
        s % 2 == 1,
        3 <= s <= v.len(),
        i <= s,
    ensures
        count_eq(heap_loop(v, s, i).0, t) == (if (forall|j: int|
            s <= j < v.len() ==> t[j] == v[j]) && (exists|a: int|
            i <= a < s && v[a] == t[s - 1]) {
            1nat
        } else {
            0nat
        }),
    decreases s, s - i,
{
    if i >= s {
    } else {
        let sub = heap_go(v, (s - 1) as nat);
        lemma_heap_final(v, (s - 1) as nat);
        let v2 = swap_seq(sub.1, 0, s - 1);
        assert(v2 =~= rot_first(v, s as int));
        lemma_rot_perm(v, s as int);
        assert(is_perm_seq(v2));

        lemma_count_eq_concat(sub.0, heap_loop(v2, s, (i + 1) as nat).0, t);
        lemma_count_go(t, v, (s - 1) as nat);
        lemma_count_loop_odd(t, v2, s, (i + 1) as nat);

        let agree = forall|j: int| s <= j < v.len() ==> t[j] == v[j];
        let blockhit = forall|j: int| s - 1 <= j < v.len() ==> t[j] == v[j];

        // the block condition splits into the suffix condition plus the
        // pivot cell
        assert(blockhit == (agree && t[s - 1] == v[s - 1]));

        // the tail condition over the rotated state reindexes to this one
        assert(forall|j: int| s <= j < v.len() ==> v2[j] == v[j]);
        let tailhit2 = exists|a: int| i + 1 <= a < s && v2[a] == t[s - 1];
        let tailhit = exists|a: int| i <= a < s - 1 && v[a] == t[s - 1];
        assert(tailhit2 == tailhit) by {
            if tailhit2 {
                let a = choose|a: int| i + 1 <= a < s && v2[a] == t[s - 1];
                assert(v2[a] == v[a - 1]);
                assert(i <= a - 1 < s - 1 && v[a - 1] == t[s - 1]);
            }
            if tailhit {
                let a = choose|a: int| i <= a < s - 1 && v[a] == t[s - 1];
                assert(v2[a + 1] == v[a]);
                assert(i + 1 <= a + 1 < s && v2[a + 1] == t[s - 1]);
            }
        }
        let agree2 = forall|j: int| s <= j < v2.len() ==> t[j] == v2[j];
        assert(agree2 == agree);

        // the two hits cannot both fire: the state is injective
        if agree && t[s - 1] == v[s - 1] && tailhit {
            let a = choose|a: int| i <= a < s - 1 && v[a] == t[s - 1];
            assert(v[a] == v[s - 1]);
            assert(false);
        }

        let full = exists|a: int| i <= a < s && v[a] == t[s - 1];
        assert(full == ((t[s - 1] == v[s - 1]) || tailhit)) by {
            if full {
                let a = choose|a: int| i <= a < s && v[a] == t[s - 1];
                if a < s - 1 {
                    assert(tailhit);
                }
            }
            if t[s - 1] == v[s - 1] {
                assert(i <= s - 1 < s && v[s - 1] == t[s - 1]);
            }
            if tailhit {
                let a = choose|a: int| i <= a < s - 1 && v[a] == t[s - 1];
                assert(i <= a < s && v[a] == t[s - 1]);
            }
        }
    }
}

proof fn lemma_count_loop_even(t: Seq<usize>, v: Seq<usize>, s: nat, i: nat)
    requires
        is_perm_seq(v),
        is_perm_seq(t),
        t.len() == v.len(),
        s % 2 == 0,
        2 <= s <= v.len(),
        i <= s - 1,
    ensures
        count_eq(heap_loop(v, s, i).0, t) == (if (forall|j: int|
            s <= j < v.len() ==> t[j] == v[j]) && (t[s - 1] == v[s - 1] || exists|a: int|
            i <= a < s - 1 && v[a] == t[s - 1]) {
            1nat
        } else {
            0nat
        }),
    decreases s, s - i,
{
    let sub = heap_go(v, (s - 1) as nat);
    lemma_heap_final(v, (s - 1) as nat);
    assert(sub.1 == v);
    let v2 = swap_seq(v, i as int, s - 1);
    lemma_count_eq_concat(sub.0, heap_loop(v2, s, (i + 1) as nat).0, t);
    lemma_count_go(t, v, (s - 1) as nat);

    let agree = forall|j: int| s <= j < v.len() ==> t[j] == v[j];
    let blockhit = forall|j: int| s - 1 <= j < v.len() ==> t[j] == v[j];
    assert(blockhit == (agree && t[s - 1] == v[s - 1]));

    if i == s - 1 {
        assert(heap_loop(v2, s, (i + 1) as nat).0 =~= Seq::<Seq<usize>>::empty());
        assert(count_eq(heap_loop(v, s, i).0, t) == count_eq(sub.0, t));
        assert(!(exists|a: int| i <= a < s - 1 && v[a] == t[s - 1]));
    } else {
        lemma_swap_perm(v, i as int, s - 1);
        lemma_count_loop_even(t, v2, s, (i + 1) as nat);

        assert(forall|j: int| s <= j < v.len() ==> v2[j] == v[j]);
        let agree2 = forall|j: int| s <= j < v2.len() ==> t[j] == v2[j];
        assert(agree2 == agree);
        assert(v2[s - 1] == v[i as int]);

        let tailhit2 = exists|a: int| i + 1 <= a < s - 1 && v2[a] == t[s - 1];
        let tailhit_mid = exists|a: int| i + 1 <= a < s - 1 && v[a] == t[s - 1];
        assert(tailhit2 == tailhit_mid) by {
            if tailhit2 {
                let a = choose|a: int| i + 1 <= a < s - 1 && v2[a] == t[s - 1];
                assert(v2[a] == v[a]);
            }
            if tailhit_mid {
                let a = choose|a: int| i + 1 <= a < s - 1 && v[a] == t[s - 1];
                assert(v2[a] == v[a]);
                assert(i + 1 <= a < s - 1 && v2[a] == t[s - 1]);
            }
        }

        let restcond = (v[i as int] == t[s - 1]) || tailhit_mid;
        let tailhit = exists|a: int| i <= a < s - 1 && v[a] == t[s - 1];
        assert(restcond == tailhit) by {
            if v[i as int] == t[s - 1] {
                assert(i <= i < s - 1 && v[i as int] == t[s - 1]);
            }
            if tailhit_mid {
                let a = choose|a: int| i + 1 <= a < s - 1 && v[a] == t[s - 1];
                assert(i <= a < s - 1 && v[a] == t[s - 1]);
            }
            if tailhit {
                let a = choose|a: int| i <= a < s - 1 && v[a] == t[s - 1];
                if a > i {
                    assert(i + 1 <= a < s - 1 && v[a] == t[s - 1]);
                }
            }
        }

        // the block hit and the tail hit cannot both fire
        if agree && t[s - 1] == v[s - 1] && tailhit {
            let a = choose|a: int| i <= a < s - 1 && v[a] == t[s - 1];
            assert(v[a] == v[s - 1]);
            assert(false);
        }
    }
}

/// Every permutation of `{0, ..., n - 1}` is emitted exactly once by the
/// generator run on the identity ordering.
pub proof fn lemma_perms_complete(n: nat, t: Seq<usize>)
    requires
        1 <= n <= usize::MAX,
        t.len() == n,
        is_perm_seq(t),
    ensures
        count_eq(heap_go(iota(n), n).0, t) == 1,
{
    let v = iota(n);
    assert forall|j: int| 0 <= j < v.len() implies #[trigger] v[j] < v.len() by {
        assert(v[j] == j as usize);
    }
    assert forall|a: int, b: int| 0 <= a < b < v.len() implies v[a] != v[b] by {
        assert(v[a] == a as usize);
        assert(v[b] == b as usize);
    }
    assert forall|x: usize| perm_contains(v, x) implies exists|j: int|
        0 <= j < v.len() && v[j] == x by {
        assert(v[x as int] == x);
    }
    assert(is_perm_seq(v));
    lemma_count_go(t, v, n);
}

} // verus!
