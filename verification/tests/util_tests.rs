use linalg::util::{
    get_permutation_sign, get_perms, heap_permutation, is_all_zeroes, modified_bubble_sort,
    vec_is_diagonalized,
};

#[test]
fn test_vec_is_diagonalized() {
    let vec1: Vec<i64> = vec![0, 0, 1];
    let vec2: Vec<i64> = vec![0, 1, 0];
    let vec3: Vec<i64> = vec![1, 0, 0];

    assert_eq!(vec_is_diagonalized(&vec1, 2), true);
    assert_eq!(vec_is_diagonalized(&vec1, 1), false);
    assert_eq!(vec_is_diagonalized(&vec2, 0), false);
    assert_eq!(vec_is_diagonalized(&vec2, 1), true);
    assert_eq!(vec_is_diagonalized(&vec3, 1), false);
    assert_eq!(vec_is_diagonalized(&vec3, 0), true);
}

#[test]
fn test_is_all_zeros() {
    let vec1: Vec<i64> = vec![0, 0, 1];
    let vec2: Vec<i64> = vec![0, 0, 0];
    let vec3: Vec<i64> = vec![0, 0, 0];
    let vec4: Vec<i64> = vec![0, 0, 0];
    let vec5: Vec<i64> = vec![2, 0, 0];

    assert_eq!(is_all_zeroes(&vec1), false);
    assert_eq!(is_all_zeroes(&vec2), true);
    assert_eq!(is_all_zeroes(&vec3), true);
    assert_eq!(is_all_zeroes(&vec4), true);
    assert_eq!(is_all_zeroes(&vec5), false);
}

#[test]
fn test_get_perms_counts() {
    assert_eq!(get_perms(1).len(), 1);
    assert_eq!(get_perms(2).len(), 2);
    assert_eq!(get_perms(3).len(), 6);
    assert_eq!(get_perms(4).len(), 24);
}

#[test]
fn test_get_perms_are_distinct_permutations() {
    let perms = get_perms(3);
    for p in &perms {
        let mut seen = vec![false; 3];
        for &x in p {
            assert!(x < 3);
            assert!(!seen[x]);
            seen[x] = true;
        }
    }
    for a in 0..perms.len() {
        for b in (a + 1)..perms.len() {
            assert_ne!(perms[a], perms[b]);
        }
    }
}

#[test]
fn test_heap_permutation_two_elements() {
    let mut base: Vec<usize> = vec![0, 1];
    let perms = heap_permutation(&mut base, 2);
    assert_eq!(perms.len(), 2);
    assert!(perms.contains(&vec![0, 1]));
    assert!(perms.contains(&vec![1, 0]));
}

#[test]
fn test_heap_permutation_final_state() {
    // an even bound leaves the scratch vector rotated right by one
    let mut even: Vec<usize> = vec![0, 1, 2, 3];
    heap_permutation(&mut even, 4);
    assert_eq!(even, vec![3, 0, 1, 2]);

    // an odd bound restores it
    let mut odd: Vec<usize> = vec![0, 1, 2];
    heap_permutation(&mut odd, 3);
    assert_eq!(odd, vec![0, 1, 2]);
}

#[test]
fn test_permutation_sign_identity() {
    assert_eq!(get_permutation_sign(vec![0]), 1);
    assert_eq!(get_permutation_sign(vec![0, 1]), 1);
    assert_eq!(get_permutation_sign(vec![0, 1, 2]), 1);
    assert_eq!(get_permutation_sign(vec![0, 1, 2, 3]), 1);
}

#[test]
fn test_permutation_sign_single_transposition() {
    // adjacent exchange
    assert_eq!(get_permutation_sign(vec![1, 0, 2]), -1);
    // distant exchange
    assert_eq!(get_permutation_sign(vec![2, 1, 0]), -1);
    assert_eq!(get_permutation_sign(vec![3, 1, 2, 0]), -1);
}

#[test]
fn test_permutation_sign_even_cycle() {
    // a three-cycle is even
    assert_eq!(get_permutation_sign(vec![1, 2, 0]), 1);
}

#[test]
fn test_modified_bubble_sort_counts_swaps() {
    let mut v: Vec<usize> = vec![3, 1, 2];
    let swaps = modified_bubble_sort(&mut v);
    assert_eq!(swaps, 2);
    assert_eq!(v, vec![1, 2, 3]);

    let mut sorted: Vec<usize> = vec![1, 2, 3, 4];
    assert_eq!(modified_bubble_sort(&mut sorted), 0);

    let mut reversed: Vec<usize> = vec![3, 2, 1, 0];
    assert_eq!(modified_bubble_sort(&mut reversed), 6);
}
