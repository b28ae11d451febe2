use linalg::error::{CustomErrors, EmptyVectorError, MismatchError, NonUniformError};
use linalg::matrix::Matrix;
use linalg::operations::{add_matrices, multiply_matrices, sub_matrices};
use linalg::util::create_identity_matrix;

#[test]
fn test_add_matrices_2_x_2() {
    let rows: Vec<Vec<i64>> = vec![vec![5, -1], vec![-2, 4]];

    let rows_2 = rows.clone();

    let m = Matrix::new(rows).unwrap();
    let m2 = Matrix::new(rows_2).unwrap();
    let rows_3: Vec<Vec<i64>> = vec![vec![10, -2], vec![-4, 8]];
    let m3 = Matrix::new(rows_3).unwrap();
    match add_matrices(m, m2) {
        Ok(val) => {
            assert_eq!(val, m3)
        }
        _ => assert!(false),
    }
}

#[test]
fn test_multiply_matrices() {
    let vec_1: Vec<i64> = vec![1, 1, 1];
    let vec_2: Vec<i64> = vec![1, 1, 1];

    let vec3: Vec<i64> = vec![1, 1];
    let vec4: Vec<i64> = vec![1, 1];
    let vec5: Vec<i64> = vec![1, 1];

    let m = Matrix::new(vec![vec_1, vec_2]).unwrap();
    let m2 = Matrix::new(vec![vec3, vec4, vec5]).unwrap();

    let m3: Matrix = Matrix::new(vec![vec![3, 3], vec![3, 3]]).unwrap();
    match multiply_matrices(&m, &m2) {
        Ok(matrix) => assert_eq!(matrix, m3),
        _ => assert!(false),
    }
}

#[test]
fn test_new_rejects_empty_rows() {
    let rows: Vec<Vec<i64>> = vec![];
    match Matrix::new(rows) {
        Ok(_) => assert!(false),
        Err(e) => assert_eq!(e, CustomErrors::EmptyVector(EmptyVectorError)),
    }
}

#[test]
fn test_new_rejects_empty_first_row() {
    let rows: Vec<Vec<i64>> = vec![vec![]];
    match Matrix::new(rows) {
        Ok(_) => assert!(false),
        Err(e) => assert_eq!(e, CustomErrors::EmptyVector(EmptyVectorError)),
    }
}

#[test]
fn test_new_rejects_ragged_rows() {
    let rows: Vec<Vec<i64>> = vec![vec![1, 2], vec![3]];
    match Matrix::new(rows) {
        Ok(_) => assert!(false),
        Err(e) => assert_eq!(e, CustomErrors::NonUniform(NonUniformError)),
    }
}

#[test]
fn test_transpose_swaps_rows_and_columns() {
    let m = Matrix::new(vec![vec![1, 2, 3], vec![4, 5, 6]]).unwrap();
    let t = m.transpose();
    let expected = Matrix::new(vec![vec![1, 4], vec![2, 5], vec![3, 6]]).unwrap();
    assert_eq!(t, expected);
    assert_eq!(t.m, 3);
    assert_eq!(t.n, 2);
}

#[test]
fn test_trace_square_and_rectangular() {
    let m = Matrix::new(vec![vec![1, 2], vec![3, 4]]).unwrap();
    assert_eq!(m.trace(), 5);

    // a non-square matrix silently sums min(m, n) diagonal cells
    let r = Matrix::new(vec![vec![1, 2, 3], vec![4, 5, 6]]).unwrap();
    assert_eq!(r.trace(), 6);
}

#[test]
fn test_identity_matrix_contents() {
    let id = create_identity_matrix(3).unwrap();
    let expected = Matrix::new(vec![vec![1, 0, 0], vec![0, 1, 0], vec![0, 0, 1]]).unwrap();
    assert_eq!(id, expected);

    match create_identity_matrix(0) {
        Ok(_) => assert!(false),
        Err(e) => assert_eq!(e, CustomErrors::EmptyVector(EmptyVectorError)),
    }
}

#[test]
fn test_error_message_text() {
    let err = CustomErrors::Mismatch(MismatchError);
    assert_eq!(err.message(), "Matrix dimensions are mismatched.");
}

#[test]
fn test_add_matrices_shape_mismatch() {
    let a = Matrix::new(vec![vec![1, 2]]).unwrap();
    let b = Matrix::new(vec![vec![1], vec![2]]).unwrap();
    match add_matrices(a, b) {
        Ok(_) => assert!(false),
        Err(e) => assert_eq!(e, CustomErrors::Mismatch(MismatchError)),
    }
}

#[test]
fn test_sub_matrices_elementwise() {
    let a = Matrix::new(vec![vec![5, 7], vec![9, 11]]).unwrap();
    let b = Matrix::new(vec![vec![1, 2], vec![3, 4]]).unwrap();
    let expected = Matrix::new(vec![vec![4, 5], vec![6, 7]]).unwrap();
    match sub_matrices(a, b) {
        Ok(val) => assert_eq!(val, expected),
        _ => assert!(false),
    }
}

#[test]
fn test_multiply_matrices_shape_mismatch() {
    let a = Matrix::new(vec![vec![1, 2]]).unwrap();
    let b = Matrix::new(vec![vec![1, 2]]).unwrap();
    match multiply_matrices(&a, &b) {
        Ok(_) => assert!(false),
        Err(e) => assert_eq!(e, CustomErrors::Mismatch(MismatchError)),
    }
}
