use linalg::error::{CustomErrors, NotImplementedError};
use linalg::matrix::Matrix;
use linalg::operations::{self, get_determinant};
use linalg::util::create_identity_matrix;

#[test]
fn test_get_determinant_2_x_2() {
    let rows: Vec<Vec<i64>> = vec![vec![5, -1], vec![-2, 4]];

    let m = Matrix::new(rows).unwrap();
    match operations::get_determinant(&m) {
        Ok(result) => {
            assert_eq!(result, 18)
        }
        _ => assert!(false),
    };
}

#[test]
fn test_get_determinant_3_x_3() {
    let rows: Vec<Vec<i64>> = vec![vec![5, 1, -1], vec![-2, 4, 2], vec![3, 3, 3]];

    let m = Matrix::new(rows).unwrap();
    match operations::get_determinant(&m) {
        Ok(result) => {
            assert_eq!(result, 60)
        }
        _ => assert!(false),
    };
}

#[test]
fn test_get_determinant_4_x_4() {
    let rows: Vec<Vec<i64>> = vec![
        vec![5, 1, -1, 0],
        vec![-2, 4, 2, -1],
        vec![3, 3, 3, 3],
        vec![1, 2, 3, 4],
    ];

    let m = Matrix::new(rows).unwrap();
    match operations::get_determinant(&m) {
        Ok(result) => {
            assert_eq!(result, 66)
        }
        _ => assert!(false),
    };
}

#[test]
fn test_determinant_of_identity_is_one() {
    for dim in 1..=6usize {
        let id = create_identity_matrix(dim).unwrap();
        assert_eq!(get_determinant(&id).unwrap(), 1);
    }
}

#[test]
fn test_determinant_rejects_non_square() {
    let m = Matrix::new(vec![vec![1, 2, 3], vec![4, 5, 6]]).unwrap();
    match get_determinant(&m) {
        Ok(_) => assert!(false),
        Err(e) => assert_eq!(e, CustomErrors::NotImplemented(NotImplementedError)),
    }
}
