use linalg::adjugate::get_adjugate;
use linalg::cofactor::{get_cofactor, get_minor};
use linalg::error::{CustomErrors, EmptyVectorError};
use linalg::matrix::Matrix;

#[test]
fn test_get_minor_3_x_3() {
    let matrix = Matrix::new(vec![vec![0, 0, 0], vec![1, 2, 3], vec![4, 5, 6]]).unwrap();

    let target_minor_a = Matrix::new(vec![vec![2, 3], vec![5, 6]]).unwrap();
    let calculated_minor_a = get_minor(0, 0, &matrix).unwrap();
    assert_eq!(target_minor_a, calculated_minor_a);

    let target_minor_b = Matrix::new(vec![vec![0, 0], vec![4, 6]]).unwrap();
    let calculated_minor_b = get_minor(1, 1, &matrix).unwrap();
    assert_eq!(target_minor_b, calculated_minor_b);

    let target_minor_c = Matrix::new(vec![vec![0, 0], vec![1, 2]]).unwrap();
    let calculated_minor_c = get_minor(2, 2, &matrix).unwrap();
    assert_eq!(target_minor_c, calculated_minor_c);
}

#[test]
fn test_get_cofactor() {
    let matrix = Matrix::new(vec![vec![-4, 7], vec![-11, 9]]).unwrap();
    let target_cofactor_matrix = Matrix::new(vec![vec![9, 11], vec![-7, -4]]).unwrap();
    let calculated_cofactor_matrix = get_cofactor(&matrix).unwrap();

    assert_eq!(target_cofactor_matrix, calculated_cofactor_matrix);

    let matrix = Matrix::new(vec![vec![1, 2, 3], vec![4, 5, 6], vec![5, 4, 3]]).unwrap();
    let target_cofactor_matrix =
        Matrix::new(vec![vec![-9, 18, -9], vec![6, -12, 6], vec![-3, 6, -3]]).unwrap();
    let calculated_cofactor_matrix = get_cofactor(&matrix).unwrap();

    assert_eq!(target_cofactor_matrix, calculated_cofactor_matrix);
}

#[test]
fn test_get_adjugate() {
    let matrix = Matrix::new(vec![vec![1, 2, 3], vec![3, 2, 1], vec![1, 2, 3]]).unwrap();
    let target_adjugate =
        Matrix::new(vec![vec![4, 0, -4], vec![-8, 0, 8], vec![4, 0, -4]]).unwrap();
    let calculated_adjugate = get_adjugate(&matrix).unwrap();

    assert_eq!(target_adjugate, calculated_adjugate)
}

#[test]
fn test_adjugate_is_transpose_of_cofactor() {
    let matrix = Matrix::new(vec![vec![2, 0, 1], vec![1, 3, 2], vec![1, 1, 1]]).unwrap();
    let adjugate = get_adjugate(&matrix).unwrap();
    let cofactor_transposed = get_cofactor(&matrix).unwrap().transpose();
    assert_eq!(adjugate, cofactor_transposed);
}

#[test]
fn test_minor_of_one_by_one_fails() {
    let matrix = Matrix::new(vec![vec![7]]).unwrap();
    match get_minor(0, 0, &matrix) {
        Ok(_) => assert!(false),
        Err(e) => assert_eq!(e, CustomErrors::EmptyVector(EmptyVectorError)),
    }
}

#[test]
fn test_minor_with_out_of_range_row() {
    // removing a row index beyond the matrix only deletes the column
    let matrix = Matrix::new(vec![vec![1, 2], vec![3, 4]]).unwrap();
    let expected = Matrix::new(vec![vec![2], vec![4]]).unwrap();
    assert_eq!(get_minor(5, 0, &matrix).unwrap(), expected);
}
