use linalg::error::{CustomErrors, EmptyVectorError, NotImplementedError, SingularMatrixError};
use linalg::inverse::cramer_inverse;
use linalg::matrix::Matrix;

#[test]
fn test_cramer_inverse() {
    let rows: Vec<Vec<i64>> = vec![vec![1, 1, 1], vec![3, 2, 1], vec![2, 1, 3]];

    let m = Matrix::new(rows).unwrap();
    let target_inverse: Vec<Vec<f64>> = vec![
        vec![-1.6666666666666667, 0.6666666666666666, 0.3333333333333333],
        vec![2.3333333333333335, -0.3333333333333333, -0.6666666666666666],
        vec![0.3333333333333333, -0.3333333333333333, 0.3333333333333333],
    ];
    let calculated_inverse = cramer_inverse(&m).unwrap();

    for i in 0..3 {
        for j in 0..3 {
            let entry = calculated_inverse.rows[i][j];
            let value = entry.num as f64 / entry.den as f64;
            assert_eq!(value, target_inverse[i][j]);
        }
    }
}

#[test]
fn test_cramer_inverse_times_matrix_is_identity() {
    let a: Vec<Vec<i64>> = vec![vec![1, 1, 1], vec![3, 2, 1], vec![2, 1, 3]];
    let m = Matrix::new(a.clone()).unwrap();
    let inv = cramer_inverse(&m).unwrap();

    for i in 0..3 {
        for j in 0..3 {
            let mut acc = 0.0f64;
            for k in 0..3 {
                let entry = inv.rows[i][k];
                let inv_ik = entry.num as f64 / entry.den as f64;
                acc += inv_ik * a[k][j] as f64;
            }
            let expected = if i == j { 1.0 } else { 0.0 };
            assert!((acc - expected).abs() < 1e-9);
        }
    }
}

#[test]
fn test_cramer_inverse_singular() {
    let m = Matrix::new(vec![vec![1, 2], vec![2, 4]]).unwrap();
    match cramer_inverse(&m) {
        Ok(_) => assert!(false),
        Err(e) => assert_eq!(e, CustomErrors::SingularMatrix(SingularMatrixError)),
    }
}

#[test]
fn test_cramer_inverse_non_square() {
    let m = Matrix::new(vec![vec![1, 2, 3], vec![4, 5, 6]]).unwrap();
    match cramer_inverse(&m) {
        Ok(_) => assert!(false),
        Err(e) => assert_eq!(e, CustomErrors::NotImplemented(NotImplementedError)),
    }
}

#[test]
fn test_cramer_inverse_one_by_one() {
    let m = Matrix::new(vec![vec![4]]).unwrap();
    match cramer_inverse(&m) {
        Ok(_) => assert!(false),
        Err(e) => assert_eq!(e, CustomErrors::EmptyVector(EmptyVectorError)),
    }
}
