use linalg::error::{BadTypeError, CustomErrors, EmptyVectorError, MismatchError};
use linalg::logic::{can_add, can_multiply, is_square, is_tridiagonal};
use linalg::matrix::Matrix;
use linalg::operations::{multiply_matrix_vector, scalar_divide};
use linalg::vector::{
    add_vec, cosine_similarity, dot_product, magnitude, mean, multiply_vec, scalar_add,
    scalar_multiply, scalar_subtract, sub_from_scalar, sub_vec, sum,
};

#[test]
fn test_multiply_matrix_vector() {
    let mat_rows: Vec<Vec<i64>> = vec![vec![1, -1, 2], vec![0, -3, 1]];
    let mat = Matrix::new(mat_rows).unwrap();

    let vec: Vec<i64> = vec![2, 1, 0];

    let assumed: Vec<i64> = vec![1, -3];

    let target = multiply_matrix_vector(&mat, &vec).unwrap();

    assert_eq!(assumed, target);

    let vec2: Vec<i64> = vec![2, 1];

    let assumed = CustomErrors::Mismatch(MismatchError);
    match multiply_matrix_vector(&mat, &vec2) {
        Ok(_) => {}
        Err(err) => {
            assert_eq!(err, assumed);
        }
    }
}

#[test]
fn test_vector_elementwise_operations() {
    let a: Vec<i64> = vec![1, 2, 3];
    let b: Vec<i64> = vec![10, 20, 30];
    assert_eq!(add_vec(&a, &b).unwrap(), vec![11, 22, 33]);
    assert_eq!(sub_vec(&b, &a).unwrap(), vec![9, 18, 27]);
    assert_eq!(multiply_vec(&a, &b).unwrap(), vec![10, 40, 90]);

    let short: Vec<i64> = vec![1];
    match add_vec(&a, &short) {
        Ok(_) => assert!(false),
        Err(e) => assert_eq!(e, CustomErrors::Mismatch(MismatchError)),
    }
}

#[test]
fn test_sum_and_magnitude() {
    let v: Vec<i64> = vec![1, 2, 3, 4];
    assert_eq!(sum(&v).unwrap(), 10);
    assert_eq!(magnitude(&v).unwrap(), 30);

    let empty: Vec<i64> = vec![];
    match sum(&empty) {
        Ok(_) => assert!(false),
        Err(e) => assert_eq!(e, CustomErrors::EmptyVector(EmptyVectorError)),
    }
    match magnitude(&empty) {
        Ok(_) => assert!(false),
        Err(e) => assert_eq!(e, CustomErrors::EmptyVector(EmptyVectorError)),
    }
}

#[test]
fn test_mean_is_exact() {
    let v: Vec<i64> = vec![1, 2, 3, 4];
    let mn = mean(&v).unwrap();
    // 10 / 4 == 5 / 2
    assert_eq!(mn.num * 2, 5 * mn.den);

    let empty: Vec<i64> = vec![];
    match mean(&empty) {
        Ok(_) => assert!(false),
        Err(e) => assert_eq!(e, CustomErrors::EmptyVector(EmptyVectorError)),
    }
}

#[test]
fn test_dot_product_values_and_errors() {
    let a: Vec<i64> = vec![1, 2, 3];
    let b: Vec<i64> = vec![4, 5, 6];
    assert_eq!(dot_product(&a, &b).unwrap(), 32);

    let short: Vec<i64> = vec![1];
    match dot_product(&a, &short) {
        Ok(_) => assert!(false),
        Err(e) => assert_eq!(e, CustomErrors::Mismatch(MismatchError)),
    }
    let empty_a: Vec<i64> = vec![];
    let empty_b: Vec<i64> = vec![];
    match dot_product(&empty_a, &empty_b) {
        Ok(_) => assert!(false),
        Err(e) => assert_eq!(e, CustomErrors::EmptyVector(EmptyVectorError)),
    }
}

#[test]
fn test_cosine_similarity_values() {
    let a: Vec<i64> = vec![1, 0];
    let b: Vec<i64> = vec![0, 1];
    let c = cosine_similarity(&a, &b).unwrap();
    assert_eq!(c.num, 0);

    // parallel vectors: dot == 2, squared magnitudes 1 and 4
    let d: Vec<i64> = vec![1];
    let e: Vec<i64> = vec![2];
    let r = cosine_similarity(&d, &e).unwrap();
    assert_eq!(r.num * 2, 1 * r.den);

    // a zero vector gives a zero denominator, reported as BadType
    let z: Vec<i64> = vec![0, 0];
    match cosine_similarity(&z, &a) {
        Ok(_) => assert!(false),
        Err(err) => assert_eq!(err, CustomErrors::BadType(BadTypeError)),
    }
}

#[test]
fn test_vector_scalar_operations() {
    let v: Vec<i64> = vec![1, 2, 3];
    assert_eq!(scalar_add(&v, 10).unwrap(), vec![11, 12, 13]);
    assert_eq!(scalar_subtract(&v, 1).unwrap(), vec![0, 1, 2]);
    assert_eq!(scalar_multiply(&v, 3).unwrap(), vec![3, 6, 9]);
    assert_eq!(sub_from_scalar(10, &v), vec![9, 8, 7]);

    let divided = linalg::vector::scalar_divide(&v, 2).unwrap();
    assert_eq!(divided[0].num, 1);
    assert_eq!(divided[0].den, 2);
    assert_eq!(divided[2].num, 3);
    assert_eq!(divided[2].den, 2);

    match linalg::vector::scalar_divide(&v, 0) {
        Ok(_) => assert!(false),
        Err(e) => assert_eq!(e, CustomErrors::BadType(BadTypeError)),
    }

    let empty: Vec<i64> = vec![];
    match scalar_add(&empty, 1) {
        Ok(_) => assert!(false),
        Err(e) => assert_eq!(e, CustomErrors::EmptyVector(EmptyVectorError)),
    }
}

#[test]
fn test_matrix_scalar_divide_exact() {
    let m = Matrix::new(vec![vec![1, 2], vec![3, 4]]).unwrap();
    let r = scalar_divide(&m, 2).unwrap();
    assert_eq!(r.rows[0][0].num, 1);
    assert_eq!(r.rows[0][0].den, 2);
    assert_eq!(r.rows[1][1].num, 4);
    assert_eq!(r.rows[1][1].den, 2);

    match scalar_divide(&m, 0) {
        Ok(_) => assert!(false),
        Err(e) => assert_eq!(e, CustomErrors::BadType(BadTypeError)),
    }
}

#[test]
fn test_shape_predicates() {
    let a = Matrix::new(vec![vec![1, 2], vec![3, 4]]).unwrap();
    let b = Matrix::new(vec![vec![1, 2], vec![3, 4]]).unwrap();
    let c = Matrix::new(vec![vec![1, 2, 3], vec![4, 5, 6]]).unwrap();

    assert!(can_add(&a, &b));
    assert!(!can_add(&a, &c));
    assert!(can_multiply(&a, &b));
    assert!(!can_multiply(&c, &c));
    assert!(is_square(&a));
    assert!(!is_square(&c));
}

#[test]
fn test_is_tridiagonal_bands() {
    let good = Matrix::new(vec![vec![1, 2, 0], vec![3, 4, 5], vec![0, 6, 7]]).unwrap();
    assert!(is_tridiagonal(&good));

    let bad = Matrix::new(vec![vec![1, 0, 0], vec![3, 4, 5], vec![0, 6, 7]]).unwrap();
    assert!(!is_tridiagonal(&bad));
}
