use linalg::algebra::solve_system;
use linalg::error::{CustomErrors, MismatchError};
use linalg::matrix::Matrix;

#[test]
fn test_solve_system() {
    // should succeed with a vector of 16/11, -4/11, 1
    let rows_1: Vec<Vec<i64>> = vec![
        vec![1, 4, 3, 3],
        vec![3, 1, 0, 4],
        vec![0, 0, 5, 5],
    ];
    let m1 = Matrix::new(rows_1).unwrap();
    match solve_system(m1) {
        Ok(solved_1) => {
            let e1: f64 = 16.0 / 11.0;
            let e2: f64 = -4.0 / 11.0;
            let e3: f64 = 1.0;
            let comp_vec: Vec<f64> = vec![e1, e2, e3];
            assert_eq!(solved_1.len(), comp_vec.len());
            for (entry, expected) in solved_1.iter().zip(comp_vec.iter()) {
                let value = entry.num as f64 / entry.den as f64;
                assert_eq!(value, *expected);
            }
        }
        Err(_) => {
            assert!(false)
        }
    };

    //should fail on a mismatch error
    let rows_1: Vec<Vec<i64>> = vec![
        vec![1, 4, 3],
        vec![3, 1, 0],
        vec![0, 0, 5],
    ];
    let m1 = Matrix::new(rows_1).unwrap();
    match solve_system(m1) {
        Ok(_) => {
            assert!(false)
        }
        Err(err) => {
            assert_eq!(err, CustomErrors::Mismatch(MismatchError))
        }
    };
}

#[test]
fn test_solve_system_single_equation() {
    let rows: Vec<Vec<i64>> = vec![vec![3, 6]];
    let m = Matrix::new(rows).unwrap();
    let solved = solve_system(m).unwrap();
    assert_eq!(solved.len(), 1);
    assert_eq!(solved[0].num as f64 / solved[0].den as f64, 2.0);
}

#[test]
fn test_solve_system_identity_coefficients() {
    let rows: Vec<Vec<i64>> = vec![vec![1, 0, 7], vec![0, 1, -2]];
    let m = Matrix::new(rows).unwrap();
    let solved = solve_system(m).unwrap();
    assert_eq!(solved[0].num as f64 / solved[0].den as f64, 7.0);
    assert_eq!(solved[1].num as f64 / solved[1].den as f64, -2.0);
}

#[test]
fn test_solve_system_zero_pivot_exchange() {
    // the first pivot entry is exactly zero, forcing the additive
    // exchange branch rather than a textbook row interchange
    let rows: Vec<Vec<i64>> = vec![vec![0, 1, 3], vec![1, 0, 5]];
    let m = Matrix::new(rows).unwrap();
    let solved = solve_system(m).unwrap();
    assert_eq!(solved[0].num as f64 / solved[0].den as f64, 5.0);
    assert_eq!(solved[1].num as f64 / solved[1].den as f64, 3.0);
}
