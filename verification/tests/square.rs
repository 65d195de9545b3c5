use std::time::Instant;

use math_rs::matrix::square::SquareMatrix;
use math_rs::structures::integers::Integer;
use math_rs::structures::rationals::Rational;

fn rational(value: i64) -> Rational {
    Rational::new(Integer::new(value), Integer::new(1))
}

#[test]
fn test_square_matrix() {
    let matrix = SquareMatrix::new(
        2,
        vec![
            vec![Integer::new(1), Integer::new(2)],
            vec![Integer::new(3), Integer::new(4)],
        ],
    );
    assert_eq!(matrix.dimension(), 2);
    assert_eq!(
        matrix.data(),
        &vec![
            vec![Integer::new(1), Integer::new(2)],
            vec![Integer::new(3), Integer::new(4)]
        ]
    );
}

#[test]
fn test_square_matrix_dimension() {
    let matrix = SquareMatrix::new(
        2,
        vec![
            vec![Integer::new(1), Integer::new(2)],
            vec![Integer::new(3), Integer::new(4)],
        ],
    );
    assert_eq!(matrix.dimension(), 2);
}

#[test]
fn test_square_matrix_data() {
    let matrix = SquareMatrix::new(
        2,
        vec![
            vec![Integer::new(1), Integer::new(2)],
            vec![Integer::new(3), Integer::new(4)],
        ],
    );
    assert_eq!(
        matrix.data(),
        &vec![
            vec![Integer::new(1), Integer::new(2)],
            vec![Integer::new(3), Integer::new(4)]
        ]
    );
}

#[test]
fn build_matrix_from_function_should_not_fail() {
    let matrix = SquareMatrix::from_fn(3, |i, j| rational((i + j) as i64));
    let expected = SquareMatrix::new(
        3,
        vec![
            vec![rational(0), rational(1), rational(2)],
            vec![rational(1), rational(2), rational(3)],
            vec![rational(2), rational(3), rational(4)],
        ],
    );
    assert_eq!(expected, matrix)
}

#[test]
fn minor_computation_should_not_fail() {
    let matrix = SquareMatrix::from_fn(3, |i, j| rational((i + j) as i64));
    let expected = SquareMatrix::new(
        2,
        vec![
            vec![rational(0), rational(1)],
            vec![rational(2), rational(3)],
        ],
    );
    let computed = matrix.minor(1, 2).unwrap();
    assert_eq!(expected, computed);

    let huge_matrix = SquareMatrix::from_fn(100, |i, j| {
        if (i as isize - j as isize).abs() < 3 {
            Integer::new(1)
        } else {
            Integer::new(0)
        }
    });
    let expected = SquareMatrix::from_fn(99, |i, j| {
        if (i as isize - j as isize).abs() < 3 {
            Integer::new(1)
        } else {
            Integer::new(0)
        }
    });
    let start = Instant::now();
    let computed = huge_matrix.minor(0, 0).unwrap();
    let time = Instant::now() - start;
    assert_eq!(expected, computed);
    assert!(time.as_millis() < 1000);
}

#[test]
fn swap_rows_with_0_pivot_should_not_fail() {
    let mut matrix = SquareMatrix::new(
        3,
        vec![
            vec![Integer::new(0), Integer::new(1), Integer::new(2)],
            vec![Integer::new(1), Integer::new(2), Integer::new(3)],
            vec![Integer::new(2), Integer::new(3), Integer::new(4)],
        ],
    );
    let expected = SquareMatrix::new(
        3,
        vec![
            vec![Integer::new(1), Integer::new(2), Integer::new(3)],
            vec![Integer::new(0), Integer::new(1), Integer::new(2)],
            vec![Integer::new(2), Integer::new(3), Integer::new(4)],
        ],
    );
    matrix.swap_rows_with_0_pivot().unwrap();
    assert_eq!(expected, matrix);
}

#[test]
fn leading_principal_minors_should_be_ok() {
    let matrix = SquareMatrix::<Integer>::try_from(vec![
        vec![Integer::new(1), Integer::new(2), Integer::new(3)],
        vec![Integer::new(1), Integer::new(-2), Integer::new(0)],
        vec![Integer::new(0), Integer::new(1), Integer::new(5)],
    ]);
    let submatrix = matrix.unwrap().leading_principal_minor(2).unwrap();
    assert_eq!(
        submatrix,
        SquareMatrix::<Integer>::try_from(vec![
            vec![Integer::new(1), Integer::new(2)],
            vec![Integer::new(1), Integer::new(-2)],
        ])
        .unwrap()
    );
}

#[test]
fn diagonal_is_zero_detects_a_zero_entry() {
    let with_zero = SquareMatrix::new(
        2,
        vec![
            vec![Integer::new(1), Integer::new(2)],
            vec![Integer::new(3), Integer::new(0)],
        ],
    );
    assert!(with_zero.diagonal_is_zero());
    let without_zero = SquareMatrix::new(
        2,
        vec![
            vec![Integer::new(1), Integer::new(2)],
            vec![Integer::new(3), Integer::new(4)],
        ],
    );
    assert!(!without_zero.diagonal_is_zero());
}

#[test]
fn identity_has_ones_on_the_diagonal() {
    let id = SquareMatrix::<Integer>::identity(3);
    for i in 0..3 {
        for j in 0..3 {
            let expected = if i == j { 1 } else { 0 };
            assert_eq!(id.get(i, j).unwrap(), Integer::new(expected));
        }
    }
}

#[test]
fn get_and_set_report_out_of_bounds_positions() {
    let mut matrix = SquareMatrix::new(
        2,
        vec![
            vec![Integer::new(1), Integer::new(2)],
            vec![Integer::new(3), Integer::new(4)],
        ],
    );
    assert_eq!(
        matrix.get(2, 0).err(),
        Some(math_rs::matrix::MatrixError::RowOutOfBounds(2))
    );
    assert_eq!(
        matrix.get(0, 5).err(),
        Some(math_rs::matrix::MatrixError::ColumnOutOfBounds(5))
    );
    matrix.set(0, 0, Integer::new(9)).unwrap();
    assert_eq!(matrix.get(0, 0).unwrap(), Integer::new(9));
}

#[test]
fn non_square_rows_are_rejected() {
    let result = SquareMatrix::<Integer>::try_from(vec![
        vec![Integer::new(1), Integer::new(2)],
        vec![Integer::new(3)],
    ]);
    assert_eq!(result.err(), Some(math_rs::matrix::MatrixError::NonSquareMatrix));
}
