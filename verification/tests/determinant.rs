use std::time::Instant;

use math_rs::matrix::determinant::{
    bareiss_algorithm, gaussian_elimination_determinant, montante_algorithm, triangle_rule,
    DeterminantMethod, Signature,
};
use math_rs::matrix::square::SquareMatrix;
use math_rs::matrix::MatrixError;
use math_rs::structures::integers::Integer;
use math_rs::structures::rationals::Rational;

fn int_square(rows: Vec<Vec<i64>>) -> SquareMatrix<Integer> {
    SquareMatrix::try_from(
        rows.into_iter()
            .map(|row| row.into_iter().map(Integer::new).collect())
            .collect(),
    )
    .unwrap()
}

fn rational_square(rows: Vec<Vec<i64>>) -> SquareMatrix<Rational> {
    SquareMatrix::try_from(
        rows.into_iter()
            .map(|row| {
                row.into_iter()
                    .map(|v| Rational::new(Integer::new(v), Integer::new(1)))
                    .collect()
            })
            .collect(),
    )
    .unwrap()
}

#[test]
fn laplace_expansion_should_not_fail() {
    let matrix = int_square(vec![vec![1, 2, 3], vec![1, -2, 0], vec![0, 1, 5]]);
    assert_eq!(montante_algorithm(&matrix), Ok(Integer::new(-17)));

    let matrix = SquareMatrix::from_fn(9, |i, j| {
        if i == j {
            Integer::new(1)
        } else {
            Integer::new(0)
        }
    });
    let start = Instant::now();
    let computed = montante_algorithm(&matrix);
    let time = start.elapsed().as_millis();
    println!("Montante's method took {} ms", time);
    assert!(time < 5000);
    assert_eq!(computed, Ok(Integer::new(1)));
}

#[test]
fn bareiss_algorithm_should_not_fail() {
    let matrix = int_square(vec![
        vec![1, 2, 3, 4],
        vec![1, -2, 0, 1],
        vec![0, 1, 5, 1],
        vec![1, -1, 2, 1],
    ]);
    assert_eq!(bareiss_algorithm(&matrix), Ok(Integer::new(14)));
}

#[test]
fn large_bareiss_algorithm_should_not_take_long() {
    let matrix = SquareMatrix::from_fn(100, |i, j| {
        if i == j {
            Integer::new(1)
        } else {
            Integer::new(0)
        }
    });
    let start = Instant::now();
    let result = bareiss_algorithm(&matrix);
    let time = start.elapsed().as_millis();
    println!("Time elapsed in bareiss_algorithm: {} ms", time);
    assert!(time < 2000);
    assert_eq!(result, Ok(Integer::new(1)));
}

#[test]
fn gaussian_elimination_determinant_should_not_fail() {
    let matrix = rational_square(vec![
        vec![1, 2, 3, 4],
        vec![1, -2, 0, 1],
        vec![0, 1, 5, 1],
        vec![1, -1, 2, 1],
    ]);
    let det = gaussian_elimination_determinant(&matrix).unwrap();
    assert!(det.equals(&Rational::new(Integer::new(14), Integer::new(1))));
}

#[test]
fn triangle_rule_rejects_unsupported_dimensions() {
    let matrix = int_square(vec![
        vec![1, 2, 3, 4],
        vec![1, -2, 0, 1],
        vec![0, 1, 5, 1],
        vec![1, -1, 2, 1],
    ]);
    assert_eq!(triangle_rule(&matrix), Err(MatrixError::InvalidDimension(4)));
    let det = matrix.determinant(DeterminantMethod::TriangleRule);
    assert_eq!(det, Err(MatrixError::InvalidDimension(4)));
}

#[test]
fn triangle_rule_handles_small_dimensions() {
    assert_eq!(triangle_rule(&int_square(vec![vec![7]])), Ok(Integer::new(7)));
    assert_eq!(
        triangle_rule(&int_square(vec![vec![1, 2], vec![3, 4]])),
        Ok(Integer::new(-2))
    );
    assert_eq!(
        triangle_rule(&int_square(vec![vec![1, 2, 3], vec![1, -2, 0], vec![0, 1, 5]])),
        Ok(Integer::new(-17))
    );
}

#[test]
fn optimize_selects_a_working_method_by_size() {
    let small = int_square(vec![vec![1, 2], vec![3, 4]]);
    assert_eq!(small.determinant(DeterminantMethod::Optimize), Ok(Integer::new(-2)));
    let medium = int_square(vec![
        vec![1, 2, 3, 4],
        vec![1, -2, 0, 1],
        vec![0, 1, 5, 1],
        vec![1, -1, 2, 1],
    ]);
    assert_eq!(medium.determinant(DeterminantMethod::Optimize), Ok(Integer::new(14)));
}

#[test]
fn bareiss_returns_zero_for_a_singular_matrix() {
    let matrix = int_square(vec![vec![1, 2], vec![2, 4]]);
    assert_eq!(bareiss_algorithm(&matrix), Ok(Integer::new(0)));
    let with_zero_column = int_square(vec![vec![0, 1], vec![0, 2]]);
    assert_eq!(bareiss_algorithm(&with_zero_column), Ok(Integer::new(0)));
}

#[test]
fn signature_tracks_row_swap_parity() {
    let mut sign = Signature::new(1);
    assert_eq!(sign, Signature::Even);
    assert_eq!(sign.as_number::<Integer>(), Integer::new(1));
    sign.change();
    assert_eq!(sign, Signature::Odd);
    assert_eq!(sign.as_number::<Integer>(), Integer::new(-1));
    assert_eq!(Signature::new(-1), Signature::Odd);
}

#[test]
fn lu_decomposition_splits_into_triangular_factors() {
    let matrix = rational_square(vec![vec![4, 3], vec![6, 3]]);
    let (l, u) = matrix.lu().unwrap();
    let expected_l = SquareMatrix::try_from(vec![
        vec![
            Rational::new(Integer::new(1), Integer::new(1)),
            Rational::new(Integer::new(0), Integer::new(1)),
        ],
        vec![
            Rational::new(Integer::new(3), Integer::new(2)),
            Rational::new(Integer::new(1), Integer::new(1)),
        ],
    ])
    .unwrap();
    let expected_u = SquareMatrix::try_from(vec![
        vec![
            Rational::new(Integer::new(4), Integer::new(1)),
            Rational::new(Integer::new(3), Integer::new(1)),
        ],
        vec![
            Rational::new(Integer::new(0), Integer::new(1)),
            Rational::new(Integer::new(-3), Integer::new(2)),
        ],
    ])
    .unwrap();
    assert!(l.equals(&expected_l));
    assert!(u.equals(&expected_u));
}

#[test]
fn lu_reports_a_zero_pivot() {
    let matrix = rational_square(vec![vec![0, 1], vec![1, 0]]);
    let result = matrix.lu();
    assert!(matches!(result, Err(MatrixError::MatrixError(_))));
}

#[test]
fn error_messages_are_human_readable() {
    assert_eq!(MatrixError::RowOutOfBounds(3).message(), "The row 3 is out of bounds");
    assert_eq!(
        MatrixError::ColumnOutOfBounds(12).message(),
        "The column 12 is out of bounds"
    );
    assert_eq!(MatrixError::NonSquareMatrix.message(), "The matrix is not square");
    assert_eq!(
        MatrixError::InvalidDimension(4).message(),
        "The dimension 4 is not supported"
    );
}
