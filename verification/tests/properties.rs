use std::time::Instant;

use math_rs::matrix::determinant::{bareiss_algorithm, montante_algorithm, DeterminantMethod};
use math_rs::matrix::square::SquareMatrix;
use math_rs::structures::integers::Integer;
use math_rs::structures::rationals::Rational;
use math_rs::structures::Ring;

fn int_square(rows: Vec<Vec<i64>>) -> SquareMatrix<Integer> {
    SquareMatrix::try_from(
        rows.into_iter()
            .map(|row| row.into_iter().map(Integer::new).collect())
            .collect(),
    )
    .unwrap()
}

fn rational_square(rows: Vec<Vec<i64>>) -> SquareMatrix<Rational> {
    SquareMatrix::try_from(
        rows.into_iter()
            .map(|row| {
                row.into_iter()
                    .map(|v| Rational::new(Integer::new(v), Integer::new(1)))
                    .collect()
            })
            .collect(),
    )
    .unwrap()
}

fn rational_of(v: i64) -> Rational {
    Rational::new(Integer::new(v), Integer::new(1))
}

#[test]
fn methods_agree_on_small_matrices() {
    let rows = vec![
        vec![2, -1, 0, 3],
        vec![1, 4, -2, 1],
        vec![0, 5, 1, -1],
        vec![3, 0, 2, 2],
    ];
    let matrix = rational_square(rows.clone());
    let bareiss = matrix.determinant(DeterminantMethod::BareissAlgorithm).unwrap();
    let laplace = matrix.determinant(DeterminantMethod::LaplaceExpansion).unwrap();
    let gauss = matrix.determinant(DeterminantMethod::GaussianElimination).unwrap();
    assert!(bareiss.equals(&laplace));
    assert!(bareiss.equals(&gauss));

    let three = vec![vec![1, 2, 3], vec![1, -2, 0], vec![0, 1, 5]];
    let matrix3 = rational_square(three);
    let triangle = matrix3.determinant(DeterminantMethod::TriangleRule).unwrap();
    let bareiss3 = matrix3.determinant(DeterminantMethod::BareissAlgorithm).unwrap();
    let laplace3 = matrix3.determinant(DeterminantMethod::LaplaceExpansion).unwrap();
    let gauss3 = matrix3.determinant(DeterminantMethod::GaussianElimination).unwrap();
    assert!(triangle.equals(&rational_of(-17)));
    assert!(triangle.equals(&bareiss3));
    assert!(triangle.equals(&laplace3));
    assert!(triangle.equals(&gauss3));
}

#[test]
fn determinant_of_identity_is_one() {
    for n in 1..=3 {
        let id = SquareMatrix::<Integer>::identity(n);
        assert_eq!(id.determinant(DeterminantMethod::TriangleRule), Ok(Integer::new(1)));
    }
    for n in 1..=6 {
        let id = SquareMatrix::<Integer>::identity(n);
        assert_eq!(id.determinant(DeterminantMethod::BareissAlgorithm), Ok(Integer::new(1)));
        assert_eq!(id.determinant(DeterminantMethod::LaplaceExpansion), Ok(Integer::new(1)));
        let rational_id = SquareMatrix::<Rational>::identity(n);
        let gauss = rational_id.determinant(DeterminantMethod::GaussianElimination).unwrap();
        assert!(gauss.equals(&rational_of(1)));
    }
}

#[test]
fn determinant_of_matrix_with_equal_rows_is_zero() {
    let rows = vec![vec![3, 1, 4], vec![3, 1, 4], vec![2, 7, 1]];
    let matrix = int_square(rows.clone());
    assert_eq!(matrix.determinant(DeterminantMethod::TriangleRule), Ok(Integer::new(0)));
    assert_eq!(matrix.determinant(DeterminantMethod::BareissAlgorithm), Ok(Integer::new(0)));
    assert_eq!(matrix.determinant(DeterminantMethod::LaplaceExpansion), Ok(Integer::new(0)));
    let rational = rational_square(rows);
    let gauss = rational.determinant(DeterminantMethod::GaussianElimination).unwrap();
    assert!(gauss.equals(&rational_of(0)));
}

#[test]
fn swapping_two_rows_negates_the_determinant() {
    let matrix = int_square(vec![vec![1, 2, 3], vec![1, -2, 0], vec![0, 1, 5]]);
    let det = montante_algorithm(&matrix).unwrap();
    let mut swapped = matrix.duplicate();
    swapped.swap_rows(0, 2).unwrap();
    let det_swapped = montante_algorithm(&swapped).unwrap();
    assert_eq!(det_swapped, det.neg());
    let mut swapped_below = matrix.duplicate();
    swapped_below.swap_rows(1, 2).unwrap();
    assert_eq!(montante_algorithm(&swapped_below).unwrap(), det.neg());
}

#[test]
fn expansion_along_the_second_row_matches_the_first() {
    let matrix = int_square(vec![vec![1, 2, 3], vec![1, -2, 0], vec![0, 1, 5]]);
    let along_first = montante_algorithm(&matrix).unwrap();
    // Expand along row 1 by hand: the signs alternate starting from minus
    // for an odd row index.
    let mut along_second = Integer::new(0);
    for column in 0..3 {
        let entry = matrix.get(1, column).unwrap();
        let minor_det = montante_algorithm(&matrix.minor(1, column).unwrap()).unwrap();
        let term = entry.mul(minor_det);
        let signed = if (1 + column) % 2 == 0 { term } else { term.neg() };
        along_second = along_second.add(signed);
    }
    assert_eq!(along_second, along_first);
    assert_eq!(along_second, Integer::new(-17));
}

#[test]
fn lu_factors_reconstruct_the_matrix() {
    let matrix = rational_square(vec![vec![2, 1, 1], vec![4, 3, 3], vec![8, 7, 9]]);
    let (l, u) = matrix.lu().unwrap();
    let product = l.mul(&u).unwrap();
    assert!(product.equals(&matrix));
}

#[test]
fn four_by_four_scenario_yields_fourteen() {
    let matrix = int_square(vec![
        vec![1, 2, 3, 4],
        vec![1, -2, 0, 1],
        vec![0, 1, 5, 1],
        vec![1, -1, 2, 1],
    ]);
    assert_eq!(bareiss_algorithm(&matrix), Ok(Integer::new(14)));
    assert_eq!(montante_algorithm(&matrix), Ok(Integer::new(14)));
}

#[test]
fn three_by_three_scenario_yields_minus_seventeen() {
    let matrix = int_square(vec![vec![1, 2, 3], vec![1, -2, 0], vec![0, 1, 5]]);
    assert_eq!(montante_algorithm(&matrix), Ok(Integer::new(-17)));
}

#[test]
fn bareiss_finishes_quickly_on_a_banded_hundred_square() {
    let matrix = SquareMatrix::from_fn(100, |i, j| {
        if (i as isize - j as isize).abs() < 3 {
            Integer::new(1)
        } else {
            Integer::new(0)
        }
    });
    let start = Instant::now();
    let result = bareiss_algorithm(&matrix);
    let time = start.elapsed().as_millis();
    println!("Bareiss on the banded matrix took {} ms", time);
    assert!(result.is_ok());
    assert!(time < 5000);
}

#[test]
fn leading_principal_minor_scenario() {
    let matrix = int_square(vec![vec![1, 2, 3], vec![1, -2, 0], vec![0, 1, 5]]);
    let submatrix = matrix.leading_principal_minor(2).unwrap();
    assert_eq!(submatrix, int_square(vec![vec![1, 2], vec![1, -2]]));
}
