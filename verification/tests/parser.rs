use math_rs::matrix::generic::Matrix;
use math_rs::matrix::parser::{parse_matrix, serialize_matrix};
use math_rs::matrix::square::SquareMatrix;
use math_rs::structures::integers::Integer;
use math_rs::structures::rationals::Rational;
use math_rs::traits::Serializable;

#[test]
fn parser_parse_2x2() {
    let matrix = Matrix::<Integer>::parse("{{1,2},{2,3}}")
        .expect("Should have been able to parse this matrix");
    let expected = Matrix::<Integer>::try_from(vec![
        vec![Integer::new(1), Integer::new(2)],
        vec![Integer::new(2), Integer::new(3)],
    ])
    .expect("Should've been able to built this matrix");
    assert_eq!(matrix.data, expected.data)
}

#[test]
fn parser_parse_3x5() {
    let matrix = Matrix::<Integer>::parse("{{1,2,3,4,5}, {5,4,3,2,1}, {0,0,0,0,0}}")
        .expect("Should have been able to parse this matrix");
    let expected = Matrix::<Integer>::try_from(vec![
        vec![
            Integer::new(1),
            Integer::new(2),
            Integer::new(3),
            Integer::new(4),
            Integer::new(5),
        ],
        vec![
            Integer::new(5),
            Integer::new(4),
            Integer::new(3),
            Integer::new(2),
            Integer::new(1),
        ],
        vec![
            Integer::new(0),
            Integer::new(0),
            Integer::new(0),
            Integer::new(0),
            Integer::new(0),
        ],
    ])
    .expect("Should've been able to built this matrix");
    assert_eq!(matrix.data, expected.data)
}

#[test]
fn parser_serialize_2x2() {
    let matrix = Matrix::<Integer>::try_from(vec![
        vec![Integer::new(1), Integer::new(1)],
        vec![Integer::new(1), Integer::new(1)],
    ])
    .unwrap();
    assert_eq!("{{1, 1}, {1, 1}}", serialize_matrix(&matrix))
}

#[test]
fn parser_serialize_rationals() {
    let matrix = SquareMatrix::<Rational>::try_from(vec![
        vec![
            Rational::new(Integer::new(1), Integer::new(2)),
            Rational::new(Integer::new(-3), Integer::new(4)),
        ],
        vec![
            Rational::new(Integer::new(5), Integer::new(1)),
            Rational::new(Integer::new(0), Integer::new(1)),
        ],
    ])
    .unwrap();
    assert_eq!("{{1/2, -3/4}, {5/1, 0/1}}", matrix.serialize())
}

#[test]
fn parser_macro_calls_should_not_fail() {
    let matrix_integers = SquareMatrix::<Integer>::parse("{{1,2,3},{1,2,3},{1,1,1}}").unwrap();
    println!("{}", matrix_integers.serialize());
    let matrix_rationals = SquareMatrix::<Rational>::parse("{{1,2,3},{1,2,3},{1,1,1}}").unwrap();
    println!("{}", matrix_rationals.serialize());
}

#[test]
#[should_panic]
fn parser_macro_calls_should_fail() {
    let matrix_fail =
        SquareMatrix::<Integer>::parse("{{1.1, 1.2, 1.3}, {1.1, 1.2, 1.3}, {1.1, 1.2, 1.3}}")
            .unwrap();
    println!("{}", matrix_fail.serialize());
}

#[test]
fn parser_parse_from_integers_should_not_fail() {
    let one_by_one = SquareMatrix::<Integer>::parse("{{1}}").unwrap();
    assert!(one_by_one.equals(
        &SquareMatrix::new(1, vec![vec![Integer::new(1)]])
    ), "Square matrix 1x1 failed");
    let two_by_two = SquareMatrix::<Integer>::parse("{{1,2},{1,2}}").unwrap();
    assert!(two_by_two.equals(
        &SquareMatrix::new(
            2,
            vec![
                vec![Integer::new(1), Integer::new(2)],
                vec![Integer::new(1), Integer::new(2)],
            ],
        )
    ), "Square matrix 2x2 failed");
    let three_by_three = SquareMatrix::<Integer>::parse("{{1,2,3},{1,2,3},{1,1,1}}").unwrap();
    assert!(three_by_three.equals(
        &SquareMatrix::new(
            3,
            vec![
                vec![Integer::new(1), Integer::new(2), Integer::new(3)],
                vec![Integer::new(1), Integer::new(2), Integer::new(3)],
                vec![Integer::new(1), Integer::new(1), Integer::new(1)],
            ],
        )
    ), "Square matrix 3x3 failed");
}

#[test]
fn parser_rejects_non_square_grids() {
    let result = SquareMatrix::<Integer>::parse("{{1,2,3},{4,5,6}}");
    assert_eq!(result.err(), Some(math_rs::matrix::MatrixError::NonSquareMatrix));
}

#[test]
fn parser_free_function_round_trips() {
    let matrix: Matrix<Rational> = parse_matrix("{{1/2, 2}, {3, 4/6}}").unwrap();
    let text = serialize_matrix(&matrix);
    assert_eq!(text, "{{1/2, 2/1}, {3/1, 2/3}}");
    let again: Matrix<Rational> = parse_matrix(&text).unwrap();
    assert_eq!(matrix.data, again.data);
}
