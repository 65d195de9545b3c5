use math_rs::matrix::generic::Matrix;
use math_rs::matrix::MatrixError;
use math_rs::structures::integers::Integer;
use math_rs::structures::rationals::Rational;

#[test]
fn matrix_try_from_should_fail() {
    let matrix = Matrix::<Rational>::try_from(vec![
        vec![
            Rational::new(Integer::new(1), Integer::new(1)),
            Rational::new(Integer::new(2), Integer::new(1)),
        ],
        vec![Rational::new(Integer::new(3), Integer::new(1))],
    ]);
    assert_eq!(matrix.err(), Some(MatrixError::InvalidNumberOfColumns));
}

#[test]
fn rational_matrix_try_from_should_not_fail() {
    let matrix = Matrix::<Rational>::try_from(vec![
        vec![
            Rational::new(Integer::new(1), Integer::new(1)),
            Rational::new(Integer::new(2), Integer::new(1)),
        ],
        vec![
            Rational::new(Integer::new(3), Integer::new(1)),
            Rational::new(Integer::new(3), Integer::new(1)),
        ],
    ]);
    assert_eq!(
        matrix.unwrap().data,
        vec![
            vec![
                Rational::new(Integer::new(1), Integer::new(1)),
                Rational::new(Integer::new(2), Integer::new(1)),
            ],
            vec![
                Rational::new(Integer::new(3), Integer::new(1)),
                Rational::new(Integer::new(3), Integer::new(1)),
            ],
        ]
    );
}

#[test]
fn integer_matrix_try_from_should_not_fail() {
    let matrix = Matrix::<Integer>::try_from(vec![
        vec![Integer::new(1), Integer::new(2), Integer::new(3)],
        vec![Integer::new(4), Integer::new(5), Integer::new(6)],
    ]);
    assert_eq!(
        matrix.unwrap().data,
        vec![
            vec![Integer::new(1), Integer::new(2), Integer::new(3)],
            vec![Integer::new(4), Integer::new(5), Integer::new(6)],
        ]
    );
}

#[test]
fn asdf() {
    let a: isize = 2 * (-3);
    println!("{:?}", a)
}

#[test]
fn swap_rows() {
    let mut matrix = Matrix::<Integer>::try_from(vec![
        vec![Integer::new(1), Integer::new(2), Integer::new(3), Integer::new(4)],
        vec![Integer::new(2), Integer::new(1), Integer::new(4), Integer::new(3)],
        vec![Integer::new(4), Integer::new(3), Integer::new(2), Integer::new(1)],
        vec![Integer::new(3), Integer::new(4), Integer::new(1), Integer::new(2)],
    ])
    .unwrap();
    matrix.swap_rows(0, 1).unwrap();
    matrix.swap_rows(1, 2).unwrap();
    matrix.swap_rows(2, 3).unwrap();
    assert_eq!(
        *matrix.data(),
        vec![
            vec![Integer::new(2), Integer::new(1), Integer::new(4), Integer::new(3)],
            vec![Integer::new(4), Integer::new(3), Integer::new(2), Integer::new(1)],
            vec![Integer::new(3), Integer::new(4), Integer::new(1), Integer::new(2)],
            vec![Integer::new(1), Integer::new(2), Integer::new(3), Integer::new(4)],
        ]
    );
}

#[test]
fn transpose_exchanges_rows_and_columns() {
    let matrix = Matrix::<Integer>::try_from(vec![
        vec![Integer::new(1), Integer::new(2), Integer::new(3)],
        vec![Integer::new(4), Integer::new(5), Integer::new(6)],
    ])
    .unwrap();
    let transposed = matrix.transpose();
    assert_eq!(
        transposed.data,
        vec![
            vec![Integer::new(1), Integer::new(4)],
            vec![Integer::new(2), Integer::new(5)],
            vec![Integer::new(3), Integer::new(6)],
        ]
    );
}
