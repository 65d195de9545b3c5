use math_rs::matrix::generic::Matrix;
use math_rs::structures::integers::Integer;

fn int_matrix(input: &str) -> Matrix<Integer> {
    Matrix::<Integer>::parse(input).unwrap()
}

#[test]
fn arith_add_2x2() {
    let mat_a = int_matrix("{{1,1},{1,1}}");
    let mat_b = int_matrix("{{2,2},{2,2}}");
    let computed = mat_a.add(&mat_b).unwrap();
    let expected = int_matrix("{{3,3},{3,3}}");
    assert_eq!(computed.data, expected.data)
}

#[test]
fn arith_add_3x5() {
    let mat_a = int_matrix("{{1,1,1,1,1}, {2,2,2,2,2}, {3,3,3,3,3}}");
    let mat_b = int_matrix("{ {3,3,3,3,3},{2,2,2,2,2},  {1,1,1,1,1}}");
    let computed = mat_a.add(&mat_b).unwrap();
    let expected = int_matrix("{{4,4,4,4,4},{4,4,4,4,4},{4,4,4,4,4}}");
    assert_eq!(computed.data, expected.data)
}

#[test]
fn arith_add_different_rows_should_fail() {
    let mat_a = int_matrix("{{1,1},{1,1}}");
    let mat_b = int_matrix("{{2,2},{2,2}, {2,2}}");
    let computed = mat_a.add(&mat_b);
    assert!(computed.is_err())
}

#[test]
fn arith_add_different_cols_should_fail() {
    let mat_a = int_matrix("{{1,1,1},{1,1,1}}");
    let mat_b = int_matrix("{{2,2},{2,2}}");
    let computed = mat_a.add(&mat_b);
    assert!(computed.is_err())
}

#[test]
fn arith_sub_2x2() {
    let mat_a = int_matrix("{{1,1},{1,1}}");
    let mat_b = int_matrix("{{2,2},{2,2}}");
    let computed = mat_a.sub(&mat_b).unwrap();
    let expected = int_matrix("{{-1,-1},{-1,-1}}");
    assert_eq!(computed.data, expected.data)
}

#[test]
fn arith_sub_3x5() {
    let mat_a = int_matrix("{{1,1,1,1,1}, {2,2,2,2,2}, {3,3,3,3,3}}");
    let mat_b = int_matrix("{ {3,3,3,3,3},{2,2,2,2,2},  {1,1,1,1,1}}");
    let computed = mat_a.sub(&mat_b).unwrap();
    let expected = int_matrix("{{-2,-2,-2,-2,-2},{0,0,0,0,0},{2,2,2,2,2}}");
    assert_eq!(computed.data, expected.data)
}

#[test]
fn arith_sub_different_rows_should_fail() {
    let mat_a = int_matrix("{{1,1},{1,1}}");
    let mat_b = int_matrix("{{2,2},{2,2}, {2,2}}");
    let computed = mat_a.sub(&mat_b);
    assert!(computed.is_err())
}

#[test]
fn arith_sub_different_cols_should_fail() {
    let mat_a = int_matrix("{{1,1,1},{1,1,1}}");
    let mat_b = int_matrix("{{2,2},{2,2}}");
    let computed = mat_a.sub(&mat_b);
    assert!(computed.is_err())
}

#[test]
fn arith_mul_2x2() {
    let mat_a = int_matrix("{{1,1},{1,1}}");
    let mat_b = int_matrix("{{2,2},{2,2}}");
    let computed = mat_a.mul(&mat_b).unwrap();
    let expected = int_matrix("{{4,4},{4,4}}");
    assert_eq!(computed.data, expected.data)
}

#[test]
fn arith_mul_3x5x2() {
    let mat_a = int_matrix("{{1,2,1,2,1}, {-1,2,-3,2,1}, {0,1,-3,2,1}}");
    let mat_b = int_matrix("{{1,1}, {2,2}, {-1,-1}, {-2,-2}, {0,1}}");
    let computed = mat_a.mul(&mat_b).unwrap();
    let expected = int_matrix("{{0,1},{2,3},{1,2}}");
    assert_eq!(computed.data, expected.data)
}

#[test]
fn test_gaussian_reduction_2x2() {
    let matrix = Matrix::<Integer>::try_from(vec![
        vec![Integer::new(1), Integer::new(2)],
        vec![Integer::new(3), Integer::new(4)],
    ])
    .unwrap();
    let reduced = matrix.gaussian_reduction(Integer::new(0)).unwrap();
    assert_eq!(
        reduced.data(),
        &vec![
            vec![Integer::new(1), Integer::new(2)],
            vec![Integer::new(0), Integer::new(-2)]
        ]
    );
}
