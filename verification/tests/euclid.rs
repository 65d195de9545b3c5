use math_rs::arithmetics::{euclidean_division, gcd};
use math_rs::structures::integers::Integer;

#[test]
fn test_euclid() {
    let a = Integer::new(1);
    let b = Integer::new(1);
    assert_eq!(euclidean_division(&a, &b), (Integer::new(1), Integer::new(0)));
}

#[test]
fn test_gcd() {
    let a = Integer::new(252);
    let b = Integer::new(105);
    assert_eq!(gcd(&a, &b), Integer::new(21));
}

#[test]
fn gcd_of_negative_numbers_divides_both() {
    let a = Integer::new(-4);
    let b = Integer::new(6);
    assert_eq!(gcd(&a, &b), Integer::new(2));
}

#[test]
fn quotient_truncates_toward_zero() {
    let a = Integer::new(-7);
    let b = Integer::new(2);
    assert_eq!(math_rs::arithmetics::quotient(&a, &b), Integer::new(-3));
}
