use math_rs::identities::{One, Zero};
use math_rs::structures::integers::Integer;
use math_rs::structures::rationals::Rational;
use math_rs::structures::{Group, Ring};

#[test]
fn integers_as_group() {
    let a = Integer::new(1);
    let b = Integer::new(1);
    let result = b.op(&Integer::inverse(&a));
    assert_eq!(result, Integer::identity());
}

#[test]
fn integers_as_ring() {
    let a = Integer::new(1);
    let b = Integer::new(1);
    let sum = a.add(b);
    let sub = a.add(Integer::neg(b));
    let mul = a.mul(b);
    assert_eq!(sum, Integer::new(2));
    assert_eq!(sub, Integer::zero());
    assert_eq!(mul, Integer::one());
}

#[test]
fn integers_from_str_should_not_fail() {
    let a = Integer::from_str("1234");
    assert!(a.is_ok());
}

#[test]
#[should_panic]
fn integers_from_str_should_fail() {
    let a = Integer::from_str("1234.5");
    assert!(a.is_ok());
}

#[test]
fn build_rational_should_not_fail() {
    let a = Rational::new(Integer::new(1), Integer::new(2));
    let b = Rational::new(Integer::new(1), Integer::new(3));
    let c = Rational::new(Integer::new(1), Integer::new(6));
    assert_eq!(a.add(b), Rational::new(Integer::new(5), Integer::new(6)));
    assert_eq!(a.mul(b), Rational::new(Integer::new(1), Integer::new(6)));
    assert_eq!(a.add(b).add(c), Rational::new(Integer::new(1), Integer::new(1)));
    assert_eq!(a.mul(b).mul(c), Rational::new(Integer::new(1), Integer::new(36)));
    assert_eq!(a.add(b).add(c).add(c), Rational::new(Integer::new(7), Integer::new(6)));
    assert_eq!(a.mul(b).mul(c).mul(c), Rational::new(Integer::new(1), Integer::new(216)));
    assert_eq!(a.add(b).add(c).add(c).add(c), Rational::new(Integer::new(4), Integer::new(3)));
    assert_eq!(a.mul(b).mul(c).mul(c).mul(c), Rational::new(Integer::new(1), Integer::new(1296)));
}

#[test]
fn parse_rational_from_string_should_not_fail() {
    let with_slash = Rational::from_str("1/2");
    assert!(with_slash.is_ok(), "Normal rational with / character: it is not ok");
    assert!(
        with_slash.unwrap().equals(&Rational::new(Integer::new(1), Integer::new(2))),
        "Normal rational with / character: not the expected result"
    );
    let integer_form = Rational::from_str("3");
    assert!(integer_form.is_ok(), "Integer as rational: it is not ok");
    assert!(
        integer_form.unwrap().equals(&Rational::new(Integer::new(3), Integer::new(1))),
        "Integer as rational: not the expected result"
    );
}

#[test]
fn rational_simplification_reduces_to_lowest_terms() {
    let r = Rational::new(Integer::new(4), Integer::new(6)).simplified();
    assert_eq!(r, Rational::new(Integer::new(2), Integer::new(3)));
}

#[test]
fn integer_serialization_round_trips() {
    let v = Integer::new(-1234);
    let text = math_rs::traits::Parseable::serialize_elem(&v);
    assert_eq!(text, "-1234");
    assert_eq!(Integer::from_str(&text).unwrap(), v);
}

#[test]
fn integer_parse_rejects_overflowing_values() {
    assert!(Integer::from_str("9223372036854775807").is_ok());
    assert!(Integer::from_str("9223372036854775808").is_err());
    assert!(Integer::from_str("-9223372036854775808").is_ok());
    assert!(Integer::from_str("-9223372036854775809").is_err());
    assert!(Integer::from_str("").is_err());
    assert!(Integer::from_str("+7").is_ok());
}
