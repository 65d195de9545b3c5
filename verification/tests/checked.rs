use math_rs::traits::{CheckedAdd, CheckedDiv, CheckedMul, CheckedSub};

#[test]
fn checked_operations_compute_in_range_results() {
    assert_eq!(CheckedAdd::checked_add(&3i64, &4i64).unwrap(), 7);
    assert_eq!(CheckedSub::checked_sub(&3i64, &4i64).unwrap(), -1);
    assert_eq!(CheckedMul::checked_mul(&3i64, &4i64).unwrap(), 12);
    assert_eq!(CheckedDiv::checked_div(&7i64, &2i64).unwrap(), 3);
}

#[test]
fn checked_operations_report_overflow() {
    assert!(CheckedAdd::checked_add(&i64::MAX, &1i64).is_err());
    assert!(CheckedSub::checked_sub(&i64::MIN, &1i64).is_err());
    assert!(CheckedMul::checked_mul(&i64::MAX, &2i64).is_err());
    assert!(CheckedDiv::checked_div(&1i64, &0i64).is_err());
    assert!(CheckedDiv::checked_div(&i64::MIN, &-1i64).is_err());
}
