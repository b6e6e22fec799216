use flowfi::math::{checked_trunc_div, floor_div, saturating_mul};

#[test]
fn saturating_mul_clamps_both_ways() {
    assert_eq!(saturating_mul(6, -7), -42);
    assert_eq!(saturating_mul(i128::MAX, 2), i128::MAX);
    assert_eq!(saturating_mul(i128::MIN, 2), i128::MIN);
    assert_eq!(saturating_mul(i128::MIN, -1), i128::MAX);
    assert_eq!(saturating_mul(-2, i128::MAX), i128::MIN);
}

#[test]
fn checked_trunc_div_rounds_toward_zero() {
    assert_eq!(checked_trunc_div(7, 2), Some(3));
    assert_eq!(checked_trunc_div(-7, 2), Some(-3));
    assert_eq!(checked_trunc_div(7, -2), Some(-3));
    assert_eq!(checked_trunc_div(-7, -2), Some(3));
    assert_eq!(checked_trunc_div(1, 0), None);
    assert_eq!(checked_trunc_div(i128::MIN, -1), None);
}

#[test]
fn floor_div_of_non_negatives() {
    assert_eq!(floor_div(10, 3), 3);
    assert_eq!(floor_div(0, 5), 0);
    assert_eq!(floor_div(9, 9), 1);
}
