use launchpad::arith::{mul_div_floor, percent_of, reaches_four_fifths};

#[test]
fn percent_of_truncates() {
    assert_eq!(percent_of(1000, 50), 500);
    assert_eq!(percent_of(999, 50), 499);
    assert_eq!(percent_of(1, 99), 0);
    assert_eq!(percent_of(0, 100), 0);
    assert_eq!(percent_of(u128::MAX, 100), u128::MAX);
    assert_eq!(percent_of(u128::MAX, 1), u128::MAX / 100);
    assert_eq!(percent_of(u128::MAX, 0), 0);
}

#[test]
fn mul_div_floor_is_exact_on_small_values() {
    assert_eq!(mul_div_floor(40, 100_000_000, 100), Some(40_000_000));
    assert_eq!(mul_div_floor(1, 100_000_000, 3), Some(33_333_333));
    assert_eq!(mul_div_floor(2, 100_000_000, 3), Some(66_666_666));
    assert_eq!(mul_div_floor(0, 5, 7), Some(0));
    assert_eq!(mul_div_floor(7, 0, 7), Some(0));
    assert_eq!(mul_div_floor(7, 3, 1), Some(21));
}

#[test]
fn mul_div_floor_survives_wide_products() {
    assert_eq!(mul_div_floor(u128::MAX, u128::MAX, u128::MAX), Some(u128::MAX));
    assert_eq!(mul_div_floor(u128::MAX, 100_000_000, u128::MAX), Some(100_000_000));
    assert_eq!(mul_div_floor(u128::MAX - 1, 100_000_000, u128::MAX), Some(99_999_999));
    assert_eq!(mul_div_floor(u128::MAX, 2, 4), Some(u128::MAX / 2));
    assert_eq!(mul_div_floor(1 << 100, 1 << 100, 1 << 90), Some(1 << 110));
}

#[test]
fn mul_div_floor_reports_overflow() {
    assert_eq!(mul_div_floor(u128::MAX, 2, 1), None);
    assert_eq!(mul_div_floor(u128::MAX, u128::MAX, 1), None);
    assert_eq!(mul_div_floor(1 << 100, 1 << 100, 1 << 71), None);
    assert_eq!(mul_div_floor(1 << 100, 1 << 100, 1 << 72), None);
    assert_eq!(mul_div_floor(1 << 100, 1 << 100, 1 << 73), Some(1 << 127));
}

#[test]
fn four_fifths_is_compared_exactly() {
    assert!(reaches_four_fifths(160, 200));
    assert!(!reaches_four_fifths(159, 200));
    assert!(!reaches_four_fifths(90, 200));
    assert!(reaches_four_fifths(80, 100));
    assert!(!reaches_four_fifths(2, 3));
    assert!(reaches_four_fifths(3, 3));
    assert!(reaches_four_fifths(0, 0));
    assert!(reaches_four_fifths(u128::MAX, u128::MAX));
    assert!(reaches_four_fifths(u128::MAX / 5 * 4, u128::MAX));
    assert!(!reaches_four_fifths(u128::MAX / 5 * 4 - 1, u128::MAX));
}
