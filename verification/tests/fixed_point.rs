use evosim::fixed::{add_saturating, floor_div, mul_i32, saturate_i32, saturate_i64, SCALE};

#[test]
fn one_is_a_million() {
    assert_eq!(SCALE, 1_000_000);
}

#[test]
fn floor_division_rounds_down() {
    assert_eq!(floor_div(7, 2), 3);
    assert_eq!(floor_div(-7, 2), -4);
    assert_eq!(floor_div(-8, 2), -4);
    assert_eq!(floor_div(0, 5), 0);
    assert_eq!(floor_div(-1, 1_000_000), -1);
}

#[test]
fn saturation_stops_at_the_ends() {
    assert_eq!(saturate_i32(5_000_000_000), i32::MAX);
    assert_eq!(saturate_i32(-5_000_000_000), i32::MIN);
    assert_eq!(saturate_i32(-17), -17);
    assert_eq!(saturate_i64(i128::MAX), i64::MAX);
    assert_eq!(saturate_i64(i128::MIN), i64::MIN);
    assert_eq!(saturate_i64(42), 42);
    assert_eq!(add_saturating(i64::MAX, 1), i64::MAX);
    assert_eq!(add_saturating(i64::MIN, -1), i64::MIN);
    assert_eq!(add_saturating(3, -5), -2);
}

#[test]
fn whole_products() {
    assert_eq!(mul_i32(i32::MIN, i32::MIN), 1 << 62);
    assert_eq!(mul_i32(i32::MAX, i32::MIN), -(1 << 62) + (1 << 31));
    assert_eq!(mul_i32(-3, 7), -21);
    assert_eq!(mul_i32(0, i32::MIN), 0);
}
