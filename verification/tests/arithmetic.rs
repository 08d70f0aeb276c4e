use stroke_raster::arith::floor_div;

#[test]
fn floor_div_of_non_negative_numbers() {
    assert_eq!(floor_div(0, 3), 0);
    assert_eq!(floor_div(2, 3), 0);
    assert_eq!(floor_div(3, 3), 1);
    assert_eq!(floor_div(7, 2), 3);
}

#[test]
fn floor_div_rounds_negative_ratios_down() {
    assert_eq!(floor_div(-1, 3), -1);
    assert_eq!(floor_div(-3, 3), -1);
    assert_eq!(floor_div(-4, 3), -2);
    assert_eq!(floor_div(-7, 2), -4);
    assert_eq!(floor_div(-1, 1), -1);
}

#[test]
fn floor_div_at_the_ends_of_the_range() {
    assert_eq!(floor_div(i128::MIN, 1), i128::MIN);
    assert_eq!(floor_div(i128::MAX, 1), i128::MAX);
    assert_eq!(floor_div(i128::MIN, i128::MAX), -2);
    assert_eq!(floor_div(i128::MIN + 1, i128::MAX), -1);
    assert_eq!(floor_div(i128::MIN, 2), i128::MIN / 2);
}
