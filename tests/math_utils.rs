use lib_engine::math_utils::clamp;

#[test]
fn clamp_in_interval() {
    let raw_num = 10;
    let result = clamp(raw_num, 1, 100);

    assert_eq!(result, 10);
}

#[test]
fn clamp_below_interval() {
    let raw_num = 5;
    let result = clamp(raw_num, 10, 100);

    assert_eq!(result, 10);
}

#[test]
fn clamp_above_interval() {
    let raw_num = 6;
    let result = clamp(raw_num, 1, 5);

    assert_eq!(result, 5);
}

#[test]
fn clamp_on_bounds_and_single_point_interval() {
    assert_eq!(clamp(1, 1, 5), 1);
    assert_eq!(clamp(5, 1, 5), 5);
    assert_eq!(clamp(-3, 7, 7), 7);
    assert_eq!(clamp(i64::MIN, -1, 1), -1);
    assert_eq!(clamp(i64::MAX, -1, 1), 1);
}
