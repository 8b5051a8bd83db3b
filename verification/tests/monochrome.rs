use lumabatch::pixel::{max, min, s, sat_times_value, v};

#[test]
fn max_test() {
    assert_eq!(max(1, 2, 3), 3);
    assert_eq!(max(3, 1, 2), 3);
    assert_eq!(max(2, 3, 1), 3);
}

#[test]
fn min_test() {
    assert_eq!(min(1, 2, 3), 1);
    assert_eq!(min(3, 1, 2), 1);
    assert_eq!(min(2, 3, 1), 1);
}

#[test]
fn v_test() {
    assert_eq!(v(100, 150, 200), 200);
}

#[test]
fn s_test() {
    assert_eq!(s(100, 150, 200), 127);
}

#[test]
fn max_with_ties() {
    assert_eq!(max(3, 3, 1), 3);
    assert_eq!(max(2, 2, 2), 2);
    assert_eq!(max(1, 3, 3), 3);
}

#[test]
fn min_with_ties() {
    assert_eq!(min(1, 1, 3), 1);
    assert_eq!(min(2, 2, 2), 2);
    assert_eq!(min(3, 1, 1), 1);
}

#[test]
fn s_of_black_is_zero() {
    assert_eq!(s(0, 0, 0), 0);
}

#[test]
fn s_of_gray_is_zero() {
    assert_eq!(s(128, 128, 128), 0);
}

#[test]
fn s_of_pure_color_is_full() {
    assert_eq!(s(255, 0, 0), 255);
    assert_eq!(s(0, 0, 255), 255);
}

#[test]
fn sat_times_value_example() {
    // value 200, saturation 255 * 100 / 200 = 127, product 25400.
    assert_eq!(sat_times_value(100, 150, 200), 25400);
}

#[test]
fn sat_times_value_extremes() {
    assert_eq!(sat_times_value(0, 0, 0), 0);
    assert_eq!(sat_times_value(90, 90, 90), 0);
    assert_eq!(sat_times_value(255, 0, 0), 255 * 255);
}
