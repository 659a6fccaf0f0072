use math_utils::horizontal::line_horizontal_intersection_int;
use math_utils::point::int_vec2;
use math_utils::scalar::div_toward_zero;

#[test]
fn intersect_segment_horizontal_int() {
    assert_eq!(line_horizontal_intersection_int(int_vec2(0, 0), int_vec2(0, 2), 1), 0);
    assert_eq!(line_horizontal_intersection_int(int_vec2(0, 2), int_vec2(2, 0), 1), 1);
    assert_eq!(line_horizontal_intersection_int(int_vec2(0, 1), int_vec2(3, 0), 0), 3);
}

#[test]
fn horizontal_segment_gives_rightmost_x_for_any_height() {
    for y in [-100, 0, 5, 100] {
        assert_eq!(line_horizontal_intersection_int(int_vec2(0, 5), int_vec2(7, 5), y), 7);
        assert_eq!(line_horizontal_intersection_int(int_vec2(7, 5), int_vec2(-3, 5), y), 7);
    }
}

#[test]
fn scanline_division_rounds_toward_zero() {
    assert_eq!(line_horizontal_intersection_int(int_vec2(0, 0), int_vec2(3, 2), 1), 1);
    assert_eq!(line_horizontal_intersection_int(int_vec2(0, 0), int_vec2(-3, 2), 1), -1);
    assert_eq!(line_horizontal_intersection_int(int_vec2(10, 0), int_vec2(13, -2), -1), 11);
}

#[test]
fn scanline_products_are_widened() {
    let a = int_vec2(i32::MIN, i32::MIN);
    let b = int_vec2(i32::MAX, i32::MAX);
    assert_eq!(line_horizontal_intersection_int(a, b, 0), 0);
    assert_eq!(line_horizontal_intersection_int(a, b, i32::MAX), i32::MAX);
    assert_eq!(line_horizontal_intersection_int(a, b, i32::MIN), i32::MIN);
}

#[test]
fn scanline_result_outside_the_segment_is_narrowed() {
    // 2 * i32::MAX does not fit in 32 bits and wraps to -2.
    assert_eq!(line_horizontal_intersection_int(int_vec2(0, 0), int_vec2(i32::MAX, 1), 2), -2);
}

#[test]
fn division_toward_zero() {
    assert_eq!(div_toward_zero(7, 2), 3);
    assert_eq!(div_toward_zero(-7, 2), -3);
    assert_eq!(div_toward_zero(7, -2), -3);
    assert_eq!(div_toward_zero(-7, -2), 3);
    assert_eq!(div_toward_zero(0, -5), 0);
}
