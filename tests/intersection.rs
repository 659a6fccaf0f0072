use math_utils::intersection::segment_intersection_int;
use math_utils::point::int_vec2;

#[test]
fn segment_intersection_int_cases() {
    assert!(segment_intersection_int(int_vec2(0, -2), int_vec2(-5, 2), int_vec2(-5, 0), int_vec2(-11, 5)).is_none());
    assert_eq!(
        segment_intersection_int(int_vec2(0, 0), int_vec2(2, 2), int_vec2(0, 2), int_vec2(2, 0)),
        Some(int_vec2(1, 1))
    );
    assert!(segment_intersection_int(int_vec2(0, 0), int_vec2(0, 1), int_vec2(1, 0), int_vec2(1, 1)).is_none());
    assert!(segment_intersection_int(int_vec2(0, 0), int_vec2(1, 0), int_vec2(2, 0), int_vec2(3, 0)).is_none());
    assert!(segment_intersection_int(int_vec2(0, 0), int_vec2(1, 0), int_vec2(0, 1), int_vec2(1, 1)).is_none());
}

#[test]
fn crossing_point_is_truncated() {
    // the exact crossing is (0.5, 0.5)
    assert_eq!(
        segment_intersection_int(int_vec2(0, 0), int_vec2(1, 1), int_vec2(0, 1), int_vec2(1, 0)),
        Some(int_vec2(0, 0))
    );
    // the exact crossing is (-0.5, -0.5): toward zero, not down
    assert_eq!(
        segment_intersection_int(int_vec2(-1, 0), int_vec2(0, -1), int_vec2(-1, -1), int_vec2(0, 0)),
        Some(int_vec2(0, 0))
    );
    // the exact crossing is (2.5, 1.5)
    assert_eq!(
        segment_intersection_int(int_vec2(0, 0), int_vec2(5, 3), int_vec2(0, 3), int_vec2(5, 0)),
        Some(int_vec2(2, 1))
    );
}

#[test]
fn crossing_with_extreme_coordinates() {
    let r = segment_intersection_int(
        int_vec2(i32::MIN, i32::MIN),
        int_vec2(i32::MAX, i32::MAX),
        int_vec2(i32::MIN, i32::MAX),
        int_vec2(i32::MAX, i32::MIN),
    );
    assert_eq!(r, Some(int_vec2(0, 0)));
}

#[test]
fn collinear_overlaps_report_one_endpoint() {
    assert_eq!(
        segment_intersection_int(int_vec2(0, 0), int_vec2(2, 0), int_vec2(1, 0), int_vec2(3, 0)),
        Some(int_vec2(1, 0))
    );
    assert_eq!(
        segment_intersection_int(int_vec2(3, 0), int_vec2(1, 0), int_vec2(2, 0), int_vec2(4, 0)),
        Some(int_vec2(2, 0))
    );
    assert_eq!(
        segment_intersection_int(int_vec2(2, 0), int_vec2(4, 0), int_vec2(3, 0), int_vec2(1, 0)),
        Some(int_vec2(3, 0))
    );
    assert_eq!(
        segment_intersection_int(int_vec2(1, 0), int_vec2(4, 0), int_vec2(2, 0), int_vec2(3, 0)),
        Some(int_vec2(2, 0))
    );
    // neither a2 nor b2 lies inside the first segment: a1 is reported
    assert_eq!(
        segment_intersection_int(int_vec2(2, 0), int_vec2(3, 0), int_vec2(1, 0), int_vec2(4, 0)),
        Some(int_vec2(2, 0))
    );
    // b2 inside the first segment, a2 outside
    assert_eq!(
        segment_intersection_int(int_vec2(0, 0), int_vec2(4, 4), int_vec2(6, 6), int_vec2(2, 2)),
        Some(int_vec2(2, 2))
    );
    // only b1 lies strictly inside the second segment
    assert_eq!(
        segment_intersection_int(int_vec2(0, 0), int_vec2(2, 0), int_vec2(3, 0), int_vec2(0, 0)),
        Some(int_vec2(2, 0))
    );
}

#[test]
fn shared_vertex_configurations_are_rejected() {
    let a = int_vec2(0, 0);
    let b = int_vec2(4, 4);
    let c = int_vec2(4, 0);
    // a1 == a2
    assert!(segment_intersection_int(a, b, a, c).is_none());
    // a1 == b1
    assert!(segment_intersection_int(a, a, c, b).is_none());
    // b1 == a2
    assert!(segment_intersection_int(a, b, b, c).is_none());
    // b1 == b2
    assert!(segment_intersection_int(a, b, c, b).is_none());
    // identical segments
    assert!(segment_intersection_int(a, b, a, b).is_none());
    assert!(segment_intersection_int(a, b, b, a).is_none());
}

#[test]
fn touching_at_an_endpoint_is_not_an_intersection() {
    // a1 == b2, not parallel
    assert!(segment_intersection_int(int_vec2(0, 0), int_vec2(4, 4), int_vec2(4, 0), int_vec2(0, 0)).is_none());
    // a1 == b2, collinear, pointing away from each other
    assert!(segment_intersection_int(int_vec2(0, 0), int_vec2(2, 0), int_vec2(-2, 0), int_vec2(0, 0)).is_none());
    // a T junction: the end of one segment on the inside of the other
    assert!(segment_intersection_int(int_vec2(0, 0), int_vec2(4, 0), int_vec2(2, 0), int_vec2(2, 3)).is_none());
}

#[test]
fn degenerate_second_segment_is_rejected() {
    assert!(segment_intersection_int(int_vec2(0, 0), int_vec2(4, 4), int_vec2(2, 2), int_vec2(2, 2)).is_none());
}
