use math_utils::point::{int_vec2, is_below_int, IntVec2};

#[test]
fn int_vec2_keeps_coordinates() {
    let p = int_vec2(3, -4);
    assert_eq!(p, IntVec2 { x: 3, y: -4 });
}

#[test]
fn below_orders_by_decreasing_y_then_decreasing_x() {
    assert!(is_below_int(int_vec2(0, 5), int_vec2(0, 4)));
    assert!(!is_below_int(int_vec2(0, 4), int_vec2(0, 5)));
    assert!(is_below_int(int_vec2(3, 4), int_vec2(2, 4)));
    assert!(!is_below_int(int_vec2(2, 4), int_vec2(3, 4)));
    assert!(is_below_int(int_vec2(-100, 1), int_vec2(100, 0)));
}

#[test]
fn below_is_irreflexive() {
    for p in [int_vec2(0, 0), int_vec2(-7, 3), int_vec2(i32::MAX, i32::MIN)] {
        assert!(!is_below_int(p, p));
    }
}

#[test]
fn below_is_transitive_and_total_on_samples() {
    let pts = [
        int_vec2(0, 0),
        int_vec2(1, 0),
        int_vec2(-1, 0),
        int_vec2(0, 1),
        int_vec2(5, -2),
        int_vec2(i32::MIN, i32::MAX),
    ];
    for a in pts {
        for b in pts {
            if a != b {
                assert!(is_below_int(a, b) != is_below_int(b, a));
            }
            for c in pts {
                if is_below_int(a, b) && is_below_int(b, c) {
                    assert!(is_below_int(a, c));
                }
            }
        }
    }
}
