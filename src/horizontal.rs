//! Where a segment crosses a horizontal scanline.

use vstd::prelude::*;
use crate::point::IntVec2;
use crate::scalar::{max_int, min_int, trunc_div, div_toward_zero, lemma_trunc_div_between};

verus! {

/// The x coordinate at which the line through `a` and `b` meets the
/// horizontal line at height `y`, the division rounded toward zero. A
/// horizontal segment yields its rightmost x, whatever `y` is.
pub open spec fn horizontal_x(a: IntVec2, b: IntVec2, y: int) -> int {
    if b.y == a.y {
        max_int(a.x as int, b.x as int)
    } else {
        a.x + trunc_div((y - a.y) * (b.x - a.x), b.y - a.y)
    }
}

/// `y` lies between the heights of `a` and `b`, both included.
pub open spec fn spans_height(a: IntVec2, b: IntVec2, y: int) -> bool {
    min_int(a.y as int, b.y as int) <= y <= max_int(a.y as int, b.y as int)
}

/// The x coordinate where the segment `a`–`b` crosses the scanline at height
/// `y` (see `horizontal_x`). The products are formed in a wide integer type;
/// the result is narrowed back to 32 bits, which is exact whenever `y` lies
/// within the segment's heights.
pub fn line_horizontal_intersection_int(a: IntVec2, b: IntVec2, y: i32) -> (r: i32)
    ensures
        r == #[verifier::truncate] (horizontal_x(a, b, y as int) as i32),
        i32::MIN <= horizontal_x(a, b, y as int) <= i32::MAX ==> r == horizontal_x(a, b, y as int),
        b.y == a.y ==> r == max_int(a.x as int, b.x as int),
        spans_height(a, b, y as int) ==> r == horizontal_x(a, b, y as int) && min_int(
            a.x as int,
            b.x as int,
        ) <= r <= max_int(a.x as int, b.x as int),
{
    let vx: i128 = b.x as i128 - a.x as i128;
    let vy: i128 = b.y as i128 - a.y as i128;
    if vy == 0 {
        return if a.x >= b.x { a.x } else { b.x };
    }
    let dy: i128 = y as i128 - a.y as i128;
    assert(-0x1_0000_0000_0000_0000 < dy * vx < 0x1_0000_0000_0000_0000) by (nonlinear_arith)
        requires -0x1_0000_0000 < dy < 0x1_0000_0000, -0x1_0000_0000 < vx < 0x1_0000_0000;
    let q: i128 = div_toward_zero(dy * vx, vy);
    proof {
        if spans_height(a, b, y as int) {
            lemma_scanline_quotient_bounds(dy as int, vx as int, vy as int);
        }
    }
    let x: i128 = a.x as i128 + q;
    #[verifier::truncate]
    (x as i32)
}

/// When `dy` lies between 0 and `vy`, the rounded quotient `dy * vx / vy`
/// lies between 0 and `vx`.
proof fn lemma_scanline_quotient_bounds(dy: int, vx: int, vy: int)
    requires
        vy != 0,
        (0 <= dy <= vy) || (vy <= dy <= 0),
    ensures
        min_int(0, vx) <= trunc_div(dy * vx, vy) <= max_int(0, vx),
{
    let n = dy * vx;
    if vy > 0 {
        assert(min_int(0, vx) * vy <= n <= max_int(0, vx) * vy) by (nonlinear_arith)
            requires n == dy * vx, 0 <= dy <= vy, vy > 0;
        lemma_trunc_div_between(n, vy, min_int(0, vx), max_int(0, vx));
    } else {
        assert(trunc_div(n, vy) == trunc_div(-n, -vy));
        assert(min_int(0, vx) * -vy <= -n <= max_int(0, vx) * -vy) by (nonlinear_arith)
            requires n == dy * vx, vy <= dy <= 0, vy < 0;
        lemma_trunc_div_between(-n, -vy, min_int(0, vx), max_int(0, vx));
    }
}

} // verus!
