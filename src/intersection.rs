//! Intersection of two segments with integer endpoints.
//!
//! All products are formed exactly in 128-bit integers, so the crossing test
//! has no rounding: two segments cross when the crossing parameters `t` and
//! `u` lie strictly between 0 and 1. The crossing point is rounded toward zero.

use vstd::prelude::*;
use crate::point::IntVec2;
use crate::scalar::{
    abs, max_int, min_int, trunc_div, div_toward_zero, lemma_trunc_div_between,
    lemma_trunc_div_remainder,
};

verus! {

/// The cross product of `e1 - o1` and `e2 - o2`.
pub open spec fn cross(o1: IntVec2, e1: IntVec2, o2: IntVec2, e2: IntVec2) -> int {
    (e1.x - o1.x) * (e2.y - o2.y) - (e1.y - o1.y) * (e2.x - o2.x)
}

/// The dot product of `e1 - o1` and `e2 - o2`.
pub open spec fn dot(o1: IntVec2, e1: IntVec2, o2: IntVec2, e2: IntVec2) -> int {
    (e1.x - o1.x) * (e2.x - o2.x) + (e1.y - o1.y) * (e2.y - o2.y)
}

/// `p` projects onto the open segment `a`–`b`: strictly after `a` and
/// strictly before `b`.
pub open spec fn strictly_inside(p: IntVec2, a: IntVec2, b: IntVec2) -> bool {
    0 < dot(a, b, a, p) < dot(a, b, a, b)
}

/// The ratio `n / c` lies strictly between 0 and 1.
pub open spec fn in_open_unit(n: int, c: int) -> bool {
    (c > 0 && 0 < n < c) || (c < 0 && c < n < 0)
}

/// Two of the points that the shared-vertex rule looks at coincide.
pub open spec fn shares_vertex(a1: IntVec2, b1: IntVec2, a2: IntVec2, b2: IntVec2) -> bool {
    a1 == a2 || a1 == b1 || b1 == a2 || b1 == b2
}

/// The coordinate `a + (b - a) * n / c`, rounded toward zero.
pub open spec fn lerp_coord(a: int, b: int, n: int, c: int) -> int {
    trunc_div(a * c + (b - a) * n, c)
}

/// The point `a1 + (b1 - a1) * n / c`, each coordinate rounded toward zero.
pub open spec fn lerp_point(a1: IntVec2, b1: IntVec2, n: int, c: int) -> IntVec2 {
    IntVec2 {
        x: lerp_coord(a1.x as int, b1.x as int, n, c) as i32,
        y: lerp_coord(a1.y as int, b1.y as int, n, c) as i32,
    }
}

/// The answer for two collinear segments: the first of `a2`, `b2` (inside
/// `a1`–`b1`), `a1`, `b1` (inside `a2`–`b2`) that lies strictly inside the
/// other segment.
pub open spec fn collinear_overlap(a1: IntVec2, b1: IntVec2, a2: IntVec2, b2: IntVec2) -> Option<
    IntVec2,
> {
    if strictly_inside(a2, a1, b1) {
        Some(a2)
    } else if strictly_inside(b2, a1, b1) {
        Some(b2)
    } else if strictly_inside(a1, a2, b2) {
        Some(a1)
    } else if strictly_inside(b1, a2, b2) {
        Some(b1)
    } else {
        None
    }
}

/// The intersection of segment `a1`–`b1` with segment `a2`–`b2`:
/// - none where the shared-vertex rule applies or `a2`–`b2` is a single point;
/// - for parallel segments, none unless they are collinear, and then
///   `collinear_overlap`;
/// - otherwise the crossing point `a1 + (b1 - a1) * t`, where
///   `t = ((a2 - a1) x (b2 - a2)) / c`, `u = ((a2 - a1) x (b1 - a1)) / c` and
///   `c = (b1 - a1) x (b2 - a2)`, when both `t` and `u` lie strictly between
///   0 and 1, and none when either does not.
pub open spec fn intersect_int(a1: IntVec2, b1: IntVec2, a2: IntVec2, b2: IntVec2) -> Option<IntVec2> {
    let c = cross(a1, b1, a2, b2);
    let d = cross(a1, a2, a1, b1);
    let tn = cross(a1, a2, a2, b2);
    if shares_vertex(a1, b1, a2, b2) || a2 == b2 {
        None
    } else if c == 0 {
        if d != 0 {
            None
        } else {
            collinear_overlap(a1, b1, a2, b2)
        }
    } else if in_open_unit(tn, c) && in_open_unit(d, c) {
        Some(lerp_point(a1, b1, tn, c))
    } else {
        None
    }
}

const COORD_SPAN: i128 = 0x1_0000_0000;

/// The cross product of `e1 - o1` and `e2 - o2`, computed exactly.
fn cross_wide(o1: IntVec2, e1: IntVec2, o2: IntVec2, e2: IntVec2) -> (r: i128)
    ensures
        r == cross(o1, e1, o2, e2),
        -2 * COORD_SPAN * COORD_SPAN < r < 2 * COORD_SPAN * COORD_SPAN,
{
    let ux: i128 = e1.x as i128 - o1.x as i128;
    let uy: i128 = e1.y as i128 - o1.y as i128;
    let vx: i128 = e2.x as i128 - o2.x as i128;
    let vy: i128 = e2.y as i128 - o2.y as i128;
    proof {
        lemma_product_bound(ux as int, vy as int);
        lemma_product_bound(uy as int, vx as int);
    }
    ux * vy - uy * vx
}

/// The dot product of `e1 - o1` and `e2 - o2`, computed exactly.
fn dot_wide(o1: IntVec2, e1: IntVec2, o2: IntVec2, e2: IntVec2) -> (r: i128)
    ensures
        r == dot(o1, e1, o2, e2),
{
    let ux: i128 = e1.x as i128 - o1.x as i128;
    let uy: i128 = e1.y as i128 - o1.y as i128;
    let vx: i128 = e2.x as i128 - o2.x as i128;
    let vy: i128 = e2.y as i128 - o2.y as i128;
    proof {
        lemma_product_bound(ux as int, vx as int);
        lemma_product_bound(uy as int, vy as int);
    }
    ux * vx + uy * vy
}

proof fn lemma_product_bound(a: int, b: int)
    requires
        -COORD_SPAN < a < COORD_SPAN,
        -COORD_SPAN < b < COORD_SPAN,
    ensures
        -COORD_SPAN * COORD_SPAN < a * b < COORD_SPAN * COORD_SPAN,
{
    assert(-0x1_0000_0000 * 0x1_0000_0000 < a * b < 0x1_0000_0000 * 0x1_0000_0000)
        by (nonlinear_arith)
        requires -0x1_0000_0000 < a < 0x1_0000_0000, -0x1_0000_0000 < b < 0x1_0000_0000;
}

/// Where `n / c` lies strictly between 0 and 1, the coordinate
/// `a + (b - a) * n / c`, rounded toward zero, lies between `a` and `b`.
pub proof fn lemma_lerp_coord_between(a: int, b: int, n: int, c: int)
    requires
        in_open_unit(n, c),
    ensures
        min_int(a, b) <= lerp_coord(a, b, n, c) <= max_int(a, b),
{
    let lo = min_int(a, b);
    let hi = max_int(a, b);
    if c > 0 {
        let m = a * c + (b - a) * n;
        assert(lo * c <= m <= hi * c) by (nonlinear_arith)
            requires m == a * c + (b - a) * n, 0 < n < c, lo == min_int(a, b), hi == max_int(a, b);
        lemma_trunc_div_between(m, c, lo, hi);
    } else {
        let m = a * -c + (b - a) * -n;
        assert(lo * -c <= m <= hi * -c) by (nonlinear_arith)
            requires m == a * -c + (b - a) * -n, c < n < 0, lo == min_int(a, b), hi == max_int(a, b);
        assert(a * -c + (b - a) * -n == -(a * c + (b - a) * n)) by (nonlinear_arith);
        assert(trunc_div(a * c + (b - a) * n, c) == trunc_div(m, -c));
        lemma_trunc_div_between(m, -c, lo, hi);
    }
}

/// Rounds `a + (b - a) * n / c` toward zero, for `n / c` strictly between 0
/// and 1.
fn lerp_coord_wide(a: i32, b: i32, n: i128, c: i128) -> (r: i32)
    requires
        in_open_unit(n as int, c as int),
        -2 * COORD_SPAN * COORD_SPAN < c < 2 * COORD_SPAN * COORD_SPAN,
    ensures
        r == lerp_coord(a as int, b as int, n as int, c as int),
{
    let d: i128 = b as i128 - a as i128;
    assert(-0x1_0000_0000 * 0x2_0000_0000_0000_0000 < a * c < 0x1_0000_0000 * 0x2_0000_0000_0000_0000)
        by (nonlinear_arith)
        requires -0x1_0000_0000 < a < 0x1_0000_0000, -0x2_0000_0000_0000_0000 < c < 0x2_0000_0000_0000_0000;
    assert(-0x1_0000_0000 * 0x2_0000_0000_0000_0000 < d * n < 0x1_0000_0000 * 0x2_0000_0000_0000_0000)
        by (nonlinear_arith)
        requires -0x1_0000_0000 < d < 0x1_0000_0000, -0x2_0000_0000_0000_0000 < n < 0x2_0000_0000_0000_0000;
    let q: i128 = div_toward_zero(a as i128 * c + d * n, c);
    proof {
        lemma_lerp_coord_between(a as int, b as int, n as int, c as int);
    }
    q as i32
}

/// Intersects segment `a1`–`b1` with segment `a2`–`b2` (see `intersect_int`).
///
/// A configuration where the segments share a vertex is never reported; for
/// overlapping collinear segments a single point of the overlap is reported.
pub fn segment_intersection_int(a1: IntVec2, b1: IntVec2, a2: IntVec2, b2: IntVec2) -> (r: Option<
    IntVec2,
>)
    ensures
        r == intersect_int(a1, b1, a2, b2),
{
    if a1 == a2 || a1 == b1 || b1 == a2 || b1 == b2 {
        return None;
    }
    if a2 == b2 {
        return None;
    }
    let c: i128 = cross_wide(a1, b1, a2, b2);
    let d: i128 = cross_wide(a1, a2, a1, b1);
    if c == 0 {
        if d != 0 {
            return None;
        }
        let sq1: i128 = dot_wide(a1, b1, a1, b1);
        let p: i128 = dot_wide(a1, b1, a1, a2);
        if 0 < p && p < sq1 {
            return Some(a2);
        }
        let q: i128 = dot_wide(a1, b1, a1, b2);
        if 0 < q && q < sq1 {
            return Some(b2);
        }
        let sq2: i128 = dot_wide(a2, b2, a2, b2);
        let p2: i128 = dot_wide(a2, b2, a2, a1);
        if 0 < p2 && p2 < sq2 {
            return Some(a1);
        }
        let q2: i128 = dot_wide(a2, b2, a2, b1);
        if 0 < q2 && q2 < sq2 {
            return Some(b1);
        }
        return None;
    }
    let tn: i128 = cross_wide(a1, a2, a2, b2);
    let t_inside = (c > 0 && 0 < tn && tn < c) || (c < 0 && c < tn && tn < 0);
    let u_inside = (c > 0 && 0 < d && d < c) || (c < 0 && c < d && d < 0);
    if t_inside && u_inside {
        let x: i32 = lerp_coord_wide(a1.x, b1.x, tn, c);
        let y: i32 = lerp_coord_wide(a1.y, b1.y, tn, c);
        Some(IntVec2 { x, y })
    } else {
        None
    }
}

/// Segments that share a vertex in one of the rejected configurations
/// (`a1 == a2`, `a1 == b1`, `b1 == a2`, `b1 == b2`) never intersect.
pub proof fn lemma_shared_vertex_rejected(a1: IntVec2, b1: IntVec2, a2: IntVec2, b2: IntVec2)
    requires
        shares_vertex(a1, b1, a2, b2),
    ensures
        intersect_int(a1, b1, a2, b2) is None,
{
}

/// Segments on parallel lines that are not one and the same line never
/// intersect.
pub proof fn lemma_parallel_apart_rejected(a1: IntVec2, b1: IntVec2, a2: IntVec2, b2: IntVec2)
    requires
        cross(a1, b1, a2, b2) == 0,
        cross(a1, a2, a1, b1) != 0,
    ensures
        intersect_int(a1, b1, a2, b2) is None,
{
}

/// Segments that meet only at a shared endpoint never intersect: where `a1`
/// is also `b2`, and the segments are not parallel or `a2` lies on the other
/// side of `a1` than `b1`, the result is none.
pub proof fn lemma_touching_endpoint_rejected(a1: IntVec2, b1: IntVec2, a2: IntVec2, b2: IntVec2)
    requires
        a1 == b2,
        cross(a1, b1, a2, b2) != 0 || dot(a1, b1, a1, a2) <= 0,
    ensures
        intersect_int(a1, b1, a2, b2) is None,
{
    let (wx, wy) = (a1.x - a2.x, a1.y - a2.y);
    let (vx, vy) = (b1.x - a1.x, b1.y - a1.y);
    assert(cross(a1, a2, a2, b2) == -wx * wy + wy * wx) by (nonlinear_arith)
        requires a1 == b2, wx == a1.x - a2.x, wy == a1.y - a2.y;
    assert(-wx * wy + wy * wx == 0) by (nonlinear_arith);
    assert(dot(a2, b2, a2, b2) == wx * wx + wy * wy);
    assert(dot(a2, b2, a2, a1) == wx * wx + wy * wy);
    assert(dot(a2, b2, a2, b1) == wx * (vx + wx) + wy * (vy + wy));
    assert(dot(a1, b1, a1, a2) == vx * -wx + vy * -wy);
    assert(wx * (vx + wx) + wy * (vy + wy) == (wx * wx + wy * wy) - (vx * -wx + vy * -wy))
        by (nonlinear_arith);
    assert(dot(a1, b1, a1, b2) == 0) by (nonlinear_arith)
        requires a1 == b2;
}

/// Segments that cross strictly inside both of them (both crossing
/// parameters strictly between 0 and 1) intersect, at the crossing point
/// rounded toward zero, which lies less than one unit from the exact crossing
/// point on each axis.
pub proof fn lemma_interior_crossing(a1: IntVec2, b1: IntVec2, a2: IntVec2, b2: IntVec2)
    requires
        in_open_unit(cross(a1, a2, a2, b2), cross(a1, b1, a2, b2)),
        in_open_unit(cross(a1, a2, a1, b1), cross(a1, b1, a2, b2)),
    ensures
        ({
            let c = cross(a1, b1, a2, b2);
            let tn = cross(a1, a2, a2, b2);
            let p = lerp_point(a1, b1, tn, c);
            &&& intersect_int(a1, b1, a2, b2) == Some(p)
            &&& abs(p.x * c - (a1.x * c + (b1.x - a1.x) * tn)) < abs(c)
            &&& abs(p.y * c - (a1.y * c + (b1.y - a1.y) * tn)) < abs(c)
        }),
{
    let c = cross(a1, b1, a2, b2);
    let tn = cross(a1, a2, a2, b2);
    let d = cross(a1, a2, a1, b1);
    if a1 == a2 {
        assert(tn == 0) by (nonlinear_arith) requires a1 == a2, tn == cross(a1, a2, a2, b2);
    }
    if a1 == b1 {
        assert(c == 0) by (nonlinear_arith) requires a1 == b1, c == cross(a1, b1, a2, b2);
    }
    if b1 == a2 {
        assert(d == 0) by (nonlinear_arith) requires b1 == a2, d == cross(a1, a2, a1, b1);
    }
    if b1 == b2 {
        assert(tn == c) by (nonlinear_arith)
            requires b1 == b2, tn == cross(a1, a2, a2, b2), c == cross(a1, b1, a2, b2);
    }
    if a2 == b2 {
        assert(c == 0) by (nonlinear_arith) requires a2 == b2, c == cross(a1, b1, a2, b2);
    }
    lemma_lerp_coord_between(a1.x as int, b1.x as int, tn, c);
    lemma_lerp_coord_between(a1.y as int, b1.y as int, tn, c);
    lemma_trunc_div_remainder(a1.x * c + (b1.x - a1.x) * tn, c);
    lemma_trunc_div_remainder(a1.y * c + (b1.y - a1.y) * tn, c);
}

/// For vectors `u` and `w` both parallel to `v`, `(u . w) (v . v) == (u . v) (w . v)`.
proof fn lemma_parallel_dot(ux: int, uy: int, wx: int, wy: int, vx: int, vy: int)
    requires
        ux * vy - uy * vx == 0,
        wx * vy - wy * vx == 0,
    ensures
        (ux * wx + uy * wy) * (vx * vx + vy * vy) == (ux * vx + uy * vy) * (wx * vx + wy * vy),
{
    let (a, b, c, d) = (ux * vy, uy * vx, wx * vy, wy * vx);
    let (e, f, g, h) = (ux * vx, uy * vy, wx * vx, wy * vy);
    lemma_sum_product(ux * wx, uy * wy, vx * vx, vy * vy);
    lemma_sum_product(e, f, g, h);
    lemma_difference_product(a, b, c, d);
    lemma_swap_product(ux, wx, vx, vx);
    lemma_swap_product(ux, wx, vy, vy);
    lemma_swap_product(uy, wy, vx, vx);
    lemma_swap_product(uy, wy, vy, vy);
    lemma_swap_product(ux, vx, wy, vy);
    lemma_swap_product(uy, vy, wx, vx);
    assert(e * h == (ux * vy) * (wy * vx)) by {
        lemma_swap_product(ux, vx, wy, vy);
        lemma_swap_product(ux, vy, wy, vx);
        assert((ux * wy) * (vx * vy) == (ux * wy) * (vy * vx)) by (nonlinear_arith);
    }
    assert(f * g == (uy * vx) * (wx * vy)) by {
        lemma_swap_product(uy, vy, wx, vx);
        lemma_swap_product(uy, vx, wx, vy);
        assert((uy * wx) * (vy * vx) == (uy * wx) * (vx * vy)) by (nonlinear_arith);
    }
}

proof fn lemma_sum_product(p: int, q: int, r: int, s: int)
    ensures
        (p + q) * (r + s) == p * r + p * s + q * r + q * s,
{
    assert((p + q) * (r + s) == p * r + p * s + q * r + q * s) by (nonlinear_arith);
}

proof fn lemma_difference_product(p: int, q: int, r: int, s: int)
    ensures
        (p - q) * (r - s) == p * r - p * s - q * r + q * s,
{
    assert((p - q) * (r - s) == p * r - p * s - q * r + q * s) by (nonlinear_arith);
}

proof fn lemma_swap_product(p: int, q: int, r: int, s: int)
    ensures
        (p * q) * (r * s) == (p * r) * (q * s),
{
    assert((p * q) * (r * s) == (p * r) * (q * s)) by (nonlinear_arith);
}

/// A vector parallel to a non-zero `v` and orthogonal to it is zero.
proof fn lemma_parallel_orthogonal_zero(ux: int, uy: int, vx: int, vy: int)
    requires
        ux * vy - uy * vx == 0,
        ux * vx + uy * vy == 0,
        vx != 0 || vy != 0,
    ensures
        ux == 0 && uy == 0,
{
    lemma_parallel_dot(ux, uy, ux, uy, vx, vy);
    assert(vx * vx + vy * vy > 0) by (nonlinear_arith) requires vx != 0 || vy != 0;
    assert(ux * ux + uy * uy == 0) by (nonlinear_arith)
        requires (ux * ux + uy * uy) * (vx * vx + vy * vy) == 0, vx * vx + vy * vy > 0;
    assert(ux == 0 && uy == 0) by (nonlinear_arith) requires ux * ux + uy * uy == 0;
}

/// With `s == q - p` non-zero, `0 < s (x - p) < s s` says that `x` lies
/// strictly between `p` and `q`.
proof fn lemma_scaled_between(s: int, x: int, p: int, q: int)
    requires
        s == q - p,
        s != 0,
    ensures
        (0 < s * (x - p) < s * s) == (min_int(p, q) < x < max_int(p, q)),
{
    if s > 0 {
        assert((0 < s * (x - p) < s * s) == (p < x < q)) by (nonlinear_arith)
            requires s == q - p, s > 0;
    } else {
        assert((0 < s * (x - p) < s * s) == (q < x < p)) by (nonlinear_arith)
            requires s == q - p, s < 0;
    }
}

/// The position of `p` along the segment `a`–`b`, scaled by its squared length.
pub open spec fn along(p: IntVec2, a: IntVec2, b: IntVec2) -> int {
    dot(a, b, a, p)
}

/// Collinear segments (both of positive length, and sharing no vertex in a
/// rejected configuration) whose overlap has positive length intersect, at
/// one of their four endpoints; collinear segments that are disjoint or only
/// touch do not.
pub proof fn lemma_collinear_overlap(a1: IntVec2, b1: IntVec2, a2: IntVec2, b2: IntVec2)
    requires
        a1 != b1,
        a2 != b2,
        !shares_vertex(a1, b1, a2, b2),
        cross(a1, b1, a2, b2) == 0,
        cross(a1, a2, a1, b1) == 0,
    ensures
        ({
            let len = dot(a1, b1, a1, b1);
            let p = along(a2, a1, b1);
            let q = along(b2, a1, b1);
            &&& max_int(0, min_int(p, q)) < min_int(len, max_int(p, q)) ==> {
                let r = intersect_int(a1, b1, a2, b2);
                r == Some(a2) || r == Some(b2) || r == Some(a1) || r == Some(b1)
            }
            &&& (max_int(p, q) <= 0 || min_int(p, q) >= len) ==> intersect_int(a1, b1, a2, b2) is None
        }),
{
    let (vx, vy) = (b1.x - a1.x, b1.y - a1.y);
    let (sx, sy) = (b2.x - a2.x, b2.y - a2.y);
    let (wx, wy) = (a2.x - a1.x, a2.y - a1.y);
    let len = dot(a1, b1, a1, b1);
    let p = along(a2, a1, b1);
    let q = along(b2, a1, b1);
    assert(len == vx * vx + vy * vy);
    assert(len > 0) by (nonlinear_arith) requires len == vx * vx + vy * vy, vx != 0 || vy != 0;
    // every vector between the four points is parallel to `b1 - a1`
    assert(wx * vy - wy * vx == 0) by (nonlinear_arith)
        requires cross(a1, a2, a1, b1) == 0, wx == a2.x - a1.x, wy == a2.y - a1.y,
            vx == b1.x - a1.x, vy == b1.y - a1.y;
    assert(sx * vy - sy * vx == 0) by (nonlinear_arith)
        requires cross(a1, b1, a2, b2) == 0, sx == b2.x - a2.x, sy == b2.y - a2.y,
            vx == b1.x - a1.x, vy == b1.y - a1.y;
    assert((-wx) * vy - (-wy) * vx == 0) by (nonlinear_arith) requires wx * vy - wy * vx == 0;
    assert((vx - wx) * vy - (vy - wy) * vx == 0) by (nonlinear_arith) requires wx * vy - wy * vx == 0;
    assert(p == vx * wx + vy * wy);
    assert(q - p == vx * sx + vy * sy) by (nonlinear_arith)
        requires p == vx * wx + vy * wy, q == dot(a1, b1, a1, b2), sx == b2.x - a2.x, sy == b2.y - a2.y,
            wx == a2.x - a1.x, wy == a2.y - a1.y, vx == b1.x - a1.x, vy == b1.y - a1.y;
    // the checks against `a2`-`b2`, rescaled into positions along `a1`-`b1`
    let sq2 = dot(a2, b2, a2, b2);
    let e1 = dot(a2, b2, a2, a1);
    let e2 = dot(a2, b2, a2, b1);
    lemma_parallel_dot(sx, sy, sx, sy, vx, vy);
    lemma_parallel_dot(sx, sy, -wx, -wy, vx, vy);
    lemma_parallel_dot(sx, sy, vx - wx, vy - wy, vx, vy);
    assert(sq2 * len == (q - p) * (q - p)) by (nonlinear_arith)
        requires sq2 == sx * sx + sy * sy, len == vx * vx + vy * vy, q - p == vx * sx + vy * sy,
            (sx * sx + sy * sy) * (vx * vx + vy * vy) == (sx * vx + sy * vy) * (sx * vx + sy * vy);
    assert(e1 * len == (q - p) * (0 - p)) by (nonlinear_arith)
        requires e1 == sx * -wx + sy * -wy, len == vx * vx + vy * vy, q - p == vx * sx + vy * sy,
            p == vx * wx + vy * wy,
            (sx * -wx + sy * -wy) * (vx * vx + vy * vy) == (sx * vx + sy * vy) * (-wx * vx + -wy * vy);
    assert(e2 * len == (q - p) * (len - p)) by (nonlinear_arith)
        requires e2 == sx * (vx - wx) + sy * (vy - wy), len == vx * vx + vy * vy,
            q - p == vx * sx + vy * sy, p == vx * wx + vy * wy,
            (sx * (vx - wx) + sy * (vy - wy)) * (vx * vx + vy * vy) == (sx * vx + sy * vy) * ((vx - wx) * vx + (vy - wy) * vy);
    assert((0 < e1 < sq2) == (0 < e1 * len < sq2 * len)) by (nonlinear_arith) requires len > 0;
    assert((0 < e2 < sq2) == (0 < e2 * len < sq2 * len)) by (nonlinear_arith) requires len > 0;
    // distinct points have distinct positions
    if q == p {
        lemma_parallel_orthogonal_zero(sx, sy, vx, vy);
    }
    if p == 0 {
        lemma_parallel_orthogonal_zero(wx, wy, vx, vy);
    }
    if p == len {
        assert((wx - vx) * vx + (wy - vy) * vy == 0) by (nonlinear_arith)
            requires p == len, p == vx * wx + vy * wy, len == vx * vx + vy * vy;
        assert((wx - vx) * vy - (wy - vy) * vx == 0) by (nonlinear_arith) requires wx * vy - wy * vx == 0;
        lemma_parallel_orthogonal_zero(wx - vx, wy - vy, vx, vy);
    }
    lemma_scaled_between(q - p, 0, p, q);
    lemma_scaled_between(q - p, len, p, q);
}

} // verus!
