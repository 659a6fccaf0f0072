//! Integer points and the "below" order used by sweep algorithms.

use vstd::prelude::*;

verus! {

/// A point (or displacement) with exact 32-bit integer coordinates.
#[derive(Clone, Copy, Debug, PartialEq, Eq, Structural)]
pub struct IntVec2 {
    pub x: i32,
    pub y: i32,
}

/// Builds the point `(x, y)`.
pub fn int_vec2(x: i32, y: i32) -> (r: IntVec2)
    ensures
        r.x == x,
        r.y == y,
{
    IntVec2 { x, y }
}

/// `a` lies below `b`: it has the larger `y`, or the same `y` and the larger `x`.
pub open spec fn below(a: IntVec2, b: IntVec2) -> bool {
    a.y > b.y || (a.y == b.y && a.x > b.x)
}

/// Whether `a` comes before `b` in the sweep order: points are ordered by
/// decreasing `y`, ties broken by decreasing `x`.
pub fn is_below_int(a: IntVec2, b: IntVec2) -> (r: bool)
    ensures
        r == below(a, b),
{
    a.y > b.y || (a.y == b.y && a.x > b.x)
}

/// The below order is a strict total order: no point is below itself, it is
/// asymmetric and transitive, and two points neither of which is below the
/// other are equal.
pub proof fn lemma_below_strict_order(a: IntVec2, b: IntVec2, c: IntVec2)
    ensures
        !below(a, a),
        below(a, b) ==> !below(b, a),
        below(a, b) && below(b, c) ==> below(a, c),
        !below(a, b) && !below(b, a) ==> a == b,
{
}

} // verus!
