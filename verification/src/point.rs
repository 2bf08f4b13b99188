//! The planar point type, the global comparison tolerance, and the
//! squared-distance primitive.

use vstd::prelude::*;

verus! {

/// Tolerance used wherever two coordinates or a cross product are
/// compared: two values whose difference lies within the closed band
/// `[-EPSILON, EPSILON]` are treated as equal.  Coordinates are exact
/// integers, so the band is a single value; a library built on a
/// coarser grid would widen it here, at compile time.
pub const EPSILON: i64 = 0;

/// True when `a` and `b` differ by at most [`EPSILON`].
pub open spec fn within_epsilon(a: int, b: int) -> bool {
    -(EPSILON as int) <= a - b <= EPSILON as int
}

/// A planar point. Points are plain values: freely copyable, compared
/// by their coordinates alone, never mutated in place.
#[derive(Clone, Copy, PartialEq, Eq, Structural, Debug)]
pub struct Point {
    pub x: i32,
    pub y: i32,
}

impl Point {
    /// Builds the point with coordinates `(x, y)`.
    pub fn new(x: i32, y: i32) -> (p: Point)
        ensures
            p == (Point { x, y }),
    {
        Point { x, y }
    }
}

/// Squared Euclidean distance between `p1` and `p2`, as a mathematical
/// integer.
pub open spec fn dist_sq(p1: Point, p2: Point) -> int {
    (p1.x - p2.x) * (p1.x - p2.x) + (p1.y - p2.y) * (p1.y - p2.y)
}

/// A product of two factors bounded by `m` in magnitude is bounded by
/// `m * m`.
pub(crate) proof fn lemma_mul_bound(a: int, b: int, m: int)
    by (nonlinear_arith)
    requires
        0 <= m,
        -m <= a <= m,
        -m <= b <= m,
    ensures
        -(m * m) <= a * b <= m * m,
{
}

/// Squared distance between two points.  No square root is taken:
/// callers that compare magnitudes can compare the squares directly.
pub fn distance(p1: &Point, p2: &Point) -> (d: i128)
    ensures
        d == dist_sq(*p1, *p2),
{
    let dx: i64 = p1.x as i64 - p2.x as i64;
    let dy: i64 = p1.y as i64 - p2.y as i64;
    proof {
        lemma_mul_bound(dx as int, dx as int, 0x1_0000_0000);
        lemma_mul_bound(dy as int, dy as int, 0x1_0000_0000);
    }
    (dx as i128) * (dx as i128) + (dy as i128) * (dy as i128)
}

/// The squared distance from a point to itself is zero, and squared
/// distance is symmetric in its two arguments.
pub proof fn lemma_distance_properties(p1: Point, p2: Point)
    ensures
        dist_sq(p1, p1) == 0,
        dist_sq(p1, p2) == dist_sq(p2, p1),
{
    assert((p1.x - p2.x) * (p1.x - p2.x) == (p2.x - p1.x) * (p2.x - p1.x)) by (nonlinear_arith);
    assert((p1.y - p2.y) * (p1.y - p2.y) == (p2.y - p1.y) * (p2.y - p1.y)) by (nonlinear_arith);
}

} // verus!
