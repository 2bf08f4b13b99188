//! The angular comparator: orders two points by the polar angle each
//! forms around a fixed base point, by the sign of a cross product.

use vstd::prelude::*;
use core::cmp::Ordering;
use crate::point::{Point, EPSILON};

verus! {

/// Cross product of the vectors `a -> base` and `a -> b`, as a
/// mathematical integer.  Its sign tells which way the turn from the
/// first vector to the second goes.
pub open spec fn cross(a: Point, b: Point, base: Point) -> int {
    (base.x - a.x) * (b.y - a.y) - (base.y - a.y) * (b.x - a.x)
}

/// What `compare` returns: the sign of [`cross`], with the closed band
/// `[-EPSILON, EPSILON]` around zero reported as `Equal` (the three
/// points are treated as collinear there).
pub open spec fn compare_spec(a: Point, b: Point, base: Point) -> Ordering {
    if cross(a, b, base) > EPSILON as int {
        Ordering::Greater
    } else if cross(a, b, base) < -(EPSILON as int) {
        Ordering::Less
    } else {
        Ordering::Equal
    }
}

/// Orders `a` and `b` by their polar angle around `base`, measured
/// from the positive x-axis.  `Greater` means `a` forms the larger
/// angle, `Less` the smaller; `Equal` means the three points are
/// collinear within the tolerance.  The vectors under the cross
/// product point from `a` toward `base` and from `a` toward `b`;
/// reversing either flips the orientation of the ordering.
pub fn compare(a: &Point, b: &Point, base: &Point) -> (r: Ordering)
    ensures
        r == compare_spec(*a, *b, *base),
{
    let v1x: i64 = base.x as i64 - a.x as i64;
    let v1y: i64 = base.y as i64 - a.y as i64;
    let v2x: i64 = b.x as i64 - a.x as i64;
    let v2y: i64 = b.y as i64 - a.y as i64;
    proof {
        crate::point::lemma_mul_bound(v1x as int, v2y as int, 0x1_0000_0000);
        crate::point::lemma_mul_bound(v1y as int, v2x as int, 0x1_0000_0000);
    }
    let cross_prod: i128 = (v1x as i128) * (v2y as i128) - (v1y as i128) * (v2x as i128);
    if cross_prod > EPSILON as i128 {
        Ordering::Greater
    } else if cross_prod < -(EPSILON as i128) {
        Ordering::Less
    } else {
        Ordering::Equal
    }
}

/// Swapping the two compared points negates the cross product.
proof fn lemma_cross_swap(a: Point, b: Point, base: Point)
    by (nonlinear_arith)
    ensures
        cross(a, b, base) == -cross(b, a, base),
{
}

/// Antisymmetry of the comparator: for every `a`, `b` and `base`,
/// `compare(a, b, base)` is `Greater` exactly when `compare(b, a,
/// base)` is `Less`, and `Equal` exactly when the swapped comparison
/// is `Equal`.
pub proof fn lemma_compare_antisymmetric(a: Point, b: Point, base: Point)
    ensures
        compare_spec(a, b, base) == Ordering::Greater <==> compare_spec(b, a, base)
            == Ordering::Less,
        compare_spec(a, b, base) == Ordering::Equal <==> compare_spec(b, a, base)
            == Ordering::Equal,
{
    lemma_cross_swap(a, b, base);
}

/// True when `p` lies strictly above `base` in the order the anchor
/// rule uses: larger `y`, or equal `y` and larger `x`.  Every point a
/// well-chosen anchor leaves behind satisfies this, and it confines
/// the vectors from `base` to the closed upper half-plane minus the
/// negative x-axis, where the comparator is transitive.
pub open spec fn strictly_above(p: Point, base: Point) -> bool {
    p.y > base.y || (p.y == base.y && p.x > base.x)
}

/// Transitivity of the cross-product sign test for direction vectors
/// `u`, `v`, `w` in the upper half-plane, with vectors on the x-axis
/// pointing in the positive direction.  Rests on the planar identity
/// `(u x v) w + (v x w) u + (w x u) v == 0`.
proof fn lemma_cross2_sign_trans(
    ux: int,
    uy: int,
    vx: int,
    vy: int,
    wx: int,
    wy: int,
)
    requires
        uy > 0 || (uy == 0 && ux > 0),
        vy > 0 || (vy == 0 && vx > 0),
        wy > 0 || (wy == 0 && wx > 0),
        ux * vy - uy * vx >= 0,
        vx * wy - vy * wx >= 0,
    ensures
        ux * wy - uy * wx >= 0,
{
    if vy > 0 {
        assert((ux * vy - uy * vx) * wy + (vx * wy - vy * wx) * uy + (wx * uy - wy * ux) * vy
            == 0) by (nonlinear_arith);
        assert((ux * vy - uy * vx) * wy >= 0) by (nonlinear_arith)
            requires
                ux * vy - uy * vx >= 0,
                wy >= 0,
        ;
        assert((vx * wy - vy * wx) * uy >= 0) by (nonlinear_arith)
            requires
                vx * wy - vy * wx >= 0,
                uy >= 0,
        ;
        assert(ux * wy - uy * wx >= 0) by (nonlinear_arith)
            requires
                (wx * uy - wy * ux) * vy <= 0,
                vy > 0,
        ;
    } else {
        // v points along the positive x-axis, so u must as well, and
        // every vector in the upper half-plane turns left from u.
        assert(uy == 0) by (nonlinear_arith)
            requires
                ux * vy - uy * vx >= 0,
                vy == 0,
                vx > 0,
                uy >= 0,
        ;
        assert(ux * wy - uy * wx >= 0) by (nonlinear_arith)
            requires
                uy == 0,
                ux > 0,
                wy >= 0,
        ;
    }
}

/// The cross product under `compare` is the negated cross product of
/// the direction vectors that point from the base toward each of the
/// two compared points.
proof fn lemma_cross_as_direction_vectors(a: Point, b: Point, base: Point)
    ensures
        cross(a, b, base) == -((a.x - base.x) * (b.y - base.y) - (a.y - base.y) * (b.x
            - base.x)),
{
    assert((base.x - a.x) * (b.y - a.y) - (base.y - a.y) * (b.x - a.x) == -((a.x - base.x) * (b.y
        - base.y) - (a.y - base.y) * (b.x - base.x))) by (nonlinear_arith);
}

/// Transitivity of the comparator on points strictly above the base:
/// if `a` does not exceed `b` in angle and `b` does not exceed `c`,
/// then `a` does not exceed `c`.
pub proof fn lemma_compare_transitive(a: Point, b: Point, c: Point, base: Point)
    requires
        strictly_above(a, base),
        strictly_above(b, base),
        strictly_above(c, base),
        compare_spec(a, b, base) != Ordering::Greater,
        compare_spec(b, c, base) != Ordering::Greater,
    ensures
        compare_spec(a, c, base) != Ordering::Greater,
{
    let ux = a.x - base.x;
    let uy = a.y - base.y;
    let vx = b.x - base.x;
    let vy = b.y - base.y;
    let wx = c.x - base.x;
    let wy = c.y - base.y;
    lemma_cross_as_direction_vectors(a, b, base);
    lemma_cross_as_direction_vectors(b, c, base);
    lemma_cross_as_direction_vectors(a, c, base);
    lemma_cross2_sign_trans(ux, uy, vx, vy, wx, wy);
}

} // verus!
