//! Plane vectors and colors in fixed-point coordinates, and the
//! distance test that click hit-testing and splash merging use.

use vstd::prelude::*;
use crate::fixed::lemma_abs_product_le;

verus! {

/// Coordinates may not exceed this magnitude in a distance test: the
/// squared distance must fit the machine arithmetic.
pub const COORD_LIMIT: i64 = 2_500_000_000;

/// A point or direction of the plane, in fixed-point game units.
#[derive(Clone, Copy, PartialEq, Eq, Structural, Debug)]
pub struct Vec2Fx {
    pub x: i64,
    pub y: i64,
}

/// An RGB color with fixed-point channels.
#[derive(Clone, Copy, PartialEq, Eq, Structural, Debug)]
pub struct ColorFx {
    pub r: i64,
    pub g: i64,
    pub b: i64,
}

impl Vec2Fx {
    /// Both coordinates within `[-m, m]`.
    pub open spec fn bounded(self, m: int) -> bool {
        -m <= self.x <= m && -m <= self.y <= m
    }
}

impl ColorFx {
    /// All channels within `[-m, m]`.
    pub open spec fn bounded(self, m: int) -> bool {
        -m <= self.r <= m && -m <= self.g <= m && -m <= self.b <= m
    }
}

/// Squared distance between two points.
pub open spec fn dist_sq(a: Vec2Fx, b: Vec2Fx) -> int {
    (a.x - b.x) * (a.x - b.x) + (a.y - b.y) * (a.y - b.y)
}

/// Whether `point` lies strictly inside the circle of the given center and
/// radius. A circle of nonpositive radius contains nothing, as a comparison
/// of a real distance against a nonpositive bound would have it.
pub open spec fn within_circle_s(center: Vec2Fx, point: Vec2Fx, radius: int) -> bool {
    radius > 0 && dist_sq(center, point) < radius * radius
}

/// Distance test: is `point` strictly closer to `center` than `radius`?
/// Compares squared lengths, which needs no square root.
pub fn within_circle(center: Vec2Fx, point: Vec2Fx, radius: i64) -> (r: bool)
    requires
        center.bounded(COORD_LIMIT as int / 2),
        point.bounded(COORD_LIMIT as int / 2),
        -COORD_LIMIT <= radius <= COORD_LIMIT,
    ensures
        r == within_circle_s(center, point, radius as int),
{
    if radius <= 0 {
        return false;
    }
    let dx: i64 = center.x - point.x;
    let dy: i64 = center.y - point.y;
    let adx: u64 = if dx >= 0 {
        dx as u64
    } else {
        (-dx) as u64
    };
    let ady: u64 = if dy >= 0 {
        dy as u64
    } else {
        (-dy) as u64
    };
    proof {
        lemma_abs_product_le(adx as int, adx as int, COORD_LIMIT as int, COORD_LIMIT as int);
        lemma_abs_product_le(ady as int, ady as int, COORD_LIMIT as int, COORD_LIMIT as int);
        lemma_abs_product_le(radius as int, radius as int, COORD_LIMIT as int, COORD_LIMIT as int);
        assert(adx as int * adx as int == (dx as int) * (dx as int)) by (nonlinear_arith)
            requires
                adx as int == if dx as int >= 0 { dx as int } else { -(dx as int) },
        ;
        assert(ady as int * ady as int == (dy as int) * (dy as int)) by (nonlinear_arith)
            requires
                ady as int == if dy as int >= 0 { dy as int } else { -(dy as int) },
        ;
    }
    let d2: u64 = adx * adx + ady * ady;
    let r2: u64 = (radius as u64) * (radius as u64);
    d2 < r2
}

} // verus!
