//! The rigid bodies of the simulation: axis-aligned boxes, their masses,
//! and the viewport rectangle they live in.

use vstd::prelude::*;
use crate::params::{EXTENT_LIMIT, COORD_LIMIT, MASS_LIMIT, VEL_LIMIT};
use crate::vec2::Vec2;

verus! {

/// The inertia of a box. `Immovable` is the zero-reciprocal-mass case:
/// such a box never moves, in separation or in velocity response.
#[derive(Clone, Copy, Debug, PartialEq, Eq, Structural)]
pub enum Mass {
    Finite(i64),
    Immovable,
}

impl Mass {
    /// A finite mass is a positive weight within the machine limit.
    pub open spec fn wf(self) -> bool {
        match self {
            Mass::Finite(m) => 1 <= m <= MASS_LIMIT,
            Mass::Immovable => true,
        }
    }
}

/// The viewport: an axis-aligned rectangle given by its two corners.
#[derive(Clone, Copy, Debug, PartialEq, Eq, Structural)]
pub struct Rect {
    pub min: Vec2,
    pub max: Vec2,
}

impl Rect {
    /// Corners in order and within the coordinate limit.
    pub open spec fn wf(self) -> bool {
        &&& -(COORD_LIMIT as int) <= self.min.x < self.max.x <= COORD_LIMIT
        &&& -(COORD_LIMIT as int) <= self.min.y < self.max.y <= COORD_LIMIT
    }
}

/// A rigid axis-aligned box: a stable id, a center position, a velocity,
/// strictly positive half-extents, and a mass.
#[derive(Clone, Copy, Debug, PartialEq, Eq, Structural)]
pub struct SimBox {
    pub id: u64,
    pub pos: Vec2,
    pub vel: Vec2,
    pub half: Vec2,
    pub mass: Mass,
}

/// `v`'s absolute value.
pub open spec fn iabs(v: int) -> int {
    if v < 0 {
        -v
    } else {
        v
    }
}

impl SimBox {
    /// Geometry and speed within the machine limits; extents strictly
    /// positive, as the data model demands.
    pub open spec fn wf(self) -> bool {
        &&& 0 < self.half.x <= EXTENT_LIMIT
        &&& 0 < self.half.y <= EXTENT_LIMIT
        &&& -(VEL_LIMIT as int) <= self.vel.x <= VEL_LIMIT
        &&& -(VEL_LIMIT as int) <= self.vel.y <= VEL_LIMIT
        &&& self.mass.wf()
    }
}

/// Where a well-placed box center may sit on one axis, between walls `lo`
/// and `hi` with half-extent `h`: fully inside if the box fits, and at the
/// exact wall midpoint if it is too large for the viewport.
pub open spec fn axis_settled(pos: int, h: int, lo: int, hi: int) -> bool {
    if 2 * h <= hi - lo {
        lo + h <= pos <= hi - h
    } else {
        pos == lo + (hi - lo) / 2
    }
}

/// The box's rectangle lies inside `r` (or is centered on any axis where
/// it cannot fit).
pub open spec fn placed_in(b: SimBox, r: Rect) -> bool {
    &&& axis_settled(b.pos.x as int, b.half.x as int, r.min.x as int, r.max.x as int)
    &&& axis_settled(b.pos.y as int, b.half.y as int, r.min.y as int, r.max.y as int)
}

/// A settled center lies between the walls.
pub proof fn lemma_settled_range(pos: int, h: int, lo: int, hi: int)
    requires
        axis_settled(pos, h, lo, hi),
        0 < h,
        lo < hi,
    ensures
        lo <= pos <= hi,
{
    if 2 * h > hi - lo {
        vstd::arithmetic::div_mod::lemma_div_pos_is_pos(hi - lo, 2);
        vstd::arithmetic::div_mod::lemma_div_nonincreasing(hi - lo, 2);
    }
}

/// A box placed in a well-formed viewport has its center within the
/// coordinate limit.
pub proof fn lemma_placed_in_range(b: SimBox, r: Rect)
    requires
        placed_in(b, r),
        b.wf(),
        r.wf(),
    ensures
        r.min.x <= b.pos.x <= r.max.x,
        r.min.y <= b.pos.y <= r.max.y,
{
    lemma_settled_range(b.pos.x as int, b.half.x as int, r.min.x as int, r.max.x as int);
    lemma_settled_range(b.pos.y as int, b.half.y as int, r.min.y as int, r.max.y as int);
}

/// Signed overlap of the two boxes' x-projections: positive iff the
/// intervals intersect with positive width.
pub open spec fn overlap_x(a: SimBox, b: SimBox) -> int {
    (a.half.x + b.half.x) - iabs(a.pos.x - b.pos.x)
}

/// Signed overlap of the two boxes' y-projections.
pub open spec fn overlap_y(a: SimBox, b: SimBox) -> int {
    (a.half.y + b.half.y) - iabs(a.pos.y - b.pos.y)
}

/// Two rectangles penetrate iff their projections intersect with positive
/// width on both axes; touching edges do not count as penetration.
pub open spec fn penetrating(a: SimBox, b: SimBox) -> bool {
    overlap_x(a, b) > 0 && overlap_y(a, b) > 0
}

} // verus!
