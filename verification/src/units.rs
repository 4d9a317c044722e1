//! Fixed-point world coordinates and the simulation's unit constants.
//!
//! A world unit is divided into [`SUBUNITS`] subunits, chosen so that every
//! quantity the simulation needs is an exact integer: the simulation runs at
//! [`TICK_HZ`] ticks per second, so a speed of one unit per second advances
//! exactly `SUBUNITS / TICK_HZ` subunits per tick.

use vstd::prelude::*;

verus! {

/// Subunits per world unit.
pub const SUBUNITS: i64 = 64000;

/// Fixed simulation rate, in ticks per second.
pub const TICK_HZ: i64 = 64;

/// Distance a minion covers in one tick: minion speed is 1 unit/s.
pub const MINION_STEP: i64 = 1000;

/// Distance a player covers per tick and axis: player speed is 10 units/s.
pub const PLAYER_STEP: i64 = 10000;

/// Squared snap threshold for steering: 0.001 square units.
pub const SNAP_EPSILON_SQ: i64 = 4_096_000;

/// Squared scoring range: 1.0 square unit.
pub const SCORE_RANGE_SQ: i64 = 4_096_000_000;

/// Squared reconciliation tolerance: 0.001 square units.
pub const RECONCILE_TOLERANCE_SQ: i64 = 4_096_000;

/// Largest coordinate magnitude the world admits, in subunits.
/// Keeps every squared distance within `i64`.
pub const COORD_LIMIT: i64 = 1_000_000_000;

/// A two-dimensional world vector in fixed-point subunits.
#[derive(Clone, Copy, Debug, PartialEq, Eq, Structural)]
pub struct Vec2 {
    pub x: i64,
    pub y: i64,
}

pub open spec fn sq(v: int) -> int {
    v * v
}

/// Squared Euclidean distance between two points, in square subunits.
pub open spec fn dist_sq(a: Vec2, b: Vec2) -> int {
    sq(a.x - b.x) + sq(a.y - b.y)
}

impl Vec2 {
    /// Both coordinates within the world extent.
    pub open spec fn in_bounds(self) -> bool {
        -COORD_LIMIT <= self.x <= COORD_LIMIT && -COORD_LIMIT <= self.y <= COORD_LIMIT
    }

    pub fn new(x: i64, y: i64) -> (r: Vec2)
        ensures
            r.x == x,
            r.y == y,
    {
        Vec2 { x, y }
    }

    /// The point itself if it lies within the world extent, else the nearest
    /// point of the extent (each axis clamped independently).
    pub open spec fn clamped_spec(self) -> Vec2 {
        Vec2 { x: clamp_coord_spec(self.x), y: clamp_coord_spec(self.y) }
    }

    pub fn clamped(self) -> (r: Vec2)
        ensures
            r == self.clamped_spec(),
            r.in_bounds(),
            self.in_bounds() ==> r == self,
    {
        Vec2 { x: clamp_coord(self.x), y: clamp_coord(self.y) }
    }
}

pub open spec fn clamp_coord_spec(v: i64) -> i64 {
    if v < -COORD_LIMIT {
        (-COORD_LIMIT) as i64
    } else if v > COORD_LIMIT {
        COORD_LIMIT
    } else {
        v
    }
}

pub fn clamp_coord(v: i64) -> (r: i64)
    ensures
        r == clamp_coord_spec(v),
{
    if v < -COORD_LIMIT {
        -COORD_LIMIT
    } else if v > COORD_LIMIT {
        COORD_LIMIT
    } else {
        v
    }
}

/// Squared distance, computed in `i64` without overflow thanks to the
/// world extent bound.
pub fn dist_sq_i64(a: Vec2, b: Vec2) -> (r: i64)
    requires
        a.in_bounds(),
        b.in_bounds(),
    ensures
        r == dist_sq(a, b),
        0 <= r <= 8_000_000_000_000_000_000,
{
    let dx: i64 = a.x - b.x;
    let dy: i64 = a.y - b.y;
    proof {
        assert(-2_000_000_000 <= dx <= 2_000_000_000);
        assert(-2_000_000_000 <= dy <= 2_000_000_000);
        assert(0 <= dx * dx <= 4_000_000_000_000_000_000) by (nonlinear_arith)
            requires -2_000_000_000 <= dx <= 2_000_000_000;
        assert(0 <= dy * dy <= 4_000_000_000_000_000_000) by (nonlinear_arith)
            requires -2_000_000_000 <= dy <= 2_000_000_000;
    }
    dx * dx + dy * dy
}

} // verus!
