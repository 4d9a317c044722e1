//! The movement rule shared between client prediction and server authority.
//!
//! A `Direction` input moves the player by the per-tick step independently
//! on each axis for each held flag: diagonal movement is deliberately
//! unnormalized, up-and-left moves at full speed on both axes. A `Spawn`
//! input leaves the position alone and requests a minion at the clicked
//! position with the default rally target.

use vstd::prelude::*;

use crate::components::Direction;
use crate::components::Inputs;
use crate::components::PlayerPosition;
use crate::components::Rgb;
use crate::units::COORD_LIMIT;
use crate::units::PLAYER_STEP;
use crate::units::Vec2;
use crate::units::clamp_coord;
use crate::units::clamp_coord_spec;

verus! {

/// Default rally point for a fresh minion: the world position (4, 4).
pub const DEFAULT_TARGET_COORD: i64 = 256000;

/// The default target as a vector.
pub open spec fn default_target_spec() -> Vec2 {
    Vec2 { x: DEFAULT_TARGET_COORD, y: DEFAULT_TARGET_COORD }
}

pub fn default_target() -> (r: Vec2)
    ensures
        r == default_target_spec(),
{
    Vec2 { x: DEFAULT_TARGET_COORD, y: DEFAULT_TARGET_COORD }
}

/// Signed x displacement of one tick of directional input, in subunits.
pub open spec fn dir_dx(dir: Direction) -> int {
    (if dir.right { PLAYER_STEP as int } else { 0 }) - (if dir.left { PLAYER_STEP as int } else { 0 })
}

/// Signed y displacement of one tick of directional input, in subunits.
pub open spec fn dir_dy(dir: Direction) -> int {
    (if dir.up { PLAYER_STEP as int } else { 0 }) - (if dir.down { PLAYER_STEP as int } else { 0 })
}

/// The position after one tick of directional input: each axis moves by the
/// full step per held flag, clamped to the world extent.
pub open spec fn dir_moved(p: Vec2, dir: Direction) -> Vec2
    recommends
        p.in_bounds(),
{
    Vec2 {
        x: clamp_coord_spec(((p.x + dir_dx(dir)) as i64)),
        y: clamp_coord_spec(((p.y + dir_dy(dir)) as i64)),
    }
}

/// A minion the simulation was asked to create.
#[derive(Clone, Copy, Debug, PartialEq, Eq, Structural)]
pub struct SpawnRequest {
    pub pos: Vec2,
    pub color: Rgb,
}

/// What one tick of input does to a player: `Direction` moves the position
/// (unnormalized per axis), `Spawn` requests a minion at the clicked
/// position, `NoInput` does nothing. Shared verbatim by the client's
/// prediction and the server's authoritative step.
pub fn shared_movement_behaviour(input: &Inputs, position: &mut PlayerPosition) -> (spawn: Option<
    SpawnRequest,
>)
    requires
        old(position).0.in_bounds(),
    ensures
        final(position).0.in_bounds(),
        match *input {
            Inputs::Direction(dir) => {
                &&& final(position).0 == dir_moved(old(position).0, dir)
                &&& spawn is None
            },
            Inputs::Spawn(pos, color) => {
                &&& *final(position) == *old(position)
                &&& spawn == Some(SpawnRequest { pos: pos.clamped_spec(), color })
            },
            Inputs::NoInput => {
                &&& *final(position) == *old(position)
                &&& spawn is None
            },
        },
{
    match input {
        Inputs::Direction(dir) => {
            let mut x: i64 = position.0.x;
            let mut y: i64 = position.0.y;
            if dir.up {
                y = y + PLAYER_STEP;
            }
            if dir.down {
                y = y - PLAYER_STEP;
            }
            if dir.left {
                x = x - PLAYER_STEP;
            }
            if dir.right {
                x = x + PLAYER_STEP;
            }
            position.0 = Vec2 { x: clamp_coord(x), y: clamp_coord(y) };
            None
        }
        Inputs::Spawn(pos, color) => Some(SpawnRequest { pos: pos.clamped(), color: *color }),
        Inputs::NoInput => None,
    }
}

/// Diagonal movement is unnormalized: with exactly `up` and `left` held,
/// one tick changes the position by the full step on both axes, (-step,
/// +step) — not step divided by the square root of two. The clamp at the
/// world extent is assumed not to bite.
pub proof fn lemma_diagonal_unnormalized(p: Vec2, dir: Direction)
    requires
        dir.up,
        dir.left,
        !dir.down,
        !dir.right,
        -COORD_LIMIT <= p.x - PLAYER_STEP,
        p.y + PLAYER_STEP <= COORD_LIMIT,
        p.in_bounds(),
    ensures
        dir_moved(p, dir).x == p.x - PLAYER_STEP,
        dir_moved(p, dir).y == p.y + PLAYER_STEP,
{
}

} // verus!
