//! Team identity and the collision-layer masks a team's spatial queries use.

use vstd::prelude::*;

verus! {

/// One of the two controlled sides of the simulation.
#[derive(Debug, Clone, Copy, PartialEq, Eq, Structural)]
pub enum TeamId {
    Red,
    Blue,
}

/// Collision layer occupied by static walls.
pub const COLLISION_LAYER_WALL: u32 = 1u32 << 0;

/// Collision layer occupied by agents.
pub const COLLISION_LAYER_AGENT: u32 = 1u32 << 1;

/// Collision layer occupied by the ground plane.
pub const COLLISION_LAYER_GROUND: u32 = 1u32 << 2;

/// Collision layer occupied by flags and capture points.
pub const COLLISION_LAYER_FLAG_OR_CP: u32 = 1u32 << 5;

/// Collision layer of the zone the red team may not camp in.
pub const COLLISION_LAYER_CAMP_BLOCK_RED: u32 = 1u32 << 20;

/// Collision layer of the zone the blue team may not camp in.
pub const COLLISION_LAYER_CAMP_BLOCK_BLUE: u32 = 1u32 << 21;

impl TeamId {
    /// The opposing side.
    pub fn other(&self) -> (r: TeamId)
        ensures
            r == (match *self {
                TeamId::Red => TeamId::Blue,
                TeamId::Blue => TeamId::Red,
            }),
    {
        match *self {
            TeamId::Red => TeamId::Blue,
            TeamId::Blue => TeamId::Red,
        }
    }
}

/// The collision layers that block a segment query made on behalf of `team`:
/// walls always block, and so does the camp zone closed to that team.
pub fn blocking_mask(team: TeamId) -> (r: u32)
    ensures
        team == TeamId::Red ==> r == (COLLISION_LAYER_WALL | COLLISION_LAYER_CAMP_BLOCK_RED),
        team == TeamId::Blue ==> r == (COLLISION_LAYER_WALL | COLLISION_LAYER_CAMP_BLOCK_BLUE),
{
    match team {
        TeamId::Red => COLLISION_LAYER_WALL | COLLISION_LAYER_CAMP_BLOCK_RED,
        TeamId::Blue => COLLISION_LAYER_WALL | COLLISION_LAYER_CAMP_BLOCK_BLUE,
    }
}

} // verus!
