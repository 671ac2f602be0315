use vstd::prelude::*;
use crate::geom::{
    in_world, seek_step, seek_step_exec, vadd_clamp, vadd_clamp_exec, Vec2i, DT_MAX_US,
    MILLI_PER_UNIT,
};

verus! {

/// Speed of the player, in position units per second.
pub const PLAYER_SPEED: u64 = 500_000;

/// Width of the player, in position units.
pub const PLAYER_SIZE: i64 = 30_000;

/// The single player-driven entity.
#[derive(Clone, Copy, PartialEq, Eq, Structural, Debug)]
pub struct Player {
    pub pos: Vec2i,
}

/// Creates the player at the origin, as entering the running state does.
pub fn spawn_player() -> (p: Player)
    ensures
        p.pos == (Vec2i { x: 0, y: 0 }),
{
    Player { pos: Vec2i { x: 0, y: 0 } }
}

/// Where one tick of directional input moves the player: a unit-length step
/// scaled by the player speed, or no movement without input. The intent is a
/// keyboard direction, each axis -1, 0 or 1.
pub open spec fn player_step(pos: Vec2i, ix: i64, iy: i64, dt_us: u64) -> Vec2i {
    let target = vadd_clamp(
        pos,
        Vec2i { x: (ix * MILLI_PER_UNIT) as i64, y: (iy * MILLI_PER_UNIT) as i64 },
    );
    seek_step(pos, target, PLAYER_SPEED, dt_us)
}

/// Moves the player along the input direction at the player speed.
pub fn player_movement(player: &mut Player, ix: i64, iy: i64, dt_us: u64)
    requires
        in_world(old(player).pos),
        -1 <= ix <= 1,
        -1 <= iy <= 1,
        dt_us <= DT_MAX_US,
    ensures
        final(player).pos == player_step(old(player).pos, ix, iy, dt_us),
        in_world(final(player).pos),
{
    let target = vadd_clamp_exec(
        player.pos,
        Vec2i { x: ix * MILLI_PER_UNIT, y: iy * MILLI_PER_UNIT },
    );
    player.pos = seek_step_exec(player.pos, target, PLAYER_SPEED, dt_us);
}

} // verus!
