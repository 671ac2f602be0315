use vstd::prelude::*;
use crate::enemy::{enemies_in_world, Enemy};
use crate::geom::{clamp_to, clamp_to_exec, in_world, Vec2i, DT_MAX_US, POS_LIMIT};
use crate::rng::random_in_range;

verus! {

/// Microseconds between two mass waves.
pub const MEGA_WAVE_INTERVAL_US: u64 = 60_000_000;

/// Distance from the player to a wave's center, in position units.
pub const MEGA_WAVE_DISTANCE: i64 = 1_200_000;

/// Half-width of the square each wave enemy is jittered within, in
/// position units.
pub const MEGA_WAVE_JITTER: i64 = 100_000;

/// Enemies per wave.
pub const MEGA_WAVE_COUNT: u32 = 100;

/// A wave's spawn center for one of the four cardinal directions (north,
/// south, east, west), clamped so the whole jittered batch stays in the
/// world.
pub open spec fn wave_center(p: Vec2i, d: int) -> Vec2i {
    let off_x: int = if d == 2 {
        MEGA_WAVE_DISTANCE as int
    } else if d == 3 {
        -MEGA_WAVE_DISTANCE
    } else {
        0
    };
    let off_y: int = if d == 0 {
        MEGA_WAVE_DISTANCE as int
    } else if d == 1 {
        -MEGA_WAVE_DISTANCE
    } else {
        0
    };
    Vec2i {
        x: clamp_to(p.x + off_x, (POS_LIMIT - MEGA_WAVE_JITTER) as i64),
        y: clamp_to(p.y + off_y, (POS_LIMIT - MEGA_WAVE_JITTER) as i64),
    }
}

/// Whether a position lies within the jitter box around a wave center on
/// each axis.
pub open spec fn within_wave_box(pos: Vec2i, center: Vec2i) -> bool {
    &&& center.x - MEGA_WAVE_JITTER <= pos.x < center.x + MEGA_WAVE_JITTER
    &&& center.y - MEGA_WAVE_JITTER <= pos.y < center.y + MEGA_WAVE_JITTER
}

/// When its timer elapses and a player exists, spawns one wave: a batch of
/// MEGA_WAVE_COUNT enemies around a center a fixed distance from the player
/// in one of the four cardinal directions chosen at random, each enemy
/// jittered independently within the jitter box of the center.
pub fn mega_wave_spawner(
    enemies: &mut Vec<Enemy>,
    wave_acc_us: &mut u64,
    player: Option<Vec2i>,
    dt_us: u64,
) -> (dir: Ghost<int>)
    requires
        dt_us <= DT_MAX_US,
        *old(wave_acc_us) < MEGA_WAVE_INTERVAL_US,
        enemies_in_world(old(enemies)@),
        player is Some ==> in_world(player->0),
    ensures
        *old(wave_acc_us) + dt_us >= MEGA_WAVE_INTERVAL_US ==> *final(wave_acc_us) == (*old(
            wave_acc_us,
        ) + dt_us) % (MEGA_WAVE_INTERVAL_US as int),
        *old(wave_acc_us) + dt_us < MEGA_WAVE_INTERVAL_US ==> *final(wave_acc_us) == *old(
            wave_acc_us,
        ) + dt_us,
        *final(wave_acc_us) < MEGA_WAVE_INTERVAL_US,
        (*old(wave_acc_us) + dt_us >= MEGA_WAVE_INTERVAL_US && player is Some) ==> {
            &&& 0 <= dir@ < 4
            &&& final(enemies)@.len() == old(enemies)@.len() + MEGA_WAVE_COUNT
            &&& final(enemies)@.subrange(0, old(enemies)@.len() as int) == old(enemies)@
            &&& forall|i: int|
                old(enemies)@.len() <= i < final(enemies)@.len() ==> within_wave_box(
                    #[trigger] final(enemies)@[i].pos,
                    wave_center(player->0, dir@),
                )
        },
        !(*old(wave_acc_us) + dt_us >= MEGA_WAVE_INTERVAL_US && player is Some)
            ==> final(enemies)@ == old(enemies)@,
        enemies_in_world(final(enemies)@),
{
    let mut chosen: Ghost<int> = Ghost(0);
    let total: u64 = *wave_acc_us + dt_us;
    if total >= MEGA_WAVE_INTERVAL_US {
        *wave_acc_us = total % MEGA_WAVE_INTERVAL_US;
        match player {
            Some(p) => {
                let ghost start = enemies@;
                let d = random_in_range(0, 4);
                chosen = Ghost(d as int);
                let off_x: i64 = if d == 2 {
                    MEGA_WAVE_DISTANCE
                } else if d == 3 {
                    -MEGA_WAVE_DISTANCE
                } else {
                    0
                };
                let off_y: i64 = if d == 0 {
                    MEGA_WAVE_DISTANCE
                } else if d == 1 {
                    -MEGA_WAVE_DISTANCE
                } else {
                    0
                };
                let center = Vec2i {
                    x: clamp_to_exec(p.x as i128 + off_x as i128, POS_LIMIT - MEGA_WAVE_JITTER),
                    y: clamp_to_exec(p.y as i128 + off_y as i128, POS_LIMIT - MEGA_WAVE_JITTER),
                };
                proof {
                    assert(center == wave_center(p, d as int));
                }
                let mut i: u32 = 0;
                while i < MEGA_WAVE_COUNT
                    invariant
                        i <= MEGA_WAVE_COUNT,
                        enemies@.len() == start.len() + i,
                        enemies@.subrange(0, start.len() as int) == start,
                        -POS_LIMIT + MEGA_WAVE_JITTER <= center.x <= POS_LIMIT - MEGA_WAVE_JITTER,
                        -POS_LIMIT + MEGA_WAVE_JITTER <= center.y <= POS_LIMIT - MEGA_WAVE_JITTER,
                        forall|q: int|
                            start.len() <= q < enemies@.len() ==> within_wave_box(
                                #[trigger] enemies@[q].pos,
                                center,
                            ),
                        enemies_in_world(enemies@),
                    decreases MEGA_WAVE_COUNT - i,
                {
                    let jx = random_in_range(-MEGA_WAVE_JITTER, MEGA_WAVE_JITTER);
                    let jy = random_in_range(-MEGA_WAVE_JITTER, MEGA_WAVE_JITTER);
                    let ghost before = enemies@;
                    enemies.push(Enemy { pos: Vec2i { x: center.x + jx, y: center.y + jy } });
                    proof {
                        assert(enemies@.subrange(0, start.len() as int) =~= before.subrange(
                            0,
                            start.len() as int,
                        ));
                    }
                    i = i + 1;
                }
            },
            None => {},
        }
    } else {
        *wave_acc_us = total;
    }
    chosen
}

} // verus!
