use vstd::prelude::*;
use crate::geom::{
    clamp_coord, clamp_coord_exec, dist2, div_trunc, in_world, isqrt, seek_step, seek_step_exec,
    sqrt_floor, tdiv, vadd_clamp, vadd_clamp_exec, Vec2i, DT_MAX_US, POS_LIMIT, US_PER_S,
};

verus! {

/// Width of a hostile, in position units.
pub const ENEMY_SIZE: i64 = 20_000;

/// Speed of a hostile, in position units per second.
pub const ENEMY_SPEED: u64 = 200_000;

/// Microseconds between two trickle spawns.
pub const ENEMY_SPAWN_INTERVAL_US: u64 = 100_000;

/// Distance from the player at which trickle spawns appear, in position units.
pub const ENEMY_SPAWN_RADIUS: i64 = 1_000_000;

/// Hostiles closer to each other than this are pushed apart: one and a half
/// times the hostile size.
pub const SEPARATION_THRESHOLD: i64 = 30_000;

/// An enemy entity seeking the player.
#[derive(Clone, Copy, PartialEq, Eq, Structural, Debug)]
pub struct Enemy {
    pub pos: Vec2i,
}

/// Every enemy position lies within the world bounds.
pub open spec fn enemies_in_world(es: Seq<Enemy>) -> bool {
    forall|i: int| 0 <= i < es.len() ==> in_world(#[trigger] es[i].pos)
}

/// How many spawns one tick releases: one per spawn interval the accumulated
/// time has crossed.
pub open spec fn trickle_count(acc_us: u64, dt_us: u64) -> int {
    (acc_us + dt_us) / (ENEMY_SPAWN_INTERVAL_US as int)
}

/// The enemies a trickle tick appends: one per offset used, each at the
/// player's position displaced by the offset.
pub open spec fn trickle_spawned(player_pos: Vec2i, offsets: Seq<Vec2i>, k: int) -> Seq<Enemy>
    recommends
        0 <= k <= offsets.len(),
{
    Seq::new(k as nat, |i: int| Enemy { pos: vadd_clamp(player_pos, offsets[i]) })
}

/// Releases the spawns the trickle timer owes for this tick. The timer runs
/// whether or not a player exists; enemies appear only while one does, each
/// at the player's position displaced by the caller's offset for it.
pub fn enemy_spawner(
    enemies: &mut Vec<Enemy>,
    spawn_acc_us: &mut u64,
    player: Option<Vec2i>,
    offsets: &Vec<Vec2i>,
    dt_us: u64,
)
    requires
        dt_us <= DT_MAX_US,
        *old(spawn_acc_us) < ENEMY_SPAWN_INTERVAL_US,
        enemies_in_world(old(enemies)@),
        player is Some ==> offsets@.len() >= trickle_count(*old(spawn_acc_us), dt_us),
    ensures
        *final(spawn_acc_us) == (*old(spawn_acc_us) + dt_us) % (ENEMY_SPAWN_INTERVAL_US as int),
        *final(spawn_acc_us) < ENEMY_SPAWN_INTERVAL_US,
        player is Some ==> final(enemies)@ == old(enemies)@ + trickle_spawned(
            player->0,
            offsets@,
            trickle_count(*old(spawn_acc_us), dt_us),
        ),
        player is None ==> final(enemies)@ == old(enemies)@,
        enemies_in_world(final(enemies)@),
{
    let total: u64 = *spawn_acc_us + dt_us;
    let k: u64 = total / ENEMY_SPAWN_INTERVAL_US;
    *spawn_acc_us = total % ENEMY_SPAWN_INTERVAL_US;
    match player {
        Some(p) => {
            let ghost start = enemies@;
            let ghost goal = trickle_spawned(p, offsets@, k as int);
            let mut i: usize = 0;
            while i < k as usize
                invariant
                    i <= k,
                    k <= offsets@.len(),
                    goal == trickle_spawned(p, offsets@, k as int),
                    enemies@ == start + trickle_spawned(p, offsets@, i as int),
                    enemies_in_world(enemies@),
                decreases k - i,
            {
                let e = Enemy { pos: vadd_clamp_exec(p, offsets[i]) };
                enemies.push(e);
                proof {
                    assert(trickle_spawned(p, offsets@, i + 1) =~= trickle_spawned(
                        p,
                        offsets@,
                        i as int,
                    ).push(e));
                }
                i = i + 1;
            }
            proof {
                assert(enemies@ == start + goal);
            }
        },
        None => {},
    }
}

/// The sum of a run of tick durations.
pub open spec fn sum_dt(dts: Seq<u64>) -> int
    decreases dts.len(),
{
    if dts.len() == 0 {
        0
    } else {
        dts[0] + sum_dt(dts.drop_first())
    }
}

/// Total spawns the trickle timer releases over a run of ticks.
pub open spec fn trickle_total(acc_us: u64, dts: Seq<u64>) -> int
    decreases dts.len(),
{
    if dts.len() == 0 {
        0
    } else {
        trickle_count(acc_us, dts[0]) + trickle_total(
            ((acc_us + dts[0]) % (ENEMY_SPAWN_INTERVAL_US as int)) as u64,
            dts.drop_first(),
        )
    }
}

proof fn lemma_sum_dt_nonneg(dts: Seq<u64>)
    ensures
        sum_dt(dts) >= 0,
    decreases dts.len(),
{
    if dts.len() > 0 {
        lemma_sum_dt_nonneg(dts.drop_first());
    }
}

/// Over any run of ticks, the trickle releases exactly one spawn per full
/// spawn interval of accumulated time: starting from accumulator a, the
/// total over the run is the floor of (a + total elapsed time) divided by
/// the spawn interval.
pub proof fn lemma_trickle_total(acc_us: u64, dts: Seq<u64>)
    requires
        acc_us < ENEMY_SPAWN_INTERVAL_US,
    ensures
        trickle_total(acc_us, dts) == (acc_us + sum_dt(dts)) / (ENEMY_SPAWN_INTERVAL_US as int),
    decreases dts.len(),
{
    let iv = ENEMY_SPAWN_INTERVAL_US as int;
    if dts.len() == 0 {
        assert((acc_us as int) / iv == 0) by {
            vstd::arithmetic::div_mod::lemma_basic_div(acc_us as int, iv);
        }
    } else {
        let x = acc_us + dts[0];
        let rest = dts.drop_first();
        let r = x % iv;
        assert(0 <= r < iv) by {
            vstd::arithmetic::div_mod::lemma_mod_division_less_than_divisor(x, iv);
        }
        lemma_trickle_total(r as u64, rest);
        lemma_sum_dt_nonneg(rest);
        let s = sum_dt(rest);
        assert((r + s) / iv + x / iv == (r + s + (x / iv) * iv) / iv) by {
            vstd::arithmetic::div_mod::lemma_hoist_over_denominator(
                r + s,
                x / iv,
                ENEMY_SPAWN_INTERVAL_US as nat,
            );
        }
        assert(x == (x / iv) * iv + r) by {
            vstd::arithmetic::div_mod::lemma_fundamental_div_mod(x, iv);
        }
        assert(sum_dt(dts) == dts[0] + s);
    }
}

/// A trickle offset of exact spawn-radius length places the new enemy at
/// squared distance ENEMY_SPAWN_RADIUS^2 from the player, as long as the
/// player is far enough from the world edge that no clamping occurs.
pub proof fn lemma_trickle_spawn_distance(player_pos: Vec2i, off: Vec2i)
    requires
        off.x * off.x + off.y * off.y == ENEMY_SPAWN_RADIUS * ENEMY_SPAWN_RADIUS,
        -POS_LIMIT + ENEMY_SPAWN_RADIUS <= player_pos.x <= POS_LIMIT - ENEMY_SPAWN_RADIUS,
        -POS_LIMIT + ENEMY_SPAWN_RADIUS <= player_pos.y <= POS_LIMIT - ENEMY_SPAWN_RADIUS,
    ensures
        dist2(vadd_clamp(player_pos, off), player_pos) == ENEMY_SPAWN_RADIUS
            * ENEMY_SPAWN_RADIUS,
{
    assert(off.x * off.x <= ENEMY_SPAWN_RADIUS * ENEMY_SPAWN_RADIUS && off.y * off.y
        <= ENEMY_SPAWN_RADIUS * ENEMY_SPAWN_RADIUS) by (nonlinear_arith)
        requires
            off.x * off.x + off.y * off.y == ENEMY_SPAWN_RADIUS * ENEMY_SPAWN_RADIUS,
    ;
    assert(-ENEMY_SPAWN_RADIUS <= off.x <= ENEMY_SPAWN_RADIUS) by (nonlinear_arith)
        requires
            off.x * off.x <= ENEMY_SPAWN_RADIUS * ENEMY_SPAWN_RADIUS,
    ;
    assert(-ENEMY_SPAWN_RADIUS <= off.y <= ENEMY_SPAWN_RADIUS) by (nonlinear_arith)
        requires
            off.y * off.y <= ENEMY_SPAWN_RADIUS * ENEMY_SPAWN_RADIUS,
    ;
}

/// Each enemy after one seek tick: stepped toward the player.
pub open spec fn seek_all(es: Seq<Enemy>, target: Vec2i, dt_us: u64) -> Seq<Enemy> {
    es.map_values(|e: Enemy| Enemy { pos: seek_step(e.pos, target, ENEMY_SPEED, dt_us) })
}

/// Moves every enemy toward the player at the enemy speed; without a player
/// nothing moves.
pub fn enemy_movement(enemies: &mut Vec<Enemy>, player: Option<Vec2i>, dt_us: u64)
    requires
        dt_us <= DT_MAX_US,
        enemies_in_world(old(enemies)@),
        player is Some ==> in_world(player->0),
    ensures
        player is Some ==> final(enemies)@ == seek_all(old(enemies)@, player->0, dt_us),
        player is None ==> final(enemies)@ == old(enemies)@,
        enemies_in_world(final(enemies)@),
{
    match player {
        Some(p) => {
            let ghost start = enemies@;
            let n = enemies.len();
            let mut i: usize = 0;
            while i < n
                invariant
                    i <= n,
                    enemies@.len() == n,
                    start.len() == n,
                    enemies_in_world(start),
                    in_world(p),
                    dt_us <= DT_MAX_US,
                    forall|q: int| i <= q < n ==> enemies@[q] == start[q],
                    forall|q: int|
                        0 <= q < i ==> #[trigger] enemies@[q] == (Enemy {
                            pos: seek_step(start[q].pos, p, ENEMY_SPEED, dt_us),
                        }),
                    enemies_in_world(enemies@),
                decreases n - i,
            {
                let stepped = Enemy { pos: seek_step_exec(enemies[i].pos, p, ENEMY_SPEED, dt_us) };
                enemies.set(i, stepped);
                i = i + 1;
            }
            proof {
                assert(enemies@ =~= seek_all(start, p, dt_us));
            }
        },
        None => {},
    }
}

/// Where an ordered pair of enemies stands after its separation check: both
/// pushed apart along their connecting line when closer than the threshold,
/// with the push proportional to how far inside the threshold they are,
/// scaled by the enemy speed and halved for each of the two.
pub open spec fn sep_pair(ps: Seq<Enemy>, i: int, j: int, dt_us: u64) -> Seq<Enemy>
    recommends
        0 <= i < j < ps.len(),
{
    let a = ps[i].pos;
    let b = ps[j].pos;
    let dx = (a.x - b.x) as int;
    let dy = (a.y - b.y) as int;
    let d2 = dx * dx + dy * dy;
    if 0 < d2 < SEPARATION_THRESHOLD * SEPARATION_THRESHOLD {
        let dist = sqrt_floor(d2);
        let den = dist * SEPARATION_THRESHOLD * 2 * US_PER_S;
        let px = tdiv(dx * (SEPARATION_THRESHOLD - dist) * ENEMY_SPEED * dt_us, den);
        let py = tdiv(dy * (SEPARATION_THRESHOLD - dist) * ENEMY_SPEED * dt_us, den);
        ps.update(
            i,
            Enemy { pos: Vec2i { x: clamp_coord(a.x + px), y: clamp_coord(a.y + py) } },
        ).update(
            j,
            Enemy { pos: Vec2i { x: clamp_coord(b.x - px), y: clamp_coord(b.y - py) } },
        )
    } else {
        ps
    }
}

/// The separation pass over all ordered pairs from (i, j) on, in the order
/// the pass visits them: for each first index, every second index above it.
/// Later pairs see the pushes of earlier ones.
pub open spec fn sep_rec(ps: Seq<Enemy>, i: int, j: int, dt_us: u64) -> Seq<Enemy>
    decreases ps.len() - i, ps.len() - j,
{
    if !(0 <= i && i + 1 < ps.len() && i < j) {
        ps
    } else if j >= ps.len() {
        sep_rec(ps, i + 1, i + 2, dt_us)
    } else {
        sep_rec(sep_pair(ps, i, j, dt_us), i, j + 1, dt_us)
    }
}

/// Applies the separation push for one pair, in place.
fn sep_pair_exec(enemies: &mut Vec<Enemy>, i: usize, j: usize, dt_us: u64)
    requires
        i < j < old(enemies)@.len(),
        dt_us <= DT_MAX_US,
        enemies_in_world(old(enemies)@),
    ensures
        final(enemies)@ == sep_pair(old(enemies)@, i as int, j as int, dt_us),
        final(enemies)@.len() == old(enemies)@.len(),
        enemies_in_world(final(enemies)@),
{
    let a = enemies[i].pos;
    let b = enemies[j].pos;
    let dx: i128 = a.x as i128 - b.x as i128;
    let dy: i128 = a.y as i128 - b.y as i128;
    proof {
        assert(0 <= dx * dx <= 4_000_000_000_000_000_000_000_000 && 0 <= dy * dy
            <= 4_000_000_000_000_000_000_000_000) by (nonlinear_arith)
            requires
                -2_000_000_000_000 <= dx <= 2_000_000_000_000,
                -2_000_000_000_000 <= dy <= 2_000_000_000_000,
        ;
    }
    let d2: i128 = dx * dx + dy * dy;
    proof {
        assert((SEPARATION_THRESHOLD as i128) * (SEPARATION_THRESHOLD as i128) == 900_000_000)
            by (nonlinear_arith)
            requires
                SEPARATION_THRESHOLD == 30_000,
        ;
    }
    if 0 < d2 && d2 < (SEPARATION_THRESHOLD as i128) * (SEPARATION_THRESHOLD as i128) {
        proof {
            assert(-30_000 <= dx <= 30_000 && -30_000 <= dy <= 30_000) by (nonlinear_arith)
                requires
                    dx * dx + dy * dy < 900_000_000,
                    0 <= dx * dx,
                    0 <= dy * dy,
        ;
        }
        let dist: u128 = isqrt(d2 as u128);
        proof {
            assert(dist >= 1) by (nonlinear_arith)
                requires
                    d2 as u128 >= 1,
                    (d2 as u128) < (dist + 1) * (dist + 1),
            ;
            assert(dist <= 30_000) by (nonlinear_arith)
                requires
                    dist * dist <= 900_000_000,
            ;
            assert(0 < dist * (SEPARATION_THRESHOLD as u128) * 2 * (US_PER_S as u128)
                <= 1_800_000_000_000_000 && dist * (SEPARATION_THRESHOLD as u128)
                <= 900_000_000 && dist * (SEPARATION_THRESHOLD as u128) * 2 <= 1_800_000_000)
                by (nonlinear_arith)
                requires
                    1 <= dist <= 30_000,
                    SEPARATION_THRESHOLD == 30_000,
                    US_PER_S == 1_000_000,
            ;
            assert({
                let m = (SEPARATION_THRESHOLD as i128 - dist as i128) * (ENEMY_SPEED as i128) * (
                dt_us as i128);
                -2_000_000_000_000_000_000_000_000 <= dx * m <= 2_000_000_000_000_000_000_000_000
                    && -2_000_000_000_000_000_000_000_000 <= dy * m
                    <= 2_000_000_000_000_000_000_000_000
                    && -100_000_000_000_000_000 <= m <= 100_000_000_000_000_000
                    && -4_000_000_000_000 <= dx * (SEPARATION_THRESHOLD as i128 - dist as i128)
                    <= 4_000_000_000_000
                    && -4_000_000_000_000_000_000 <= dx * (SEPARATION_THRESHOLD as i128
                    - dist as i128) * (ENEMY_SPEED as i128) <= 4_000_000_000_000_000_000
                    && -4_000_000_000_000 <= dy * (SEPARATION_THRESHOLD as i128 - dist as i128)
                    <= 4_000_000_000_000
                    && -4_000_000_000_000_000_000 <= dy * (SEPARATION_THRESHOLD as i128
                    - dist as i128) * (ENEMY_SPEED as i128) <= 4_000_000_000_000_000_000
                    && dx * m == dx * (SEPARATION_THRESHOLD as i128 - dist as i128) * (
                ENEMY_SPEED as i128) * (dt_us as i128)
                    && dy * m == dy * (SEPARATION_THRESHOLD as i128 - dist as i128) * (
                ENEMY_SPEED as i128) * (dt_us as i128)
            }) by (nonlinear_arith)
                requires
                    -30_000 <= dx <= 30_000,
                    -30_000 <= dy <= 30_000,
                    1 <= dist <= 30_000,
                    0 <= dt_us <= 10_000_000,
                    SEPARATION_THRESHOLD == 30_000,
                    ENEMY_SPEED == 200_000,
            ;
        }
        let den: u128 = dist * (SEPARATION_THRESHOLD as u128) * 2 * (US_PER_S as u128);
        let px: i128 = div_trunc(
            dx * (SEPARATION_THRESHOLD as i128 - dist as i128) * (ENEMY_SPEED as i128) * (
            dt_us as i128),
            den,
        );
        let py: i128 = div_trunc(
            dy * (SEPARATION_THRESHOLD as i128 - dist as i128) * (ENEMY_SPEED as i128) * (
            dt_us as i128),
            den,
        );
        let na = Enemy {
            pos: Vec2i {
                x: clamp_coord_exec(a.x as i128 + px),
                y: clamp_coord_exec(a.y as i128 + py),
            },
        };
        let nb = Enemy {
            pos: Vec2i {
                x: clamp_coord_exec(b.x as i128 - px),
                y: clamp_coord_exec(b.y as i128 - py),
            },
        };
        enemies.set(i, na);
        enemies.set(j, nb);
    }
}

/// One full separation pass over every unordered pair of enemies, in pass
/// order.
pub fn boid_steering(enemies: &mut Vec<Enemy>, dt_us: u64)
    requires
        dt_us <= DT_MAX_US,
        enemies_in_world(old(enemies)@),
    ensures
        final(enemies)@ == sep_rec(old(enemies)@, 0, 1, dt_us),
        enemies_in_world(final(enemies)@),
{
    let ghost start = enemies@;
    let n = enemies.len();
    if n < 2 {
        return ;
    }
    let mut i: usize = 0;
    while i + 1 < n
        invariant
            i + 1 <= n,
            2 <= n,
            enemies@.len() == n,
            dt_us <= DT_MAX_US,
            enemies_in_world(enemies@),
            sep_rec(start, 0, 1, dt_us) == sep_rec(enemies@, i as int, i + 1, dt_us),
        decreases n - i,
    {
        let mut j: usize = i + 1;
        while j < n
            invariant
                i < j <= n,
                i + 1 < n,
                enemies@.len() == n,
                dt_us <= DT_MAX_US,
                enemies_in_world(enemies@),
                sep_rec(start, 0, 1, dt_us) == sep_rec(enemies@, i as int, j as int, dt_us),
            decreases n - j,
        {
            sep_pair_exec(enemies, i, j, dt_us);
            j = j + 1;
        }
        i = i + 1;
    }
}

} // verus!
