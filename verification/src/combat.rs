use vstd::prelude::*;
use crate::enemy::{enemies_in_world, Enemy};
use crate::geom::{
    dir_bounded, dist2, dist2_exec, fly_step, fly_step_exec, in_world, rotate_dir,
    rotate_dir_exec, scaled_dir, scaled_dir_exec, Vec2i, DIR_BOUND, DIR_ONE, DT_MAX_US,
    SPEED_MAX,
};
use crate::leveling::XpDropEvent;

verus! {

/// Orbit radius of the blade ring, in position units.
pub const ORBITING_BLADE_RADIUS: i64 = 100_000;

/// Angular speed of the blade ring, in microradians per microsecond
/// (two radians per second).
pub const ORBITING_BLADE_ROTATION_SPEED: u64 = 2;

/// One full turn in microradians, truncated.
pub const TAU_URAD: u64 = 6_283_185;

/// Speed of a projectile, in position units per second.
pub const PROJECTILE_SPEED: u64 = 800_000;

/// Lifetime of a projectile, in microseconds.
pub const PROJECTILE_TTL_US: u64 = 2_000_000;

/// A projectile hits an enemy within half the enemy size.
pub const PROJECTILE_HIT_RADIUS: i64 = 10_000;

/// Farthest a chained kill can hop, in position units.
pub const CHAIN_RANGE: i64 = 300_000;

/// A blade hits an enemy within half the enemy size plus the blade reach.
pub const BLADE_HIT_RADIUS: i64 = 25_000;

/// The fire interval a fresh weapon starts with, in microseconds.
pub const FIRE_INTERVAL_START_US: u64 = 500_000;

/// Shortest fire interval an upgrade can reach; the interval stays positive.
pub const FIRE_INTERVAL_MIN_US: u64 = 1;

/// Longest fire interval the weapon accepts, in microseconds.
pub const FIRE_INTERVAL_MAX_US: u64 = 3_600_000_000;

/// Half the angular step between fanned projectiles, in microradians; the
/// full step is 0.15 rad.
pub const FAN_HALF_STEP_URAD: i64 = 75_000;

/// The mutable record of offensive capabilities.
#[derive(Clone, Copy, PartialEq, Eq, Structural, Debug)]
pub struct WeaponStats {
    pub multishot: u32,
    pub chain_lightning: u32,
    pub blade_count: u32,
    pub fire_rate_us: u64,
}

impl WeaponStats {
    /// The record's invariant: at least one projectile per volley, and a
    /// positive, bounded fire interval.
    pub open spec fn wf(self) -> bool {
        &&& self.multishot >= 1
        &&& FIRE_INTERVAL_MIN_US <= self.fire_rate_us <= FIRE_INTERVAL_MAX_US
    }
}

impl Default for WeaponStats {
    /// A fresh weapon: single shot, no chain, three blades, half-second
    /// fire interval.
    fn default() -> (s: Self)
        ensures
            s.multishot == 1,
            s.chain_lightning == 0,
            s.blade_count == 3,
            s.fire_rate_us == FIRE_INTERVAL_START_US,
            s.wf(),
    {
        WeaponStats { multishot: 1, chain_lightning: 0, blade_count: 3, fire_rate_us: FIRE_INTERVAL_START_US }
    }
}

/// A projectile in flight: position, fixed-point direction, speed, and
/// remaining lifetime.
#[derive(Clone, Copy, PartialEq, Eq, Structural, Debug)]
pub struct Projectile {
    pub pos: Vec2i,
    pub dir: Vec2i,
    pub speed: u64,
    pub ttl_us: u64,
}

/// A stored projectile is in the world, with a bounded direction and speed.
pub open spec fn projectile_wf(p: Projectile) -> bool {
    in_world(p.pos) && dir_bounded(p.dir, DIR_BOUND) && p.speed <= SPEED_MAX
}

pub open spec fn projectiles_wf(ps: Seq<Projectile>) -> bool {
    forall|i: int| 0 <= i < ps.len() ==> projectile_wf(#[trigger] ps[i])
}

/// One blade of the orbiting ring, identified by its slot; the blade's
/// angle is the ring's rotation plus its slot's even share of a full turn.
#[derive(Clone, Copy, PartialEq, Eq, Structural, Debug)]
pub struct OrbitingBlade {
    pub index: u32,
}

/// The rotating anchor of the melee ring, bound to the player's position,
/// owning the blades.
#[derive(Clone, Debug)]
pub struct BladeOrbit {
    pub rotation_urad: u64,
    pub blades: Vec<OrbitingBlade>,
}

/// A ring of n blades, one per slot.
pub open spec fn blade_ring(n: int) -> Seq<OrbitingBlade>
    recommends
        0 <= n <= u32::MAX,
{
    Seq::new(n as nat, |i: int| OrbitingBlade { index: i as u32 })
}

/// The ring's invariant: rotation within one turn, blades filling the
/// slots in order.
pub open spec fn orbit_wf(o: BladeOrbit) -> bool {
    &&& o.rotation_urad < TAU_URAD
    &&& o.blades@ == blade_ring(o.blades@.len() as int)
    &&& o.blades@.len() <= u32::MAX
}

/// Fills the ring for a newly created anchor with one blade per slot of the
/// configured count.
pub fn spawn_initial_blades(orbit: &mut BladeOrbit, weapon: &WeaponStats)
    ensures
        final(orbit).blades@ == blade_ring(weapon.blade_count as int),
        final(orbit).rotation_urad == old(orbit).rotation_urad,
        final(orbit).blades@.len() == weapon.blade_count,
{
    let n = weapon.blade_count;
    let mut blades: Vec<OrbitingBlade> = Vec::new();
    let mut i: u32 = 0;
    while i < n
        invariant
            i <= n,
            blades@ == blade_ring(i as int),
        decreases n - i,
    {
        blades.push(OrbitingBlade { index: i });
        proof {
            assert(blade_ring(i + 1) =~= blade_ring(i as int).push(OrbitingBlade { index: i }));
        }
        i = i + 1;
    }
    orbit.blades = blades;
}

/// Advances the ring's rotation at its fixed angular rate, wrapping at a
/// full turn.
pub fn rotate_orbiting_blades(orbit: &mut BladeOrbit, dt_us: u64)
    requires
        old(orbit).rotation_urad < TAU_URAD,
        dt_us <= DT_MAX_US,
    ensures
        final(orbit).rotation_urad == (old(orbit).rotation_urad + ORBITING_BLADE_ROTATION_SPEED
            * dt_us) % (TAU_URAD as int),
        final(orbit).rotation_urad < TAU_URAD,
        final(orbit).blades == old(orbit).blades,
{
    orbit.rotation_urad = (orbit.rotation_urad + ORBITING_BLADE_ROTATION_SPEED * dt_us)
        % TAU_URAD;
}

/// Rebuilds the ring whenever the configured blade count differs from the
/// ring's, removing every old blade and laying out the new count evenly.
pub fn update_blade_count(orbit: &mut BladeOrbit, weapon: &WeaponStats)
    requires
        old(orbit).blades@.len() <= u32::MAX,
    ensures
        weapon.blade_count != old(orbit).blades@.len() ==> final(orbit).blades@ == blade_ring(
            weapon.blade_count as int,
        ),
        weapon.blade_count == old(orbit).blades@.len() ==> final(orbit).blades
            == old(orbit).blades,
        final(orbit).rotation_urad == old(orbit).rotation_urad,
        final(orbit).blades@.len() == weapon.blade_count,
{
    if orbit.blades.len() != weapon.blade_count as usize {
        spawn_initial_blades(orbit, weapon);
    }
}

/// A freshly laid-out ring of n blades holds exactly n, one per slot in
/// order, so consecutive blades sit one n-th of a full turn apart.
pub proof fn lemma_ring_even(n: int)
    requires
        0 <= n <= u32::MAX,
    ensures
        blade_ring(n).len() == n,
        forall|i: int| 0 <= i < n ==> #[trigger] blade_ring(n)[i].index == i,
{
}

/// The angular offset of one projectile in a fanned volley, in
/// microradians: steps of twice the half step, centered so the fan is
/// symmetric around the aim line.
pub fn fan_angle_urad(k: u32, multishot: u32) -> (a: i64)
    requires
        k < multishot,
    ensures
        a == (2 * k - (multishot - 1)) * FAN_HALF_STEP_URAD,
{
    (2 * (k as i64) - (multishot as i64 - 1)) * FAN_HALF_STEP_URAD
}

/// The projectiles still flying after one tick, each advanced along its
/// direction; one whose lifetime the tick exhausts is gone.
pub open spec fn flown(ps: Seq<Projectile>, dt_us: u64, k: int) -> Seq<Projectile>
    decreases ps.len() - k,
{
    if !(0 <= k < ps.len()) {
        Seq::empty()
    } else {
        let p = ps[k];
        if p.ttl_us <= dt_us {
            flown(ps, dt_us, k + 1)
        } else {
            seq![
                Projectile {
                    pos: fly_step(p.pos, p.dir, p.speed, dt_us),
                    dir: p.dir,
                    speed: p.speed,
                    ttl_us: (p.ttl_us - dt_us) as u64,
                },
            ] + flown(ps, dt_us, k + 1)
        }
    }
}

/// Moves every projectile along its direction and removes the ones whose
/// lifetime this tick exhausts.
pub fn move_projectiles(projectiles: &mut Vec<Projectile>, dt_us: u64)
    requires
        dt_us <= DT_MAX_US,
        projectiles_wf(old(projectiles)@),
    ensures
        final(projectiles)@ == flown(old(projectiles)@, dt_us, 0),
        projectiles_wf(final(projectiles)@),
{
    let ghost orig = projectiles@;
    let n = projectiles.len();
    let mut kept: Vec<Projectile> = Vec::new();
    let mut i: usize = 0;
    while i < n
        invariant
            i <= n,
            projectiles@ == orig,
            orig.len() == n,
            dt_us <= DT_MAX_US,
            projectiles_wf(orig),
            projectiles_wf(kept@),
            flown(orig, dt_us, 0) == kept@ + flown(orig, dt_us, i as int),
        decreases n - i,
    {
        let p = projectiles[i];
        if p.ttl_us > dt_us {
            let moved = Projectile {
                pos: fly_step_exec(p.pos, p.dir, p.speed, dt_us),
                dir: p.dir,
                speed: p.speed,
                ttl_us: p.ttl_us - dt_us,
            };
            kept.push(moved);
        }
        i = i + 1;
    }
    *projectiles = kept;
}

/// The index of the enemy nearest to p among indices from k on, seeded with
/// a best candidate; a strictly closer enemy replaces the candidate, so the
/// earliest of equally near enemies wins.
pub open spec fn nearest_from(es: Seq<Enemy>, p: Vec2i, k: int, best: int) -> int
    decreases es.len() - k,
{
    if !(0 <= k < es.len()) {
        best
    } else if dist2(es[k].pos, p) < dist2(es[best].pos, p) {
        nearest_from(es, p, k + 1, k)
    } else {
        nearest_from(es, p, k + 1, best)
    }
}

/// The index of the enemy nearest to p, earliest of ties.
pub open spec fn nearest_enemy(es: Seq<Enemy>, p: Vec2i) -> int
    recommends
        es.len() > 0,
{
    nearest_from(es, p, 1, 0)
}

/// The nearest index is in bounds, no enemy is strictly nearer, and every
/// earlier enemy is strictly farther.
pub proof fn lemma_nearest_from(es: Seq<Enemy>, p: Vec2i, k: int, best: int)
    requires
        0 <= best < es.len(),
        0 <= k <= es.len(),
        forall|q: int| 0 <= q < k ==> dist2(es[q].pos, p) >= dist2(#[trigger] es[best].pos, p),
    ensures
        0 <= nearest_from(es, p, k, best) < es.len(),
        forall|q: int|
            0 <= q < es.len() && q >= k ==> dist2(#[trigger] es[q].pos, p) >= dist2(
                es[nearest_from(es, p, k, best)].pos,
                p,
            ),
        dist2(es[nearest_from(es, p, k, best)].pos, p) <= dist2(es[best].pos, p),
    decreases es.len() - k,
{
    if k < es.len() {
        if dist2(es[k].pos, p) < dist2(es[best].pos, p) {
            lemma_nearest_from(es, p, k + 1, k);
        } else {
            lemma_nearest_from(es, p, k + 1, best);
        }
    }
}

/// The projectiles one volley adds: the configured count, all at the
/// player's position, aimed at the target and fanned by the given rotation
/// vectors, at the fixed speed and lifetime.
pub open spec fn volley(
    player_pos: Vec2i,
    target: Vec2i,
    m: int,
    rots: Seq<Vec2i>,
) -> Seq<Projectile>
    recommends
        0 <= m <= rots.len(),
{
    Seq::new(
        m as nat,
        |i: int| Projectile {
            pos: player_pos,
            dir: rotate_dir(scaled_dir(player_pos, target), rots[i]),
            speed: PROJECTILE_SPEED,
            ttl_us: PROJECTILE_TTL_US,
        },
    )
}

/// Fires when the timer, re-read from the weapon every tick, elapses and an
/// enemy exists: one volley of multishot projectiles aimed at the nearest
/// enemy, fanned by the caller's rotation vectors (the unit vectors of the
/// fan angles). The timer runs regardless; the volley needs a player and a
/// target.
pub fn fire_projectiles(
    projectiles: &mut Vec<Projectile>,
    fire_acc_us: &mut u64,
    weapon: &WeaponStats,
    player: Option<Vec2i>,
    enemies: &Vec<Enemy>,
    fan_rotations: &Vec<Vec2i>,
    dt_us: u64,
)
    requires
        weapon.wf(),
        dt_us <= DT_MAX_US,
        *old(fire_acc_us) <= FIRE_INTERVAL_MAX_US,
        player is Some ==> in_world(player->0),
        enemies_in_world(enemies@),
        projectiles_wf(old(projectiles)@),
        fan_rotations@.len() >= weapon.multishot,
        forall|i: int|
            0 <= i < fan_rotations@.len() ==> dir_bounded(#[trigger] fan_rotations@[i], DIR_ONE),
    ensures
        *old(fire_acc_us) + dt_us >= weapon.fire_rate_us ==> *final(fire_acc_us) == (
        *old(fire_acc_us) + dt_us) % (weapon.fire_rate_us as int),
        *old(fire_acc_us) + dt_us < weapon.fire_rate_us ==> *final(fire_acc_us) == *old(
            fire_acc_us,
        ) + dt_us,
        *final(fire_acc_us) < weapon.fire_rate_us,
        (*old(fire_acc_us) + dt_us >= weapon.fire_rate_us && player is Some && enemies@.len() > 0)
            ==> final(projectiles)@ == old(projectiles)@ + volley(
            player->0,
            enemies@[nearest_enemy(enemies@, player->0)].pos,
            weapon.multishot as int,
            fan_rotations@,
        ),
        !(*old(fire_acc_us) + dt_us >= weapon.fire_rate_us && player is Some && enemies@.len()
            > 0) ==> final(projectiles)@ == old(projectiles)@,
        projectiles_wf(final(projectiles)@),
{
    let total: u64 = *fire_acc_us + dt_us;
    if total >= weapon.fire_rate_us {
        *fire_acc_us = total % weapon.fire_rate_us;
        match player {
            Some(p) => {
                if enemies.len() > 0 {
                    let ghost es = enemies@;
                    let mut best: usize = 0;
                    let mut best_d2: i128 = dist2_exec(enemies[0].pos, p);
                    let mut k: usize = 1;
                    while k < enemies.len()
                        invariant
                            1 <= k <= es.len(),
                            es == enemies@,
                            es.len() == enemies@.len(),
                            0 <= best < es.len(),
                            enemies_in_world(es),
                            in_world(p),
                            best_d2 == dist2(es[best as int].pos, p),
                            nearest_enemy(es, p) == nearest_from(es, p, k as int, best as int),
                        decreases es.len() - k,
                    {
                        let d2 = dist2_exec(enemies[k].pos, p);
                        if d2 < best_d2 {
                            best = k;
                            best_d2 = d2;
                        }
                        k = k + 1;
                    }
                    let target = enemies[best].pos;
                    let base = scaled_dir_exec(p, target);
                    let ghost goal = volley(p, target, weapon.multishot as int, fan_rotations@);
                    let ghost start = projectiles@;
                    let mut i: usize = 0;
                    while i < weapon.multishot as usize
                        invariant
                            i <= weapon.multishot,
                            fan_rotations@.len() >= weapon.multishot,
                            forall|q: int|
                                0 <= q < fan_rotations@.len() ==> dir_bounded(
                                    #[trigger] fan_rotations@[q],
                                    DIR_ONE,
                                ),
                            base == scaled_dir(p, target),
                            dir_bounded(base, DIR_ONE),
                            in_world(p),
                            goal == volley(p, target, weapon.multishot as int, fan_rotations@),
                            projectiles@ == start + goal.subrange(0, i as int),
                            projectiles_wf(projectiles@),
                        decreases weapon.multishot - i,
                    {
                        let shot = Projectile {
                            pos: p,
                            dir: rotate_dir_exec(base, fan_rotations[i]),
                            speed: PROJECTILE_SPEED,
                            ttl_us: PROJECTILE_TTL_US,
                        };
                        projectiles.push(shot);
                        proof {
                            assert(goal.subrange(0, i + 1) =~= goal.subrange(0, i as int).push(
                                shot,
                            ));
                        }
                        i = i + 1;
                    }
                    proof {
                        assert(goal.subrange(0, weapon.multishot as int) =~= goal);
                    }
                }
            },
            None => {},
        }
    } else {
        *fire_acc_us = total;
    }
}

/// Whether a projectile is close enough to hit an enemy.
pub open spec fn proj_hits_enemy(p: Projectile, e: Enemy) -> bool {
    dist2(p.pos, e.pos) < PROJECTILE_HIT_RADIUS * PROJECTILE_HIT_RADIUS
}

/// The first projectile-enemy pair within hit range, scanning projectiles
/// in order and, for each, enemies in order, from (i, j) on.
pub open spec fn first_hit_from(ps: Seq<Projectile>, es: Seq<Enemy>, i: int, j: int) -> Option<
    (int, int),
>
    decreases ps.len() - i, es.len() - j,
{
    if !(0 <= i < ps.len() && 0 <= j) {
        None
    } else if j >= es.len() {
        first_hit_from(ps, es, i + 1, 0)
    } else if proj_hits_enemy(ps[i], es[j]) {
        Some((i, j))
    } else {
        first_hit_from(ps, es, i, j + 1)
    }
}

/// The first projectile-enemy pair within hit range, if any.
pub open spec fn first_hit(ps: Seq<Projectile>, es: Seq<Enemy>) -> Option<(int, int)> {
    first_hit_from(ps, es, 0, 0)
}

/// An enemy a chain hop may strike: in bounds, not yet struck in this
/// chain, and within chain range of the last struck position.
pub open spec fn chain_eligible(es: Seq<Enemy>, killed: Seq<int>, last: Vec2i, j: int) -> bool {
    0 <= j < es.len() && !killed.contains(j) && dist2(es[j].pos, last) < CHAIN_RANGE * CHAIN_RANGE
}

/// The enemy one chain hop strikes, scanning from index k with a seeded
/// best candidate: the nearest eligible enemy to the last struck position,
/// earliest of ties.
pub open spec fn chain_pick_from(
    es: Seq<Enemy>,
    killed: Seq<int>,
    last: Vec2i,
    k: int,
    best: Option<int>,
) -> Option<int>
    decreases es.len() - k,
{
    if !(0 <= k < es.len()) {
        best
    } else {
        let better = chain_eligible(es, killed, last, k) && (best is None || dist2(
            es[k].pos,
            last,
        ) < dist2(es[best->0].pos, last));
        chain_pick_from(es, killed, last, k + 1, if better {
            Some(k)
        } else {
            best
        })
    }
}

/// The enemy one chain hop strikes, if any is eligible.
pub open spec fn chain_pick(es: Seq<Enemy>, killed: Seq<int>, last: Vec2i) -> Option<int> {
    chain_pick_from(es, killed, last, 0, None)
}

/// The enemies a chain strikes, in order: up to k hops, each the nearest
/// eligible enemy to the previous strike, stopping when none is in range.
pub open spec fn chain_seq(es: Seq<Enemy>, killed: Seq<int>, last: Vec2i, k: nat) -> Seq<int>
    decreases k,
{
    if k == 0 {
        Seq::empty()
    } else {
        match chain_pick(es, killed, last) {
            Option::None => Seq::empty(),
            Option::Some(j) => seq![j] + chain_seq(es, killed.push(j), es[j].pos, (k - 1) as nat),
        }
    }
}

/// Every enemy one resolved hit kills, in order: the struck enemy, then its
/// chain of up to chain_lightning hops.
pub open spec fn kill_list(es: Seq<Enemy>, j: int, chain: u32) -> Seq<int>
    recommends
        0 <= j < es.len(),
{
    seq![j] + chain_seq(es, seq![j], es[j].pos, chain as nat)
}

/// The enemies left after removing the killed indices, in their old order,
/// from index k on.
pub open spec fn remove_indices(es: Seq<Enemy>, kills: Seq<int>, k: int) -> Seq<Enemy>
    decreases es.len() - k,
{
    if !(0 <= k < es.len()) {
        Seq::empty()
    } else if kills.contains(k) {
        remove_indices(es, kills, k + 1)
    } else {
        seq![es[k]] + remove_indices(es, kills, k + 1)
    }
}

/// One gem-drop request per kill, at the killed enemy's position, in kill
/// order.
pub open spec fn kill_drops(es: Seq<Enemy>, kills: Seq<int>) -> Seq<XpDropEvent> {
    kills.map_values(|j: int| XpDropEvent(es[j].pos))
}

/// A sequence of vector indices, as mathematical integers.
pub open spec fn idxs(s: Seq<usize>) -> Seq<int> {
    s.map_values(|u: usize| u as int)
}

/// Whether the index list holds this index.
fn contains_idx(v: &Vec<usize>, x: usize) -> (b: bool)
    ensures
        b == idxs(v@).contains(x as int),
{
    let n = v.len();
    let mut q: usize = 0;
    let mut found = false;
    while q < n
        invariant
            q <= n,
            v@.len() == n,
            found == exists|t: int| 0 <= t < q && v@[t] == x,
        decreases n - q,
    {
        if v[q] == x {
            found = true;
        }
        q = q + 1;
    }
    proof {
        if found {
            let t = choose|t: int| 0 <= t < n && v@[t] == x;
            assert(idxs(v@)[t] == x as int);
        } else if idxs(v@).contains(x as int) {
            let t = choose|t: int| 0 <= t < idxs(v@).len() && idxs(v@)[t] == x as int;
            assert(v@[t] == x);
        }
    }
    found
}

/// Resolves at most one projectile hit per tick: the first projectile-enemy
/// pair in range destroys both, emits a gem-drop request at the enemy, and
/// runs the chain, striking up to chain_lightning nearest not-yet-struck
/// enemies within chain range of the previous strike, each dropping a gem
/// request; then the whole pass exits. Without a pair in range nothing
/// changes.
pub fn projectile_collision(
    projectiles: &mut Vec<Projectile>,
    enemies: &mut Vec<Enemy>,
    xp_events: &mut Vec<XpDropEvent>,
    weapon: &WeaponStats,
)
    requires
        enemies_in_world(old(enemies)@),
        projectiles_wf(old(projectiles)@),
        forall|i: int| 0 <= i < old(xp_events)@.len() ==> in_world(#[trigger] old(xp_events)@[i].0),
    ensures
        forall|i: int|
            0 <= i < final(xp_events)@.len() ==> in_world(#[trigger] final(xp_events)@[i].0),
        match first_hit(old(projectiles)@, old(enemies)@) {
            Option::None => final(projectiles)@ == old(projectiles)@ && final(enemies)@ == old(
                enemies,
            )@ && final(xp_events)@ == old(xp_events)@,
            Option::Some(hit) => {
                &&& final(projectiles)@ == old(projectiles)@.remove(hit.0)
                &&& final(enemies)@ == remove_indices(
                    old(enemies)@,
                    kill_list(old(enemies)@, hit.1, weapon.chain_lightning),
                    0,
                )
                &&& final(xp_events)@ == old(xp_events)@ + kill_drops(
                    old(enemies)@,
                    kill_list(old(enemies)@, hit.1, weapon.chain_lightning),
                )
            },
        },
        enemies_in_world(final(enemies)@),
        projectiles_wf(final(projectiles)@),
{
    let ghost ps0 = projectiles@;
    let ghost es0 = enemies@;
    let np = projectiles.len();
    let ne = enemies.len();
    let mut found = false;
    let mut hi: usize = 0;
    let mut hj: usize = 0;
    let mut pi: usize = 0;
    while pi < np
        invariant
            pi <= np,
            ps0 == projectiles@,
            es0 == enemies@,
            ps0.len() == np,
            es0.len() == ne,
            enemies_in_world(es0),
            projectiles_wf(ps0),
            !found ==> first_hit(ps0, es0) == first_hit_from(ps0, es0, pi as int, 0),
            found ==> first_hit(ps0, es0) == Some((hi as int, hj as int)) && hi < np && hj < ne,
        decreases np - pi,
    {
        let mut j: usize = 0;
        while j < ne
            invariant
                j <= ne,
                pi < np,
                ps0 == projectiles@,
                es0 == enemies@,
                ps0.len() == np,
                es0.len() == ne,
                enemies_in_world(es0),
                projectiles_wf(ps0),
                !found ==> first_hit(ps0, es0) == first_hit_from(ps0, es0, pi as int, j as int),
                found ==> first_hit(ps0, es0) == Some((hi as int, hj as int)) && hi < np && hj
                    < ne,
            decreases ne - j,
        {
            if !found {
                let d2 = dist2_exec(projectiles[pi].pos, enemies[j].pos);
                if d2 < (PROJECTILE_HIT_RADIUS as i128) * (PROJECTILE_HIT_RADIUS as i128) {
                    proof {
                        assert((PROJECTILE_HIT_RADIUS as i128) * (PROJECTILE_HIT_RADIUS as i128)
                            == PROJECTILE_HIT_RADIUS * PROJECTILE_HIT_RADIUS);
                    }
                    found = true;
                    hi = pi;
                    hj = j;
                }
            }
            j = j + 1;
        }
        pi = pi + 1;
    }
    if !found {
        return ;
    }
    let ghost kl = kill_list(es0, hj as int, weapon.chain_lightning);
    projectiles.remove(hi);
    let mut kills: Vec<usize> = Vec::new();
    kills.push(hj);
    let mut last: Vec2i = enemies[hj].pos;
    let ghost events0 = xp_events@;
    xp_events.push(XpDropEvent(last));
    proof {
        assert(idxs(kills@) =~= seq![hj as int]);
        assert(events0 + kill_drops(es0, idxs(kills@)) =~= xp_events@);
    }
    let budget = weapon.chain_lightning;
    let mut hops: u32 = 0;
    let mut more = true;
    while more && hops < budget
        invariant
            es0 == enemies@,
            es0.len() == ne,
            enemies_in_world(es0),
            hops <= budget,
            kills@.len() >= 1,
            forall|q: int| 0 <= q < kills@.len() ==> (#[trigger] kills@[q]) < ne,
            last == es0[kills@[kills@.len() - 1] as int].pos,
            kl == idxs(kills@) + (if more {
                chain_seq(es0, idxs(kills@), last, (budget - hops) as nat)
            } else {
                Seq::empty()
            }),
            xp_events@ == events0 + kill_drops(es0, idxs(kills@)),
            forall|q: int| 0 <= q < xp_events@.len() ==> in_world(#[trigger] xp_events@[q].0),
        decreases budget - hops, (if more { 1int } else { 0int }),
    {
        let mut have_best = false;
        let mut best: usize = 0;
        let mut best_d2: i128 = 0;
        let mut k: usize = 0;
        while k < ne
            invariant
                k <= ne,
                es0 == enemies@,
                es0.len() == ne,
                enemies_in_world(es0),
                in_world(last),
                have_best ==> best < ne && best_d2 == dist2(es0[best as int].pos, last),
                chain_pick(es0, idxs(kills@), last) == chain_pick_from(
                    es0,
                    idxs(kills@),
                    last,
                    k as int,
                    if have_best {
                        Some(best as int)
                    } else {
                        None
                    },
                ),
            decreases ne - k,
        {
            let already = contains_idx(&kills, k);
            let d2 = dist2_exec(enemies[k].pos, last);
            proof {
                assert((CHAIN_RANGE as i128) * (CHAIN_RANGE as i128) == CHAIN_RANGE
                    * CHAIN_RANGE);
            }
            let eligible = !already && d2 < (CHAIN_RANGE as i128) * (CHAIN_RANGE as i128);
            let better = eligible && (!have_best || d2 < best_d2);
            if better {
                have_best = true;
                best = k;
                best_d2 = d2;
            }
            k = k + 1;
        }
        if have_best {
            let ghost kills_before = kills@;
            let ghost last_before = last;
            kills.push(best);
            last = enemies[best].pos;
            xp_events.push(XpDropEvent(last));
            hops = hops + 1;
            proof {
                assert(idxs(kills@) =~= idxs(kills_before).push(best as int));
                assert(chain_pick(es0, idxs(kills_before), last_before) == Some(best as int));
                assert(kill_drops(es0, idxs(kills@)) =~= kill_drops(es0, idxs(kills_before)).push(
                    XpDropEvent(es0[best as int].pos),
                ));
                assert(events0 + kill_drops(es0, idxs(kills@)) =~= (events0 + kill_drops(
                    es0,
                    idxs(kills_before),
                )).push(XpDropEvent(es0[best as int].pos)));
            }
        } else {
            more = false;
        }
    }
    proof {
        if more {
            assert(chain_seq(es0, idxs(kills@), last, (budget - hops) as nat) =~= Seq::empty());
        }
        assert(kl == idxs(kills@) + Seq::<int>::empty());
        assert(kl =~= idxs(kills@));
    }
    let mut kept: Vec<Enemy> = Vec::new();
    let mut k2: usize = 0;
    while k2 < ne
        invariant
            k2 <= ne,
            es0 == enemies@,
            es0.len() == ne,
            enemies_in_world(es0),
            enemies_in_world(kept@),
            kl == idxs(kills@),
            remove_indices(es0, kl, 0) == kept@ + remove_indices(es0, kl, k2 as int),
        decreases ne - k2,
    {
        if !contains_idx(&kills, k2) {
            kept.push(enemies[k2]);
        }
        k2 = k2 + 1;
    }
    *enemies = kept;
}

/// Whether any blade, given by its world position, reaches this enemy.
pub open spec fn blade_hit(e: Enemy, blades: Seq<Vec2i>) -> bool {
    exists|b: int|
        0 <= b < blades.len() && dist2(blades[b], e.pos) < BLADE_HIT_RADIUS * BLADE_HIT_RADIUS
}

/// The enemies no blade reaches, in their old order, from index k on.
pub open spec fn blade_survivors(es: Seq<Enemy>, blades: Seq<Vec2i>, k: int) -> Seq<Enemy>
    decreases es.len() - k,
{
    if !(0 <= k < es.len()) {
        Seq::empty()
    } else if blade_hit(es[k], blades) {
        blade_survivors(es, blades, k + 1)
    } else {
        seq![es[k]] + blade_survivors(es, blades, k + 1)
    }
}

/// One gem-drop request per enemy a blade reaches, in enemy order, from
/// index k on.
pub open spec fn blade_kill_drops(es: Seq<Enemy>, blades: Seq<Vec2i>, k: int) -> Seq<XpDropEvent>
    decreases es.len() - k,
{
    if !(0 <= k < es.len()) {
        Seq::empty()
    } else if blade_hit(es[k], blades) {
        seq![XpDropEvent(es[k].pos)] + blade_kill_drops(es, blades, k + 1)
    } else {
        blade_kill_drops(es, blades, k + 1)
    }
}

fn any_blade_hits(blades: &Vec<Vec2i>, e: Enemy) -> (b: bool)
    requires
        in_world(e.pos),
        forall|i: int| 0 <= i < blades@.len() ==> in_world(#[trigger] blades@[i]),
    ensures
        b == blade_hit(e, blades@),
{
    let n = blades.len();
    let mut i: usize = 0;
    let mut hit = false;
    while i < n
        invariant
            i <= n,
            blades@.len() == n,
            in_world(e.pos),
            forall|q: int| 0 <= q < n ==> in_world(#[trigger] blades@[q]),
            hit == exists|b: int|
                0 <= b < i && dist2(#[trigger] blades@[b], e.pos) < BLADE_HIT_RADIUS
                    * BLADE_HIT_RADIUS,
        decreases n - i,
    {
        let d2 = dist2_exec(blades[i], e.pos);
        proof {
            assert((BLADE_HIT_RADIUS as i128) * (BLADE_HIT_RADIUS as i128) == BLADE_HIT_RADIUS
                * BLADE_HIT_RADIUS);
        }
        if d2 < (BLADE_HIT_RADIUS as i128) * (BLADE_HIT_RADIUS as i128) {
            hit = true;
        }
        i = i + 1;
    }
    hit
}

/// Destroys every enemy within reach of some blade, each once, dropping a
/// gem request at its position; a hostile already destroyed this tick is
/// not struck again by another blade.
pub fn orbiting_blade_collision(
    enemies: &mut Vec<Enemy>,
    xp_events: &mut Vec<XpDropEvent>,
    blade_positions: &Vec<Vec2i>,
)
    requires
        enemies_in_world(old(enemies)@),
        forall|i: int|
            0 <= i < blade_positions@.len() ==> in_world(#[trigger] blade_positions@[i]),
        forall|i: int| 0 <= i < old(xp_events)@.len() ==> in_world(#[trigger] old(xp_events)@[i].0),
    ensures
        forall|i: int|
            0 <= i < final(xp_events)@.len() ==> in_world(#[trigger] final(xp_events)@[i].0),
        final(enemies)@ == blade_survivors(old(enemies)@, blade_positions@, 0),
        final(xp_events)@ == old(xp_events)@ + blade_kill_drops(
            old(enemies)@,
            blade_positions@,
            0,
        ),
        enemies_in_world(final(enemies)@),
{
    let ghost es0 = enemies@;
    let ghost events0 = xp_events@;
    let ne = enemies.len();
    let mut kept: Vec<Enemy> = Vec::new();
    let mut k: usize = 0;
    while k < ne
        invariant
            k <= ne,
            es0 == enemies@,
            es0.len() == ne,
            enemies_in_world(es0),
            enemies_in_world(kept@),
            forall|q: int|
                0 <= q < blade_positions@.len() ==> in_world(#[trigger] blade_positions@[q]),
            blade_survivors(es0, blade_positions@, 0) == kept@ + blade_survivors(
                es0,
                blade_positions@,
                k as int,
            ),
            forall|q: int| 0 <= q < xp_events@.len() ==> in_world(#[trigger] xp_events@[q].0),
            events0 + blade_kill_drops(es0, blade_positions@, 0) == xp_events@
                + blade_kill_drops(es0, blade_positions@, k as int),
        decreases ne - k,
    {
        let e = enemies[k];
        if any_blade_hits(blade_positions, e) {
            xp_events.push(XpDropEvent(e.pos));
        } else {
            kept.push(e);
        }
        k = k + 1;
    }
    *enemies = kept;
}

/// A found chain target is eligible, and a target is found whenever one is
/// eligible from index k on or a candidate is already seeded.
proof fn lemma_chain_pick_from_props(
    es: Seq<Enemy>,
    killed: Seq<int>,
    last: Vec2i,
    k: int,
    best: Option<int>,
)
    requires
        0 <= k,
        best is Some ==> chain_eligible(es, killed, last, best->0),
    ensures
        chain_pick_from(es, killed, last, k, best) is Some ==> chain_eligible(
            es,
            killed,
            last,
            chain_pick_from(es, killed, last, k, best)->0,
        ),
        (best is Some || exists|t: int|
            k <= t < es.len() && chain_eligible(es, killed, last, t)) ==> chain_pick_from(
            es,
            killed,
            last,
            k,
            best,
        ) is Some,
    decreases es.len() - k,
{
    if 0 <= k < es.len() {
        let better = chain_eligible(es, killed, last, k) && (best is None || dist2(
            es[k].pos,
            last,
        ) < dist2(es[best->0].pos, last));
        let next = if better {
            Some(k)
        } else {
            best
        };
        lemma_chain_pick_from_props(es, killed, last, k + 1, next);
        if !(best is Some) && !better {
            if exists|t: int| k <= t < es.len() && chain_eligible(es, killed, last, t) {
                let t = choose|t: int| k <= t < es.len() && chain_eligible(es, killed, last, t);
                assert(k + 1 <= t < es.len() && chain_eligible(es, killed, last, t));
            }
        }
    }
}

/// Distinct struck indices within bounds, with one fewer strike than
/// enemies, always leave an eligible enemy when all are mutually in range.
proof fn lemma_eligible_exists(es: Seq<Enemy>, killed: Seq<int>, last: Vec2i)
    requires
        killed.no_duplicates(),
        forall|q: int| 0 <= q < killed.len() ==> 0 <= #[trigger] killed[q] < es.len(),
        killed.len() < es.len(),
        forall|a: int|
            0 <= a < es.len() ==> dist2(#[trigger] es[a].pos, last) < CHAIN_RANGE * CHAIN_RANGE,
    ensures
        exists|t: int| 0 <= t < es.len() && chain_eligible(es, killed, last, t),
{
    let range = vstd::set_lib::set_int_range(0, es.len() as int);
    vstd::set_lib::lemma_int_range(0, es.len() as int);
    killed.unique_seq_to_set();
    let ks = killed.to_set();
    if forall|t: int| 0 <= t < es.len() ==> #[trigger] killed.contains(t) {
        assert forall|t: int| range.contains(t) implies ks.contains(t) by {
            assert(killed.contains(t));
        }
        vstd::set_lib::lemma_len_subset(range, ks);
        assert(false);
    }
    let t = choose|t: int| !(0 <= t < es.len() ==> killed.contains(t));
    assert(chain_eligible(es, killed, last, t));
}

/// With every enemy within chain range of every other, a chain with hop
/// budget k and at least k enemies left unstruck performs exactly k strikes.
proof fn lemma_chain_seq_full(es: Seq<Enemy>, killed: Seq<int>, last: Vec2i, k: nat)
    requires
        killed.no_duplicates(),
        forall|q: int| 0 <= q < killed.len() ==> 0 <= #[trigger] killed[q] < es.len(),
        killed.len() + k <= es.len(),
        exists|m: int| 0 <= m < es.len() && last == es[m].pos,
        forall|a: int, b: int|
            0 <= a < es.len() && 0 <= b < es.len() ==> dist2(
                #[trigger] es[a].pos,
                #[trigger] es[b].pos,
            ) < CHAIN_RANGE * CHAIN_RANGE,
    ensures
        chain_seq(es, killed, last, k).len() == k,
    decreases k,
{
    if k > 0 {
        assert forall|a: int| 0 <= a < es.len() implies dist2(#[trigger] es[a].pos, last)
            < CHAIN_RANGE * CHAIN_RANGE by {
            let m = choose|m: int| 0 <= m < es.len() && last == es[m].pos;
            assert(dist2(es[a].pos, es[m].pos) < CHAIN_RANGE * CHAIN_RANGE);
        }
        lemma_eligible_exists(es, killed, last);
        lemma_chain_pick_from_props(es, killed, last, 0, None);
        let p = chain_pick(es, killed, last)->0;
        assert(chain_eligible(es, killed, last, p));
        assert(killed.push(p).no_duplicates());
        lemma_chain_seq_full(es, killed.push(p), es[p].pos, (k - 1) as nat);
    }
}

/// With chain count k and every enemy within chain range of every other,
/// a resolved hit on a registry of at least k + 1 enemies kills exactly
/// k + 1 of them and drops exactly k + 1 gem requests.
pub proof fn lemma_chain_kills_full(es: Seq<Enemy>, j: int, chain: u32)
    requires
        0 <= j < es.len(),
        es.len() >= chain + 1,
        forall|a: int, b: int|
            0 <= a < es.len() && 0 <= b < es.len() ==> dist2(
                #[trigger] es[a].pos,
                #[trigger] es[b].pos,
            ) < CHAIN_RANGE * CHAIN_RANGE,
    ensures
        kill_list(es, j, chain).len() == chain + 1,
        kill_drops(es, kill_list(es, j, chain)).len() == chain + 1,
{
    lemma_chain_seq_full(es, seq![j], es[j].pos, chain as nat);
}

/// A chain strikes no enemy struck before in the same resolution: the full
/// kill list of one resolved hit holds no index twice.
pub proof fn lemma_chain_no_revisit(es: Seq<Enemy>, j: int, chain: u32)
    requires
        0 <= j < es.len(),
    ensures
        kill_list(es, j, chain).no_duplicates(),
{
    lemma_chain_seq_distinct(es, seq![j], es[j].pos, chain as nat);
}

/// Chained strikes extend the struck set without ever repeating an index.
proof fn lemma_chain_seq_distinct(es: Seq<Enemy>, killed: Seq<int>, last: Vec2i, k: nat)
    requires
        killed.no_duplicates(),
    ensures
        (killed + chain_seq(es, killed, last, k)).no_duplicates(),
    decreases k,
{
    if k == 0 || chain_pick(es, killed, last) is None {
        assert(killed + chain_seq(es, killed, last, k) =~= killed);
    } else {
        let p = chain_pick(es, killed, last)->0;
        lemma_chain_pick_from_props(es, killed, last, 0, None);
        assert(chain_eligible(es, killed, last, p));
        assert(killed.push(p).no_duplicates());
        lemma_chain_seq_distinct(es, killed.push(p), es[p].pos, (k - 1) as nat);
        let rest = chain_seq(es, killed.push(p), es[p].pos, (k - 1) as nat);
        assert(killed + chain_seq(es, killed, last, k) =~= killed.push(p) + rest);
    }
}

} // verus!
