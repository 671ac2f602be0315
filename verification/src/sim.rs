use vstd::prelude::*;
use crate::combat::{
    fire_projectiles, move_projectiles, orbit_wf, orbiting_blade_collision, projectile_collision,
    projectiles_wf, rotate_orbiting_blades, spawn_initial_blades, update_blade_count, BladeOrbit,
    Projectile, WeaponStats, FIRE_INTERVAL_MAX_US, FIRE_INTERVAL_MIN_US,
};
use crate::enemy::{
    boid_steering, enemies_in_world, enemy_movement, enemy_spawner, trickle_count, Enemy,
    ENEMY_SPAWN_INTERVAL_US,
};
use crate::geom::{dir_bounded, in_world, Vec2i, DIR_ONE, DT_MAX_US};
use crate::leveling::{
    check_level_up, collect_xp_gems, sat_add_u32, spawn_xp_gems, PlayerStats, XpDropEvent, XpGem,
};
use crate::player::{player_movement, spawn_player, Player};
use crate::waves::{mega_wave_spawner, MEGA_WAVE_INTERVAL_US};

verus! {

/// The simulation's top-level state: idle in the menu, running, or paused
/// for an upgrade choice.
#[derive(Clone, Copy, PartialEq, Eq, Structural, Debug)]
pub enum GameState {
    MainMenu,
    Running,
    Paused,
}

/// The closed set of upgrades a level-up offers.
#[derive(Clone, Copy, PartialEq, Eq, Structural, Debug)]
pub enum Upgrade {
    Multishot,
    ChainLightning,
    BladeCount,
    AttackSpeed,
}

/// The fire interval after a speed upgrade: nine tenths of the old one,
/// clamped to stay positive.
pub open spec fn shrunk_interval(t: u64) -> u64 {
    if 9 * t / 10 < FIRE_INTERVAL_MIN_US {
        FIRE_INTERVAL_MIN_US
    } else {
        (9 * t / 10) as u64
    }
}

/// What one chosen upgrade does to the weapon: exactly one field changes.
pub open spec fn upgrade_model(w: WeaponStats, u: Upgrade) -> WeaponStats {
    match u {
        Upgrade::Multishot => WeaponStats {
            multishot: sat_add_u32(w.multishot as int, 1),
            chain_lightning: w.chain_lightning,
            blade_count: w.blade_count,
            fire_rate_us: w.fire_rate_us,
        },
        Upgrade::ChainLightning => WeaponStats {
            multishot: w.multishot,
            chain_lightning: sat_add_u32(w.chain_lightning as int, 1),
            blade_count: w.blade_count,
            fire_rate_us: w.fire_rate_us,
        },
        Upgrade::BladeCount => WeaponStats {
            multishot: w.multishot,
            chain_lightning: w.chain_lightning,
            blade_count: sat_add_u32(w.blade_count as int, 1),
            fire_rate_us: w.fire_rate_us,
        },
        Upgrade::AttackSpeed => WeaponStats {
            multishot: w.multishot,
            chain_lightning: w.chain_lightning,
            blade_count: w.blade_count,
            fire_rate_us: shrunk_interval(w.fire_rate_us),
        },
    }
}

/// Applies one chosen upgrade to the weapon and asks the state machine to
/// resume running.
pub fn handle_upgrade(weapon: &mut WeaponStats, next_state: &mut Option<GameState>, upgrade: Upgrade)
    requires
        old(weapon).wf(),
    ensures
        *final(weapon) == upgrade_model(*old(weapon), upgrade),
        final(weapon).wf(),
        *final(next_state) == Some(GameState::Running),
{
    match upgrade {
        Upgrade::Multishot => {
            if weapon.multishot < u32::MAX {
                weapon.multishot = weapon.multishot + 1;
            }
        },
        Upgrade::ChainLightning => {
            if weapon.chain_lightning < u32::MAX {
                weapon.chain_lightning = weapon.chain_lightning + 1;
            }
        },
        Upgrade::BladeCount => {
            if weapon.blade_count < u32::MAX {
                weapon.blade_count = weapon.blade_count + 1;
            }
        },
        Upgrade::AttackSpeed => {
            let shrunk: u64 = 9 * weapon.fire_rate_us / 10;
            if shrunk < FIRE_INTERVAL_MIN_US {
                weapon.fire_rate_us = FIRE_INTERVAL_MIN_US;
            } else {
                weapon.fire_rate_us = shrunk;
            }
        },
    }
    *next_state = Some(GameState::Running);
}

/// The enemy registry after the trickle stage of one running tick: the
/// spawns the timer owes, around the player's position before movement.
pub open spec fn after_trickle(
    es0: Seq<Enemy>,
    p_before: Vec2i,
    offsets: Seq<Vec2i>,
    spawn_acc: u64,
    dt: u64,
) -> Seq<Enemy> {
    es0 + crate::enemy::trickle_spawned(p_before, offsets, trickle_count(spawn_acc, dt))
}

/// The enemy registry after the movement stage: every enemy seeks the
/// moved player, then the separation pass over all pairs.
pub open spec fn steered_enemies(es: Seq<Enemy>, p_after: Vec2i, dt: u64) -> Seq<Enemy> {
    crate::enemy::sep_rec(crate::enemy::seek_all(es, p_after, dt), 0, 1, dt)
}

/// The projectiles after one running tick's flight and fire stages: every
/// old projectile advanced or expired, then a volley at the nearest enemy
/// when the fire timer elapses and a target exists.
pub open spec fn flown_and_fired(
    ps0: Seq<Projectile>,
    es: Seq<Enemy>,
    p: Vec2i,
    fire_acc: u64,
    w: WeaponStats,
    rots: Seq<Vec2i>,
    dt: u64,
) -> Seq<Projectile> {
    let moved = crate::combat::flown(ps0, dt, 0);
    if fire_acc + dt >= w.fire_rate_us && es.len() > 0 {
        moved + crate::combat::volley(
            p,
            es[crate::combat::nearest_enemy(es, p)].pos,
            w.multishot as int,
            rots,
        )
    } else {
        moved
    }
}

/// The enemies left after the tick's single resolved projectile hit, if
/// any: the struck enemy and its chain removed.
pub open spec fn collided_enemies(ps: Seq<Projectile>, es: Seq<Enemy>, chain: u32) -> Seq<Enemy> {
    match crate::combat::first_hit(ps, es) {
        Option::None => es,
        Option::Some(h) => crate::combat::remove_indices(
            es,
            crate::combat::kill_list(es, h.1, chain),
            0,
        ),
    }
}

/// The projectiles left after the tick's single resolved hit, if any.
pub open spec fn collided_projectiles(ps: Seq<Projectile>, es: Seq<Enemy>) -> Seq<Projectile> {
    match crate::combat::first_hit(ps, es) {
        Option::None => ps,
        Option::Some(h) => ps.remove(h.0),
    }
}

/// The gem-drop requests the tick's resolved hit emits, in kill order.
pub open spec fn collision_drops(ps: Seq<Projectile>, es: Seq<Enemy>, chain: u32) -> Seq<
    XpDropEvent,
> {
    match crate::combat::first_hit(ps, es) {
        Option::None => Seq::empty(),
        Option::Some(h) => crate::combat::kill_drops(
            es,
            crate::combat::kill_list(es, h.1, chain),
        ),
    }
}

/// Whether a post-tick state is exactly the result of running the
/// movement, combat and progression stages of one tick over a given
/// post-spawn enemy registry. This names the deterministic remainder of a
/// running tick once the spawns are fixed.
pub open spec fn runs_pipeline(pre: Sim, post: Sim, input: TickInput, es_spawned: Seq<Enemy>) -> bool {
    let p_after = crate::player::player_step(
        pre.player->0.pos,
        input.move_x,
        input.move_y,
        input.dt_us,
    );
    let es1 = steered_enemies(es_spawned, p_after, input.dt_us);
    let ps1 = flown_and_fired(
        pre.projectiles@,
        es1,
        p_after,
        pre.fire_acc_us,
        pre.weapon,
        input.fan_rotations@,
        input.dt_us,
    );
    let es2 = collided_enemies(ps1, es1, pre.weapon.chain_lightning);
    let drops = pre.xp_events@ + collision_drops(ps1, es1, pre.weapon.chain_lightning)
        + crate::combat::blade_kill_drops(es2, input.blade_positions@, 0);
    let all_gems = pre.gems@ + crate::leveling::gems_of(drops);
    &&& post.enemies@ == crate::combat::blade_survivors(es2, input.blade_positions@, 0)
    &&& post.projectiles@ == collided_projectiles(ps1, es1)
    &&& post.gems@ == crate::leveling::gems_kept(all_gems, p_after, 0)
    &&& post.stats == crate::leveling::level_up_model(
        PlayerStats {
            xp: sat_add_u32(
                pre.stats.xp as int,
                crate::leveling::XP_PER_GEM * crate::leveling::collected_count(
                    all_gems,
                    p_after,
                    0,
                ),
            ),
            level: pre.stats.level,
            xp_to_next_level: pre.stats.xp_to_next_level,
        },
    )
}

/// The per-tick inputs the surrounding program supplies: the clock's delta,
/// the input collaborator's intent and choices, and the trigonometric
/// values the fixed-point core does not compute itself (spawn-circle
/// offsets, fan rotation unit vectors, blade world positions).
pub struct TickInput {
    pub dt_us: u64,
    pub move_x: i64,
    pub move_y: i64,
    pub start_pressed: bool,
    pub upgrade_choice: Option<Upgrade>,
    pub trickle_offsets: Vec<Vec2i>,
    pub fan_rotations: Vec<Vec2i>,
    pub blade_positions: Vec<Vec2i>,
}

/// The whole simulation: state machine, entity registry, configuration and
/// progression records, and the repeating timers' accumulators.
pub struct Sim {
    pub state: GameState,
    pub next_state: Option<GameState>,
    pub player: Option<Player>,
    pub orbit: BladeOrbit,
    pub enemies: Vec<Enemy>,
    pub projectiles: Vec<Projectile>,
    pub gems: Vec<XpGem>,
    pub xp_events: Vec<XpDropEvent>,
    pub weapon: WeaponStats,
    pub stats: PlayerStats,
    pub fire_acc_us: u64,
    pub spawn_acc_us: u64,
    pub wave_acc_us: u64,
}

impl Sim {
    /// The simulation's invariant, preserved by every tick.
    pub open spec fn wf(self) -> bool {
        &&& self.weapon.wf()
        &&& self.state == GameState::Running ==> self.player is Some
        &&& self.player is Some ==> in_world(self.player->0.pos)
        &&& enemies_in_world(self.enemies@)
        &&& projectiles_wf(self.projectiles@)
        &&& forall|i: int| 0 <= i < self.gems@.len() ==> in_world(#[trigger] self.gems@[i].pos)
        &&& forall|i: int|
            0 <= i < self.xp_events@.len() ==> in_world(#[trigger] self.xp_events@[i].0)
        &&& orbit_wf(self.orbit)
        &&& self.fire_acc_us <= FIRE_INTERVAL_MAX_US
        &&& self.spawn_acc_us < ENEMY_SPAWN_INTERVAL_US
        &&& self.wave_acc_us < MEGA_WAVE_INTERVAL_US
    }

    /// A fresh simulation, idle in the menu with default records and an
    /// empty world.
    pub fn new() -> (s: Sim)
        ensures
            s.wf(),
            s.state == GameState::MainMenu,
            s.next_state is None,
            s.player is None,
            s.enemies@.len() == 0,
            s.projectiles@.len() == 0,
            s.gems@.len() == 0,
            s.xp_events@.len() == 0,
            s.weapon == (WeaponStats {
                multishot: 1,
                chain_lightning: 0,
                blade_count: 3,
                fire_rate_us: crate::combat::FIRE_INTERVAL_START_US,
            }),
            s.stats == (PlayerStats { xp: 0, level: 1, xp_to_next_level: crate::leveling::FIRST_LEVEL_XP }),
            s.fire_acc_us == 0,
            s.spawn_acc_us == 0,
            s.wave_acc_us == 0,
    {
        let s = Sim {
            state: GameState::MainMenu,
            next_state: None,
            player: None,
            orbit: BladeOrbit { rotation_urad: 0, blades: Vec::new() },
            enemies: Vec::new(),
            projectiles: Vec::new(),
            gems: Vec::new(),
            xp_events: Vec::new(),
            weapon: WeaponStats::default(),
            stats: PlayerStats::default(),
            fire_acc_us: 0,
            spawn_acc_us: 0,
            wave_acc_us: 0,
        };
        proof {
            assert(s.orbit.blades@ =~= crate::combat::blade_ring(s.orbit.blades@.len() as int));
        }
        s
    }

    /// How many trickle spawns the next tick of the given length will
    /// release, so the caller can supply one spawn offset per spawn.
    pub fn trickle_due(&self, dt_us: u64) -> (k: u64)
        requires
            self.spawn_acc_us < ENEMY_SPAWN_INTERVAL_US,
            dt_us <= DT_MAX_US,
        ensures
            k == trickle_count(self.spawn_acc_us, dt_us),
    {
        (self.spawn_acc_us + dt_us) / ENEMY_SPAWN_INTERVAL_US
    }

    /// Applies a pending state transition. Entering the running state for
    /// the first time creates the player at the origin with its blade ring;
    /// returning there from a pause keeps the existing player.
    fn apply_next_state(&mut self)
        requires
            old(self).wf(),
        ensures
            final(self).wf(),
            old(self).next_state is Some ==> final(self).state == old(self).next_state->0,
            old(self).next_state is None ==> final(self).state == old(self).state,
            final(self).next_state is None,
            old(self).player is Some ==> final(self).player == old(self).player,
            (old(self).next_state == Some(GameState::Running) && old(self).player is None)
                ==> final(self).player == Some(Player { pos: Vec2i { x: 0, y: 0 } }),
            !(old(self).next_state == Some(GameState::Running)) ==> final(self).player == old(
                self,
            ).player,
            final(self).orbit.rotation_urad == old(self).orbit.rotation_urad,
            !(old(self).next_state == Some(GameState::Running) && old(self).player is None)
                ==> final(self).orbit == old(self).orbit,
            (old(self).next_state == Some(GameState::Running) && old(self).player is None)
                ==> final(self).orbit.blades@ == crate::combat::blade_ring(
                old(self).weapon.blade_count as int,
            ),
            final(self).enemies == old(self).enemies,
            final(self).projectiles == old(self).projectiles,
            final(self).gems == old(self).gems,
            final(self).xp_events == old(self).xp_events,
            final(self).weapon == old(self).weapon,
            final(self).stats == old(self).stats,
            final(self).fire_acc_us == old(self).fire_acc_us,
            final(self).spawn_acc_us == old(self).spawn_acc_us,
            final(self).wave_acc_us == old(self).wave_acc_us,
    {
        match self.next_state {
            Some(s) => {
                self.state = s;
                self.next_state = None;
                match s {
                    GameState::Running => {
                        if self.player.is_none() {
                            self.player = Some(spawn_player());
                            let weapon = self.weapon;
                            spawn_initial_blades(&mut self.orbit, &weapon);
                        }
                    },
                    _ => {},
                }
            },
            None => {},
        }
    }

    /// One simulation tick. A pending state transition applies first. In
    /// the menu, only the start input acts, requesting the running state.
    /// While paused, only a chosen upgrade acts: it mutates the weapon and
    /// requests the running state. While running, the subsystems run in
    /// their fixed order: spawning, movement and steering, targeting and
    /// collision, then progression, whose level-up requests a pause.
    pub fn tick(&mut self, input: &TickInput) -> (wave: Ghost<(Seq<Enemy>, int)>)
        requires
            old(self).wf(),
            input.dt_us <= DT_MAX_US,
            -1 <= input.move_x <= 1,
            -1 <= input.move_y <= 1,
            input.fan_rotations@.len() >= old(self).weapon.multishot,
            forall|i: int|
                0 <= i < input.fan_rotations@.len() ==> dir_bounded(
                    #[trigger] input.fan_rotations@[i],
                    DIR_ONE,
                ),
            input.trickle_offsets@.len() >= trickle_count(old(self).spawn_acc_us, input.dt_us),
            forall|i: int|
                0 <= i < input.blade_positions@.len() ==> in_world(
                    #[trigger] input.blade_positions@[i],
                ),
        ensures
            final(self).wf(),
            // The state entered is the one a pending transition named.
            old(self).next_state is Some ==> final(self).state == old(self).next_state->0,
            old(self).next_state is None ==> final(self).state == old(self).state,
            // In the menu the world is untouched and start begins a run.
            (old(self).next_state is None && old(self).state == GameState::MainMenu) ==> {
                &&& final(self).enemies == old(self).enemies
                &&& final(self).projectiles == old(self).projectiles
                &&& final(self).gems == old(self).gems
                &&& final(self).weapon == old(self).weapon
                &&& final(self).stats == old(self).stats
                &&& final(self).player == old(self).player
                &&& (input.start_pressed ==> final(self).next_state == Some(GameState::Running))
                &&& (!input.start_pressed ==> final(self).next_state is None)
            },
            // While paused the world is frozen; a chosen upgrade mutates
            // exactly one weapon field and requests the running state.
            (old(self).next_state is None && old(self).state == GameState::Paused) ==> {
                &&& final(self).enemies == old(self).enemies
                &&& final(self).projectiles == old(self).projectiles
                &&& final(self).gems == old(self).gems
                &&& final(self).stats == old(self).stats
                &&& final(self).player == old(self).player
                &&& (match input.upgrade_choice {
                    Some(u) => final(self).weapon == upgrade_model(old(self).weapon, u)
                        && final(self).next_state == Some(GameState::Running),
                    None => final(self).weapon == old(self).weapon && final(self).next_state
                        is None,
                })
            },
            // A run always has its player, and only a pause can change the
            // weapon, so the ring ends every running tick matching it.
            final(self).state == GameState::Running ==> {
                &&& final(self).player is Some
                &&& final(self).weapon == old(self).weapon
                &&& final(self).orbit.blades@.len() == old(self).weapon.blade_count
                &&& final(self).xp_events@.len() == 0
                &&& final(self).stats.xp_to_next_level >= old(self).stats.xp_to_next_level
                &&& (final(self).stats.level > old(self).stats.level ==> final(self).next_state
                    == Some(GameState::Paused))
                &&& (old(self).player is Some ==> final(self).player->0.pos
                    == crate::player::player_step(
                    old(self).player->0.pos,
                    input.move_x,
                    input.move_y,
                    input.dt_us,
                ))
                &&& final(self).spawn_acc_us == (old(self).spawn_acc_us + input.dt_us) % (
                ENEMY_SPAWN_INTERVAL_US as int)
                &&& (old(self).wave_acc_us + input.dt_us >= MEGA_WAVE_INTERVAL_US
                    ==> final(self).wave_acc_us == (old(self).wave_acc_us + input.dt_us) % (
                MEGA_WAVE_INTERVAL_US as int))
                &&& (old(self).wave_acc_us + input.dt_us < MEGA_WAVE_INTERVAL_US
                    ==> final(self).wave_acc_us == old(self).wave_acc_us + input.dt_us)
                &&& final(self).orbit.rotation_urad == (old(self).orbit.rotation_urad
                    + crate::combat::ORBITING_BLADE_ROTATION_SPEED * input.dt_us) % (
                crate::combat::TAU_URAD as int)
                &&& final(self).fire_acc_us < old(self).weapon.fire_rate_us
            },
            // A running tick in which no wave fires is fully determined by
            // the old state and the inputs: this names the whole pipeline.
            (final(self).state == GameState::Running && old(self).player is Some && old(
                self,
            ).wave_acc_us + input.dt_us < MEGA_WAVE_INTERVAL_US) ==> runs_pipeline(
                *old(self),
                *final(self),
                *input,
                after_trickle(
                    old(self).enemies@,
                    old(self).player->0.pos,
                    input.trickle_offsets@,
                    old(self).spawn_acc_us,
                    input.dt_us,
                ),
            ),
            // A running tick in which a wave fires runs the same pipeline
            // over the spawns extended by the wave's batch, which the tick
            // reports back as ghost data together with the wave's cardinal
            // direction.
            (final(self).state == GameState::Running && old(self).player is Some && old(
                self,
            ).wave_acc_us + input.dt_us >= MEGA_WAVE_INTERVAL_US) ==> {
                &&& wave@.0.len() == crate::waves::MEGA_WAVE_COUNT
                &&& 0 <= wave@.1 < 4
                &&& forall|i: int|
                    0 <= i < wave@.0.len() ==> crate::waves::within_wave_box(
                        #[trigger] wave@.0[i].pos,
                        crate::waves::wave_center(old(self).player->0.pos, wave@.1),
                    )
                &&& runs_pipeline(
                    *old(self),
                    *final(self),
                    *input,
                    after_trickle(
                        old(self).enemies@,
                        old(self).player->0.pos,
                        input.trickle_offsets@,
                        old(self).spawn_acc_us,
                        input.dt_us,
                    ) + wave@.0,
                )
            },
    {
        let ghost mut wave_info: (Seq<Enemy>, int) = (Seq::empty(), 0);
        self.apply_next_state();
        match self.state {
            GameState::MainMenu => {
                if input.start_pressed {
                    self.next_state = Some(GameState::Running);
                }
            },
            GameState::Paused => {
                match input.upgrade_choice {
                    Some(u) => {
                        handle_upgrade(&mut self.weapon, &mut self.next_state, u);
                    },
                    None => {},
                }
            },
            GameState::Running => {
                let dt = input.dt_us;
                let player_pos = match &self.player {
                    Some(p) => Some(p.pos),
                    None => None,
                };
                // Spawning.
                enemy_spawner(
                    &mut self.enemies,
                    &mut self.spawn_acc_us,
                    player_pos,
                    &input.trickle_offsets,
                    dt,
                );
                let ghost spawned = self.enemies@;
                let wave_dir = mega_wave_spawner(
                    &mut self.enemies,
                    &mut self.wave_acc_us,
                    player_pos,
                    dt,
                );
                let ghost after_wave = self.enemies@;
                let ghost batch = after_wave.subrange(
                    spawned.len() as int,
                    after_wave.len() as int,
                );
                proof {
                    assert(after_wave =~= spawned + batch);
                }
                // Movement and steering.
                match &mut self.player {
                    Some(p) => {
                        player_movement(p, input.move_x, input.move_y, dt);
                    },
                    None => {},
                }
                let player_pos = match &self.player {
                    Some(p) => Some(p.pos),
                    None => None,
                };
                enemy_movement(&mut self.enemies, player_pos, dt);
                boid_steering(&mut self.enemies, dt);
                move_projectiles(&mut self.projectiles, dt);
                rotate_orbiting_blades(&mut self.orbit, dt);
                // Targeting and collision.
                let weapon = self.weapon;
                fire_projectiles(
                    &mut self.projectiles,
                    &mut self.fire_acc_us,
                    &weapon,
                    player_pos,
                    &self.enemies,
                    &input.fan_rotations,
                    dt,
                );
                projectile_collision(
                    &mut self.projectiles,
                    &mut self.enemies,
                    &mut self.xp_events,
                    &weapon,
                );
                orbiting_blade_collision(
                    &mut self.enemies,
                    &mut self.xp_events,
                    &input.blade_positions,
                );
                update_blade_count(&mut self.orbit, &weapon);
                // Progression.
                let ghost events_mid = self.xp_events@;
                let ghost gems_before = self.gems@;
                spawn_xp_gems(&mut self.gems, &mut self.xp_events);
                proof {
                    assert forall|i: int| 0 <= i < self.gems@.len() implies in_world(
                        #[trigger] self.gems@[i].pos,
                    ) by {
                        if i >= gems_before.len() {
                            assert(self.gems@[i] == events_mid.map_values(
                                |e: XpDropEvent| XpGem { pos: e.0 },
                            )[i - gems_before.len()]);
                        }
                    }
                }
                collect_xp_gems(&mut self.gems, &mut self.stats, player_pos);
                let ghost stats_mid = self.stats;
                check_level_up(&mut self.stats, &mut self.next_state);
                proof {
                    crate::leveling::lemma_threshold_non_decreasing(stats_mid);
                    if old(self).player is Some && old(self).wave_acc_us + input.dt_us
                        >= MEGA_WAVE_INTERVAL_US {
                        assert forall|i: int| 0 <= i < batch.len() implies
                            crate::waves::within_wave_box(
                                #[trigger] batch[i].pos,
                                crate::waves::wave_center(old(self).player->0.pos, wave_dir@),
                            ) by {
                            assert(batch[i] == after_wave[spawned.len() + i]);
                        }
                        assert(batch.len() == crate::waves::MEGA_WAVE_COUNT);
                        assert(0 <= wave_dir@ < 4);
                        let est = after_trickle(
                            old(self).enemies@,
                            old(self).player->0.pos,
                            input.trickle_offsets@,
                            old(self).spawn_acc_us,
                            input.dt_us,
                        );
                        assert(spawned == est);
                        assert(est + batch == after_wave);
                    }
                    wave_info = (batch, wave_dir@);
                }
            },
        }
        Ghost(wave_info)
    }
}

} // verus!
