use swarm_heaven::combat::{
    fan_angle_urad, fire_projectiles, move_projectiles, projectile_collision,
    orbiting_blade_collision, spawn_initial_blades, rotate_orbiting_blades, update_blade_count,
    BladeOrbit, Projectile, WeaponStats,
};
use swarm_heaven::enemy::{boid_steering, enemy_movement, enemy_spawner, Enemy};
use swarm_heaven::geom::Vec2i;
use swarm_heaven::leveling::{collect_xp_gems, spawn_xp_gems, PlayerStats, XpDropEvent, XpGem};
use swarm_heaven::waves::mega_wave_spawner;

fn v(x: i64, y: i64) -> Vec2i {
    Vec2i { x, y }
}

fn dist2(a: Vec2i, b: Vec2i) -> i128 {
    let dx = (a.x - b.x) as i128;
    let dy = (a.y - b.y) as i128;
    dx * dx + dy * dy
}

#[test]
fn trickle_spawns_one_per_interval() {
    // One second at a 0.1 s interval releases exactly ten spawns.
    let mut enemies: Vec<Enemy> = Vec::new();
    let mut acc: u64 = 0;
    let offsets: Vec<Vec2i> = (0..10).map(|i| v(600_000, 800_000 + i)).collect();
    enemy_spawner(&mut enemies, &mut acc, Some(v(0, 0)), &offsets, 1_000_000);
    assert_eq!(enemies.len(), 10);
    assert_eq!(acc, 0);
    // Each spawn sits at the player's position displaced by its offset.
    assert_eq!(enemies[0].pos, v(600_000, 800_000));
    assert_eq!(enemies[9].pos, v(600_000, 800_009));
}

#[test]
fn trickle_spawn_distance_exact() {
    // A 3-4-5 offset of length exactly 1000 units lands the spawn at
    // squared distance 1000^2 from the player.
    let mut enemies: Vec<Enemy> = Vec::new();
    let mut acc: u64 = 0;
    let offsets = vec![v(600_000, 800_000)];
    enemy_spawner(&mut enemies, &mut acc, Some(v(7_000, -3_000)), &offsets, 100_000);
    assert_eq!(enemies.len(), 1);
    let r = 1_000_000i128;
    assert_eq!(dist2(enemies[0].pos, v(7_000, -3_000)), r * r);
}

#[test]
fn trickle_keeps_remainder_across_ticks() {
    let mut enemies: Vec<Enemy> = Vec::new();
    let mut acc: u64 = 0;
    let offsets = vec![v(1_000_000, 0)];
    enemy_spawner(&mut enemies, &mut acc, Some(v(0, 0)), &offsets, 50_000);
    assert_eq!(enemies.len(), 0);
    assert_eq!(acc, 50_000);
    enemy_spawner(&mut enemies, &mut acc, Some(v(0, 0)), &offsets, 50_000);
    assert_eq!(enemies.len(), 1);
    assert_eq!(acc, 0);
}

#[test]
fn trickle_timer_runs_without_player() {
    let mut enemies: Vec<Enemy> = Vec::new();
    let mut acc: u64 = 0;
    let offsets: Vec<Vec2i> = Vec::new();
    enemy_spawner(&mut enemies, &mut acc, None, &offsets, 250_000);
    assert_eq!(enemies.len(), 0);
    assert_eq!(acc, 50_000);
}

#[test]
fn mega_wave_spawns_hundred_in_box() {
    let mut enemies: Vec<Enemy> = Vec::new();
    let mut acc: u64 = 59_000_000;
    mega_wave_spawner(&mut enemies, &mut acc, Some(v(0, 0)), 1_000_000);
    assert_eq!(enemies.len(), 100);
    assert_eq!(acc, 0);
    // All hundred lie within +/-100 units on each axis of the same of the
    // four cardinal centers at distance 1200.
    let centers = [v(0, 1_200_000), v(0, -1_200_000), v(1_200_000, 0), v(-1_200_000, 0)];
    let hit_center = centers.iter().find(|c| {
        enemies.iter().all(|e| (e.pos.x - c.x).abs() <= 100_000 && (e.pos.y - c.y).abs() <= 100_000)
    });
    assert!(hit_center.is_some());
}

#[test]
fn wave_timer_short_tick_only_accumulates() {
    let mut enemies: Vec<Enemy> = Vec::new();
    let mut acc: u64 = 0;
    mega_wave_spawner(&mut enemies, &mut acc, Some(v(0, 0)), 1_000_000);
    assert_eq!(enemies.len(), 0);
    assert_eq!(acc, 1_000_000);
}

#[test]
fn seek_moves_enemy_straight_toward_player() {
    let mut enemies = vec![Enemy { pos: v(1_000_000, 0) }];
    enemy_movement(&mut enemies, Some(v(0, 0)), 1_000_000);
    // One second at speed 200 units/s covers 200 units exactly.
    assert_eq!(enemies[0].pos, v(800_000, 0));
}

#[test]
fn seek_without_player_freezes_enemies() {
    let mut enemies = vec![Enemy { pos: v(1_000_000, 0) }];
    enemy_movement(&mut enemies, None, 1_000_000);
    assert_eq!(enemies[0].pos, v(1_000_000, 0));
}

#[test]
fn separation_pushes_close_pair_apart() {
    // Two hostiles 5 units apart, well below the 30-unit threshold: after
    // one steering tick their separation strictly increases.
    let mut enemies = vec![Enemy { pos: v(0, 0) }, Enemy { pos: v(5_000, 0) }];
    let before = dist2(enemies[0].pos, enemies[1].pos);
    boid_steering(&mut enemies, 16_000);
    let after = dist2(enemies[0].pos, enemies[1].pos);
    assert!(after > before);
}

#[test]
fn separation_leaves_distant_pair_alone() {
    let mut enemies = vec![Enemy { pos: v(0, 0) }, Enemy { pos: v(100_000, 0) }];
    boid_steering(&mut enemies, 16_000);
    assert_eq!(enemies[0].pos, v(0, 0));
    assert_eq!(enemies[1].pos, v(100_000, 0));
}

#[test]
fn fan_angles_are_even_and_centered() {
    assert_eq!(fan_angle_urad(0, 1), 0);
    assert_eq!(fan_angle_urad(0, 2), -75_000);
    assert_eq!(fan_angle_urad(1, 2), 75_000);
    assert_eq!(fan_angle_urad(0, 3), -150_000);
    assert_eq!(fan_angle_urad(1, 3), 0);
    assert_eq!(fan_angle_urad(2, 3), 150_000);
}

#[test]
fn fire_aims_due_east_at_nearest_enemy() {
    // Player at the origin, one hostile 50 units east, multishot 1: when
    // the half-second timer elapses, exactly one projectile spawns at the
    // player's position heading due east.
    let mut projectiles: Vec<Projectile> = Vec::new();
    let mut acc: u64 = 0;
    let weapon = WeaponStats::default();
    let enemies = vec![Enemy { pos: v(50_000, 0) }];
    let rotations = vec![v(1_000_000, 0)];
    fire_projectiles(&mut projectiles, &mut acc, &weapon, Some(v(0, 0)), &enemies, &rotations, 500_000);
    assert_eq!(projectiles.len(), 1);
    assert_eq!(projectiles[0].pos, v(0, 0));
    assert_eq!(projectiles[0].dir, v(1_000_000, 0));
    assert_eq!(projectiles[0].speed, 800_000);
    assert_eq!(projectiles[0].ttl_us, 2_000_000);
    assert_eq!(acc, 0);
}

#[test]
fn fire_waits_for_timer() {
    let mut projectiles: Vec<Projectile> = Vec::new();
    let mut acc: u64 = 0;
    let weapon = WeaponStats::default();
    let enemies = vec![Enemy { pos: v(50_000, 0) }];
    let rotations = vec![v(1_000_000, 0)];
    fire_projectiles(&mut projectiles, &mut acc, &weapon, Some(v(0, 0)), &enemies, &rotations, 400_000);
    assert_eq!(projectiles.len(), 0);
    assert_eq!(acc, 400_000);
}

#[test]
fn fire_needs_a_target() {
    let mut projectiles: Vec<Projectile> = Vec::new();
    let mut acc: u64 = 0;
    let weapon = WeaponStats::default();
    let enemies: Vec<Enemy> = Vec::new();
    let rotations = vec![v(1_000_000, 0)];
    fire_projectiles(&mut projectiles, &mut acc, &weapon, Some(v(0, 0)), &enemies, &rotations, 500_000);
    assert_eq!(projectiles.len(), 0);
    assert_eq!(acc, 0);
}

#[test]
fn fire_picks_nearest_of_several() {
    let mut projectiles: Vec<Projectile> = Vec::new();
    let mut acc: u64 = 0;
    let weapon = WeaponStats::default();
    let enemies = vec![
        Enemy { pos: v(0, 300_000) },
        Enemy { pos: v(0, -50_000) },
        Enemy { pos: v(200_000, 0) },
    ];
    let rotations = vec![v(1_000_000, 0)];
    fire_projectiles(&mut projectiles, &mut acc, &weapon, Some(v(0, 0)), &enemies, &rotations, 500_000);
    assert_eq!(projectiles.len(), 1);
    // The nearest hostile is due south, so the shot heads due south.
    assert_eq!(projectiles[0].dir, v(0, -1_000_000));
}

#[test]
fn projectile_travels_and_kills_east_hostile() {
    // The rest of the single-hostile scenario: the eastbound projectile
    // crosses the 50 units, both projectile and hostile vanish, and one
    // gem appears at (50, 0).
    let mut projectiles = vec![Projectile {
        pos: v(0, 0),
        dir: v(1_000_000, 0),
        speed: 800_000,
        ttl_us: 2_000_000,
    }];
    let mut enemies = vec![Enemy { pos: v(50_000, 0) }];
    let mut events: Vec<XpDropEvent> = Vec::new();
    let weapon = WeaponStats::default();
    let mut gems: Vec<XpGem> = Vec::new();
    for _ in 0..2 {
        move_projectiles(&mut projectiles, 30_000);
        projectile_collision(&mut projectiles, &mut enemies, &mut events, &weapon);
    }
    assert_eq!(projectiles.len(), 0);
    assert_eq!(enemies.len(), 0);
    assert_eq!(events.len(), 1);
    assert_eq!(events[0].0, v(50_000, 0));
    spawn_xp_gems(&mut gems, &mut events);
    assert_eq!(gems.len(), 1);
    assert_eq!(gems[0].pos, v(50_000, 0));
    assert_eq!(events.len(), 0);
}

#[test]
fn projectile_expires_after_lifetime() {
    let mut projectiles = vec![Projectile {
        pos: v(0, 0),
        dir: v(1_000_000, 0),
        speed: 800_000,
        ttl_us: 100,
    }];
    move_projectiles(&mut projectiles, 200);
    assert_eq!(projectiles.len(), 0);
}

#[test]
fn chain_kills_exactly_chain_plus_one() {
    // Chain count 2 with three eligible hostiles in range: one resolved
    // collision destroys all three and emits three gem drops.
    let mut projectiles = vec![Projectile {
        pos: v(0, 0),
        dir: v(1_000_000, 0),
        speed: 800_000,
        ttl_us: 2_000_000,
    }];
    let mut enemies = vec![
        Enemy { pos: v(1_000, 0) },
        Enemy { pos: v(50_000, 0) },
        Enemy { pos: v(100_000, 0) },
    ];
    let mut events: Vec<XpDropEvent> = Vec::new();
    let weapon = WeaponStats { chain_lightning: 2, ..WeaponStats::default() };
    projectile_collision(&mut projectiles, &mut enemies, &mut events, &weapon);
    assert_eq!(enemies.len(), 0);
    assert_eq!(projectiles.len(), 0);
    assert_eq!(events.len(), 3);
    assert_eq!(events[0].0, v(1_000, 0));
    assert_eq!(events[1].0, v(50_000, 0));
    assert_eq!(events[2].0, v(100_000, 0));
}

#[test]
fn chain_never_revisits_a_destroyed_hostile() {
    // A budget of five hops over two hostiles kills each exactly once.
    let mut projectiles = vec![Projectile {
        pos: v(0, 0),
        dir: v(1_000_000, 0),
        speed: 800_000,
        ttl_us: 2_000_000,
    }];
    let mut enemies = vec![Enemy { pos: v(1_000, 0) }, Enemy { pos: v(40_000, 0) }];
    let mut events: Vec<XpDropEvent> = Vec::new();
    let weapon = WeaponStats { chain_lightning: 5, ..WeaponStats::default() };
    projectile_collision(&mut projectiles, &mut enemies, &mut events, &weapon);
    assert_eq!(enemies.len(), 0);
    assert_eq!(events.len(), 2);
}

#[test]
fn chain_respects_maximum_distance() {
    // The second hostile is beyond the 300-unit chain range and survives.
    let mut projectiles = vec![Projectile {
        pos: v(0, 0),
        dir: v(1_000_000, 0),
        speed: 800_000,
        ttl_us: 2_000_000,
    }];
    let mut enemies = vec![Enemy { pos: v(1_000, 0) }, Enemy { pos: v(400_000, 0) }];
    let mut events: Vec<XpDropEvent> = Vec::new();
    let weapon = WeaponStats { chain_lightning: 5, ..WeaponStats::default() };
    projectile_collision(&mut projectiles, &mut enemies, &mut events, &weapon);
    assert_eq!(enemies.len(), 1);
    assert_eq!(enemies[0].pos, v(400_000, 0));
    assert_eq!(events.len(), 1);
}

#[test]
fn one_hit_resolved_per_tick() {
    // Two projectiles each sitting on a hostile: a single pass resolves
    // only the first pair.
    let p = |x| Projectile { pos: v(x, 0), dir: v(1_000_000, 0), speed: 800_000, ttl_us: 2_000_000 };
    let mut projectiles = vec![p(0), p(900_000)];
    let mut enemies = vec![Enemy { pos: v(1_000, 0) }, Enemy { pos: v(901_000, 0) }];
    let mut events: Vec<XpDropEvent> = Vec::new();
    let weapon = WeaponStats::default();
    projectile_collision(&mut projectiles, &mut enemies, &mut events, &weapon);
    assert_eq!(projectiles.len(), 1);
    assert_eq!(enemies.len(), 1);
    assert_eq!(events.len(), 1);
    assert_eq!(enemies[0].pos, v(901_000, 0));
}

#[test]
fn blade_ring_resize_replaces_all_blades() {
    // Resizing from 3 to 5 yields exactly five blades, slots 0..5, the
    // previous three gone.
    let mut orbit = BladeOrbit { rotation_urad: 0, blades: Vec::new() };
    let weapon = WeaponStats::default();
    spawn_initial_blades(&mut orbit, &weapon);
    assert_eq!(orbit.blades.len(), 3);
    let bigger = WeaponStats { blade_count: 5, ..WeaponStats::default() };
    update_blade_count(&mut orbit, &bigger);
    assert_eq!(orbit.blades.len(), 5);
    for (i, b) in orbit.blades.iter().enumerate() {
        assert_eq!(b.index as usize, i);
    }
    let none = WeaponStats { blade_count: 0, ..WeaponStats::default() };
    update_blade_count(&mut orbit, &none);
    assert_eq!(orbit.blades.len(), 0);
}

#[test]
fn blade_ring_rotation_wraps() {
    let mut orbit = BladeOrbit { rotation_urad: 6_283_000, blades: Vec::new() };
    rotate_orbiting_blades(&mut orbit, 1_000_000);
    // 6,283,000 + 2,000,000 microradians, wrapped at one turn.
    assert_eq!(orbit.rotation_urad, (6_283_000u64 + 2_000_000) % 6_283_185);
}

#[test]
fn blades_kill_each_hostile_once() {
    let mut enemies = vec![
        Enemy { pos: v(100_000, 0) },
        Enemy { pos: v(-100_000, 0) },
        Enemy { pos: v(0, 500_000) },
    ];
    let mut events: Vec<XpDropEvent> = Vec::new();
    // Two blades near the first hostile, one near the second: the first
    // dies once despite being in range of both blades.
    let blades = vec![v(99_000, 0), v(101_000, 0), v(-99_000, 0)];
    orbiting_blade_collision(&mut enemies, &mut events, &blades);
    assert_eq!(enemies.len(), 1);
    assert_eq!(enemies[0].pos, v(0, 500_000));
    assert_eq!(events.len(), 2);
}

#[test]
fn seek_with_coincident_positions_stays_put() {
    // Degenerate geometry: a hostile exactly on the player resolves to no
    // movement, not a fault.
    let mut enemies = vec![Enemy { pos: v(123, -456) }];
    enemy_movement(&mut enemies, Some(v(123, -456)), 1_000_000);
    assert_eq!(enemies[0].pos, v(123, -456));
}

#[test]
fn gem_on_the_radius_boundary_stays() {
    // Pickup needs the distance strictly below the 65-unit radius.
    let mut gems = vec![XpGem { pos: v(65_000, 0) }];
    let mut stats = PlayerStats::default();
    collect_xp_gems(&mut gems, &mut stats, Some(v(0, 0)));
    assert_eq!(gems.len(), 1);
    assert_eq!(stats.xp, 0);
}

#[test]
fn gems_collected_within_magnet_radius() {
    let mut gems = vec![XpGem { pos: v(60_000, 0) }, XpGem { pos: v(70_000, 0) }];
    let mut stats = PlayerStats::default();
    collect_xp_gems(&mut gems, &mut stats, Some(v(0, 0)));
    // 60 units is inside the 65-unit magnet radius, 70 is not.
    assert_eq!(gems.len(), 1);
    assert_eq!(gems[0].pos, v(70_000, 0));
    assert_eq!(stats.xp, 10);
}

