use swarm_heaven::geom::Vec2i;
use swarm_heaven::leveling::{check_level_up, PlayerStats};
use swarm_heaven::sim::{GameState, Sim, TickInput, Upgrade};

fn quiet_input() -> TickInput {
    TickInput {
        dt_us: 16_000,
        move_x: 0,
        move_y: 0,
        start_pressed: false,
        upgrade_choice: None,
        trickle_offsets: vec![Vec2i { x: 1_000_000, y: 0 }],
        fan_rotations: vec![Vec2i { x: 1_000_000, y: 0 }],
        blade_positions: Vec::new(),
    }
}

#[test]
fn test_level_up_logic() {
    let mut stats = PlayerStats { xp: 100, level: 1, xp_to_next_level: 100 };
    let mut next_state: Option<GameState> = None;
    check_level_up(&mut stats, &mut next_state);
    assert_eq!(stats.level, 2);
    assert_eq!(stats.xp, 0);
    assert_eq!(stats.xp_to_next_level, 150); // 100 * 1.5
    if let Some(s) = next_state {
        assert_eq!(s, GameState::Paused);
    }
}

#[test]
fn double_threshold_still_one_level() {
    // Experience at twice the threshold in one tick yields a single
    // level-up, with the remainder kept.
    let mut stats = PlayerStats { xp: 200, level: 1, xp_to_next_level: 100 };
    let mut next_state: Option<GameState> = None;
    check_level_up(&mut stats, &mut next_state);
    assert_eq!(stats.level, 2);
    assert_eq!(stats.xp, 100);
    assert_eq!(stats.xp_to_next_level, 150);
    assert_eq!(next_state, Some(GameState::Paused));
}

#[test]
fn below_threshold_changes_nothing() {
    let mut stats = PlayerStats { xp: 99, level: 1, xp_to_next_level: 100 };
    let mut next_state: Option<GameState> = None;
    check_level_up(&mut stats, &mut next_state);
    assert_eq!(stats, PlayerStats { xp: 99, level: 1, xp_to_next_level: 100 });
    assert_eq!(next_state, None);
}

#[test]
fn odd_threshold_floors_downward() {
    let mut stats = PlayerStats { xp: 151, level: 2, xp_to_next_level: 151 };
    let mut next_state: Option<GameState> = None;
    check_level_up(&mut stats, &mut next_state);
    // floor(151 * 1.5) = 226
    assert_eq!(stats.xp_to_next_level, 226);
}

#[test]
fn menu_start_enters_running_and_spawns_player() {
    let mut sim = Sim::new();
    assert_eq!(sim.state, GameState::MainMenu);
    let mut input = quiet_input();
    input.start_pressed = true;
    sim.tick(&input);
    assert_eq!(sim.next_state, Some(GameState::Running));
    assert!(sim.player.is_none());
    sim.tick(&quiet_input());
    assert_eq!(sim.state, GameState::Running);
    let p = sim.player.expect("player exists while running");
    assert_eq!(p.pos, Vec2i { x: 0, y: 0 });
    assert_eq!(sim.orbit.blades.len(), 3);
}

#[test]
fn menu_without_start_stays_idle() {
    let mut sim = Sim::new();
    sim.tick(&quiet_input());
    assert_eq!(sim.state, GameState::MainMenu);
    assert_eq!(sim.next_state, None);
    assert!(sim.player.is_none());
    assert_eq!(sim.enemies.len(), 0);
}

#[test]
fn level_up_pauses_and_upgrade_resumes() {
    let mut sim = Sim::new();
    let mut start = quiet_input();
    start.start_pressed = true;
    sim.tick(&start);
    sim.tick(&quiet_input());
    assert_eq!(sim.state, GameState::Running);
    // Hand the progression record a crossed threshold; the next running
    // tick must request a pause.
    sim.stats.xp = sim.stats.xp_to_next_level;
    sim.tick(&quiet_input());
    assert_eq!(sim.stats.level, 2);
    assert_eq!(sim.next_state, Some(GameState::Paused));
    sim.tick(&quiet_input());
    assert_eq!(sim.state, GameState::Paused);
    // While paused the world is frozen.
    let enemies_before = sim.enemies.len();
    sim.tick(&quiet_input());
    assert_eq!(sim.state, GameState::Paused);
    assert_eq!(sim.enemies.len(), enemies_before);
    // Choosing an upgrade mutates exactly one weapon field and resumes.
    let mut choice = quiet_input();
    choice.upgrade_choice = Some(Upgrade::BladeCount);
    sim.tick(&choice);
    assert_eq!(sim.weapon.blade_count, 4);
    assert_eq!(sim.weapon.multishot, 1);
    assert_eq!(sim.next_state, Some(GameState::Running));
    // Back in the running state, the ring is rebuilt to match.
    sim.tick(&quiet_input());
    assert_eq!(sim.state, GameState::Running);
    assert_eq!(sim.orbit.blades.len(), 4);
}

#[test]
fn attack_speed_upgrade_shrinks_interval() {
    let mut sim = Sim::new();
    let mut start = quiet_input();
    start.start_pressed = true;
    sim.tick(&start);
    sim.tick(&quiet_input());
    sim.stats.xp = sim.stats.xp_to_next_level;
    sim.tick(&quiet_input());
    sim.tick(&quiet_input());
    assert_eq!(sim.state, GameState::Paused);
    let before = sim.weapon.fire_rate_us;
    let mut choice = quiet_input();
    choice.upgrade_choice = Some(Upgrade::AttackSpeed);
    sim.tick(&choice);
    assert_eq!(sim.weapon.fire_rate_us, before * 9 / 10);
    assert!(sim.weapon.fire_rate_us > 0);
}

#[test]
fn running_tick_trickles_enemies() {
    let mut sim = Sim::new();
    let mut start = quiet_input();
    start.start_pressed = true;
    sim.tick(&start);
    sim.tick(&quiet_input());
    // Seven 16 ms ticks cross the 100 ms trickle interval once.
    for _ in 0..7 {
        sim.tick(&quiet_input());
    }
    assert_eq!(sim.enemies.len(), 1);
}

#[test]
fn player_moves_with_input() {
    let mut sim = Sim::new();
    let mut start = quiet_input();
    start.start_pressed = true;
    sim.tick(&start);
    sim.tick(&quiet_input());
    let mut east = quiet_input();
    east.move_x = 1;
    east.dt_us = 1_000_000;
    east.trickle_offsets = (0..10).map(|_| Vec2i { x: 1_000_000, y: 0 }).collect();
    sim.tick(&east);
    // One second east at 500 units/s.
    assert_eq!(sim.player.unwrap().pos.x, 500_000);
    assert_eq!(sim.player.unwrap().pos.y, 0);
}
