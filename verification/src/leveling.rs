use vstd::prelude::*;
use crate::geom::{dist2, dist2_exec, in_world, Vec2i};
use crate::sim::GameState;

verus! {

/// Width of an experience gem, in position units.
pub const XP_GEM_SIZE: i64 = 10_000;

/// Distance within which the player magnets a gem in: half the player size
/// plus a generous pickup reach, in position units.
pub const COLLECT_RADIUS: i64 = 65_000;

/// Experience one gem grants.
pub const XP_PER_GEM: u32 = 10;

/// Experience required to finish the first level.
pub const FIRST_LEVEL_XP: u32 = 100;

/// A request to drop an experience gem at a position, emitted by each kill.
#[derive(Clone, Copy, PartialEq, Eq, Structural, Debug)]
pub struct XpDropEvent(pub Vec2i);

/// A collectible experience gem lying in the world.
#[derive(Clone, Copy, PartialEq, Eq, Structural, Debug)]
pub struct XpGem {
    pub pos: Vec2i,
}

/// Experience and level bookkeeping.
#[derive(Clone, Copy, PartialEq, Eq, Structural, Debug)]
pub struct PlayerStats {
    pub xp: u32,
    pub level: u32,
    pub xp_to_next_level: u32,
}

impl Default for PlayerStats {
    /// A fresh record: no experience, level one, first threshold.
    fn default() -> (s: Self)
        ensures
            s.xp == 0,
            s.level == 1,
            s.xp_to_next_level == FIRST_LEVEL_XP,
    {
        PlayerStats { xp: 0, level: 1, xp_to_next_level: FIRST_LEVEL_XP }
    }
}

/// The gems a run of drop events turns into, one per event at its
/// position.
pub open spec fn gems_of(events: Seq<XpDropEvent>) -> Seq<XpGem> {
    events.map_values(|e: XpDropEvent| XpGem { pos: e.0 })
}

/// Turns every pending drop event into a gem at the event's position and
/// consumes the events.
pub fn spawn_xp_gems(gems: &mut Vec<XpGem>, events: &mut Vec<XpDropEvent>)
    ensures
        final(gems)@ == old(gems)@ + gems_of(old(events)@),
        final(events)@.len() == 0,
{
    let ghost start = gems@;
    let n = events.len();
    let mut i: usize = 0;
    while i < n
        invariant
            i <= n,
            events@.len() == n,
            events@ == old(events)@,
            gems@ == start + gems_of(events@.subrange(0, i as int)),
        decreases n - i,
    {
        let e = events[i];
        gems.push(XpGem { pos: e.0 });
        proof {
            assert(gems_of(events@.subrange(0, i + 1)) =~= gems_of(
                events@.subrange(0, i as int),
            ).push(XpGem { pos: e.0 }));
        }
        i = i + 1;
    }
    proof {
        assert(events@.subrange(0, n as int) =~= old(events)@);
    }
    events.clear();
}

/// Whether the player at p magnets this gem in.
pub open spec fn gem_collected(g: XpGem, p: Vec2i) -> bool {
    dist2(p, g.pos) < COLLECT_RADIUS * COLLECT_RADIUS
}

/// The gems that stay after a pickup pass, from index k on.
pub open spec fn gems_kept(gs: Seq<XpGem>, p: Vec2i, k: int) -> Seq<XpGem>
    decreases gs.len() - k,
{
    if !(0 <= k < gs.len()) {
        Seq::empty()
    } else if gem_collected(gs[k], p) {
        gems_kept(gs, p, k + 1)
    } else {
        seq![gs[k]] + gems_kept(gs, p, k + 1)
    }
}

/// How many gems a pickup pass collects, from index k on.
pub open spec fn collected_count(gs: Seq<XpGem>, p: Vec2i, k: int) -> int
    decreases gs.len() - k,
{
    if !(0 <= k < gs.len()) {
        0
    } else if gem_collected(gs[k], p) {
        1 + collected_count(gs, p, k + 1)
    } else {
        collected_count(gs, p, k + 1)
    }
}

/// Addition on experience that stops at the counter's ceiling.
pub open spec fn sat_add_u32(a: int, b: int) -> u32
    recommends
        a >= 0,
        b >= 0,
{
    if a + b > u32::MAX {
        u32::MAX
    } else {
        (a + b) as u32
    }
}

/// Collects every gem within the pickup radius of the player and adds its
/// experience; without a player nothing happens.
pub fn collect_xp_gems(gems: &mut Vec<XpGem>, stats: &mut PlayerStats, player: Option<Vec2i>)
    requires
        in_world(player->0) || player is None,
        forall|i: int| 0 <= i < old(gems)@.len() ==> in_world(#[trigger] old(gems)@[i].pos),
    ensures
        player is Some ==> {
            &&& final(gems)@ == gems_kept(old(gems)@, player->0, 0)
            &&& final(stats).xp == sat_add_u32(
                old(stats).xp as int,
                XP_PER_GEM * collected_count(old(gems)@, player->0, 0),
            )
            &&& final(stats).level == old(stats).level
            &&& final(stats).xp_to_next_level == old(stats).xp_to_next_level
        },
        player is None ==> *final(gems) == *old(gems) && *final(stats) == *old(stats),
        forall|i: int| 0 <= i < final(gems)@.len() ==> in_world(#[trigger] final(gems)@[i].pos),
{
    match player {
        Some(p) => {
            let ghost orig = gems@;
            let n = gems.len();
            let mut kept: Vec<XpGem> = Vec::new();
            let mut count: u64 = 0;
            let mut i: usize = 0;
            while i < n
                invariant
                    i <= n,
                    gems@ == orig,
                    gems@.len() == n,
                    in_world(p),
                    forall|q: int| 0 <= q < n ==> in_world(#[trigger] orig[q].pos),
                    count <= i,
                    forall|q: int| 0 <= q < kept@.len() ==> in_world(#[trigger] kept@[q].pos),
                    gems_kept(orig, p, 0) == kept@ + gems_kept(orig, p, i as int),
                    collected_count(orig, p, 0) == count + collected_count(orig, p, i as int),
                decreases n - i,
            {
                let g = gems[i];
                let r2 = dist2_exec(p, g.pos);
                if r2 < (COLLECT_RADIUS as i128) * (COLLECT_RADIUS as i128) {
                    count = count + 1;
                } else {
                    kept.push(g);
                }
                i = i + 1;
            }
            *gems = kept;
            let gain: u128 = (XP_PER_GEM as u128) * (count as u128);
            let candidate: u128 = stats.xp as u128 + gain;
            if candidate > u32::MAX as u128 {
                stats.xp = u32::MAX;
            } else {
                stats.xp = candidate as u32;
            }
        },
        None => {},
    }
}

/// The next level's requirement: one and a half times the old one, floored,
/// stopping at the counter's ceiling.
pub open spec fn next_threshold(t: u32) -> u32 {
    if 3 * t / 2 > u32::MAX {
        u32::MAX
    } else {
        (3 * t / 2) as u32
    }
}

/// What one level-up check does to the record: crossing the threshold spends
/// it, raises the level once, and grows the requirement; otherwise nothing.
pub open spec fn level_up_model(s: PlayerStats) -> PlayerStats {
    if s.xp >= s.xp_to_next_level {
        PlayerStats {
            xp: (s.xp - s.xp_to_next_level) as u32,
            level: sat_add_u32(s.level as int, 1),
            xp_to_next_level: next_threshold(s.xp_to_next_level),
        }
    } else {
        s
    }
}

/// Applies at most one level-up and, when one happens, asks the state
/// machine to pause for an upgrade choice.
pub fn check_level_up(stats: &mut PlayerStats, next_state: &mut Option<GameState>)
    ensures
        *final(stats) == level_up_model(*old(stats)),
        old(stats).xp >= old(stats).xp_to_next_level ==> *final(next_state) == Some(
            GameState::Paused,
        ),
        old(stats).xp < old(stats).xp_to_next_level ==> *final(next_state) == *old(next_state),
{
    if stats.xp >= stats.xp_to_next_level {
        let nt: u64 = 3 * (stats.xp_to_next_level as u64) / 2;
        stats.xp = stats.xp - stats.xp_to_next_level;
        if stats.level < u32::MAX {
            stats.level = stats.level + 1;
        }
        if nt > u32::MAX as u64 {
            stats.xp_to_next_level = u32::MAX;
        } else {
            stats.xp_to_next_level = nt as u32;
        }
        *next_state = Some(GameState::Paused);
    }
}

/// Even experience at or past twice the threshold yields exactly one level
/// in one check.
pub proof fn lemma_one_level_per_check(s: PlayerStats)
    requires
        s.xp >= 2 * s.xp_to_next_level,
        s.level < u32::MAX,
    ensures
        level_up_model(s).level == s.level + 1,
{
}

/// The level requirement never shrinks across a level-up.
pub proof fn lemma_threshold_non_decreasing(s: PlayerStats)
    ensures
        level_up_model(s).xp_to_next_level >= s.xp_to_next_level,
{
    let t = s.xp_to_next_level;
    assert(3 * t / 2 >= t) by {
        vstd::arithmetic::div_mod::lemma_div_is_ordered(2 * t, 3 * t, 2);
        vstd::arithmetic::div_mod::lemma_div_multiples_vanish(t as int, 2);
    }
}

} // verus!
