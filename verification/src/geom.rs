use vstd::prelude::*;

verus! {

/// Fixed-point position units per world unit.
pub const MILLI_PER_UNIT: i64 = 1000;

/// Microseconds per second.
pub const US_PER_S: u64 = 1_000_000;

/// Largest coordinate magnitude the world holds; every position update clamps
/// into the square of this half-width.
pub const POS_LIMIT: i64 = 1_000_000_000_000;

/// Longest tick the simulation accepts, in microseconds.
pub const DT_MAX_US: u64 = 10_000_000;

/// Fixed-point scale of a unit direction vector: a vector of length one has
/// components in [-DIR_ONE, DIR_ONE].
pub const DIR_ONE: i64 = 1_000_000;

/// Largest speed any entity moves at, in position units per second.
pub const SPEED_MAX: u64 = 1_000_000;

/// A point or direction in the plane, in fixed-point coordinates.
#[derive(Clone, Copy, PartialEq, Eq, Structural, Debug)]
pub struct Vec2i {
    pub x: i64,
    pub y: i64,
}

/// The coordinate bounds every stored position satisfies.
pub open spec fn in_world(p: Vec2i) -> bool {
    -POS_LIMIT <= p.x <= POS_LIMIT && -POS_LIMIT <= p.y <= POS_LIMIT
}

/// Squared straight-line distance between two points.
pub open spec fn dist2(a: Vec2i, b: Vec2i) -> int {
    (a.x - b.x) * (a.x - b.x) + (a.y - b.y) * (a.y - b.y)
}

pub fn dist2_exec(a: Vec2i, b: Vec2i) -> (r: i128)
    requires
        in_world(a),
        in_world(b),
    ensures
        r == dist2(a, b),
        0 <= r <= 8_000_000_000_000_000_000_000_000,
{
    let dx: i128 = a.x as i128 - b.x as i128;
    let dy: i128 = a.y as i128 - b.y as i128;
    assert(dx * dx + dy * dy == dist2(a, b) && 0 <= dx * dx <= 4_000_000_000_000_000_000_000_000
        && 0 <= dy * dy <= 4_000_000_000_000_000_000_000_000) by (nonlinear_arith)
        requires
            -2_000_000_000_000 <= dx <= 2_000_000_000_000,
            -2_000_000_000_000 <= dy <= 2_000_000_000_000,
            dx == a.x - b.x,
            dy == a.y - b.y,
    ;
    dx * dx + dy * dy
}

/// Clamps an arbitrary coordinate into [-limit, limit].
pub open spec fn clamp_to(v: int, limit: i64) -> i64
    recommends
        limit >= 0,
{
    if v > limit {
        limit
    } else if v < -limit {
        (-limit) as i64
    } else {
        v as i64
    }
}

/// Clamps a coordinate into the world bounds.
pub open spec fn clamp_coord(v: int) -> i64 {
    clamp_to(v, POS_LIMIT)
}

pub fn clamp_to_exec(v: i128, limit: i64) -> (r: i64)
    requires
        limit >= 0,
    ensures
        r == clamp_to(v as int, limit),
        -limit <= r <= limit,
{
    if v > limit as i128 {
        limit
    } else if v < -(limit as i128) {
        -limit
    } else {
        v as i64
    }
}

pub fn clamp_coord_exec(v: i128) -> (r: i64)
    ensures
        r == clamp_coord(v as int),
        -POS_LIMIT <= r <= POS_LIMIT,
{
    clamp_to_exec(v, POS_LIMIT)
}

/// Componentwise sum of a position and an offset, clamped into the world.
pub open spec fn vadd_clamp(a: Vec2i, b: Vec2i) -> Vec2i {
    Vec2i { x: clamp_coord(a.x + b.x), y: clamp_coord(a.y + b.y) }
}

pub fn vadd_clamp_exec(a: Vec2i, b: Vec2i) -> (r: Vec2i)
    ensures
        r == vadd_clamp(a, b),
        in_world(r),
{
    Vec2i {
        x: clamp_coord_exec(a.x as i128 + b.x as i128),
        y: clamp_coord_exec(a.y as i128 + b.y as i128),
    }
}

/// Division that truncates toward zero, for a positive divisor; this is how
/// the machine divides signed integers.
pub open spec fn tdiv(n: int, d: int) -> int
    recommends
        d > 0,
{
    if n >= 0 {
        n / d
    } else {
        -((-n) / d)
    }
}

pub fn div_trunc(n: i128, d: u128) -> (r: i128)
    requires
        0 < d <= i128::MAX as u128,
        n > i128::MIN,
    ensures
        r == tdiv(n as int, d as int),
{
    if n >= 0 {
        let q: u128 = (n as u128) / d;
        proof {
            assert(q <= n as u128) by {
                vstd::arithmetic::div_mod::lemma_div_nonincreasing(n as int, d as int);
            }
        }
        q as i128
    } else {
        let m: i128 = -n;
        let q: u128 = (m as u128) / d;
        proof {
            assert(q <= m as u128) by {
                vstd::arithmetic::div_mod::lemma_div_nonincreasing(m as int, d as int);
            }
        }
        -(q as i128)
    }
}

/// The floor of the square root of a non-negative integer.
pub open spec fn sqrt_floor(n: int) -> int
    recommends
        n >= 0,
{
    choose|r: int| 0 <= r && #[trigger] (r * r) <= n < (r + 1) * (r + 1)
}

pub proof fn lemma_sqrt_floor(n: int)
    requires
        n >= 0,
    ensures
        0 <= sqrt_floor(n),
        sqrt_floor(n) * sqrt_floor(n) <= n,
        n < (sqrt_floor(n) + 1) * (sqrt_floor(n) + 1),
    decreases n,
{
    if n == 0 {
        assert(0 * 0 <= 0 < (0 + 1) * (0 + 1)) by (nonlinear_arith);
        assert(exists|r: int| 0 <= r && #[trigger] (r * r) <= n < (r + 1) * (r + 1)) by {
            assert(0 <= 0 && 0 * 0 <= n < (0 + 1) * (0 + 1));
        }
    } else {
        lemma_sqrt_floor(n - 1);
        let p = sqrt_floor(n - 1);
        if (p + 1) * (p + 1) <= n {
            assert(n == (p + 1) * (p + 1));
            assert((p + 1) * (p + 1) <= n < (p + 2) * (p + 2)) by (nonlinear_arith)
                requires
                    n == (p + 1) * (p + 1),
                    p >= 0,
            ;
            assert(exists|r: int| 0 <= r && #[trigger] (r * r) <= n < (r + 1) * (r + 1)) by {
                assert(0 <= p + 1 && (p + 1) * (p + 1) <= n < (p + 1 + 1) * (p + 1 + 1));
            }
        } else {
            assert(exists|r: int| 0 <= r && #[trigger] (r * r) <= n < (r + 1) * (r + 1)) by {
                assert(0 <= p && p * p <= n < (p + 1) * (p + 1));
            }
        }
        let s = sqrt_floor(n);
        assert(0 <= s && s * s <= n < (s + 1) * (s + 1));
    }
}

/// Any root candidate with the defining property is the floor square root.
pub proof fn lemma_sqrt_floor_unique(n: int, r: int)
    requires
        n >= 0,
        0 <= r,
        r * r <= n,
        n < (r + 1) * (r + 1),
    ensures
        r == sqrt_floor(n),
{
    lemma_sqrt_floor(n);
    let s = sqrt_floor(n);
    if r < s {
        assert((r + 1) * (r + 1) <= s * s) by (nonlinear_arith)
            requires
                0 <= r,
                r + 1 <= s,
        ;
    }
    if s < r {
        assert((s + 1) * (s + 1) <= r * r) by (nonlinear_arith)
            requires
                0 <= s,
                s + 1 <= r,
        ;
    }
}

/// Floor square root, by binary search.
pub fn isqrt(n: u128) -> (r: u128)
    requires
        n < 0x4000_0000_0000_0000_0000_0000_0000_0000,
    ensures
        r as int == sqrt_floor(n as int),
        r * r <= n,
        n < (r + 1) * (r + 1),
{
    let mut lo: u128 = 0;
    let mut hi: u128 = 0x8000_0000_0000_0000;
    proof {
        assert(hi * hi == 0x4000_0000_0000_0000_0000_0000_0000_0000) by (nonlinear_arith)
            requires
                hi == 0x8000_0000_0000_0000,
        ;
    }
    while lo + 1 < hi
        invariant
            lo < hi <= 0x8000_0000_0000_0000,
            lo * lo <= n,
            n < hi * hi,
        decreases hi - lo,
    {
        let mid: u128 = lo + (hi - lo) / 2;
        proof {
            assert(mid * mid < 0x8000_0000_0000_0000_0000_0000_0000_0000) by (nonlinear_arith)
                requires
                    mid <= 0x8000_0000_0000_0000,
            ;
        }
        if mid * mid <= n {
            lo = mid;
        } else {
            hi = mid;
        }
    }
    proof {
        lemma_sqrt_floor_unique(n as int, lo as int);
    }
    lo
}

/// Both components lie within [-bound, bound].
pub open spec fn dir_bounded(d: Vec2i, bound: i64) -> bool {
    -bound <= d.x <= bound && -bound <= d.y <= bound
}

/// A quotient is bounded when its numerator is bounded by the same multiple
/// of the divisor.
pub proof fn lemma_tdiv_bound(n: int, d: int, b: int)
    requires
        d > 0,
        b >= 0,
        -(b * d) <= n <= b * d,
    ensures
        -b <= tdiv(n, d) <= b,
{
    assert((d * b) / d == b) by {
        vstd::arithmetic::div_mod::lemma_div_multiples_vanish(b, d);
    }
    assert(b * d == d * b);
    if n >= 0 {
        assert(n / d <= (b * d) / d) by {
            vstd::arithmetic::div_mod::lemma_div_is_ordered(n, b * d, d);
        }
        assert(n / d >= 0) by {
            vstd::arithmetic::div_mod::lemma_div_pos_is_pos(n, d);
        }
        assert(tdiv(n, d) == n / d);
    } else {
        assert((-n) / d <= (b * d) / d) by {
            vstd::arithmetic::div_mod::lemma_div_is_ordered(-n, b * d, d);
        }
        assert((-n) / d >= 0) by {
            vstd::arithmetic::div_mod::lemma_div_pos_is_pos(-n, d);
        }
        assert(tdiv(n, d) == -((-n) / d));
    }
}

/// One steering step of length speed * dt toward a target: the displacement
/// along each axis is the axis share of the straight line, truncated toward
/// zero, and the result is clamped into the world. Coincident points do not
/// move.
pub open spec fn seek_step(from: Vec2i, to: Vec2i, speed: u64, dt_us: u64) -> Vec2i {
    let dx = (to.x - from.x) as int;
    let dy = (to.y - from.y) as int;
    let d2 = dx * dx + dy * dy;
    if d2 == 0 {
        from
    } else {
        let dist = sqrt_floor(d2);
        Vec2i {
            x: clamp_coord(from.x + tdiv(dx * speed * dt_us, dist * US_PER_S)),
            y: clamp_coord(from.y + tdiv(dy * speed * dt_us, dist * US_PER_S)),
        }
    }
}

/// Each axis offset is no larger in magnitude than the straight-line floor
/// distance, so a normalized share never exceeds one.
pub proof fn lemma_axis_le_dist(dx: int, dy: int)
    requires
        dx * dx + dy * dy >= 0,
        dx * dx >= 0,
        dy * dy >= 0,
    ensures
        dx <= sqrt_floor(dx * dx + dy * dy),
        -dx <= sqrt_floor(dx * dx + dy * dy),
        dy <= sqrt_floor(dx * dx + dy * dy),
        -dy <= sqrt_floor(dx * dx + dy * dy),
{
    let n = dx * dx + dy * dy;
    lemma_sqrt_floor(n);
    let s = sqrt_floor(n);
    let ax = if dx >= 0 { dx } else { -dx };
    let ay = if dy >= 0 { dy } else { -dy };
    assert(ax * ax == dx * dx) by (nonlinear_arith)
        requires
            ax == dx || ax == -dx,
    ;
    assert(ay * ay == dy * dy) by (nonlinear_arith)
        requires
            ay == dy || ay == -dy,
    ;
    if ax > s {
        assert((s + 1) * (s + 1) <= ax * ax) by (nonlinear_arith)
            requires
                0 <= s,
                s + 1 <= ax,
        ;
    }
    if ay > s {
        assert((s + 1) * (s + 1) <= ay * ay) by (nonlinear_arith)
            requires
                0 <= s,
                s + 1 <= ay,
        ;
    }
}

pub fn seek_step_exec(from: Vec2i, to: Vec2i, speed: u64, dt_us: u64) -> (r: Vec2i)
    requires
        in_world(from),
        in_world(to),
        speed <= SPEED_MAX,
        dt_us <= DT_MAX_US,
    ensures
        r == seek_step(from, to, speed, dt_us),
        in_world(r),
{
    let dx: i128 = to.x as i128 - from.x as i128;
    let dy: i128 = to.y as i128 - from.y as i128;
    proof {
        assert(0 <= dx * dx <= 4_000_000_000_000_000_000_000_000 && 0 <= dy * dy
            <= 4_000_000_000_000_000_000_000_000) by (nonlinear_arith)
            requires
                -2_000_000_000_000 <= dx <= 2_000_000_000_000,
                -2_000_000_000_000 <= dy <= 2_000_000_000_000,
        ;
    }
    let d2: i128 = dx * dx + dy * dy;
    if d2 == 0 {
        from
    } else {
        let dist: u128 = isqrt(d2 as u128);
        proof {
            lemma_sqrt_floor(d2 as int);
            assert(dist <= 3_000_000_000_000) by (nonlinear_arith)
                requires
                    dist * dist <= 8_000_000_000_000_000_000_000_000,
            ;
            lemma_axis_le_dist(dx as int, dy as int);
            assert(dist >= 1) by (nonlinear_arith)
                requires
                    d2 as u128 >= 1,
                    (d2 as u128) < (dist + 1) * (dist + 1),
            ;
            assert(1 <= dist * (US_PER_S as u128) <= 3_000_000_000_000_000_000) by (nonlinear_arith)
                requires
                    1 <= dist <= 3_000_000_000_000,
            ;
            assert(-2_000_000_000_000_000_000 <= dx * (speed as i128) <= 2_000_000_000_000_000_000
                && -2_000_000_000_000_000_000 <= dy * (speed as i128) <= 2_000_000_000_000_000_000
                && -20_000_000_000_000_000_000_000_000 <= dx * (speed as i128) * (dt_us as i128)
                    <= 20_000_000_000_000_000_000_000_000
                && -20_000_000_000_000_000_000_000_000 <= dy * (speed as i128) * (dt_us as i128)
                    <= 20_000_000_000_000_000_000_000_000) by (nonlinear_arith)
                requires
                    -2_000_000_000_000 <= dx <= 2_000_000_000_000,
                    -2_000_000_000_000 <= dy <= 2_000_000_000_000,
                    0 <= speed <= 1_000_000,
                    0 <= dt_us <= 10_000_000,
            ;
        }
        let sx: i128 = div_trunc(dx * (speed as i128) * (dt_us as i128), dist * (US_PER_S as u128));
        let sy: i128 = div_trunc(dy * (speed as i128) * (dt_us as i128), dist * (US_PER_S as u128));
        Vec2i {
            x: clamp_coord_exec(from.x as i128 + sx),
            y: clamp_coord_exec(from.y as i128 + sy),
        }
    }
}

/// The unit vector from one point toward another, in fixed point: each
/// component is the axis share of the straight line, scaled by DIR_ONE and
/// truncated toward zero. Coincident points give the zero vector.
pub open spec fn scaled_dir(from: Vec2i, to: Vec2i) -> Vec2i {
    let dx = (to.x - from.x) as int;
    let dy = (to.y - from.y) as int;
    let d2 = dx * dx + dy * dy;
    if d2 == 0 {
        Vec2i { x: 0, y: 0 }
    } else {
        let dist = sqrt_floor(d2);
        Vec2i { x: tdiv(dx * DIR_ONE, dist) as i64, y: tdiv(dy * DIR_ONE, dist) as i64 }
    }
}

pub fn scaled_dir_exec(from: Vec2i, to: Vec2i) -> (r: Vec2i)
    requires
        in_world(from),
        in_world(to),
    ensures
        r == scaled_dir(from, to),
        dir_bounded(r, DIR_ONE),
{
    let dx: i128 = to.x as i128 - from.x as i128;
    let dy: i128 = to.y as i128 - from.y as i128;
    proof {
        assert(0 <= dx * dx <= 4_000_000_000_000_000_000_000_000 && 0 <= dy * dy
            <= 4_000_000_000_000_000_000_000_000) by (nonlinear_arith)
            requires
                -2_000_000_000_000 <= dx <= 2_000_000_000_000,
                -2_000_000_000_000 <= dy <= 2_000_000_000_000,
        ;
    }
    let d2: i128 = dx * dx + dy * dy;
    if d2 == 0 {
        Vec2i { x: 0, y: 0 }
    } else {
        let dist: u128 = isqrt(d2 as u128);
        proof {
            assert(dist >= 1) by (nonlinear_arith)
                requires
                    d2 as u128 >= 1,
                    (d2 as u128) < (dist + 1) * (dist + 1),
            ;
            assert(dist <= 3_000_000_000_000) by (nonlinear_arith)
                requires
                    dist * dist <= 8_000_000_000_000_000_000_000_000,
            ;
            lemma_axis_le_dist(dx as int, dy as int);
            assert(-(1_000_000 * (dist as int)) <= dx * 1_000_000 <= 1_000_000 * (dist as int)
                && -(1_000_000 * (dist as int)) <= dy * 1_000_000 <= 1_000_000 * (dist as int))
                by (nonlinear_arith)
                requires
                    -(dist as int) <= dx <= dist as int,
                    -(dist as int) <= dy <= dist as int,
            ;
            lemma_tdiv_bound(dx as int * 1_000_000, dist as int, 1_000_000);
            lemma_tdiv_bound(dy as int * 1_000_000, dist as int, 1_000_000);
        }
        let qx: i128 = div_trunc(dx * (DIR_ONE as i128), dist);
        let qy: i128 = div_trunc(dy * (DIR_ONE as i128), dist);
        Vec2i { x: qx as i64, y: qy as i64 }
    }
}

/// Largest component magnitude a stored flight direction can reach: the
/// rotation of a unit vector by another unit vector, before rescaling.
pub const DIR_BOUND: i64 = 2_000_000;

/// Rotation of a fixed-point direction by a fixed-point unit vector
/// (cosine, sine), truncated toward zero on each component.
pub open spec fn rotate_dir(d: Vec2i, r: Vec2i) -> Vec2i {
    Vec2i {
        x: tdiv(d.x * r.x - d.y * r.y, DIR_ONE as int) as i64,
        y: tdiv(d.x * r.y + d.y * r.x, DIR_ONE as int) as i64,
    }
}

pub fn rotate_dir_exec(d: Vec2i, r: Vec2i) -> (out: Vec2i)
    requires
        dir_bounded(d, DIR_ONE),
        dir_bounded(r, DIR_ONE),
    ensures
        out == rotate_dir(d, r),
        dir_bounded(out, DIR_BOUND),
{
    proof {
        assert(-1_000_000_000_000 <= (d.x as i128) * (r.x as i128) <= 1_000_000_000_000
            && -1_000_000_000_000 <= (d.y as i128) * (r.y as i128) <= 1_000_000_000_000
            && -1_000_000_000_000 <= (d.x as i128) * (r.y as i128) <= 1_000_000_000_000
            && -1_000_000_000_000 <= (d.y as i128) * (r.x as i128) <= 1_000_000_000_000)
            by (nonlinear_arith)
            requires
                -1_000_000 <= d.x <= 1_000_000,
                -1_000_000 <= d.y <= 1_000_000,
                -1_000_000 <= r.x <= 1_000_000,
                -1_000_000 <= r.y <= 1_000_000,
        ;
    }
    let nx: i128 = d.x as i128 * r.x as i128 - d.y as i128 * r.y as i128;
    let ny: i128 = d.x as i128 * r.y as i128 + d.y as i128 * r.x as i128;
    proof {
        lemma_tdiv_bound(nx as int, DIR_ONE as int, 2_000_000);
        lemma_tdiv_bound(ny as int, DIR_ONE as int, 2_000_000);
    }
    let qx: i128 = div_trunc(nx, 1_000_000);
    let qy: i128 = div_trunc(ny, 1_000_000);
    Vec2i { x: qx as i64, y: qy as i64 }
}

/// One step of straight flight along a stored fixed-point direction.
pub open spec fn fly_step(pos: Vec2i, dir: Vec2i, speed: u64, dt_us: u64) -> Vec2i {
    Vec2i {
        x: clamp_coord(pos.x + tdiv(dir.x * speed * dt_us, DIR_ONE * US_PER_S)),
        y: clamp_coord(pos.y + tdiv(dir.y * speed * dt_us, DIR_ONE * US_PER_S)),
    }
}

pub fn fly_step_exec(pos: Vec2i, dir: Vec2i, speed: u64, dt_us: u64) -> (r: Vec2i)
    requires
        in_world(pos),
        dir_bounded(dir, DIR_BOUND),
        speed <= SPEED_MAX,
        dt_us <= DT_MAX_US,
    ensures
        r == fly_step(pos, dir, speed, dt_us),
        in_world(r),
{
    proof {
        assert(-2_000_000_000_000_000_000_000 <= (dir.x as i128) * (speed as i128)
            * (dt_us as i128) <= 2_000_000_000_000_000_000_000
            && -2_000_000_000_000_000 <= (dir.x as i128) * (speed as i128) <= 2_000_000_000_000_000
            && -2_000_000_000_000_000_000_000 <= (dir.y as i128) * (speed as i128)
            * (dt_us as i128) <= 2_000_000_000_000_000_000_000
            && -2_000_000_000_000_000 <= (dir.y as i128) * (speed as i128) <= 2_000_000_000_000_000)
            by (nonlinear_arith)
            requires
                -2_000_000 <= dir.x <= 2_000_000,
                -2_000_000 <= dir.y <= 2_000_000,
                0 <= speed <= 1_000_000,
                0 <= dt_us <= 10_000_000,
        ;
    }
    let sx: i128 = div_trunc(dir.x as i128 * (speed as i128) * (dt_us as i128), 1_000_000_000_000);
    let sy: i128 = div_trunc(dir.y as i128 * (speed as i128) * (dt_us as i128), 1_000_000_000_000);
    Vec2i { x: clamp_coord_exec(pos.x as i128 + sx), y: clamp_coord_exec(pos.y as i128 + sy) }
}

} // verus!
