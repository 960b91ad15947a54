use vstd::prelude::*;

use crate::chunk_manager::ChunkManager;
use crate::physics::{frame_time, FixedTimestep, MAX_FRAME_NANOS};
use crate::raycast::{fixed_floor, FIXED_ONE};

verus! {

/// Nanoseconds per second: tick lengths are given in nanoseconds.
pub const NANOS_PER_SECOND: u64 = 1_000_000_000;

/// Downward acceleration, in fixed-point blocks per second squared.
pub const GRAVITY: i64 = -2_097_152;

pub const PLAYER_HALF_WIDTH: i64 = 19661;

pub const PLAYER_HEIGHT: i64 = 117965;

/// Top horizontal speed per axis, in fixed-point blocks per second.
pub const MAX_WALK_SPEED: i64 = 281805;

/// Top vertical speed, in fixed-point blocks per second.
pub const MAX_FALL_SPEED: i64 = 3_276_800;

/// Share of the horizontal velocity lost per second on foot, and of every
/// component while flying.
pub const WALK_FRICTION: u64 = 10;

pub const FLY_FRICTION: u64 = 5;

/// Longest tick, in nanoseconds, whose travel at top speed keeps every
/// cell a body can reach on the `i32` grid.
pub const MAX_TICK_NANOS: u64 = 10_000_000_000_000_000;

/// Bound on the coordinates of a body, in fixed point.
pub const WORLD_LIMIT: i64 = 0x100_0000_0000;

/// Bound on accelerations and velocities handed in, in fixed point.
pub const MOTION_LIMIT: i64 = 0x4000_0000;

pub type Vec3i = (i64, i64, i64);

/// An axis-aligned box `[mins, maxs)` in fixed-point coordinates.
#[derive(Copy, Clone, Debug)]
pub struct Aabb {
    pub mins: Vec3i,
    pub maxs: Vec3i,
}

/// The physical state of the player, in fixed-point units.
#[derive(Copy, Clone, Debug)]
pub struct PlayerPhysicsState {
    pub position: Vec3i,
    pub velocity: Vec3i,
    pub acceleration: Vec3i,
    pub aabb: Aabb,
    pub is_on_ground: bool,
}

/// What the player asks for this tick: flight, and an acceleration from
/// the movement keys.
#[derive(Copy, Clone, Debug)]
pub struct PlayerInput {
    pub is_flying: bool,
    pub wish: Vec3i,
}

pub open spec fn comp(v: Vec3i, a: int) -> i64 {
    if a == 0 {
        v.0
    } else if a == 1 {
        v.1
    } else {
        v.2
    }
}

pub open spec fn with_comp(v: Vec3i, a: int, x: i64) -> Vec3i {
    if a == 0 {
        (x, v.1, v.2)
    } else if a == 1 {
        (v.0, x, v.2)
    } else {
        (v.0, v.1, x)
    }
}

fn get_comp(v: Vec3i, a: u8) -> (r: i64)
    requires
        a < 3,
    ensures
        r == comp(v, a as int),
{
    if a == 0 {
        v.0
    } else if a == 1 {
        v.1
    } else {
        v.2
    }
}

fn set_comp(v: Vec3i, a: u8, x: i64) -> (r: Vec3i)
    requires
        a < 3,
    ensures
        r == with_comp(v, a as int, x),
{
    if a == 0 {
        (x, v.1, v.2)
    } else if a == 1 {
        (v.0, x, v.2)
    } else {
        (v.0, v.1, x)
    }
}

/// `a * num / den`, rounded toward zero.
pub open spec fn scaled(a: int, num: int, den: int) -> int {
    if a >= 0 {
        (a * num) / den
    } else {
        -(((-a) * num) / den)
    }
}

/// A scaled value is at most the scaled bound in size.
proof fn lemma_scaled_within(a: int, num: int, den: int, bound: int, top: int)
    requires
        0 < den,
        0 <= num <= top,
        -bound <= a <= bound,
    ensures
        -((bound * top) / den) <= scaled(a, num, den) <= (bound * top) / den,
{
    let m = if a >= 0 {
        a
    } else {
        -a
    };
    assert(m * num <= bound * top) by (nonlinear_arith)
        requires
            0 <= m <= bound,
            0 <= num <= top,
    ;
    assert((m * num) / den <= (bound * top) / den) by (nonlinear_arith)
        requires
            m * num <= bound * top,
            0 < den,
    ;
    assert(0 <= (m * num) / den) by (nonlinear_arith)
        requires
            0 <= m,
            0 <= num,
            0 < den,
    ;
}

fn scale(a: i128, num: u64, den: u64) -> (r: i128)
    requires
        0 < den,
        -0x8000_0000_0000_0000 < a < 0x8000_0000_0000_0000,
    ensures
        r == scaled(a as int, num as int, den as int),
        num <= den && a >= 0 ==> 0 <= r <= a,
        num <= den && a < 0 ==> a <= r <= 0,
{
    let m: u128 = if a >= 0 {
        a as u128
    } else {
        (-a) as u128
    };
    assert(m * (num as u128) < 0x8000_0000_0000_0000 * 0x1_0000_0000_0000_0000) by (nonlinear_arith)
        requires
            m < 0x8000_0000_0000_0000,
            num <= 0xffff_ffff_ffff_ffff,
    ;
    let p = m * (num as u128);
    let q = p / (den as u128);
    assert(q <= p) by (nonlinear_arith)
        requires
            q == (p as int) / (den as int),
            0 < den,
    ;
    assert(num <= den ==> q <= m) by (nonlinear_arith)
        requires
            q == (p as int) / (den as int),
            p == m * num,
            0 < den,
    ;
    if a >= 0 {
        q as i128
    } else {
        -(q as i128)
    }
}

pub open spec fn clamped(v: int, bound: int) -> int {
    if v < -bound {
        -bound
    } else if v > bound {
        bound
    } else {
        v
    }
}

fn clamp_to(v: i64, bound: i64) -> (r: i64)
    requires
        0 <= bound,
    ensures
        r == clamped(v as int, bound as int),
{
    if v < -bound {
        -bound
    } else if v > bound {
        bound
    } else {
        v
    }
}

/// The factor, out of one second's worth of nanoseconds, that friction
/// leaves of a velocity over a tick of `dt` nanoseconds.
pub open spec fn damping(k: int, dt: int) -> int {
    if k * dt >= NANOS_PER_SECOND {
        0
    } else {
        NANOS_PER_SECOND - k * dt
    }
}

/// The grid cells that the box overlaps lie between these corners.
pub open spec fn cells_lo(b: Aabb) -> (int, int, int) {
    (
        (b.mins.0 as int) / (FIXED_ONE as int),
        (b.mins.1 as int) / (FIXED_ONE as int),
        (b.mins.2 as int) / (FIXED_ONE as int),
    )
}

pub open spec fn cells_hi(b: Aabb) -> (int, int, int) {
    (
        ((b.maxs.0 - 1) as int) / (FIXED_ONE as int),
        ((b.maxs.1 - 1) as int) / (FIXED_ONE as int),
        ((b.maxs.2 - 1) as int) / (FIXED_ONE as int),
    )
}

/// `c` is a solid cell that the box overlaps.
pub open spec fn solid_overlap(w: ChunkManager, b: Aabb, c: (int, int, int)) -> bool {
    let lo = cells_lo(b);
    let hi = cells_hi(b);
    &&& lo.0 <= c.0 <= hi.0
    &&& lo.1 <= c.1 <= hi.1
    &&& lo.2 <= c.2 <= hi.2
    &&& w.solid(c.0, c.1, c.2)
}

pub open spec fn translated(b: Aabb, a: int, d: int) -> Aabb {
    Aabb {
        mins: with_comp(b.mins, a, (comp(b.mins, a) + d) as i64),
        maxs: with_comp(b.maxs, a, (comp(b.maxs, a) + d) as i64),
    }
}

/// The box pushed along axis `a`, against the velocity `s` on that axis, out
/// of cell `c`: flush with the face of `c` it ran into.
pub open spec fn pushed_out(b: Aabb, a: int, s: int, c: (int, int, int)) -> Aabb {
    let ca = if a == 0 {
        c.0
    } else if a == 1 {
        c.1
    } else {
        c.2
    };
    if s > 0 {
        translated(b, a, ca * FIXED_ONE - comp(b.maxs, a))
    } else if s < 0 {
        translated(b, a, (ca + 1) * FIXED_ONE - comp(b.mins, a))
    } else {
        b
    }
}

/// `out` is the box `moved`, that moved along axis `a` with velocity `s`
/// on that axis, after the collision response: unchanged if it overlaps
/// nothing solid, else pushed out of a solid cell it overlaps; `hit` tells
/// whether it met one.
pub open spec fn resolved(w: ChunkManager, moved: Aabb, a: int, s: int, out: Aabb, hit: bool) -> bool {
    if exists|c: (int, int, int)| solid_overlap(w, moved, c) {
        &&& hit
        &&& exists|c: (int, int, int)| solid_overlap(w, moved, c) && out == pushed_out(moved, a, s, c)
    } else {
        !hit && out == moved
    }
}

/// Coordinates and sizes for which the arithmetic of a step is exact.
pub open spec fn box_ok(b: Aabb, limit: int) -> bool {
    &&& -limit <= b.mins.0 < b.maxs.0 <= limit
    &&& -limit <= b.mins.1 < b.maxs.1 <= limit
    &&& -limit <= b.mins.2 < b.maxs.2 <= limit
    &&& b.maxs.0 - b.mins.0 <= 0x10_0000
    &&& b.maxs.1 - b.mins.1 <= 0x10_0000
    &&& b.maxs.2 - b.mins.2 <= 0x10_0000
}

pub open spec fn motion_ok(v: Vec3i) -> bool {
    -MOTION_LIMIT <= v.0 <= MOTION_LIMIT && -MOTION_LIMIT <= v.1 <= MOTION_LIMIT && -MOTION_LIMIT
        <= v.2 <= MOTION_LIMIT
}

/// Whether every component of `v` is within `MOTION_LIMIT`.
pub fn motion_within_limits(v: Vec3i) -> (r: bool)
    ensures
        r == motion_ok(v),
{
    -MOTION_LIMIT <= v.0 && v.0 <= MOTION_LIMIT && -MOTION_LIMIT <= v.1 && v.1 <= MOTION_LIMIT
        && -MOTION_LIMIT <= v.2 && v.2 <= MOTION_LIMIT
}

fn cell_of(v: i64) -> (r: i32)
    requires
        -0x7000_0000_0000 <= v <= 0x7000_0000_0000,
    ensures
        r == (v as int) / (FIXED_ONE as int),
{
    fixed_floor(v) as i32
}

/// Moves the box `d` along axis `a` and pushes it, against the velocity `s`
/// on that axis, out of a solid cell it then overlaps.
fn move_axis(w: &ChunkManager, b: Aabb, a: u8, d: i64, s: i64) -> (r: (Aabb, bool))
    requires
        w.wf(),
        a < 3,
        box_ok(b, WORLD_LIMIT + 0x3000_0000_0000),
        -WORLD_LIMIT <= comp(b.mins, a as int),
        comp(b.maxs, a as int) <= WORLD_LIMIT,
        -0x2000_0000_0000 <= d <= 0x2000_0000_0000,
    ensures
        resolved(*w, translated(b, a as int, d as int), a as int, s as int, r.0, r.1),
        r.0.maxs.0 - r.0.mins.0 == b.maxs.0 - b.mins.0,
        r.0.maxs.1 - r.0.mins.1 == b.maxs.1 - b.mins.1,
        r.0.maxs.2 - r.0.mins.2 == b.maxs.2 - b.mins.2,
        forall|i: int| 0 <= i < 3 && i != a ==> comp(r.0.mins, i) == comp(b.mins, i) && comp(r.0.maxs, i) == comp(b.maxs, i),
        -0x3000_0000_0000 <= comp(r.0.mins, a as int) - comp(b.mins, a as int) <= 0x3000_0000_0000,
{
    let moved = Aabb {
        mins: set_comp(b.mins, a, get_comp(b.mins, a) + d),
        maxs: set_comp(b.maxs, a, get_comp(b.maxs, a) + d),
    };
    let lo = (cell_of(moved.mins.0), cell_of(moved.mins.1), cell_of(moved.mins.2));
    let hi = (cell_of(moved.maxs.0 - 1), cell_of(moved.maxs.1 - 1), cell_of(moved.maxs.2 - 1));
    match w.first_solid_in_box(lo, hi) {
        Some(c) => {
            assert(solid_overlap(*w, moved, (c.0 as int, c.1 as int, c.2 as int)));
            let ca = get_comp((c.0 as i64, c.1 as i64, c.2 as i64), a);
            let out = if s > 0 {
                let shift = ca * FIXED_ONE - get_comp(moved.maxs, a);
                Aabb {
                    mins: set_comp(moved.mins, a, get_comp(moved.mins, a) + shift),
                    maxs: set_comp(moved.maxs, a, get_comp(moved.maxs, a) + shift),
                }
            } else if s < 0 {
                let shift = (ca + 1) * FIXED_ONE - get_comp(moved.mins, a);
                Aabb {
                    mins: set_comp(moved.mins, a, get_comp(moved.mins, a) + shift),
                    maxs: set_comp(moved.maxs, a, get_comp(moved.maxs, a) + shift),
                }
            } else {
                moved
            };
            assert(out == pushed_out(moved, a as int, s as int, (c.0 as int, c.1 as int, c.2 as int)));
            (out, true)
        },
        None => {
            assert(!exists|c: (int, int, int)| solid_overlap(*w, moved, c));
            (moved, false)
        },
    }
}

/// Velocity after a tick of `dt` nanoseconds, before collisions: gravity
/// unless flying, the input's acceleration, friction (on the horizontal
/// axes on foot, on all of them in flight), then the speed limits.
pub open spec fn integrated_velocity(p: PlayerPhysicsState, input: PlayerInput, dt: int) -> Vec3i {
    let g = if input.is_flying {
        0
    } else {
        GRAVITY as int
    };
    let acc = (
        p.acceleration.0 + input.wish.0,
        p.acceleration.1 + input.wish.1 + g,
        p.acceleration.2 + input.wish.2,
    );
    let v1 = (
        p.velocity.0 + scaled(acc.0, dt, NANOS_PER_SECOND as int),
        p.velocity.1 + scaled(acc.1, dt, NANOS_PER_SECOND as int),
        p.velocity.2 + scaled(acc.2, dt, NANOS_PER_SECOND as int),
    );
    let k = if input.is_flying {
        FLY_FRICTION as int
    } else {
        WALK_FRICTION as int
    };
    let keep = damping(k, dt);
    let v2 = (
        scaled(v1.0, keep, NANOS_PER_SECOND as int),
        if input.is_flying {
            scaled(v1.1, keep, NANOS_PER_SECOND as int)
        } else {
            v1.1
        },
        scaled(v1.2, keep, NANOS_PER_SECOND as int),
    );
    (
        clamped(v2.0, MAX_WALK_SPEED as int) as i64,
        clamped(v2.1, MAX_FALL_SPEED as int) as i64,
        clamped(v2.2, MAX_WALK_SPEED as int) as i64,
    )
}

/// Distance travelled at velocity `v` over `dt` nanoseconds.
pub open spec fn displacement(v: Vec3i, dt: int) -> Vec3i {
    (
        scaled(v.0 as int, dt, NANOS_PER_SECOND as int) as i64,
        scaled(v.1 as int, dt, NANOS_PER_SECOND as int) as i64,
        scaled(v.2 as int, dt, NANOS_PER_SECOND as int) as i64,
    )
}

/// The three collision passes of a tick: the box moves along x, then y,
/// then z, each time resolved against the world; `after` is the outcome.
pub open spec fn collided(
    w: ChunkManager,
    start: Aabb,
    d: Vec3i,
    v: Vec3i,
    after: Aabb,
    hx: bool,
    hy: bool,
    hz: bool,
) -> bool {
    exists|b1: Aabb, b2: Aabb|
        #![trigger resolved(w, translated(b1, 1, d.1 as int), 1, v.1 as int, b2, hy)]
        resolved(w, translated(start, 0, d.0 as int), 0, v.0 as int, b1, hx) && resolved(
            w,
            translated(b1, 1, d.1 as int),
            1,
            v.1 as int,
            b2,
            hy,
        ) && resolved(w, translated(b2, 2, d.2 as int), 2, v.2 as int, after, hz)
}

fn axis_velocity(a: i64, wish: i64, g: i64, v: i64, dt: u64, keep: u64, damped: bool, bound: i64) -> (r: i64)
    requires
        -MOTION_LIMIT <= a <= MOTION_LIMIT,
        -MOTION_LIMIT <= wish <= MOTION_LIMIT,
        -MOTION_LIMIT <= g <= 0,
        -MOTION_LIMIT <= v <= MOTION_LIMIT,
        dt <= MAX_TICK_NANOS,
        keep <= NANOS_PER_SECOND,
        0 <= bound,
    ensures
        r == clamped(
            if damped {
                scaled(v + scaled(a + wish + g, dt as int, NANOS_PER_SECOND as int), keep as int, NANOS_PER_SECOND as int)
            } else {
                v + scaled(a + wish + g, dt as int, NANOS_PER_SECOND as int)
            },
            bound as int,
        ),
{
    let push = (a as i128) + (wish as i128) + (g as i128);
    let dv = scale(push, dt, NANOS_PER_SECOND);
    proof {
        lemma_scaled_within(push as int, dt as int, NANOS_PER_SECOND as int, 0x1_0000_0000, MAX_TICK_NANOS as int);
    }
    let v1 = (v as i128) + dv;
    let v2 = if damped {
        scale(v1, keep, NANOS_PER_SECOND)
    } else {
        v1
    };
    let b = bound as i128;
    let r = if v2 < -b {
        -b
    } else if v2 > b {
        b
    } else {
        v2
    };
    r as i64
}

impl PlayerPhysicsState {
    /// A player standing at `position` (the middle of the feet), at rest.
    pub fn new_at_position(position: Vec3i) -> (r: PlayerPhysicsState)
        requires
            -WORLD_LIMIT <= position.0 <= WORLD_LIMIT,
            -WORLD_LIMIT <= position.1 <= WORLD_LIMIT,
            -WORLD_LIMIT <= position.2 <= WORLD_LIMIT,
        ensures
            r.position == position,
            r.velocity == (0i64, 0i64, 0i64),
            r.acceleration == (0i64, 0i64, 0i64),
            r.aabb.mins == (
                (position.0 - PLAYER_HALF_WIDTH) as i64,
                position.1,
                (position.2 - PLAYER_HALF_WIDTH) as i64,
            ),
            r.aabb.maxs == (
                (position.0 + PLAYER_HALF_WIDTH) as i64,
                (position.1 + PLAYER_HEIGHT) as i64,
                (position.2 + PLAYER_HALF_WIDTH) as i64,
            ),
            !r.is_on_ground,
    {
        PlayerPhysicsState {
            position,
            velocity: (0, 0, 0),
            acceleration: (0, 0, 0),
            aabb: Aabb {
                mins: (position.0 - PLAYER_HALF_WIDTH, position.1, position.2 - PLAYER_HALF_WIDTH),
                maxs: (
                    position.0 + PLAYER_HALF_WIDTH,
                    position.1 + PLAYER_HEIGHT,
                    position.2 + PLAYER_HALF_WIDTH,
                ),
            },
            is_on_ground: false,
        }
    }

    /// The states on which a tick can be computed exactly.
    pub open spec fn in_bounds(&self) -> bool {
        box_ok(self.aabb, WORLD_LIMIT as int) && motion_ok(self.velocity) && motion_ok(self.acceleration)
    }

    pub fn is_in_bounds(&self) -> (r: bool)
        ensures
            r == self.in_bounds(),
    {
        let b = self.aabb;
        let lim = WORLD_LIMIT;
        let size = 0x10_0000i64;
        let box_fits = -lim <= b.mins.0 && b.mins.0 < b.maxs.0 && b.maxs.0 <= lim && -lim <= b.mins.1
            && b.mins.1 < b.maxs.1 && b.maxs.1 <= lim && -lim <= b.mins.2 && b.mins.2 < b.maxs.2
            && b.maxs.2 <= lim && b.maxs.0 - b.mins.0 <= size && b.maxs.1 - b.mins.1 <= size && b.maxs.2
            - b.mins.2 <= size;
        box_fits && motion_within_limits(self.velocity) && motion_within_limits(self.acceleration)
    }
}

/// `r` is what one tick of `dt` nanoseconds makes of `p` under `input`:
/// the integrated velocity, the box moved and resolved per axis in the
/// order x, y, z, motion stopped on each axis that met a solid cell, the
/// ground flag set by a hit on y while moving down, the position taken
/// from the box, and no acceleration left over.
pub open spec fn tick_result(
    w: ChunkManager,
    p: PlayerPhysicsState,
    input: PlayerInput,
    dt: int,
    r: PlayerPhysicsState,
) -> bool {
    let v = integrated_velocity(p, input, dt);
    let d = displacement(v, dt);
    &&& exists|hx: bool, hy: bool, hz: bool|
        #![trigger collided(w, p.aabb, d, v, r.aabb, hx, hy, hz)]
        {
            &&& collided(w, p.aabb, d, v, r.aabb, hx, hy, hz)
            &&& r.velocity == (
                if hx {
                    0i64
                } else {
                    v.0
                },
                if hy {
                    0i64
                } else {
                    v.1
                },
                if hz {
                    0i64
                } else {
                    v.2
                },
            )
            &&& r.is_on_ground == (hy && v.1 < 0)
        }
    &&& r.position == (
        (r.aabb.mins.0 + PLAYER_HALF_WIDTH) as i64,
        r.aabb.mins.1,
        (r.aabb.mins.2 + PLAYER_HALF_WIDTH) as i64,
    )
    &&& r.acceleration == (0i64, 0i64, 0i64)
}

/// One fixed tick of `dt` nanoseconds of player physics against the world:
/// velocity integration, then collision resolved per axis in the order x,
/// y, z, each collision stopping motion on its axis; landing while moving
/// down puts the player on the ground, and being on the ground ends flight.
/// Forces do not carry over to the next tick.
pub fn integrate_player(
    world: &ChunkManager,
    player: &PlayerPhysicsState,
    input: &mut PlayerInput,
    dt: u64,
) -> (r: PlayerPhysicsState)
    requires
        world.wf(),
        player.in_bounds(),
        motion_ok(old(input).wish),
        dt <= MAX_TICK_NANOS,
    ensures
        tick_result(*world, *player, *old(input), dt as int, r),
        final(input).is_flying == (old(input).is_flying && !player.is_on_ground),
        final(input).wish == old(input).wish,
{
    let flying = input.is_flying;
    let g: i64 = if flying {
        0
    } else {
        GRAVITY
    };
    let k: u64 = if flying {
        FLY_FRICTION
    } else {
        WALK_FRICTION
    };
    let keep: u64 = if k * dt >= NANOS_PER_SECOND {
        0
    } else {
        NANOS_PER_SECOND - k * dt
    };
    let vx = axis_velocity(
        player.acceleration.0,
        input.wish.0,
        0,
        player.velocity.0,
        dt,
        keep,
        true,
        MAX_WALK_SPEED,
    );
    let vy = axis_velocity(
        player.acceleration.1,
        input.wish.1,
        g,
        player.velocity.1,
        dt,
        keep,
        flying,
        MAX_FALL_SPEED,
    );
    let vz = axis_velocity(
        player.acceleration.2,
        input.wish.2,
        0,
        player.velocity.2,
        dt,
        keep,
        true,
        MAX_WALK_SPEED,
    );
    let ghost v = integrated_velocity(*player, *old(input), dt as int);
    assert((vx, vy, vz) == v);
    if player.is_on_ground {
        input.is_flying = false;
    }
    proof {
        lemma_scaled_within(vx as int, dt as int, NANOS_PER_SECOND as int, MAX_FALL_SPEED as int, MAX_TICK_NANOS as int);
        lemma_scaled_within(vy as int, dt as int, NANOS_PER_SECOND as int, MAX_FALL_SPEED as int, MAX_TICK_NANOS as int);
        lemma_scaled_within(vz as int, dt as int, NANOS_PER_SECOND as int, MAX_FALL_SPEED as int, MAX_TICK_NANOS as int);
    }
    let dx = scale(vx as i128, dt, NANOS_PER_SECOND) as i64;
    let dy = scale(vy as i128, dt, NANOS_PER_SECOND) as i64;
    let dz = scale(vz as i128, dt, NANOS_PER_SECOND) as i64;
    let b0 = player.aabb;
    let (b1, hx) = move_axis(world, b0, 0, dx, vx);
    let (b2, hy) = move_axis(world, b1, 1, dy, vy);
    let (b3, hz) = move_axis(world, b2, 2, dz, vz);
    let ghost d = displacement(v, dt as int);
    assert(d == (dx, dy, dz));
    assert(resolved(*world, translated(b1, 1, d.1 as int), 1, v.1 as int, b2, hy));
    let velocity = (
        if hx {
            0
        } else {
            vx
        },
        if hy {
            0
        } else {
            vy
        },
        if hz {
            0
        } else {
            vz
        },
    );
    let r = PlayerPhysicsState {
        position: (b3.mins.0 + PLAYER_HALF_WIDTH, b3.mins.1, b3.mins.2 + PLAYER_HALF_WIDTH),
        velocity,
        acceleration: (0, 0, 0),
        aabb: b3,
        is_on_ground: hy && vy < 0,
    };
    assert(collided(*world, player.aabb, d, v, r.aabb, hx, hy, hz));
    r
}

/// The blend `prev + (cur - prev) * num / den`, rounded toward `prev`.
pub open spec fn lerp(prev: int, cur: int, num: int, den: int) -> int {
    prev + scaled(cur - prev, num, den)
}

pub open spec fn lerp3(prev: Vec3i, cur: Vec3i, num: int, den: int) -> Vec3i {
    (
        lerp(prev.0 as int, cur.0 as int, num, den) as i64,
        lerp(prev.1 as int, cur.1 as int, num, den) as i64,
        lerp(prev.2 as int, cur.2 as int, num, den) as i64,
    )
}

/// Interpolation stays between its ends: with a blend factor `num / den`
/// in `[0, 1]`, the blended value lies between the previous and the
/// current value.
pub proof fn lemma_interpolation_bounded(prev: int, cur: int, num: int, den: int)
    requires
        0 < den,
        0 <= num <= den,
    ensures
        prev <= cur ==> prev <= lerp(prev, cur, num, den) <= cur,
        cur <= prev ==> cur <= lerp(prev, cur, num, den) <= prev,
{
    let a = cur - prev;
    if a >= 0 {
        assert(0 <= (a * num) / den <= a) by (nonlinear_arith)
            requires
                a >= 0,
                0 < den,
                0 <= num <= den,
        ;
    } else {
        assert(0 <= ((-a) * num) / den <= -a) by (nonlinear_arith)
            requires
                a < 0,
                0 < den,
                0 <= num <= den,
        ;
    }
}

fn lerp_value(prev: i64, cur: i64, num: u64, den: u64) -> (r: i64)
    requires
        0 < den,
        num <= den,
    ensures
        r == lerp(prev as int, cur as int, num as int, den as int),
{
    proof {
        lemma_interpolation_bounded(prev as int, cur as int, num as int, den as int);
    }
    let diff = cur as i128 - prev as i128;
    let m: u128 = if diff >= 0 {
        diff as u128
    } else {
        (-diff) as u128
    };
    assert(m * (num as u128) <= 0xffff_ffff_ffff_ffff * 0xffff_ffff_ffff_ffff) by (nonlinear_arith)
        requires
            m <= 0xffff_ffff_ffff_ffff,
            num <= 0xffff_ffff_ffff_ffff,
    ;
    let q = m * (num as u128) / (den as u128);
    if diff >= 0 {
        (prev as i128 + q as i128) as i64
    } else {
        (prev as i128 - q as i128) as i64
    }
}

fn lerp_vec(prev: Vec3i, cur: Vec3i, num: u64, den: u64) -> (r: Vec3i)
    requires
        0 < den,
        num <= den,
    ensures
        r == lerp3(prev, cur, num as int, den as int),
{
    (
        lerp_value(prev.0, cur.0, num, den),
        lerp_value(prev.1, cur.1, num, den),
        lerp_value(prev.2, cur.2, num, den),
    )
}

/// `r` is the state `num / den` of the way from `previous` to `current`,
/// component by component, with the current ground flag.
pub open spec fn blended(
    current: PlayerPhysicsState,
    previous: PlayerPhysicsState,
    num: int,
    den: int,
    r: PlayerPhysicsState,
) -> bool {
    &&& r.position == lerp3(previous.position, current.position, num, den)
    &&& r.velocity == lerp3(previous.velocity, current.velocity, num, den)
    &&& r.acceleration == lerp3(previous.acceleration, current.acceleration, num, den)
    &&& r.aabb.mins == lerp3(previous.aabb.mins, current.aabb.mins, num, den)
    &&& r.aabb.maxs == lerp3(previous.aabb.maxs, current.aabb.maxs, num, den)
    &&& r.is_on_ground == current.is_on_ground
}

impl PlayerPhysicsState {
    /// The state `num / den` of the way from `previous` to `self`, component
    /// by component; the ground flag is the current one.
    pub fn interpolate(&self, previous: &PlayerPhysicsState, num: u64, den: u64) -> (r: PlayerPhysicsState)
        requires
            0 < den,
            num <= den,
        ensures
            blended(*self, *previous, num as int, den as int, r),
    {
        PlayerPhysicsState {
            position: lerp_vec(previous.position, self.position, num, den),
            velocity: lerp_vec(previous.velocity, self.velocity, num, den),
            acceleration: lerp_vec(previous.acceleration, self.acceleration, num, den),
            aabb: Aabb {
                mins: lerp_vec(previous.aabb.mins, self.aabb.mins, num, den),
                maxs: lerp_vec(previous.aabb.maxs, self.aabb.maxs, num, den),
            },
            is_on_ground: self.is_on_ground,
        }
    }
}

/// `states` and `flights` record a run of ticks of `dt` nanoseconds under
/// the movement `wish`: each state is what one tick makes of the one before
/// under the flight recorded with it, and landing ends flight for the tick
/// after.
pub open spec fn tick_chain(
    w: ChunkManager,
    states: Seq<PlayerPhysicsState>,
    flights: Seq<bool>,
    wish: Vec3i,
    dt: int,
) -> bool {
    &&& states.len() == flights.len()
    &&& forall|i: int|
        #![trigger states[i + 1]]
        0 <= i < states.len() - 1 ==> {
            &&& tick_result(w, states[i], PlayerInput { is_flying: flights[i], wish }, dt, states[i + 1])
            &&& flights[i + 1] == (flights[i] && !states[i].is_on_ground)
        }
}

/// `n` ticks ran from `start`, flying as `flying` says, and ended at
/// `current`, flying as `flying_after` says; when a tick ran, `previous` is
/// the state one tick before `current`.
pub open spec fn ran_ticks(
    w: ChunkManager,
    start: PlayerPhysicsState,
    flying: bool,
    wish: Vec3i,
    dt: int,
    n: int,
    previous: PlayerPhysicsState,
    current: PlayerPhysicsState,
    flying_after: bool,
) -> bool {
    exists|states: Seq<PlayerPhysicsState>, flights: Seq<bool>|
        #![trigger tick_chain(w, states, flights, wish, dt)]
        {
            &&& states.len() == n + 1
            &&& tick_chain(w, states, flights, wish, dt)
            &&& states[0] == start
            &&& flights[0] == flying
            &&& states[n] == current
            &&& flights[n] == flying_after
            &&& n >= 1 ==> states[n - 1] == previous
        }
}

/// A player simulated in fixed ticks, shown blended between its last two
/// ticks.
pub struct PlayerSimulation {
    pub schedule: FixedTimestep,
    pub previous_state: PlayerPhysicsState,
    pub current_state: PlayerPhysicsState,
}

impl PlayerSimulation {
    pub fn new(dt: u64, now: u64, initial_state: PlayerPhysicsState) -> (r: PlayerSimulation)
        requires
            0 < dt <= MAX_TICK_NANOS,
        ensures
            r.schedule.wf(),
            r.schedule.dt == dt,
            r.schedule.t == 0,
            r.schedule.last_time == now,
            r.schedule.accumulator == 0,
            r.previous_state == initial_state,
            r.current_state == initial_state,
    {
        PlayerSimulation {
            schedule: FixedTimestep::new(dt, now),
            previous_state: initial_state,
            current_state: initial_state,
        }
    }

    /// Takes the clock reading `now`, runs the ticks that are due and
    /// returns the state to display with how many ticks ran. A tick runs
    /// only from a state within bounds; the first that cannot run ends the
    /// catch-up.
    pub fn update(&mut self, world: &ChunkManager, input: &mut PlayerInput, now: u64) -> (r: (PlayerPhysicsState, u64))
        requires
            world.wf(),
            old(self).schedule.wf(),
            old(self).schedule.dt <= MAX_TICK_NANOS,
            old(self).schedule.t + MAX_FRAME_NANOS + old(self).schedule.dt <= u64::MAX,
            motion_ok(old(input).wish),
        ensures
            final(self).schedule.wf(),
            final(self).schedule.dt == old(self).schedule.dt,
            final(self).schedule.last_time == now,
            ({
                let total = old(self).schedule.accumulator + frame_time(
                    old(self).schedule.last_time as int,
                    now as int,
                );
                let due = total / (old(self).schedule.dt as int);
                &&& final(self).schedule.accumulator == total % (old(self).schedule.dt as int)
                &&& final(self).schedule.t == old(self).schedule.t + due * old(self).schedule.dt
                &&& r.1 <= due
                &&& r.1 < due ==> !final(self).current_state.in_bounds()
            }),
            r.1 == 0 ==> final(self).previous_state == old(self).previous_state && final(self).current_state
                == old(self).current_state,
            ran_ticks(
                *world,
                old(self).current_state,
                old(input).is_flying,
                old(input).wish,
                final(self).schedule.dt as int,
                r.1 as int,
                final(self).previous_state,
                final(self).current_state,
                final(input).is_flying,
            ),
            blended(
                final(self).current_state,
                final(self).previous_state,
                final(self).schedule.accumulator as int,
                final(self).schedule.dt as int,
                r.0,
            ),
            final(input).wish == old(input).wish,
    {
        let due = self.schedule.advance(now);
        let dt = self.schedule.dt;
        let ghost schedule = self.schedule;
        let ghost mut states: Seq<PlayerPhysicsState> = seq![self.current_state];
        let ghost mut flights: Seq<bool> = seq![input.is_flying];
        let mut ran: u64 = 0;
        while ran < due
            invariant
                world.wf(),
                ran <= due,
                self.schedule == schedule,
                dt == self.schedule.dt,
                self.schedule.wf(),
                dt <= MAX_TICK_NANOS,
                input.wish == old(input).wish,
                motion_ok(input.wish),
                ran == 0 ==> self.previous_state == old(self).previous_state && self.current_state
                    == old(self).current_state,
                states.len() == ran + 1,
                tick_chain(*world, states, flights, old(input).wish, dt as int),
                states[0] == old(self).current_state,
                flights[0] == old(input).is_flying,
                states[ran as int] == self.current_state,
                flights[ran as int] == input.is_flying,
                ran >= 1 ==> states[ran - 1] == self.previous_state,
            ensures
                ran <= due,
                ran < due ==> !self.current_state.in_bounds(),
            decreases due - ran,
        {
            if !self.current_state.is_in_bounds() {
                break;
            }
            let before = self.current_state;
            let ghost flying = input.is_flying;
            let next = integrate_player(world, &before, input, dt);
            self.previous_state = before;
            self.current_state = next;
            proof {
                let s0 = states;
                let f0 = flights;
                states = states.push(next);
                flights = flights.push(input.is_flying);
                assert forall|i: int|
                    #![trigger states[i + 1]]
                    0 <= i < states.len() - 1 implies {
                        &&& tick_result(
                            *world,
                            states[i],
                            PlayerInput { is_flying: flights[i], wish: old(input).wish },
                            dt as int,
                            states[i + 1],
                        )
                        &&& flights[i + 1] == (flights[i] && !states[i].is_on_ground)
                    } by {
                    if i < s0.len() - 1 {
                        assert(states[i] == s0[i] && states[i + 1] == s0[i + 1]);
                        assert(flights[i] == f0[i] && flights[i + 1] == f0[i + 1]);
                        assert(s0[i + 1] == s0[i + 1]);
                    } else {
                        assert(i == ran);
                        assert(states[i] == before);
                        assert(flights[i] == flying);
                    }
                }
            }
            ran = ran + 1;
        }
        assert(ran_ticks(
            *world,
            old(self).current_state,
            old(input).is_flying,
            old(input).wish,
            dt as int,
            ran as int,
            self.previous_state,
            self.current_state,
            input.is_flying,
        ));
        let shown = self.current_state.interpolate(&self.previous_state, self.schedule.accumulator, dt);
        (shown, ran)
    }
}

/// Resting is stable: a body at rest with its feet flush on the top of a
/// solid cell under it, overlapping nothing solid, not flying and with no
/// input, is after a tick of 1 to 100 milliseconds exactly where it was, on
/// the ground, with no velocity.
pub proof fn lemma_resting_is_stable(
    w: ChunkManager,
    p: PlayerPhysicsState,
    input: PlayerInput,
    dt: int,
    r: PlayerPhysicsState,
    floor: (int, int, int),
)
    requires
        p.velocity == (0i64, 0i64, 0i64),
        p.acceleration == (0i64, 0i64, 0i64),
        !input.is_flying,
        input.wish == (0i64, 0i64, 0i64),
        1_000_000 <= dt <= 100_000_000,
        box_ok(p.aabb, WORLD_LIMIT as int),
        p.aabb.mins.1 == (floor.1 + 1) * FIXED_ONE,
        cells_lo(p.aabb).0 <= floor.0 <= cells_hi(p.aabb).0,
        cells_lo(p.aabb).2 <= floor.2 <= cells_hi(p.aabb).2,
        w.solid(floor.0, floor.1, floor.2),
        forall|c: (int, int, int)| !solid_overlap(w, p.aabb, c),
        tick_result(w, p, input, dt, r),
    ensures
        r.is_on_ground,
        r.velocity == (0i64, 0i64, 0i64),
        r.aabb == p.aabb,
        r.position.1 == p.aabb.mins.1,
{
    let v = integrated_velocity(p, input, dt);
    let d = displacement(v, dt);
    let g = (2_097_152 * dt) / (NANOS_PER_SECOND as int);
    assert(2097 <= g <= 209715) by (nonlinear_arith)
        requires
            g == (2_097_152 * dt) / 1_000_000_000,
            1_000_000 <= dt <= 100_000_000,
    ;
    let keep = damping(WALK_FRICTION as int, dt);
    assert(scaled(0, dt, NANOS_PER_SECOND as int) == 0);
    assert(scaled(0, keep, NANOS_PER_SECOND as int) == 0);
    assert(v.1 == -g);
    assert(v.0 == 0 && v.2 == 0);
    let m = (g * dt) / (NANOS_PER_SECOND as int);
    assert(2 <= m <= 20971) by (nonlinear_arith)
        requires
            m == (g * dt) / 1_000_000_000,
            2097 <= g <= 209715,
            1_000_000 <= dt <= 100_000_000,
    ;
    assert(d.1 == -m);
    assert(d.0 == 0 && d.2 == 0);
    let (hx, hy, hz) = choose|hx: bool, hy: bool, hz: bool|
        {
            &&& collided(w, p.aabb, d, v, r.aabb, hx, hy, hz)
            &&& r.velocity == (
                if hx {
                    0i64
                } else {
                    v.0
                },
                if hy {
                    0i64
                } else {
                    v.1
                },
                if hz {
                    0i64
                } else {
                    v.2
                },
            )
            &&& r.is_on_ground == (hy && v.1 < 0)
        };
    let (b1, b2) = choose|b1: Aabb, b2: Aabb|
        resolved(w, translated(p.aabb, 0, d.0 as int), 0, v.0 as int, b1, hx) && resolved(
            w,
            translated(b1, 1, d.1 as int),
            1,
            v.1 as int,
            b2,
            hy,
        ) && resolved(w, translated(b2, 2, d.2 as int), 2, v.2 as int, r.aabb, hz);
    assert(translated(p.aabb, 0, 0) == p.aabb);
    assert(b1 == p.aabb);
    let moved = translated(p.aabb, 1, d.1 as int);
    assert(moved.mins.1 == p.aabb.mins.1 - m);
    assert(cells_lo(moved).1 == floor.1);
    assert(cells_hi(moved).1 >= floor.1);
    assert(solid_overlap(w, moved, floor));
    assert(hy);
    let c = choose|c: (int, int, int)| solid_overlap(w, moved, c) && b2 == pushed_out(moved, 1, v.1 as int, c);
    if c.1 != floor.1 {
        assert(c.1 > floor.1);
        assert(cells_hi(moved).1 <= cells_hi(p.aabb).1);
        assert(solid_overlap(w, p.aabb, c));
    }
    assert(b2 == p.aabb);
    assert(translated(p.aabb, 2, 0) == p.aabb);
}

/// Resting lasts: along any run of ticks of 1 to 100 milliseconds, with no
/// input and not flying, that starts at rest with its feet flush on the top
/// of a solid cell under it and overlapping nothing solid, every later
/// state is the same box, on the ground, with no velocity.
pub proof fn lemma_resting_lasts(
    w: ChunkManager,
    states: Seq<PlayerPhysicsState>,
    flights: Seq<bool>,
    dt: int,
    floor: (int, int, int),
    n: int,
)
    requires
        tick_chain(w, states, flights, (0i64, 0i64, 0i64), dt),
        0 <= n < states.len(),
        !flights[0],
        1_000_000 <= dt <= 100_000_000,
        states[0].velocity == (0i64, 0i64, 0i64),
        states[0].acceleration == (0i64, 0i64, 0i64),
        box_ok(states[0].aabb, WORLD_LIMIT as int),
        states[0].aabb.mins.1 == (floor.1 + 1) * FIXED_ONE,
        cells_lo(states[0].aabb).0 <= floor.0 <= cells_hi(states[0].aabb).0,
        cells_lo(states[0].aabb).2 <= floor.2 <= cells_hi(states[0].aabb).2,
        w.solid(floor.0, floor.1, floor.2),
        forall|c: (int, int, int)| !solid_overlap(w, states[0].aabb, c),
    ensures
        forall|i: int|
            1 <= i <= n ==> {
                &&& (#[trigger] states[i]).is_on_ground
                &&& states[i].velocity == (0i64, 0i64, 0i64)
                &&& states[i].acceleration == (0i64, 0i64, 0i64)
                &&& states[i].aabb == states[0].aabb
            },
        forall|i: int| 0 <= i <= n ==> !#[trigger] flights[i],
    decreases n,
{
    if n > 0 {
        lemma_resting_lasts(w, states, flights, dt, floor, n - 1);
        let p = states[n - 1];
        assert(p.velocity == (0i64, 0i64, 0i64) && p.acceleration == (0i64, 0i64, 0i64) && p.aabb
            == states[0].aabb);
        assert(!flights[n - 1]);
        let i = n - 1;
        assert(tick_result(
            w,
            states[i],
            PlayerInput { is_flying: flights[i], wish: (0i64, 0i64, 0i64) },
            dt,
            states[i + 1],
        ));
        lemma_resting_is_stable(
            w,
            p,
            PlayerInput { is_flying: false, wish: (0i64, 0i64, 0i64) },
            dt,
            states[n],
            floor,
        );
        assert(flights[i + 1] == (flights[i] && !states[i].is_on_ground));
    }
}

} // verus!
