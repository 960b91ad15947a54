use voxel_world::chunk::{BlockID, Chunk};
use voxel_world::chunk_manager::ChunkManager;
use voxel_world::player::{
    integrate_player, PlayerInput, PlayerPhysicsState, PlayerSimulation, PLAYER_HALF_WIDTH,
    PLAYER_HEIGHT,
};
use voxel_world::raycast::FIXED_ONE;

const TICK: u64 = 16_666_667;

fn fixed(v: f64) -> i64 {
    (v * FIXED_ONE as f64).round() as i64
}

fn floor_world() -> ChunkManager {
    let mut w = ChunkManager::new();
    w.insert_chunk((0, 0, 0), Chunk::empty());
    for x in 0..16 {
        for z in 0..16 {
            w.set_block(x, 0, z, BlockID::Cobblestone);
        }
    }
    w
}

fn walking() -> PlayerInput {
    PlayerInput { is_flying: false, wish: (0, 0, 0) }
}

#[test]
fn body_settles_on_the_floor() {
    let w = floor_world();
    let mut input = walking();
    let mut p = PlayerPhysicsState::new_at_position((fixed(8.5), fixed(11.0), fixed(8.5)));
    for _ in 0..600 {
        p = integrate_player(&w, &p, &mut input, TICK);
    }
    assert!(p.is_on_ground);
    assert_eq!(p.velocity.1, 0);
    assert_eq!(p.position.1, FIXED_ONE);
    assert_eq!(p.aabb.mins.1, FIXED_ONE);
    assert_eq!(p.position.0, fixed(8.5));
    assert_eq!(p.position.2, fixed(8.5));
    assert_eq!(p.acceleration, (0, 0, 0));
}

#[test]
fn body_falls_where_nothing_is_loaded() {
    let w = ChunkManager::new();
    let mut input = walking();
    let start = PlayerPhysicsState::new_at_position((0, fixed(5.0), 0));
    let p1 = integrate_player(&w, &start, &mut input, TICK);
    let p2 = integrate_player(&w, &p1, &mut input, TICK);
    assert!(p1.velocity.1 < 0);
    assert!(p2.velocity.1 < p1.velocity.1);
    assert!(p2.position.1 < p1.position.1);
    assert!(!p2.is_on_ground);
}

#[test]
fn first_tick_of_fall_is_exact() {
    let w = ChunkManager::new();
    let mut input = walking();
    let start = PlayerPhysicsState::new_at_position((0, fixed(5.0), 0));
    let p = integrate_player(&w, &start, &mut input, TICK);
    // -32 blocks/s^2 over 1/60 s, rounded toward zero in fixed point.
    let v = -((2_097_152i128 * TICK as i128) / 1_000_000_000) as i64;
    assert_eq!(p.velocity, (0, v, 0));
    let d = -(((-v) as i128 * TICK as i128) / 1_000_000_000) as i64;
    assert_eq!(p.position.1, fixed(5.0) + d);
}

#[test]
fn new_player_box_surrounds_feet() {
    let p = PlayerPhysicsState::new_at_position((100, 200, 300));
    assert_eq!(p.aabb.mins, (100 - PLAYER_HALF_WIDTH, 200, 300 - PLAYER_HALF_WIDTH));
    assert_eq!(p.aabb.maxs, (100 + PLAYER_HALF_WIDTH, 200 + PLAYER_HEIGHT, 300 + PLAYER_HALF_WIDTH));
    assert_eq!(p.velocity, (0, 0, 0));
    assert!(!p.is_on_ground);
}

#[test]
fn wall_stops_horizontal_motion() {
    let mut w = floor_world();
    for y in 1..4 {
        for z in 0..16 {
            w.set_block(10, y, z, BlockID::Dirt);
        }
    }
    let mut input = PlayerInput { is_flying: false, wish: (fixed(50.0), 0, 0) };
    let mut p = PlayerPhysicsState::new_at_position((fixed(8.5), FIXED_ONE, fixed(8.5)));
    let mut stopped = false;
    for _ in 0..120 {
        p = integrate_player(&w, &p, &mut input, TICK);
        if p.aabb.maxs.0 == 10 * FIXED_ONE && p.velocity.0 == 0 {
            stopped = true;
        }
        assert!(p.aabb.maxs.0 <= 10 * FIXED_ONE);
    }
    assert!(stopped);
}

#[test]
fn landing_ends_flight() {
    let w = floor_world();
    let mut input = PlayerInput { is_flying: true, wish: (0, fixed(-40.0), 0) };
    let mut p = PlayerPhysicsState::new_at_position((fixed(8.5), fixed(3.0), fixed(8.5)));
    for _ in 0..200 {
        p = integrate_player(&w, &p, &mut input, TICK);
    }
    assert!(!input.is_flying);
}

#[test]
fn interpolation_stays_between_states() {
    let mut prev = PlayerPhysicsState::new_at_position((fixed(1.0), fixed(2.0), fixed(-3.0)));
    prev.velocity = (-500, 700, 0);
    let mut cur = PlayerPhysicsState::new_at_position((fixed(1.5), fixed(1.0), fixed(-3.0)));
    cur.velocity = (900, -100, 3);
    let fields = |s: &PlayerPhysicsState| {
        vec![
            s.position.0, s.position.1, s.position.2, s.velocity.0, s.velocity.1, s.velocity.2,
            s.aabb.mins.0, s.aabb.mins.1, s.aabb.maxs.2,
        ]
    };
    for num in [0u64, 1, 5, 9, 10] {
        let r = cur.interpolate(&prev, num, 10);
        for ((a, b), v) in fields(&prev).into_iter().zip(fields(&cur)).zip(fields(&r)) {
            assert!(a.min(b) <= v && v <= a.max(b));
        }
    }
    assert_eq!(fields(&cur.interpolate(&prev, 0, 10)), fields(&prev));
    assert_eq!(fields(&cur.interpolate(&prev, 10, 10)), fields(&cur));
    let half = cur.interpolate(&prev, 1, 2);
    assert_eq!(half.position.0, fixed(1.25));
    assert_eq!(half.velocity.0, 200);
}

#[test]
fn simulation_settles_on_the_floor() {
    let w = floor_world();
    let mut input = walking();
    let start = PlayerPhysicsState::new_at_position((fixed(8.5), fixed(11.0), fixed(8.5)));
    let mut sim = PlayerSimulation::new(TICK, 0, start);
    let mut shown = start;
    for frame in 1..=300u64 {
        let (s, ran) = sim.update(&w, &mut input, frame * 10_000_000);
        assert!(ran <= 1);
        shown = s;
    }
    let cur = sim.current_state;
    assert!(cur.is_on_ground);
    assert_eq!(cur.velocity.1, 0);
    assert_eq!(cur.position.1, FIXED_ONE);
    assert_eq!(cur.position.0, fixed(8.5));
    assert!(shown.position.1 >= FIXED_ONE);
}

#[test]
fn simulation_catches_up_whole_ticks() {
    let w = ChunkManager::new();
    let mut input = walking();
    let start = PlayerPhysicsState::new_at_position((0, fixed(50.0), 0));
    let mut sim = PlayerSimulation::new(TICK, 0, start);
    let (_, ran) = sim.update(&w, &mut input, 3 * TICK + 5);
    assert_eq!(ran, 3);
    assert_eq!(sim.schedule.accumulator, 5);
    let (_, ran) = sim.update(&w, &mut input, 3 * TICK + 6);
    assert_eq!(ran, 0);
    assert!(sim.current_state.position.1 < fixed(50.0));
}

#[test]
fn simulation_blends_last_two_ticks() {
    let w = ChunkManager::new();
    let mut input = walking();
    let start = PlayerPhysicsState::new_at_position((0, fixed(50.0), 0));
    let mut sim = PlayerSimulation::new(1_000_000, 0, start);
    let (shown, ran) = sim.update(&w, &mut input, 2_500_000);
    assert_eq!(ran, 2);
    let (prev, cur) = (sim.previous_state.position.1, sim.current_state.position.1);
    assert!(cur < prev);
    assert_eq!(shown.position.1, prev + ((cur - prev) as i128 * 500_000 / 1_000_000) as i64);
}

#[test]
fn slow_fall_into_floor_still_lands() {
    let w = floor_world();
    let mut input = walking();
    let mut p = PlayerPhysicsState::new_at_position((fixed(8.5), FIXED_ONE - 10, fixed(8.5)));
    p.velocity = (0, -1, 0);
    // Over one nanosecond the body does not move, yet it sits inside the
    // floor while moving down: it is pushed up and lands.
    let r = integrate_player(&w, &p, &mut input, 1);
    assert!(r.is_on_ground);
    assert_eq!(r.velocity.1, 0);
    assert_eq!(r.position.1, FIXED_ONE);
}

#[test]
fn long_tick_reaches_top_fall_speed() {
    let w = ChunkManager::new();
    let mut input = walking();
    let start = PlayerPhysicsState::new_at_position((0, fixed(1000.0), 0));
    let r = integrate_player(&w, &start, &mut input, 2_000_000_000);
    assert_eq!(r.velocity.1, -voxel_world::player::MAX_FALL_SPEED);
    assert_eq!(r.position.1, fixed(1000.0) - 2 * voxel_world::player::MAX_FALL_SPEED);
    assert!(!r.is_on_ground);
}

#[test]
fn each_tick_of_a_call_starts_from_the_last() {
    let w = ChunkManager::new();
    let mut input = walking();
    let start = PlayerPhysicsState::new_at_position((0, fixed(50.0), 0));
    let mut sim = PlayerSimulation::new(TICK, 0, start);
    let (_, ran) = sim.update(&w, &mut input, 3 * TICK);
    assert_eq!(ran, 3);
    let mut expect = start;
    let mut expect_input = walking();
    let mut before_last = start;
    for _ in 0..3 {
        let next = integrate_player(&w, &expect, &mut expect_input, TICK);
        before_last = expect;
        expect = next;
    }
    assert_eq!(sim.previous_state.position, before_last.position);
    assert_eq!(sim.current_state.position, expect.position);
    assert_eq!(sim.current_state.velocity, expect.velocity);
}
