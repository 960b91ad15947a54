use voxel_world::chunk::{BlockID, Chunk};
use voxel_world::chunk_manager::ChunkManager;
use voxel_world::physics::{FixedTimestep, MAX_FRAME_NANOS};
use voxel_world::timer::Timer;

const TICK: u64 = 16_666_667;

#[test]
fn partial_frame_runs_whole_ticks_only() {
    let mut s = FixedTimestep::new(TICK, 1_000);
    assert_eq!(s.advance(1_000 + 50_000_000), 2);
    assert_eq!(s.accumulator, 50_000_000 - 2 * TICK);
    assert_eq!(s.t, 2 * TICK);
    assert_eq!(s.last_time, 50_001_000);
}

#[test]
fn leftover_time_carries_to_next_frame() {
    let mut s = FixedTimestep::new(TICK, 0);
    assert_eq!(s.advance(10_000_000), 0);
    assert_eq!(s.accumulator, 10_000_000);
    assert_eq!(s.advance(20_000_000), 1);
    assert_eq!(s.accumulator, 20_000_000 - TICK);
}

#[test]
fn long_stall_is_clamped() {
    let mut s = FixedTimestep::new(TICK, 0);
    let ticks = s.advance(5_000_000_000);
    assert_eq!(ticks, MAX_FRAME_NANOS / TICK);
    assert_eq!(s.accumulator, MAX_FRAME_NANOS % TICK);
    assert!(s.accumulator < s.dt);
}

#[test]
fn clock_going_back_runs_nothing() {
    let mut s = FixedTimestep::new(TICK, 100_000_000);
    assert_eq!(s.advance(50_000_000), 0);
    assert_eq!(s.accumulator, 0);
    assert_eq!(s.last_time, 50_000_000);
}

#[test]
fn box_search_finds_solid_cell() {
    let mut w = ChunkManager::new();
    w.insert_chunk((0, 0, 0), Chunk::empty());
    w.insert_chunk((-1, 0, 0), Chunk::empty());
    w.set_block(-1, 2, 3, BlockID::Dirt);
    assert_eq!(w.first_solid_in_box((-2, 0, 0), (1, 4, 4)), Some((-1, 2, 3)));
    assert_eq!(w.first_solid_in_box((0, 0, 0), (1, 4, 4)), None);
    assert_eq!(w.first_solid_in_box((1, 0, 0), (0, 4, 4)), None);
    assert_eq!(w.first_solid_in_box((-1, 2, 3), (-1, 2, 3)), Some((-1, 2, 3)));
}

#[test]
fn paused_timer_stands_still() {
    let mut timer = Timer::new();
    assert!(!timer.is_paused());
    timer.pause();
    assert!(timer.is_paused());
    let a = timer.time();
    let b = timer.time();
    assert_eq!(a, b);
    timer.resume();
    assert!(!timer.is_paused());
    let c = timer.time();
    let d = timer.time();
    assert!(d >= c);
}

#[test]
fn restarted_timer_keeps_pause_state() {
    let mut timer = Timer::new();
    timer.pause();
    timer.restart();
    assert!(timer.is_paused());
}

#[test]
fn running_timer_follows_the_clock() {
    let mut timer = Timer::new();
    assert_eq!(timer.time_at(100), 100);
    assert_eq!(timer.time_at(250), 250);
}

#[test]
fn paused_timer_reading_is_frozen() {
    let mut timer = Timer::new();
    assert_eq!(timer.time_at(100), 100);
    timer.pause();
    assert_eq!(timer.time_at(130), 100);
    assert_eq!(timer.time_at(170), 100);
}

#[test]
fn paused_interval_is_left_out() {
    let mut timer = Timer::new();
    let r0 = timer.time_at(100);
    timer.pause();
    timer.time_at(150);
    timer.resume();
    assert_eq!(timer.time_at(200), r0 + (200 - 150));
}

#[test]
fn restart_clears_the_lag() {
    let mut timer = Timer::new();
    timer.pause();
    timer.time_at(500);
    timer.resume();
    timer.restart();
    assert_eq!(timer.time_at(40), 40);
}
