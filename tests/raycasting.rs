use voxel_world::chunk::{BlockID, Chunk};
use voxel_world::chunk_manager::ChunkManager;
use voxel_world::raycast::{raycast, FIXED_ONE};

fn fixed(v: f64) -> i64 {
    (v * FIXED_ONE as f64).round() as i64
}

fn single_block_world() -> ChunkManager {
    let mut w = ChunkManager::new();
    w.insert_chunk((0, 0, 0), Chunk::empty());
    w.insert_chunk((0, 0, -1), Chunk::empty());
    w.set_block(0, 0, 0, BlockID::Dirt);
    w
}

#[test]
fn ray_hits_block_ahead() {
    let w = single_block_world();
    let origin = (fixed(0.5), fixed(0.5), fixed(-5.0));
    let r = raycast(&w, origin, (0, 0, FIXED_ONE), fixed(10.0));
    assert_eq!(r, Some(((0, 0, 0), (0, 0, -1))));
}

#[test]
fn ray_pointing_away_misses() {
    let w = single_block_world();
    let origin = (fixed(0.5), fixed(0.5), fixed(-5.0));
    assert_eq!(raycast(&w, origin, (0, 0, -FIXED_ONE), fixed(10.0)), None);
}

#[test]
fn ray_too_short_misses() {
    let w = single_block_world();
    let origin = (fixed(0.5), fixed(0.5), fixed(-5.0));
    assert_eq!(raycast(&w, origin, (0, 0, FIXED_ONE), fixed(4.0)), None);
    assert_eq!(
        raycast(&w, origin, (0, 0, FIXED_ONE), fixed(5.0)),
        Some(((0, 0, 0), (0, 0, -1)))
    );
}

#[test]
fn ray_starting_inside_a_block_has_zero_normal() {
    let w = single_block_world();
    let origin = (fixed(0.25), fixed(0.75), fixed(0.5));
    assert_eq!(raycast(&w, origin, (FIXED_ONE, 0, 0), fixed(3.0)), Some(((0, 0, 0), (0, 0, 0))));
}

#[test]
fn ray_along_negative_x_enters_through_positive_face() {
    let w = single_block_world();
    let origin = (fixed(4.5), fixed(0.5), fixed(0.5));
    assert_eq!(raycast(&w, origin, (-FIXED_ONE, 0, 0), fixed(10.0)), Some(((0, 0, 0), (1, 0, 0))));
}

#[test]
fn diagonal_tie_advances_x_first() {
    let mut w = ChunkManager::new();
    w.insert_chunk((0, 0, 0), Chunk::empty());
    w.set_block(1, 0, 0, BlockID::Dirt);
    w.set_block(0, 1, 0, BlockID::Dirt);
    // From the cell centre along (1, 1, 0) both boundaries are crossed at
    // once; x goes first.
    let origin = (fixed(0.5), fixed(0.5), fixed(0.5));
    let d = fixed(std::f64::consts::FRAC_1_SQRT_2);
    assert_eq!(raycast(&w, origin, (d, d, 0), fixed(5.0)), Some(((1, 0, 0), (-1, 0, 0))));
}

#[test]
fn ray_from_negative_coordinates() {
    let mut w = ChunkManager::new();
    w.insert_chunk((-1, -1, -1), Chunk::empty());
    w.set_block(-3, -2, -8, BlockID::Obsidian);
    let origin = (fixed(-0.5), fixed(-1.5), fixed(-7.5));
    assert_eq!(
        raycast(&w, origin, (-FIXED_ONE, 0, 0), fixed(3.0)),
        Some(((-3, -2, -8), (1, 0, 0)))
    );
    let above = (fixed(-2.5), fixed(0.5), fixed(-7.5));
    assert_eq!(
        raycast(&w, above, (0, -FIXED_ONE, 0), fixed(3.0)),
        Some(((-3, -2, -8), (0, 1, 0)))
    );
    assert_eq!(raycast(&w, above, (0, -FIXED_ONE, 0), fixed(1.0)), None);
}

#[test]
fn negative_reach_misses_at_once() {
    let w = single_block_world();
    let inside = (fixed(0.5), fixed(0.5), fixed(0.5));
    assert_eq!(raycast(&w, inside, (0, 0, FIXED_ONE), -1), None);
    assert_eq!(raycast(&w, inside, (0, 0, FIXED_ONE), 0), Some(((0, 0, 0), (0, 0, 0))));
}
