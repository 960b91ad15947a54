use voxel_world::block_texture_sides::BlockFaces;
use voxel_world::chunk::{BlockID, Chunk};
use voxel_world::chunk_manager::ChunkManager;
use voxel_world::mesher::{find_faces, uv_map_is_complete, Side};

fn uv_map() -> Vec<(BlockID, BlockFaces<u32>)> {
    vec![
        (BlockID::Dirt, BlockFaces::All(10)),
        (BlockID::Cobblestone, BlockFaces::All(20)),
        (BlockID::Obsidian, BlockFaces::All(30)),
        (BlockID::Grass, BlockFaces::Sides { sides: 40, top: 41, bottom: 42 }),
    ]
}

fn world_with_empty_chunks(coords: &[(i32, i32, i32)]) -> ChunkManager {
    let mut w = ChunkManager::new();
    for &c in coords {
        w.insert_chunk(c, Chunk::empty());
    }
    w
}

fn sorted(mut v: Vec<(i32, i32, i32)>) -> Vec<(i32, i32, i32)> {
    v.sort();
    v
}

#[test]
fn coordinates_round_trip() {
    let mut gs: Vec<i32> = (-5000..5000).collect();
    gs.extend([i32::MIN, i32::MIN + 1, i32::MAX, i32::MAX - 1, -16, -17, 15, 16]);
    for g in gs {
        let (c, _, _, l, _, _) = ChunkManager::get_chunk_and_block_coords(g, 0, 0);
        assert!(l < 16);
        assert_eq!(c as i64 * 16 + l as i64, g as i64);
        assert_eq!(ChunkManager::get_global_coords((c, 0, 0, l, 0, 0)), (g, 0, 0));
    }
}

#[test]
fn negative_coordinates_use_floor_division() {
    assert_eq!(ChunkManager::get_chunk_and_block_coords(-1, -16, -17), (-1, -1, -2, 15, 0, 15));
    assert_eq!(ChunkManager::get_chunk_and_block_coords(0, 15, 16), (0, 0, 1, 0, 15, 0));
    assert_eq!(ChunkManager::get_global_coords((-2, 3, -1, 15, 0, 1)), (-17, 48, -15));
}

#[test]
fn unloaded_space_is_open() {
    let mut w = ChunkManager::new();
    assert_eq!(w.get_block(0, 0, 0), None);
    assert!(!w.is_solid_block_at(0, 0, 0));
    w.set_block(0, 0, 0, BlockID::Dirt);
    assert_eq!(w.get_block(0, 0, 0), None);
    assert!(w.collect_dirty().is_empty());
}

#[test]
fn world_edits_read_back_across_chunks() {
    let mut w = world_with_empty_chunks(&[(0, 0, 0), (-1, 0, 0), (-1, -1, -1)]);
    w.set_block(-1, 0, 0, BlockID::Dirt);
    w.set_block(0, 0, 0, BlockID::Grass);
    w.set_block(-16, -1, -16, BlockID::Obsidian);
    assert_eq!(w.get_block(-1, 0, 0), Some(BlockID::Dirt));
    assert_eq!(w.get_block(0, 0, 0), Some(BlockID::Grass));
    assert_eq!(w.get_block(-16, -1, -16), Some(BlockID::Obsidian));
    assert_eq!(w.get_block(-2, 0, 0), Some(BlockID::Air));
    assert_eq!(w.get_block(16, 0, 0), None);
    assert!(w.is_solid_block_at(-1, 0, 0));
    assert!(!w.is_solid_block_at(-2, 0, 0));
    let chunk = w.get_chunk((-1, 0, 0)).unwrap();
    assert_eq!(chunk.get_block(15, 0, 0), BlockID::Dirt);
}

#[test]
fn inserting_a_chunk_replaces_the_old_one() {
    let mut w = world_with_empty_chunks(&[(2, 0, 0)]);
    w.insert_chunk((2, 0, 0), Chunk::full_of_block(BlockID::Dirt));
    assert_eq!(w.loaded_coords.len(), 1);
    assert_eq!(w.get_block(33, 4, 4), Some(BlockID::Dirt));
}

#[test]
fn preload_fills_eight_chunks() {
    let mut w = ChunkManager::new();
    w.preload_some_chunks();
    assert_eq!(sorted(w.loaded_coords.clone()).len(), 8);
    for x in 0..2 {
        for y in 0..2 {
            for z in 0..2 {
                assert!(w.get_chunk((x, y, z)).is_some());
            }
        }
    }
    assert!(w.is_solid_block_at(31, 31, 31));
    assert!(!w.is_solid_block_at(32, 0, 0));
}

#[test]
fn enclosed_block_has_no_active_side() {
    let mut w = world_with_empty_chunks(&[(0, 0, 0)]);
    for x in 4..7 {
        for y in 4..7 {
            for z in 4..7 {
                w.set_block(x, y, z, BlockID::Dirt);
            }
        }
    }
    assert_eq!(w.get_active_sides_of_block(5, 5, 5), (false, false, false, false, false, false));
    assert_eq!(w.get_active_sides_of_block(6, 5, 5), (true, false, false, false, false, false));
}

#[test]
fn isolated_block_has_all_sides_active() {
    let mut w = world_with_empty_chunks(&[(0, 0, 0)]);
    w.set_block(5, 5, 5, BlockID::Cobblestone);
    assert_eq!(w.get_active_sides_of_block(5, 5, 5), (true, true, true, true, true, true));
}

#[test]
fn occlusion_crosses_chunk_borders() {
    let mut w = world_with_empty_chunks(&[(0, 0, 0), (1, 0, 0)]);
    w.set_block(15, 0, 0, BlockID::Dirt);
    w.set_block(16, 0, 0, BlockID::Dirt);
    let sides = w.get_active_sides_of_block(15, 0, 0);
    assert!(!sides.0);
    assert!(sides.1);
    // Below y = 0 nothing is loaded, so the bottom face shows.
    assert!(sides.3);
}

#[test]
fn extreme_coordinates_do_not_overflow() {
    let w = ChunkManager::new();
    assert_eq!(
        w.get_active_sides_of_block(i32::MAX, i32::MIN, i32::MAX),
        (true, true, true, true, true, true)
    );
}

#[test]
fn clean_chunks_are_not_collected() {
    let w = world_with_empty_chunks(&[(0, 0, 0)]);
    assert!(w.collect_dirty().is_empty());
}

#[test]
fn dirty_chunk_collects_itself_and_recorded_neighbours() {
    let mut w = world_with_empty_chunks(&[(0, 0, 0)]);
    w.set_block(5, 5, 5, BlockID::Dirt);
    let got = sorted(w.collect_dirty());
    assert_eq!(
        got,
        vec![(-1, 0, 0), (0, -1, 0), (0, 0, -1), (0, 0, 0), (0, 0, 1), (0, 1, 0), (1, 0, 0)]
    );
}

#[test]
fn border_edit_after_rebuild_collects_both_sides() {
    let mut w = world_with_empty_chunks(&[(0, 0, 0), (-1, 0, 0)]);
    w.set_block(5, 5, 5, BlockID::Dirt);
    w.rebuild_dirty_chunks(&uv_map());
    assert!(w.collect_dirty().is_empty());
    w.set_block(0, 5, 5, BlockID::Dirt);
    assert_eq!(sorted(w.collect_dirty()), vec![(-1, 0, 0), (0, 0, 0)]);
}

#[test]
fn lone_block_meshes_to_six_faces() {
    let mut w = world_with_empty_chunks(&[(0, 0, 0)]);
    w.set_block(2, 3, 4, BlockID::Grass);
    let meshes = w.rebuild_dirty_chunks(&uv_map());
    assert_eq!(meshes.len(), 1);
    let mesh = &meshes[0];
    assert_eq!(mesh.coords, (0, 0, 0));
    let sides: Vec<Side> = mesh.faces.iter().map(|f| f.side).collect();
    assert_eq!(
        sides,
        vec![Side::Front, Side::Back, Side::Left, Side::Right, Side::Top, Side::Bottom]
    );
    let uvs: Vec<u32> = mesh.faces.iter().map(|f| f.uv).collect();
    assert_eq!(uvs, vec![40, 40, 40, 40, 41, 42]);
    assert!(mesh.faces.iter().all(|f| (f.x, f.y, f.z) == (2, 3, 4)));
    let chunk = w.get_chunk((0, 0, 0)).unwrap();
    assert_eq!(chunk.vertices_drawn, 36);
    assert!(!chunk.dirty);
    assert!(chunk.dirty_neighbours.is_empty());
}

#[test]
fn touching_blocks_hide_shared_faces() {
    let mut w = world_with_empty_chunks(&[(0, 0, 0)]);
    w.set_block(1, 1, 1, BlockID::Dirt);
    w.set_block(2, 1, 1, BlockID::Dirt);
    let meshes = w.rebuild_dirty_chunks(&uv_map());
    assert_eq!(meshes.len(), 1);
    assert_eq!(meshes[0].faces.len(), 10);
    assert_eq!(w.get_chunk((0, 0, 0)).unwrap().vertices_drawn, 60);
}

#[test]
fn air_chunk_meshes_to_nothing() {
    let mut w = world_with_empty_chunks(&[(0, 0, 0)]);
    w.set_block(3, 3, 3, BlockID::Air);
    let meshes = w.rebuild_dirty_chunks(&uv_map());
    assert_eq!(meshes.len(), 1);
    assert!(meshes[0].faces.is_empty());
    assert_eq!(w.get_chunk((0, 0, 0)).unwrap().vertices_drawn, 0);
}

#[test]
fn full_chunk_shows_only_its_outer_faces() {
    let mut w = ChunkManager::new();
    w.insert_chunk((0, 0, 0), Chunk::full_of_block(BlockID::Dirt));
    let meshes = w.rebuild_dirty_chunks(&uv_map());
    assert_eq!(meshes.len(), 1);
    assert_eq!(meshes[0].faces.len(), 6 * 256);
}

#[test]
fn uv_map_completeness() {
    let map = uv_map();
    assert!(uv_map_is_complete(&map));
    let partial: Vec<(BlockID, BlockFaces<u32>)> = map[..3].to_vec();
    assert!(!uv_map_is_complete(&partial));
    assert!(find_faces(&partial, BlockID::Grass).is_none());
    assert!(find_faces(&map, BlockID::Obsidian).is_some());
}
