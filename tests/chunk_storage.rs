use voxel_world::block_texture_sides::BlockFaces;
use voxel_world::chunk::{BlockID, Chunk};

fn all_blocks(chunk: &Chunk) -> Vec<BlockID> {
    let mut v = Vec::new();
    for y in 0..16 {
        for z in 0..16 {
            for x in 0..16 {
                v.push(chunk.get_block(x, y, z));
            }
        }
    }
    v
}

#[test]
fn only_air_is_transparent() {
    assert!(BlockID::Air.is_transparent());
    assert!(!BlockID::Dirt.is_transparent());
    assert!(!BlockID::Cobblestone.is_transparent());
    assert!(!BlockID::Obsidian.is_transparent());
    assert!(!BlockID::Grass.is_transparent());
}

#[test]
fn samples_map_to_solid_blocks() {
    assert_eq!(BlockID::from_sample(1), BlockID::Dirt);
    assert_eq!(BlockID::from_sample(2), BlockID::Cobblestone);
    assert_eq!(BlockID::from_sample(3), BlockID::Obsidian);
    assert_eq!(BlockID::from_sample(0), BlockID::Air);
    assert_eq!(BlockID::from_sample(7), BlockID::Air);
}

#[test]
fn empty_chunk_is_air_and_clean() {
    let chunk = Chunk::empty();
    assert_eq!(chunk.blocks.len(), 4096);
    assert!(all_blocks(&chunk).iter().all(|b| *b == BlockID::Air));
    assert!(!chunk.dirty);
    assert_eq!(chunk.vertices_drawn, 0);
    assert_eq!(chunk.dirty_neighbours.len(), 6);
    for o in [(1, 0, 0), (-1, 0, 0), (0, 1, 0), (0, -1, 0), (0, 0, 1), (0, 0, -1)] {
        assert!(chunk.dirty_neighbours.contains(&o));
    }
}

#[test]
fn filled_chunk_is_dirty_unless_air() {
    let stone = Chunk::full_of_block(BlockID::Cobblestone);
    assert!(stone.dirty);
    assert!(all_blocks(&stone).iter().all(|b| *b == BlockID::Cobblestone));
    let air = Chunk::full_of_block(BlockID::Air);
    assert!(!air.dirty);
}

#[test]
fn random_chunk_is_solid_and_dirty() {
    let chunk = Chunk::random();
    assert!(chunk.dirty);
    assert!(all_blocks(&chunk).iter().all(|b| matches!(
        b,
        BlockID::Dirt | BlockID::Cobblestone | BlockID::Obsidian
    )));
    assert_eq!(chunk.dirty_neighbours.len(), 6);
}

#[test]
fn stored_block_reads_back() {
    let mut chunk = Chunk::empty();
    let cells = [(0, 0, 0), (15, 15, 15), (3, 7, 11), (15, 0, 8), (0, 15, 0)];
    let kinds = [BlockID::Dirt, BlockID::Grass, BlockID::Obsidian, BlockID::Cobblestone, BlockID::Air];
    for (i, &(x, y, z)) in cells.iter().enumerate() {
        chunk.set_block(x, y, z, kinds[i]);
        assert_eq!(chunk.get_block(x, y, z), kinds[i]);
        assert!(chunk.dirty);
    }
    for (i, &(x, y, z)) in cells.iter().enumerate() {
        assert_eq!(chunk.get_block(x, y, z), kinds[i]);
    }
    assert_eq!(chunk.blocks[7 * 256 + 11 * 16 + 3], BlockID::Obsidian);
    assert_eq!(chunk.get_block(1, 1, 1), BlockID::Air);
}

#[test]
fn border_edit_marks_one_neighbour() {
    let mut chunk = Chunk::empty();
    chunk.clear_dirty();
    assert!(chunk.dirty_neighbours.is_empty());
    chunk.set_block(0, 5, 5, BlockID::Dirt);
    assert!(chunk.dirty_neighbours.contains(&(-1, 0, 0)));
    assert!(!chunk.dirty_neighbours.contains(&(1, 0, 0)));
    assert_eq!(chunk.dirty_neighbours.len(), 1);
}

#[test]
fn corner_edit_marks_three_neighbours() {
    let mut chunk = Chunk::empty();
    chunk.clear_dirty();
    chunk.set_block(15, 15, 15, BlockID::Dirt);
    let mut got = chunk.dirty_neighbours.clone();
    got.sort();
    assert_eq!(got, vec![(0, 0, 1), (0, 1, 0), (1, 0, 0)]);
}

#[test]
fn interior_edit_marks_no_neighbour() {
    let mut chunk = Chunk::empty();
    chunk.clear_dirty();
    chunk.set_block(4, 5, 6, BlockID::Dirt);
    assert!(chunk.dirty);
    assert!(chunk.dirty_neighbours.is_empty());
}

#[test]
fn repeated_border_edit_records_offset_once() {
    let mut chunk = Chunk::empty();
    chunk.clear_dirty();
    chunk.set_block(0, 3, 3, BlockID::Dirt);
    chunk.set_block(0, 4, 4, BlockID::Dirt);
    assert_eq!(chunk.dirty_neighbours, vec![(-1, 0, 0)]);
}

#[test]
fn face_textures_unpack_per_face() {
    let all = BlockFaces::All(1u32);
    assert_eq!(all.get_uv_of_every_faces(), (1, 1, 1, 1, 1, 1));
    let sides = BlockFaces::Sides { sides: 1u32, top: 2, bottom: 3 };
    assert_eq!(sides.get_uv_of_every_faces(), (1, 1, 2, 3, 1, 1));
    let each = BlockFaces::Each { top: 1u32, bottom: 2, front: 3, back: 4, left: 5, right: 6 };
    assert_eq!(each.get_uv_of_every_faces(), (3, 4, 1, 2, 5, 6));
}

#[test]
fn random_chunk_mixes_block_types() {
    let chunk = Chunk::random();
    let blocks = all_blocks(&chunk);
    for kind in [BlockID::Dirt, BlockID::Cobblestone, BlockID::Obsidian] {
        assert!(blocks.contains(&kind));
    }
}

#[test]
fn samples_fill_cells_in_order() {
    let draws: Vec<u32> = (0..4096u32).map(|i| i % 5).collect();
    let chunk = Chunk::from_samples(&draws);
    assert!(chunk.dirty);
    assert_eq!(chunk.blocks[0], BlockID::Air);
    assert_eq!(chunk.blocks[1], BlockID::Dirt);
    assert_eq!(chunk.blocks[2], BlockID::Cobblestone);
    assert_eq!(chunk.blocks[3], BlockID::Obsidian);
    assert_eq!(chunk.blocks[4], BlockID::Air);
    assert_eq!(chunk.get_block(6, 0, 0), BlockID::Dirt);
    assert_eq!(chunk.dirty_neighbours.len(), 6);
}

#[test]
fn air_samples_give_a_clean_chunk() {
    let chunk = Chunk::from_samples(&vec![0u32; 4096]);
    assert!(!chunk.dirty);
    assert!(all_blocks(&chunk).iter().all(|b| *b == BlockID::Air));
}
