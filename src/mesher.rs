use vstd::prelude::*;
use vstd::seq_lib::lemma_concat_associative;

use crate::block_texture_sides::{BlockFaces, UVFaces};
use crate::chunk::{in_chunk, BlockID, Chunk};
use crate::chunk_manager::{ChunkCoords, ChunkManager, Sides};

verus! {

/// Vertices emitted for one visible face: two triangles.
pub const VERTICES_PER_FACE: u32 = 6;

/// The side of a block that a face covers.
#[derive(Copy, Clone, Debug, PartialEq, Eq, Structural)]
pub enum Side {
    Right,
    Left,
    Top,
    Bottom,
    Front,
    Back,
}

/// One visible face of a block, at local cell `(x, y, z)` of its chunk,
/// with the texture rectangle it is drawn with.
#[derive(Copy, Clone, Debug)]
pub struct Face<T> {
    pub x: u8,
    pub y: u8,
    pub z: u8,
    pub side: Side,
    pub uv: T,
}

/// The faces of one rebuilt chunk, in emission order.
pub struct ChunkMesh<T> {
    pub coords: ChunkCoords,
    pub faces: Vec<Face<T>>,
}

/// The texture configuration of the first entry for `b`, from position `i`.
pub open spec fn uv_lookup_from<T>(m: Seq<(BlockID, BlockFaces<T>)>, b: BlockID, i: int) -> Option<
    BlockFaces<T>,
>
    decreases m.len() - i,
{
    if i < 0 || i >= m.len() {
        None
    } else if m[i].0 == b {
        Some(m[i].1)
    } else {
        uv_lookup_from(m, b, i + 1)
    }
}

pub open spec fn uv_lookup<T>(m: Seq<(BlockID, BlockFaces<T>)>, b: BlockID) -> Option<BlockFaces<T>> {
    uv_lookup_from(m, b, 0)
}

/// Every block type but air has a texture configuration.
pub open spec fn uv_map_complete<T>(m: Seq<(BlockID, BlockFaces<T>)>) -> bool {
    forall|b: BlockID| !b.transparent() ==> (#[trigger] uv_lookup(m, b)) is Some
}

pub open spec fn face_if<T>(on: bool, f: Face<T>) -> Seq<Face<T>> {
    if on {
        seq![f]
    } else {
        Seq::empty()
    }
}

/// The faces of a block at local `(x, y, z)` with visibility `s`, in the
/// order front, back, left, right, top, bottom.
pub open spec fn block_faces<T>(x: u8, y: u8, z: u8, s: Sides, uv: UVFaces<T>) -> Seq<Face<T>> {
    face_if(s.4, Face { x, y, z, side: Side::Front, uv: uv.0 }) + face_if(
        s.5,
        Face { x, y, z, side: Side::Back, uv: uv.1 },
    ) + face_if(s.1, Face { x, y, z, side: Side::Left, uv: uv.4 }) + face_if(
        s.0,
        Face { x, y, z, side: Side::Right, uv: uv.5 },
    ) + face_if(s.2, Face { x, y, z, side: Side::Top, uv: uv.2 }) + face_if(
        s.3,
        Face { x, y, z, side: Side::Bottom, uv: uv.3 },
    )
}

/// Local coordinates of the cell at position `i` of a chunk.
pub open spec fn cell_of(i: int) -> (int, int, int) {
    (i % 16, i / 256, (i / 16) % 16)
}

impl ChunkManager {
    /// The faces that the cell at position `i` of the chunk at `c` emits:
    /// none for air, else one per active side.
    pub open spec fn cell_faces<T>(&self, c: ChunkCoords, i: int, m: Seq<(BlockID, BlockFaces<T>)>) -> Seq<
        Face<T>,
    > {
        let (x, y, z) = cell_of(i);
        let b = self@[c]@[i];
        if b.transparent() {
            Seq::empty()
        } else {
            block_faces(
                x as u8,
                y as u8,
                z as u8,
                self.active_sides(c.0 * 16 + x, c.1 * 16 + y, c.2 * 16 + z),
                uv_lookup(m, b).unwrap().uv_of_every_faces(),
            )
        }
    }

    /// The faces of the first `n` cells of the chunk at `c`.
    pub open spec fn faces_upto<T>(&self, c: ChunkCoords, n: int, m: Seq<(BlockID, BlockFaces<T>)>) -> Seq<
        Face<T>,
    >
        decreases n,
    {
        if n <= 0 {
            Seq::empty()
        } else {
            self.faces_upto(c, n - 1, m) + self.cell_faces(c, n - 1, m)
        }
    }

    /// The geometry of the chunk at `c`: its cells in order of position
    /// (y outermost, x innermost), each with its visible faces.
    pub open spec fn chunk_faces<T>(&self, c: ChunkCoords, m: Seq<(BlockID, BlockFaces<T>)>) -> Seq<
        Face<T>,
    > {
        self.faces_upto(c, 4096, m)
    }
}

/// The texture configuration of `b`, if `uv_map` has one. Where `uv_map`
/// lists a block type more than once, its first entry is the one used.
pub fn find_faces<T: Copy>(uv_map: &Vec<(BlockID, BlockFaces<T>)>, b: BlockID) -> (r: Option<BlockFaces<T>>)
    ensures
        r == uv_lookup(uv_map@, b),
{
    let mut i: usize = 0;
    while i < uv_map.len()
        invariant
            i <= uv_map@.len(),
            uv_lookup(uv_map@, b) == uv_lookup_from(uv_map@, b, i as int),
        decreases uv_map@.len() - i,
    {
        if uv_map[i].0 == b {
            return Some(uv_map[i].1);
        }
        i = i + 1;
    }
    None
}

/// Whether every block type but air has a texture configuration in `uv_map`.
pub fn uv_map_is_complete<T: Copy>(uv_map: &Vec<(BlockID, BlockFaces<T>)>) -> (r: bool)
    ensures
        r == uv_map_complete(uv_map@),
{
    let r = find_faces(uv_map, BlockID::Dirt).is_some() && find_faces(uv_map, BlockID::Cobblestone).is_some()
        && find_faces(uv_map, BlockID::Obsidian).is_some() && find_faces(uv_map, BlockID::Grass).is_some();
    assert(r == uv_map_complete(uv_map@)) by {
        if r {
            assert forall|b: BlockID| !b.transparent() implies (#[trigger] uv_lookup(uv_map@, b)) is Some by {
                match b {
                    BlockID::Air => {},
                    BlockID::Dirt => {},
                    BlockID::Cobblestone => {},
                    BlockID::Obsidian => {},
                    BlockID::Grass => {},
                }
            }
        } else {
            assert(!(uv_lookup(uv_map@, BlockID::Dirt) is Some) || !(uv_lookup(uv_map@, BlockID::Cobblestone) is Some)
                || !(uv_lookup(uv_map@, BlockID::Obsidian) is Some) || !(uv_lookup(uv_map@, BlockID::Grass) is Some));
        }
    }
    r
}

/// Appends the faces of one block to `faces`.
fn push_block_faces<T: Copy>(faces: &mut Vec<Face<T>>, x: u8, y: u8, z: u8, s: Sides, uv: UVFaces<T>)
    ensures
        final(faces)@ == old(faces)@ + block_faces(x, y, z, s, uv),
{
    let ghost f0 = faces@;
    let front = Face { x, y, z, side: Side::Front, uv: uv.0 };
    let back = Face { x, y, z, side: Side::Back, uv: uv.1 };
    let left = Face { x, y, z, side: Side::Left, uv: uv.4 };
    let right = Face { x, y, z, side: Side::Right, uv: uv.5 };
    let top = Face { x, y, z, side: Side::Top, uv: uv.2 };
    let bottom = Face { x, y, z, side: Side::Bottom, uv: uv.3 };
    if s.4 {
        faces.push(front);
    }
    let ghost f1 = faces@;
    if s.5 {
        faces.push(back);
    }
    let ghost f2 = faces@;
    if s.1 {
        faces.push(left);
    }
    let ghost f3 = faces@;
    if s.0 {
        faces.push(right);
    }
    let ghost f4 = faces@;
    if s.2 {
        faces.push(top);
    }
    let ghost f5 = faces@;
    if s.3 {
        faces.push(bottom);
    }
    assert(f1 =~= f0 + face_if(s.4, front));
    assert(f2 =~= f1 + face_if(s.5, back));
    assert(f3 =~= f2 + face_if(s.1, left));
    assert(f4 =~= f3 + face_if(s.0, right));
    assert(f5 =~= f4 + face_if(s.2, top));
    assert(faces@ =~= f5 + face_if(s.3, bottom));
    proof {
        let a = face_if(s.4, front);
        let b = face_if(s.5, back);
        let c = face_if(s.1, left);
        let d = face_if(s.0, right);
        let e = face_if(s.2, top);
        let f = face_if(s.3, bottom);
        lemma_concat_associative(f0, a, b);
        lemma_concat_associative(f0, a + b, c);
        lemma_concat_associative(f0, a + b + c, d);
        lemma_concat_associative(f0, a + b + c + d, e);
        lemma_concat_associative(f0, a + b + c + d + e, f);
    }
}

proof fn lemma_cell_in_chunk(i: int)
    requires
        0 <= i < 4096,
    ensures
        in_chunk(cell_of(i).0, cell_of(i).1, cell_of(i).2),
        crate::chunk::local_index(cell_of(i).0, cell_of(i).1, cell_of(i).2) == i,
{
}

impl ChunkManager {
    /// The visible faces of the loaded chunk `chunk` at `c`.
    fn mesh_chunk<T: Copy>(&self, c: ChunkCoords, chunk: &Chunk, uv_map: &Vec<(BlockID, BlockFaces<T>)>) -> (r: Vec<Face<T>>)
        requires
            self.wf(),
            self@.contains_key(c),
            *chunk == self@[c],
            uv_map_complete(uv_map@),
        ensures
            r@ == self.chunk_faces(c, uv_map@),
            r@.len() <= 6 * 4096,
    {
        let mut faces: Vec<Face<T>> = Vec::new();
        let mut i: usize = 0;
        assert(self.loaded_coords@.contains(c));
        while i < 4096
            invariant
                self.wf(),
                self@.contains_key(c),
                *chunk == self@[c],
                chunk.wf(),
                crate::chunk_manager::chunk_coords_ok(c),
                uv_map_complete(uv_map@),
                i <= 4096,
                faces@ == self.faces_upto(c, i as int, uv_map@),
                faces@.len() <= 6 * i,
            decreases 4096 - i,
        {
            let b = chunk.blocks[i];
            if !b.is_transparent() {
                let x = i % 16;
                let y = i / 256;
                let z = (i / 16) % 16;
                proof {
                    lemma_cell_in_chunk(i as int);
                }
                let (gx, gy, gz) = ChunkManager::get_global_coords(
                    (c.0, c.1, c.2, x as u32, y as u32, z as u32),
                );
                let s = self.get_active_sides_of_block(gx, gy, gz);
                match find_faces(uv_map, b) {
                    Some(cfg) => {
                        let uv = cfg.get_uv_of_every_faces();
                        push_block_faces(&mut faces, x as u8, y as u8, z as u8, s, uv);
                    },
                    None => {
                        assert(uv_lookup(uv_map@, b) is Some);
                    },
                }
            }
            i = i + 1;
        }
        faces
    }
}

impl ChunkManager {
    /// Rebuilds the geometry of every stale loaded chunk: returns the faces
    /// of each, marks each clean and records its vertex count. Chunks that
    /// are not stale are left as they were.
    pub fn rebuild_dirty_chunks<T: Copy>(&mut self, uv_map: &Vec<(BlockID, BlockFaces<T>)>) -> (r: Vec<ChunkMesh<T>>)
        requires
            old(self).wf(),
            uv_map_complete(uv_map@),
        ensures
            final(self).wf(),
            final(self)@.dom() == old(self)@.dom(),
            forall|c: ChunkCoords| #[trigger]
                old(self)@.contains_key(c) ==> if old(self).dirty_coords().contains(c) {
                    &&& final(self)@[c]@ == old(self)@[c]@
                    &&& !final(self)@[c].dirty
                    &&& final(self)@[c].dirty_set() == Set::<ChunkCoords>::empty()
                    &&& final(self)@[c].vertices_drawn == VERTICES_PER_FACE * old(self).chunk_faces(c, uv_map@).len()
                } else {
                    final(self)@[c] == old(self)@[c]
                },
            forall|k: int| #![trigger r@[k]]
                0 <= k < r@.len() ==> {
                    &&& old(self)@.contains_key(r@[k].coords)
                    &&& old(self).dirty_coords().contains(r@[k].coords)
                    &&& r@[k].faces@ == old(self).chunk_faces(r@[k].coords, uv_map@)
                },
            forall|k1: int, k2: int|
                0 <= k1 < k2 < r@.len() ==> r@[k1].coords != r@[k2].coords,
            forall|c: ChunkCoords|
                old(self)@.contains_key(c) && #[trigger] old(self).dirty_coords().contains(c) ==> exists|k: int|
                    0 <= k < r@.len() && r@[k].coords == c,
    {
        let targets = self.collect_dirty();
        let mut meshes: Vec<ChunkMesh<T>> = Vec::new();
        let mut i: usize = 0;
        while i < targets.len()
            invariant
                self.wf(),
                *self == *old(self),
                uv_map_complete(uv_map@),
                targets@.no_duplicates(),
                targets@.to_set() == self.dirty_coords(),
                i <= targets@.len(),
                forall|k: int| #![trigger meshes@[k]]
                    0 <= k < meshes@.len() ==> {
                        &&& self@.contains_key(meshes@[k].coords)
                        &&& self.dirty_coords().contains(meshes@[k].coords)
                        &&& meshes@[k].faces@ == self.chunk_faces(meshes@[k].coords, uv_map@)
                        &&& meshes@[k].faces@.len() <= 6 * 4096
                        &&& exists|j: int| 0 <= j < i && targets@[j] == meshes@[k].coords
                    },
                forall|k1: int, k2: int|
                    0 <= k1 < k2 < meshes@.len() ==> meshes@[k1].coords != meshes@[k2].coords,
                forall|j: int|
                    0 <= j < i && self@.contains_key(#[trigger] targets@[j]) ==> exists|k: int|
                        0 <= k < meshes@.len() && meshes@[k].coords == targets@[j],
            decreases targets@.len() - i,
        {
            let t = targets[i];
            assert(targets@.to_set().contains(t));
            let ghost m0 = meshes@;
            match self.get_chunk(t) {
                Some(chunk) => {
                    let faces = self.mesh_chunk(t, chunk, uv_map);
                    assert forall|k: int| 0 <= k < m0.len() implies m0[k].coords != t by {
                        let j = choose|j: int| 0 <= j < i && targets@[j] == m0[k].coords;
                    }
                    meshes.push(ChunkMesh { coords: t, faces });
                    assert(meshes@[m0.len() as int].coords == t);
                    assert(meshes@ == m0.push(meshes@[m0.len() as int]));
                },
                None => {
                    assert(!self@.contains_key(t));
                },
            }
            i = i + 1;
            assert forall|j: int|
                0 <= j < i && self@.contains_key(#[trigger] targets@[j]) implies exists|k: int|
                    0 <= k < meshes@.len() && meshes@[k].coords == targets@[j] by {
                if j < i - 1 {
                    let k = choose|k: int| 0 <= k < m0.len() && m0[k].coords == targets@[j];
                    assert(meshes@[k] == m0[k]);
                } else {
                    assert(meshes@[m0.len() as int].coords == t);
                }
            }
            assert forall|k: int| 0 <= k < meshes@.len() implies exists|j: int|
                0 <= j < i && targets@[j] == #[trigger] meshes@[k].coords by {
                if k < m0.len() {
                    assert(meshes@[k] == m0[k]);
                    let j = choose|j: int| 0 <= j < i - 1 && targets@[j] == m0[k].coords;
                } else {
                    assert(targets@[i - 1] == meshes@[k].coords);
                }
            }
        }
        let mut k: usize = 0;
        while k < meshes.len()
            invariant
                self.wf(),
                self@.dom() == old(self)@.dom(),
                k <= meshes@.len(),
                forall|k2: int| #![trigger meshes@[k2]]
                    0 <= k2 < meshes@.len() ==> {
                        &&& old(self)@.contains_key(meshes@[k2].coords)
                        &&& old(self).dirty_coords().contains(meshes@[k2].coords)
                        &&& meshes@[k2].faces@ == old(self).chunk_faces(meshes@[k2].coords, uv_map@)
                        &&& meshes@[k2].faces@.len() <= 6 * 4096
                    },
                forall|k1: int, k2: int|
                    0 <= k1 < k2 < meshes@.len() ==> meshes@[k1].coords != meshes@[k2].coords,
                forall|c: ChunkCoords| #[trigger]
                    old(self)@.contains_key(c) ==> if exists|k2: int| 0 <= k2 < k && meshes@[k2].coords == c {
                        &&& self@[c]@ == old(self)@[c]@
                        &&& !self@[c].dirty
                        &&& self@[c].dirty_set() == Set::<ChunkCoords>::empty()
                        &&& self@[c].vertices_drawn == VERTICES_PER_FACE * old(self).chunk_faces(c, uv_map@).len()
                    } else {
                        self@[c] == old(self)@[c]
                    },
            decreases meshes@.len() - k,
        {
            let c = meshes[k].coords;
            let n = meshes[k].faces.len();
            let vertices = (n as u32) * VERTICES_PER_FACE;
            let ghost before = *self;
            self.mark_rebuilt(c, vertices);
            k = k + 1;
            assert forall|c2: ChunkCoords| #[trigger]
                old(self)@.contains_key(c2) implies if exists|k2: int| 0 <= k2 < k && meshes@[k2].coords == c2 {
                    &&& self@[c2]@ == old(self)@[c2]@
                    &&& !self@[c2].dirty
                    &&& self@[c2].dirty_set() == Set::<ChunkCoords>::empty()
                    &&& self@[c2].vertices_drawn == VERTICES_PER_FACE * old(self).chunk_faces(c2, uv_map@).len()
                } else {
                    self@[c2] == old(self)@[c2]
                } by {
                if c2 != c {
                    if exists|k2: int| 0 <= k2 < k && meshes@[k2].coords == c2 {
                        let k2 = choose|k2: int| 0 <= k2 < k && meshes@[k2].coords == c2;
                        assert(k2 < k - 1);
                    }
                } else {
                    assert(meshes@[k - 1].coords == c2);
                    assert(!exists|k2: int| 0 <= k2 < k - 1 && meshes@[k2].coords == c2);
                }
            }
        }
        assert forall|c: ChunkCoords|
            old(self)@.contains_key(c) && #[trigger] old(self).dirty_coords().contains(c) implies exists|k: int|
                0 <= k < meshes@.len() && meshes@[k].coords == c by {
            assert(targets@.to_set().contains(c));
            let j = choose|j: int| 0 <= j < targets@.len() && targets@[j] == c;
            assert(old(self)@.contains_key(targets@[j]));
        }
        meshes
    }
}

/// Occlusion: a solid block whose six neighbours are all solid emits no
/// face, a solid block whose six neighbours are all open emits six, and an
/// air cell emits none whatever surrounds it.
pub proof fn lemma_occlusion<T>(w: ChunkManager, c: ChunkCoords, i: int, m: Seq<(BlockID, BlockFaces<T>)>)
    requires
        w.wf(),
        w@.contains_key(c),
        0 <= i < 4096,
    ensures
        ({
            let (x, y, z) = cell_of(i);
            let (gx, gy, gz) = (c.0 * 16 + x, c.1 * 16 + y, c.2 * 16 + z);
            &&& w.solid(gx + 1, gy, gz) && w.solid(gx - 1, gy, gz) && w.solid(gx, gy + 1, gz) && w.solid(
                gx,
                gy - 1,
                gz,
            ) && w.solid(gx, gy, gz + 1) && w.solid(gx, gy, gz - 1) ==> w.cell_faces(c, i, m).len() == 0
            &&& !w@[c]@[i].transparent() && !w.solid(gx + 1, gy, gz) && !w.solid(gx - 1, gy, gz)
                && !w.solid(gx, gy + 1, gz) && !w.solid(gx, gy - 1, gz) && !w.solid(gx, gy, gz + 1)
                && !w.solid(gx, gy, gz - 1) ==> w.cell_faces(c, i, m).len() == 6
        }),
        w@[c]@[i].transparent() ==> w.cell_faces(c, i, m).len() == 0,
{
}

} // verus!
