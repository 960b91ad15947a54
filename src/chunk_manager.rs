use std::collections::HashMap;
use vstd::prelude::*;

use crate::chunk::{
    boundary_offsets, in_chunk, insert_unique, local_index, BlockID, Chunk, CHUNK_SIZE,
};

verus! {

broadcast use vstd::std_specs::hash::group_hash_axioms;

/// Smallest chunk coordinate that a global `i32` coordinate maps to.
pub const MIN_CHUNK_COORD: i32 = -0x800_0000;

/// Largest chunk coordinate that a global `i32` coordinate maps to.
pub const MAX_CHUNK_COORD: i32 = 0x7ff_ffff;

/// Face visibility of a block, in the order right (+x), left (-x), top (+y),
/// bottom (-y), front (+z), back (-z).
pub type Sides = (bool, bool, bool, bool, bool, bool);

pub type ChunkCoords = (i32, i32, i32);

/// Chunk coordinate of global coordinate `g` (floor division).
pub open spec fn chunk_of(g: int) -> int {
    g / 16
}

/// Coordinate of global `g` inside its chunk (Euclidean remainder).
pub open spec fn local_of(g: int) -> int {
    g % 16
}

pub open spec fn in_i32(g: int) -> bool {
    i32::MIN <= g <= i32::MAX
}

/// Chunk coordinates whose cells all have `i32` global coordinates.
pub open spec fn chunk_coords_ok(c: ChunkCoords) -> bool {
    MIN_CHUNK_COORD <= c.0 <= MAX_CHUNK_COORD && MIN_CHUNK_COORD <= c.1 <= MAX_CHUNK_COORD
        && MIN_CHUNK_COORD <= c.2 <= MAX_CHUNK_COORD
}

/// The hash-map key under which the chunk at `c` is stored.
pub open spec fn chunk_key(c: ChunkCoords) -> i128 {
    (c.0 * 0x1_0000_0000_0000_0000 + c.1 * 0x1_0000_0000 + c.2) as i128
}

/// Splitting a global coordinate into its chunk and local parts and joining
/// them again gives the coordinate back, with the local part in `0..16`;
/// and every chunk coordinate with a local part in `0..16` splits back into
/// those two parts.
pub proof fn lemma_coords_round_trip(g: int, c: int, l: int)
    ensures
        chunk_of(g) * 16 + local_of(g) == g,
        0 <= local_of(g) < 16,
        0 <= l < 16 ==> chunk_of(c * 16 + l) == c && local_of(c * 16 + l) == l,
{
    if 0 <= l < 16 {
        assert(chunk_of(c * 16 + l) == c && local_of(c * 16 + l) == l) by (nonlinear_arith)
            requires
                0 <= l < 16,
        ;
    }
}

proof fn lemma_split(hi: int, lo: int)
    requires
        hi * 0x1_0000_0000 + lo == 0,
        -0x1_0000_0000 < lo < 0x1_0000_0000,
    ensures
        hi == 0,
        lo == 0,
{
    assert(hi == 0) by (nonlinear_arith)
        requires
            hi * 0x1_0000_0000 + lo == 0,
            -0x1_0000_0000 < lo < 0x1_0000_0000,
    ;
}

/// Distinct chunk coordinates have distinct keys.
pub proof fn lemma_chunk_key_injective(a: ChunkCoords, b: ChunkCoords)
    ensures
        chunk_key(a) == chunk_key(b) ==> a == b,
{
    if chunk_key(a) == chunk_key(b) {
        let d0 = a.0 - b.0;
        let d1 = a.1 - b.1;
        let d2 = a.2 - b.2;
        assert((d0 * 0x1_0000_0000 + d1) * 0x1_0000_0000 + d2 == 0) by (nonlinear_arith)
            requires
                a.0 * 0x1_0000_0000_0000_0000 + a.1 * 0x1_0000_0000 + a.2 == b.0
                    * 0x1_0000_0000_0000_0000 + b.1 * 0x1_0000_0000 + b.2,
                d0 == a.0 - b.0,
                d1 == a.1 - b.1,
                d2 == a.2 - b.2,
        ;
        lemma_split(d0 * 0x1_0000_0000 + d1, d2);
        lemma_split(d0, d1);
    }
}

fn key_of(c: ChunkCoords) -> (r: i128)
    ensures
        r == chunk_key(c),
{
    (c.0 as i128) * 0x1_0000_0000_0000_0000i128 + (c.1 as i128) * 0x1_0000_0000i128 + (c.2 as i128)
}

/// The chunk coordinates `d` away from `c`.
pub open spec fn offset(c: ChunkCoords, d: ChunkCoords) -> ChunkCoords {
    ((c.0 + d.0) as i32, (c.1 + d.1) as i32, (c.2 + d.2) as i32)
}

/// The chunks whose geometry must be rebuilt on account of the chunk `ch`
/// at `c`: none if it is clean, else itself and each recorded neighbour.
pub open spec fn chunk_targets(c: ChunkCoords, ch: Chunk) -> Set<ChunkCoords> {
    if ch.dirty {
        ch.dirty_set().map(|d: ChunkCoords| offset(c, d)).insert(c)
    } else {
        Set::empty()
    }
}

/// The eight chunks that `preload_some_chunks` loads.
pub open spec fn preload_coords() -> Set<ChunkCoords> {
    Set::new(|c: ChunkCoords| 0 <= c.0 < 2 && 0 <= c.1 < 2 && 0 <= c.2 < 2)
}

/// `new` is `old` after a `set_block` at local `(x, y, z)`.
pub open spec fn set_result(old: Chunk, new: Chunk, x: int, y: int, z: int, b: BlockID) -> bool {
    &&& new.wf()
    &&& new@ == old@.update(local_index(x, y, z), b)
    &&& new.dirty
    &&& new.dirty_set() == old.dirty_set().union(boundary_offsets(x, y, z))
    &&& new.vertices_drawn == old.vertices_drawn
}

/// The chunk coordinates of global `(x, y, z)`.
pub open spec fn chunk_coords_of(x: int, y: int, z: int) -> ChunkCoords {
    (chunk_of(x) as i32, chunk_of(y) as i32, chunk_of(z) as i32)
}

/// `new` is `old` after `set_block(x, y, z, b)`: the owning chunk, if
/// loaded, holds the edit; nothing else changed.
pub open spec fn edited(old: ChunkManager, new: ChunkManager, x: int, y: int, z: int, b: BlockID) -> bool {
    let c = chunk_coords_of(x, y, z);
    if old@.contains_key(c) {
        &&& new@ == old@.insert(c, new@[c])
        &&& set_result(old@[c], new@[c], local_of(x), local_of(y), local_of(z), b)
    } else {
        new@ == old@
    }
}

/// A block stored at a global coordinate whose chunk is loaded is the block
/// read back from it.
pub proof fn lemma_world_set_then_get(before: ChunkManager, after: ChunkManager, x: i32, y: i32, z: i32, b: BlockID)
    requires
        before.wf(),
        edited(before, after, x as int, y as int, z as int, b),
        before@.contains_key(chunk_coords_of(x as int, y as int, z as int)),
    ensures
        after.block_of(x as int, y as int, z as int) == Some(b),
{
    let (lx, ly, lz) = (local_of(x as int), local_of(y as int), local_of(z as int));
    assert(in_chunk(lx, ly, lz));
    assert(0 <= local_index(lx, ly, lz) < 4096);
}

/// An edit inside a loaded chunk makes that chunk stale, and with it the
/// chunk beyond each border of the chunk that the edited cell touches.
pub proof fn lemma_edit_marks_neighbours(
    before: ChunkManager,
    after: ChunkManager,
    x: i32,
    y: i32,
    z: i32,
    b: BlockID,
)
    requires
        before.wf(),
        edited(before, after, x as int, y as int, z as int, b),
        before@.contains_key(chunk_coords_of(x as int, y as int, z as int)),
    ensures
        ({
            let c = chunk_coords_of(x as int, y as int, z as int);
            &&& after.dirty_coords().contains(c)
            &&& local_of(x as int) == 0 ==> after.dirty_coords().contains(offset(c, (-1i32, 0i32, 0i32)))
            &&& local_of(x as int) == 15 ==> after.dirty_coords().contains(offset(c, (1, 0, 0)))
            &&& local_of(y as int) == 0 ==> after.dirty_coords().contains(offset(c, (0i32, -1i32, 0i32)))
            &&& local_of(y as int) == 15 ==> after.dirty_coords().contains(offset(c, (0, 1, 0)))
            &&& local_of(z as int) == 0 ==> after.dirty_coords().contains(offset(c, (0i32, 0i32, -1i32)))
            &&& local_of(z as int) == 15 ==> after.dirty_coords().contains(offset(c, (0, 0, 1)))
        }),
{
    let c = chunk_coords_of(x as int, y as int, z as int);
    let ch = after@[c];
    let (lx, ly, lz) = (local_of(x as int), local_of(y as int), local_of(z as int));
    assert(after@.contains_key(c));
    assert(chunk_targets(c, ch).contains(c));
    assert forall|d: ChunkCoords| #[trigger]
        boundary_offsets(lx, ly, lz).contains(d) implies after.dirty_coords().contains(offset(c, d)) by {
        assert(ch.dirty_set().contains(d));
        assert(ch.dirty_set().map(|d: ChunkCoords| offset(c, d)).contains(offset(c, d)));
        assert(chunk_targets(c, ch).contains(offset(c, d)));
    }
    assert(boundary_offsets(lx, ly, lz).contains((-1i32, 0i32, 0i32)) <==> lx == 0);
    assert(boundary_offsets(lx, ly, lz).contains((1i32, 0i32, 0i32)) <==> lx == 15);
    assert(boundary_offsets(lx, ly, lz).contains((0i32, -1i32, 0i32)) <==> ly == 0);
    assert(boundary_offsets(lx, ly, lz).contains((0i32, 1i32, 0i32)) <==> ly == 15);
    assert(boundary_offsets(lx, ly, lz).contains((0i32, 0i32, -1i32)) <==> lz == 0);
    assert(boundary_offsets(lx, ly, lz).contains((0i32, 0i32, 1i32)) <==> lz == 15);
}

/// Every loaded chunk, keyed by its chunk coordinates.
pub struct ChunkManager {
    pub loaded_chunks: HashMap<i128, Chunk>,
    /// The coordinates of the loaded chunks, each once.
    pub loaded_coords: Vec<ChunkCoords>,
}

impl View for ChunkManager {
    type V = Map<ChunkCoords, Chunk>;

    open spec fn view(&self) -> Map<ChunkCoords, Chunk> {
        Map::new(
            |c: ChunkCoords| self.loaded_coords@.contains(c),
            |c: ChunkCoords| self.loaded_chunks@[chunk_key(c)],
        )
    }
}

impl ChunkManager {
    pub open spec fn wf(&self) -> bool {
        &&& self.loaded_coords@.no_duplicates()
        &&& forall|c: ChunkCoords|
            #![trigger self.loaded_chunks@.contains_key(chunk_key(c))]
            self.loaded_chunks@.contains_key(chunk_key(c)) <==> self.loaded_coords@.contains(c)
        &&& forall|c: ChunkCoords| #[trigger]
            self.loaded_coords@.contains(c) ==> chunk_coords_ok(c) && self.loaded_chunks@[chunk_key(
                c,
            )].wf()
    }

    /// The block at global `(x, y, z)`, if its chunk is loaded.
    pub open spec fn block_of(&self, x: int, y: int, z: int) -> Option<BlockID> {
        let c = (chunk_of(x) as i32, chunk_of(y) as i32, chunk_of(z) as i32);
        if in_i32(x) && in_i32(y) && in_i32(z) && self@.contains_key(c) {
            Some(self@[c].block_at(local_of(x), local_of(y), local_of(z)))
        } else {
            None
        }
    }

    /// A loaded, non-transparent block is at global `(x, y, z)`.
    pub open spec fn solid(&self, x: int, y: int, z: int) -> bool {
        match self.block_of(x, y, z) {
            Some(b) => !b.transparent(),
            None => false,
        }
    }

    /// Which faces of the block at `(x, y, z)` border a non-solid cell.
    pub open spec fn active_sides(&self, x: int, y: int, z: int) -> Sides {
        (
            !self.solid(x + 1, y, z),
            !self.solid(x - 1, y, z),
            !self.solid(x, y + 1, z),
            !self.solid(x, y - 1, z),
            !self.solid(x, y, z + 1),
            !self.solid(x, y, z - 1),
        )
    }

    /// Chunk coordinates of every chunk whose geometry is stale.
    pub open spec fn dirty_coords(&self) -> Set<ChunkCoords> {
        Set::new(
            |t: ChunkCoords|
                exists|c: ChunkCoords|
                    #![trigger self@.contains_key(c), chunk_targets(c, self@[c]).contains(t)]
                    self@.contains_key(c) && chunk_targets(c, self@[c]).contains(t),
        )
    }

    /// The targets of the first `n` chunks of `loaded_coords`.
    pub open spec fn targets_upto(&self, n: int) -> Set<ChunkCoords> {
        Set::new(
            |t: ChunkCoords|
                exists|k: int|
                    #![trigger self.loaded_coords@[k]]
                    0 <= k < n && chunk_targets(
                        self.loaded_coords@[k],
                        self@[self.loaded_coords@[k]],
                    ).contains(t),
        )
    }

    pub fn new() -> (r: ChunkManager)
        ensures
            r.wf(),
            r@ == Map::<ChunkCoords, Chunk>::empty(),
    {
        let r = ChunkManager { loaded_chunks: HashMap::new(), loaded_coords: Vec::new() };
        assert(r@ =~= Map::<ChunkCoords, Chunk>::empty());
        r
    }

    /// Splits a global coordinate into chunk coordinates and the local
    /// coordinates inside that chunk.
    pub fn get_chunk_and_block_coords(x: i32, y: i32, z: i32) -> (r: (i32, i32, i32, u32, u32, u32))
        ensures
            r.0 == chunk_of(x as int),
            r.1 == chunk_of(y as int),
            r.2 == chunk_of(z as int),
            r.3 == local_of(x as int),
            r.4 == local_of(y as int),
            r.5 == local_of(z as int),
            chunk_coords_ok((r.0, r.1, r.2)),
    {
        let (cx, lx) = split_coord(x);
        let (cy, ly) = split_coord(y);
        let (cz, lz) = split_coord(z);
        (cx, cy, cz, lx, ly, lz)
    }

    /// The global coordinate of local cell `(block_x, block_y, block_z)` of
    /// the chunk at `(chunk_x, chunk_y, chunk_z)`.
    pub fn get_global_coords(coords: (i32, i32, i32, u32, u32, u32)) -> (r: (i32, i32, i32))
        requires
            chunk_coords_ok((coords.0, coords.1, coords.2)),
            in_chunk(coords.3 as int, coords.4 as int, coords.5 as int),
        ensures
            r.0 == coords.0 * 16 + coords.3,
            r.1 == coords.1 * 16 + coords.4,
            r.2 == coords.2 * 16 + coords.5,
    {
        let (chunk_x, chunk_y, chunk_z, block_x, block_y, block_z) = coords;
        let x = chunk_x * 16 + block_x as i32;
        let y = chunk_y * 16 + block_y as i32;
        let z = chunk_z * 16 + block_z as i32;
        (x, y, z)
    }

    /// Loads `chunk` at chunk coordinates `c`, replacing any chunk there.
    pub fn insert_chunk(&mut self, c: ChunkCoords, chunk: Chunk)
        requires
            old(self).wf(),
            chunk.wf(),
            chunk_coords_ok(c),
        ensures
            final(self).wf(),
            final(self)@ == old(self)@.insert(c, chunk),
    {
        let key = key_of(c);
        let ghost coords0 = self.loaded_coords@;
        let prev = self.loaded_chunks.insert(key, chunk);
        match prev {
            Some(_) => {
                assert(coords0.contains(c));
            },
            None => {
                assert(!coords0.contains(c));
                self.loaded_coords.push(c);
                assert(self.loaded_coords@ == coords0.push(c));
                assert(self.loaded_coords@.no_duplicates()) by {
                    assert forall|i: int, j: int|
                        0 <= i < j < self.loaded_coords@.len() implies self.loaded_coords@[i]
                        != self.loaded_coords@[j] by {
                        if j == coords0.len() {
                            assert(coords0.contains(coords0[i]));
                        }
                    }
                }
            },
        }
        assert forall|c2: ChunkCoords| #[trigger]
            self.loaded_chunks@.contains_key(chunk_key(c2)) implies self.loaded_coords@.contains(
            c2,
        ) by {
            lemma_chunk_key_injective(c, c2);
            if c2 != c {
                assert(old(self).loaded_chunks@.contains_key(chunk_key(c2)));
                assert(coords0.contains(c2));
                let k = choose|k: int| 0 <= k < coords0.len() && coords0[k] == c2;
                assert(self.loaded_coords@[k] == c2);
            } else {
                assert(self.loaded_coords@.contains(c)) by {
                    if !coords0.contains(c) {
                        assert(self.loaded_coords@[coords0.len() as int] == c);
                    }
                }
            }
        }
        assert forall|c2: ChunkCoords| #[trigger]
            self.loaded_coords@.contains(c2) implies self.loaded_chunks@.contains_key(chunk_key(c2))
            && chunk_coords_ok(c2) && self.loaded_chunks@[chunk_key(c2)].wf() by {
            lemma_chunk_key_injective(c, c2);
            if c2 != c {
                let k = choose|k: int| 0 <= k < self.loaded_coords@.len() && self.loaded_coords@[k] == c2;
                assert(k < coords0.len());
                assert(coords0.contains(c2));
            }
        }
        assert forall|c2: ChunkCoords|
            self.loaded_coords@.contains(c2) <==> old(self).loaded_coords@.contains(c2) || c2 == c by {
            if self.loaded_coords@.contains(c2) && c2 != c {
                let k = choose|k: int| 0 <= k < self.loaded_coords@.len() && self.loaded_coords@[k] == c2;
                assert(k < coords0.len());
                assert(coords0.contains(c2));
            }
            if coords0.contains(c2) {
                let k = choose|k: int| 0 <= k < coords0.len() && coords0[k] == c2;
                assert(self.loaded_coords@[k] == c2);
            }
            if c2 == c {
                assert(self.loaded_chunks@.contains_key(chunk_key(c)));
            }
        }
        assert forall|c2: ChunkCoords| c2 != c implies chunk_key(c2) != chunk_key(c) by {
            lemma_chunk_key_injective(c, c2);
        }
        assert(self@ =~= old(self)@.insert(c, chunk));
    }

    /// The chunk loaded at chunk coordinates `c`, if any.
    pub fn get_chunk(&self, c: ChunkCoords) -> (r: Option<&Chunk>)
        requires
            self.wf(),
        ensures
            match r {
                Some(ch) => self@.contains_key(c) && *ch == self@[c],
                None => !self@.contains_key(c),
            },
    {
        let key = key_of(c);
        self.loaded_chunks.get(&key)
    }

    pub fn get_block(&self, x: i32, y: i32, z: i32) -> (r: Option<BlockID>)
        requires
            self.wf(),
        ensures
            r == self.block_of(x as int, y as int, z as int),
    {
        let (chunk_x, chunk_y, chunk_z, block_x, block_y, block_z) =
            ChunkManager::get_chunk_and_block_coords(x, y, z);
        match self.get_chunk((chunk_x, chunk_y, chunk_z)) {
            Some(chunk) => Some(chunk.get_block(block_x as usize, block_y as usize, block_z as usize)),
            None => None,
        }
    }

    /// Whether a loaded, non-transparent block is at `(x, y, z)`. Unloaded
    /// space is open.
    pub fn is_solid_block_at(&self, x: i32, y: i32, z: i32) -> (r: bool)
        requires
            self.wf(),
        ensures
            r == self.solid(x as int, y as int, z as int),
    {
        match self.get_block(x, y, z) {
            Some(b) => !b.is_transparent(),
            None => false,
        }
    }

    /// Stores `block` at global `(x, y, z)` if its chunk is loaded; does
    /// nothing otherwise.
    pub fn set_block(&mut self, x: i32, y: i32, z: i32, block: BlockID)
        requires
            old(self).wf(),
        ensures
            final(self).wf(),
            edited(*old(self), *final(self), x as int, y as int, z as int, block),
    {
        let (chunk_x, chunk_y, chunk_z, block_x, block_y, block_z) =
            ChunkManager::get_chunk_and_block_coords(x, y, z);
        let c = (chunk_x, chunk_y, chunk_z);
        let key = key_of(c);
        let ghost old_map = self.loaded_chunks@;
        let removed = self.loaded_chunks.remove(&key);
        match removed {
            Some(chunk) => {
                let mut chunk = chunk;
                assert(old(self).loaded_coords@.contains(c));
                chunk.set_block(block_x as usize, block_y as usize, block_z as usize, block);
                self.loaded_chunks.insert(key, chunk);
                assert(self.loaded_chunks@ =~= old_map.insert(key, chunk));
                assert forall|c2: ChunkCoords| c2 != c implies chunk_key(c2) != key by {
                    lemma_chunk_key_injective(c, c2);
                }
                assert(self@ =~= old(self)@.insert(c, chunk));
            },
            None => {
                assert(self.loaded_chunks@ =~= old_map);
                assert(self@ =~= old(self)@);
            },
        }
    }

    /// Loads a 2x2x2 block of randomly filled chunks at chunk coordinates
    /// 0 and 1 on each axis.
    pub fn preload_some_chunks(&mut self)
        requires
            old(self).wf(),
        ensures
            final(self).wf(),
            final(self)@.dom() == old(self)@.dom().union(preload_coords()),
            forall|c: ChunkCoords| #[trigger]
                preload_coords().contains(c) ==> final(self)@[c].random_solid(),
            forall|c: ChunkCoords|
                old(self)@.contains_key(c) && !preload_coords().contains(c) ==> #[trigger] final(self)@[c]
                    == old(self)@[c],
    {
        let mut i: i32 = 0;
        while i < 8
            invariant
                0 <= i <= 8,
                self.wf(),
                forall|c: ChunkCoords| #[trigger]
                    self@.contains_key(c) <==> old(self)@.contains_key(c) || (preload_coords().contains(c)
                        && c.1 * 4 + c.2 * 2 + c.0 < i),
                forall|c: ChunkCoords|
                    preload_coords().contains(c) && c.1 * 4 + c.2 * 2 + c.0 < i ==> #[trigger] self@[c].random_solid(),
                forall|c: ChunkCoords|
                    old(self)@.contains_key(c) && !(preload_coords().contains(c) && c.1 * 4 + c.2 * 2 + c.0 < i)
                        ==> #[trigger] self@[c] == old(self)@[c],
            decreases 8 - i,
        {
            let c = (i % 2, i / 4, (i / 2) % 2);
            self.insert_chunk(c, Chunk::random());
            i = i + 1;
        }
        assert(self@.dom() =~= old(self)@.dom().union(preload_coords()));
    }

    /// The chunks whose geometry is stale: every dirty chunk, and each
    /// neighbour that a dirty chunk recorded, each listed once.
    pub fn collect_dirty(&self) -> (r: Vec<ChunkCoords>)
        requires
            self.wf(),
        ensures
            r@.no_duplicates(),
            r@.to_set() == self.dirty_coords(),
    {
        let mut r: Vec<ChunkCoords> = Vec::new();
        let mut i: usize = 0;
        assert(r@.to_set() =~= self.targets_upto(0));
        while i < self.loaded_coords.len()
            invariant
                self.wf(),
                i <= self.loaded_coords@.len(),
                r@.no_duplicates(),
                r@.to_set() == self.targets_upto(i as int),
            decreases self.loaded_coords@.len() - i,
        {
            let c = self.loaded_coords[i];
            assert(self.loaded_coords@.contains(c));
            let ghost before = r@.to_set();
            match self.get_chunk(c) {
                Some(chunk) => {
                    if chunk.dirty {
                        insert_unique(&mut r, c);
                        let mut j: usize = 0;
                        while j < chunk.dirty_neighbours.len()
                            invariant
                                chunk.wf(),
                                chunk_coords_ok(c),
                                j <= chunk.dirty_neighbours@.len(),
                                r@.no_duplicates(),
                                r@.to_set() == before.insert(c).union(
                                    chunk.dirty_neighbours@.subrange(0, j as int).to_set().map(
                                        |d: ChunkCoords| offset(c, d),
                                    ),
                                ),
                            decreases chunk.dirty_neighbours@.len() - j,
                        {
                            let d = chunk.dirty_neighbours[j];
                            assert(chunk.dirty_set().contains(d));
                            let t = (c.0 + d.0, c.1 + d.1, c.2 + d.2);
                            let ghost prev_set = chunk.dirty_neighbours@.subrange(0, j as int).to_set();
                            insert_unique(&mut r, t);
                            j = j + 1;
                            assert(chunk.dirty_neighbours@.subrange(0, j as int).to_set() =~= prev_set.insert(d)) by {
                                assert(chunk.dirty_neighbours@.subrange(0, j as int) =~= chunk.dirty_neighbours@.subrange(0, j - 1).push(d));
                                chunk.dirty_neighbours@.subrange(0, j - 1).lemma_push_to_set_commute(d);
                            }
                            proof { prev_set.lemma_set_map_insert_commute(d, |d: ChunkCoords| offset(c, d)); }
                            assert(r@.to_set() =~= before.insert(c).union(
                                    chunk.dirty_neighbours@.subrange(0, j as int).to_set().map(
                                        |d: ChunkCoords| offset(c, d),
                                    ),
                                ));
                        }
                        assert(chunk.dirty_neighbours@.subrange(0, j as int) =~= chunk.dirty_neighbours@);
                        assert(r@.to_set() =~= before.union(chunk_targets(c, *chunk)));
                    } else {
                        assert(chunk_targets(c, *chunk) =~= Set::empty());
                        assert(r@.to_set() =~= before.union(chunk_targets(c, *chunk)));
                    }
                },
                None => {},
            }
            i = i + 1;
            assert(self.targets_upto(i as int) =~= before.union(chunk_targets(c, self@[c]))) by {
                assert forall|t: ChunkCoords| #[trigger] self.targets_upto(i as int).contains(t) implies before.union(chunk_targets(c, self@[c])).contains(t) by {
                    let k = choose|k: int| 0 <= k < i && chunk_targets(
                        self.loaded_coords@[k],
                        self@[self.loaded_coords@[k]],
                    ).contains(t);
                    if k < i - 1 {
                        assert(self.targets_upto(i - 1).contains(t));
                    }
                }
                assert forall|t: ChunkCoords| #[trigger] before.union(chunk_targets(c, self@[c])).contains(t) implies self.targets_upto(i as int).contains(t) by {
                    if before.contains(t) {
                        let k = choose|k: int| 0 <= k < i - 1 && chunk_targets(
                            self.loaded_coords@[k],
                            self@[self.loaded_coords@[k]],
                        ).contains(t);
                        assert(0 <= k < i);
                    } else {
                        assert(self.loaded_coords@[i - 1] == c);
                    }
                }
            }
        }
        assert(self.targets_upto(i as int) =~= self.dirty_coords()) by {
            assert forall|t: ChunkCoords| #[trigger] self.dirty_coords().contains(t) implies self.targets_upto(i as int).contains(t) by {
                let c = choose|c: ChunkCoords| self@.contains_key(c) && chunk_targets(c, self@[c]).contains(t);
                let k = choose|k: int| 0 <= k < self.loaded_coords@.len() && self.loaded_coords@[k] == c;
                assert(chunk_targets(self.loaded_coords@[k], self@[self.loaded_coords@[k]]).contains(t));
            }
            assert forall|t: ChunkCoords| #[trigger] self.targets_upto(i as int).contains(t) implies self.dirty_coords().contains(t) by {
                let k = choose|k: int| 0 <= k < i && chunk_targets(
                    self.loaded_coords@[k],
                    self@[self.loaded_coords@[k]],
                ).contains(t);
                let c = self.loaded_coords@[k];
                assert(self.loaded_coords@.contains(c));
                assert(self@.contains_key(c));
            }
        }
        r
    }

    /// Records that the chunk at `c` was rebuilt with `vertices` vertices:
    /// its geometry is current again.
    pub(crate) fn mark_rebuilt(&mut self, c: ChunkCoords, vertices: u32)
        requires
            old(self).wf(),
            old(self)@.contains_key(c),
        ensures
            final(self).wf(),
            final(self)@ == old(self)@.insert(c, final(self)@[c]),
            final(self)@[c]@ == old(self)@[c]@,
            !final(self)@[c].dirty,
            final(self)@[c].dirty_set() == Set::<ChunkCoords>::empty(),
            final(self)@[c].vertices_drawn == vertices,
    {
        let key = key_of(c);
        let ghost old_map = self.loaded_chunks@;
        assert(old(self).loaded_coords@.contains(c));
        let removed = self.loaded_chunks.remove(&key);
        match removed {
            Some(chunk) => {
                let mut chunk = chunk;
                chunk.clear_dirty();
                chunk.vertices_drawn = vertices;
                assert(chunk.dirty_set() =~= Set::<ChunkCoords>::empty());
                self.loaded_chunks.insert(key, chunk);
                assert(self.loaded_chunks@ =~= old_map.insert(key, chunk));
                assert forall|c2: ChunkCoords| c2 != c implies chunk_key(c2) != key by {
                    lemma_chunk_key_injective(c, c2);
                }
                assert(self@ =~= old(self)@.insert(c, chunk));
            },
            None => {},
        }
    }

    /// Which faces of the block at `(x, y, z)` must be drawn: those whose
    /// neighbouring cell is not solid, across chunk borders too.
    pub fn get_active_sides_of_block(&self, x: i32, y: i32, z: i32) -> (r: Sides)
        requires
            self.wf(),
        ensures
            r == self.active_sides(x as int, y as int, z as int),
    {
        let right = x == i32::MAX || !self.is_solid_block_at(x + 1, y, z);
        let left = x == i32::MIN || !self.is_solid_block_at(x - 1, y, z);
        let top = y == i32::MAX || !self.is_solid_block_at(x, y + 1, z);
        let bottom = y == i32::MIN || !self.is_solid_block_at(x, y - 1, z);
        let front = z == i32::MAX || !self.is_solid_block_at(x, y, z + 1);
        let back = z == i32::MIN || !self.is_solid_block_at(x, y, z - 1);
        (right, left, top, bottom, front, back)
    }
}

/// Floor division and Euclidean remainder by the chunk size.
fn split_coord(g: i32) -> (r: (i32, u32))
    ensures
        r.0 == chunk_of(g as int),
        r.1 == local_of(g as int),
        MIN_CHUNK_COORD <= r.0 <= MAX_CHUNK_COORD,
{
    // Shifting by 2^31, a multiple of the chunk size, keeps both the
    // remainder and the quotient's offset exact in unsigned arithmetic.
    let shifted = (g as i64 + 0x8000_0000) as u32;
    let size = CHUNK_SIZE;
    let q = shifted / size;
    let l = shifted % size;
    assert(q as int == chunk_of(g as int) + 0x800_0000 && l as int == local_of(g as int)) by {
        assert(shifted as int == g as int + 0x8000_0000);
        assert(size == 16);
    }
    ((q as i64 - 0x800_0000) as i32, l)
}

} // verus!
