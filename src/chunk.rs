use vstd::prelude::*;

verus! {

/// Cells along each edge of a chunk.
pub const CHUNK_SIZE: u32 = 16;

/// Cells in a chunk.
pub const CHUNK_VOLUME: u32 = 4096;

/// A voxel type. Air is the only transparent one.
#[derive(Copy, Clone, Debug, PartialEq, Eq, Hash, Structural)]
pub enum BlockID {
    Air,
    Dirt,
    Cobblestone,
    Obsidian,
    Grass,
}

impl BlockID {
    pub open spec fn transparent(self) -> bool {
        self == BlockID::Air
    }

    pub fn is_transparent(&self) -> (r: bool)
        ensures
            r == self.transparent(),
    {
        match self {
            BlockID::Air => true,
            _ => false,
        }
    }

    /// The block that a uniform draw `n` from `1..4` stands for.
    pub open spec fn spec_from_sample(n: u32) -> BlockID {
        if n == 1 {
            BlockID::Dirt
        } else if n == 2 {
            BlockID::Cobblestone
        } else if n == 3 {
            BlockID::Obsidian
        } else {
            BlockID::Air
        }
    }

    pub fn from_sample(n: u32) -> (r: BlockID)
        ensures
            r == Self::spec_from_sample(n),
    {
        match n {
            1 => BlockID::Dirt,
            2 => BlockID::Cobblestone,
            3 => BlockID::Obsidian,
            _ => BlockID::Air,
        }
    }
}

/// Relies on rand::thread_rng and rand::Rng::gen_range: the value drawn lies
/// in `lo..hi`. gen_range panics only on an empty range; thread_rng panics
/// only if the operating system cannot seed it, which no argument rules out.
#[verifier::external_body]
fn random_in_range(lo: u32, hi: u32) -> (r: u32)
    requires
        lo < hi,
    ensures
        lo <= r < hi,
{
    rand::Rng::gen_range(&mut rand::thread_rng(), lo..hi)
}

/// Position of local cell `(x, y, z)` in a chunk's block sequence.
pub open spec fn local_index(x: int, y: int, z: int) -> int {
    y * 256 + z * 16 + x
}

pub open spec fn in_chunk(x: int, y: int, z: int) -> bool {
    0 <= x < 16 && 0 <= y < 16 && 0 <= z < 16
}

/// The six face-adjacent chunk offsets.
pub open spec fn unit_offsets() -> Set<(i32, i32, i32)> {
    set![
        (1i32, 0i32, 0i32),
        (-1i32, 0i32, 0i32),
        (0i32, 1i32, 0i32),
        (0i32, -1i32, 0i32),
        (0i32, 0i32, 1i32),
        (0i32, 0i32, -1i32),
    ]
}

/// Neighbour offsets whose geometry an edit at local `(x, y, z)` may make
/// stale: one per axis on which the cell lies on the chunk's border.
pub open spec fn boundary_offsets(x: int, y: int, z: int) -> Set<(i32, i32, i32)> {
    Set::new(
        |o: (i32, i32, i32)|
            (x == 0 && o == (-1i32, 0i32, 0i32)) || (x == 15 && o == (1i32, 0i32, 0i32)) || (y == 0
                && o == (0i32, -1i32, 0i32)) || (y == 15 && o == (0i32, 1i32, 0i32)) || (z == 0 && o
                == (0i32, 0i32, -1i32)) || (z == 15 && o == (0i32, 0i32, 1i32)),
    )
}

/// Appends `t` to `v` unless `v` already holds it.
pub fn insert_unique(v: &mut Vec<(i32, i32, i32)>, t: (i32, i32, i32))
    ensures
        final(v)@.to_set() == old(v)@.to_set().insert(t),
        old(v)@.no_duplicates() ==> final(v)@.no_duplicates(),
{
    let mut i: usize = 0;
    while i < v.len()
        invariant
            i <= v@.len(),
            forall|k: int| 0 <= k < i ==> v@[k] != t,
        decreases v@.len() - i,
    {
        let p = v[i];
        if p.0 == t.0 && p.1 == t.1 && p.2 == t.2 {
            assert(v@.to_set().contains(t));
            assert(v@.to_set().insert(t) =~= v@.to_set());
            return;
        }
        i = i + 1;
    }
    v.push(t);
    assert(v@.to_set() =~= old(v)@.to_set().insert(t)) by {
        assert(forall|k: int| 0 <= k < old(v)@.len() ==> v@[k] == old(v)@[k]);
        assert(v@[old(v)@.len() as int] == t);
    }
}

/// A block stored at a local cell of a chunk is the block read back from
/// that cell.
pub proof fn lemma_set_then_get(before: Chunk, after: Chunk, x: int, y: int, z: int, b: BlockID)
    requires
        before.wf(),
        in_chunk(x, y, z),
        after@ == before@.update(local_index(x, y, z), b),
    ensures
        after.block_at(x, y, z) == b,
{
}

/// A 16x16x16 cube of blocks with its dirty-state bookkeeping.
pub struct Chunk {
    pub blocks: Vec<BlockID>,
    pub vertices_drawn: u32,
    pub dirty: bool,
    /// Offsets of the neighbouring chunks whose geometry may be stale, each
    /// listed once; read as the set `dirty_set`.
    pub dirty_neighbours: Vec<(i32, i32, i32)>,
}

impl View for Chunk {
    type V = Seq<BlockID>;

    /// The blocks, indexed by `local_index`.
    open spec fn view(&self) -> Seq<BlockID> {
        self.blocks@
    }
}

impl Chunk {
    pub open spec fn wf(&self) -> bool {
        &&& self@.len() == 4096
        &&& forall|o: (i32, i32, i32)| #[trigger]
            self.dirty_set().contains(o) ==> unit_offsets().contains(o)
    }

    /// The neighbour offsets recorded as possibly stale.
    pub open spec fn dirty_set(&self) -> Set<(i32, i32, i32)> {
        self.dirty_neighbours@.to_set()
    }

    /// What `random` promises of the chunk it makes.
    pub open spec fn random_solid(&self) -> bool {
        &&& self.wf()
        &&& forall|i: int|
            0 <= i < 4096 ==> {
                let b = #[trigger] self@[i];
                b == BlockID::Dirt || b == BlockID::Cobblestone || b == BlockID::Obsidian
            }
        &&& self.dirty
        &&& self.dirty_set() == unit_offsets()
        &&& self.vertices_drawn == 0
    }

    pub open spec fn block_at(&self, x: int, y: int, z: int) -> BlockID {
        self@[local_index(x, y, z)]
    }

    fn all_neighbours() -> (r: Vec<(i32, i32, i32)>)
        ensures
            r@.to_set() == unit_offsets(),
            r@.len() == 6,
    {
        let mut r: Vec<(i32, i32, i32)> = Vec::new();
        r.push((1, 0, 0));
        r.push((-1, 0, 0));
        r.push((0, 1, 0));
        r.push((0, -1, 0));
        r.push((0, 0, 1));
        r.push((0, 0, -1));
        assert(r@.to_set() =~= unit_offsets()) by {
            assert(r@[0] == (1i32, 0i32, 0i32));
            assert(r@[1] == (-1i32, 0i32, 0i32));
            assert(r@[2] == (0i32, 1i32, 0i32));
            assert(r@[3] == (0i32, -1i32, 0i32));
            assert(r@[4] == (0i32, 0i32, 1i32));
            assert(r@[5] == (0i32, 0i32, -1i32));
        }
        r
    }

    fn filled(block: BlockID) -> (r: Vec<BlockID>)
        ensures
            r@ == Seq::new(4096, |i: int| block),
    {
        let mut r: Vec<BlockID> = Vec::new();
        let mut i: u32 = 0;
        while i < CHUNK_VOLUME
            invariant
                i <= 4096,
                r@ == Seq::new(i as nat, |k: int| block),
            decreases 4096 - i,
        {
            r.push(block);
            i = i + 1;
            assert(r@ =~= Seq::new(i as nat, |k: int| block));
        }
        r
    }

    /// A chunk of air, clean, with all six neighbours recorded; they are
    /// collected for rebuilding once the chunk is first edited.
    pub fn empty() -> (r: Chunk)
        ensures
            r.wf(),
            r@ == Seq::new(4096, |i: int| BlockID::Air),
            !r.dirty,
            r.dirty_set() == unit_offsets(),
            r.vertices_drawn == 0,
    {
        Chunk {
            blocks: Self::filled(BlockID::Air),
            vertices_drawn: 0,
            dirty: false,
            dirty_neighbours: Self::all_neighbours(),
        }
    }

    /// A chunk filled with one block type; its geometry starts stale unless
    /// that type is air.
    pub fn full_of_block(block: BlockID) -> (r: Chunk)
        ensures
            r.wf(),
            r@ == Seq::new(4096, |i: int| block),
            r.dirty == !block.transparent(),
            r.dirty_set() == unit_offsets(),
            r.vertices_drawn == 0,
    {
        Chunk {
            blocks: Self::filled(block),
            vertices_drawn: 0,
            dirty: !block.is_transparent(),
            dirty_neighbours: Self::all_neighbours(),
        }
    }

    /// The chunk whose cell at position `i` holds the block that draw `i`
    /// stands for, with all six neighbours recorded; its geometry starts
    /// stale when some block is not air.
    pub fn from_samples(draws: &Vec<u32>) -> (r: Chunk)
        requires
            draws@.len() == 4096,
        ensures
            r.wf(),
            forall|i: int| 0 <= i < 4096 ==> #[trigger] r@[i] == BlockID::spec_from_sample(draws@[i]),
            r.dirty == exists|i: int| 0 <= i < 4096 && !(#[trigger] r@[i]).transparent(),
            r.dirty_set() == unit_offsets(),
            r.vertices_drawn == 0,
    {
        let mut blocks: Vec<BlockID> = Vec::new();
        let mut solid = false;
        let mut i: usize = 0;
        while i < draws.len()
            invariant
                draws@.len() == 4096,
                i <= 4096,
                blocks@.len() == i,
                forall|k: int| 0 <= k < i ==> #[trigger] blocks@[k] == BlockID::spec_from_sample(draws@[k]),
                solid == exists|k: int| 0 <= k < i && !(#[trigger] blocks@[k]).transparent(),
            decreases 4096 - i,
        {
            let b = BlockID::from_sample(draws[i]);
            let ghost prev = blocks@;
            let ghost was = solid;
            blocks.push(b);
            if !b.is_transparent() {
                solid = true;
            }
            i = i + 1;
            proof {
                assert(blocks@ == prev.push(b));
                if was {
                    let k0 = choose|k: int| 0 <= k < i - 1 && !(#[trigger] prev[k]).transparent();
                    assert(blocks@[k0] == prev[k0]);
                } else if !b.transparent() {
                    assert(blocks@[i - 1] == b);
                } else {
                    assert forall|k: int| 0 <= k < i implies (#[trigger] blocks@[k]).transparent() by {
                        if k < i - 1 {
                            assert(blocks@[k] == prev[k]);
                        }
                    }
                }
            }
        }
        Chunk { blocks, vertices_drawn: 0, dirty: solid, dirty_neighbours: Self::all_neighbours() }
    }

    /// A chunk of randomly chosen solid blocks (dirt, cobblestone or
    /// obsidian): one uniform draw from `1..4` per cell.
    pub fn random() -> (r: Chunk)
        ensures
            r.random_solid(),
    {
        let mut draws: Vec<u32> = Vec::new();
        let mut i: u32 = 0;
        while i < CHUNK_VOLUME
            invariant
                i <= 4096,
                draws@.len() == i,
                forall|k: int| 0 <= k < i ==> 1 <= #[trigger] draws@[k] < 4,
            decreases 4096 - i,
        {
            draws.push(random_in_range(1, 4));
            i = i + 1;
        }
        let r = Self::from_samples(&draws);
        assert(!r@[0].transparent());
        r
    }

    fn coords_to_index(x: usize, y: usize, z: usize) -> (r: usize)
        requires
            in_chunk(x as int, y as int, z as int),
        ensures
            r == local_index(x as int, y as int, z as int),
            r < 4096,
    {
        let size = CHUNK_SIZE as usize;
        assert(y * (size * size) + z * size + x < 4096) by (nonlinear_arith)
            requires
                size == 16,
                in_chunk(x as int, y as int, z as int),
        ;
        y * (size * size) + z * size + x
    }

    pub fn get_block(&self, x: usize, y: usize, z: usize) -> (r: BlockID)
        requires
            self.wf(),
            in_chunk(x as int, y as int, z as int),
        ensures
            r == self.block_at(x as int, y as int, z as int),
    {
        self.blocks[Self::coords_to_index(x, y, z)]
    }

    /// Records `o` among the possibly stale neighbours, once.
    fn mark_neighbour(&mut self, o: (i32, i32, i32))
        ensures
            final(self).dirty_set() == old(self).dirty_set().insert(o),
            final(self)@ == old(self)@,
            final(self).dirty == old(self).dirty,
            final(self).vertices_drawn == old(self).vertices_drawn,
    {
        insert_unique(&mut self.dirty_neighbours, o);
    }

    /// Stores `block` at local `(x, y, z)`, marks the chunk dirty and records
    /// the neighbours across any border the cell touches.
    pub fn set_block(&mut self, x: usize, y: usize, z: usize, block: BlockID)
        requires
            old(self).wf(),
            in_chunk(x as int, y as int, z as int),
        ensures
            final(self).wf(),
            final(self)@ == old(self)@.update(local_index(x as int, y as int, z as int), block),
            final(self).dirty,
            final(self).dirty_set() == old(self).dirty_set().union(
                boundary_offsets(x as int, y as int, z as int),
            ),
            final(self).vertices_drawn == old(self).vertices_drawn,
    {
        let idx = Self::coords_to_index(x, y, z);
        self.blocks.set(idx, block);
        self.dirty = true;
        let ghost s0 = self.dirty_set();

        if x == 0 {
            self.mark_neighbour((-1, 0, 0));
        } else if x == 15 {
            self.mark_neighbour((1, 0, 0));
        }
        let ghost s1 = self.dirty_set();
        if y == 0 {
            self.mark_neighbour((0, -1, 0));
        } else if y == 15 {
            self.mark_neighbour((0, 1, 0));
        }
        let ghost s2 = self.dirty_set();
        if z == 0 {
            self.mark_neighbour((0, 0, -1));
        } else if z == 15 {
            self.mark_neighbour((0, 0, 1));
        }
        assert(self.dirty_set() =~= s0.union(boundary_offsets(x as int, y as int, z as int)));
        assert forall|o: (i32, i32, i32)| #[trigger]
            self.dirty_set().contains(o) implies unit_offsets().contains(o) by {
            if boundary_offsets(x as int, y as int, z as int).contains(o) {
            } else {
                assert(old(self).dirty_set().contains(o));
            }
        }
    }

    /// Marks the geometry as current again.
    pub fn clear_dirty(&mut self)
        ensures
            final(self)@ == old(self)@,
            !final(self).dirty,
            final(self).dirty_set() == Set::<(i32, i32, i32)>::empty(),
            final(self).vertices_drawn == old(self).vertices_drawn,
    {
        self.dirty = false;
        self.dirty_neighbours.clear();
        assert(self.dirty_set() =~= Set::<(i32, i32, i32)>::empty());
    }
}

} // verus!
