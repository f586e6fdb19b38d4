//! Blocks, chunks and the voxel world.
//!
//! A chunk is a 16 x 64 x 16 column of blocks stored flat, layer by layer
//! (`y` outermost, then `z`, then `x`).  The world is a sparse map from chunk
//! coordinates to chunks.
use vstd::prelude::*;
use std::collections::HashMap;

verus! {

broadcast use vstd::std_specs::hash::group_hash_axioms;

pub const CHUNK_W: usize = 16;

pub const CHUNK_H: usize = 64;

pub const CHUNK_D: usize = 16;

/// Number of blocks in one chunk.
pub const CHUNK_VOL: usize = 16384;

/// Number of columns in one chunk.
pub const CHUNK_COLS: usize = 256;

/// A voxel type.
#[derive(Debug, Clone, Copy, PartialEq, Eq, Structural)]
pub enum Block {
    Air,
    Grass,
    Dirt,
    Stone,
    Sand,
    Wood,
    Leaves,
    Water,
}

impl Block {
    pub open spec fn spec_is_solid(self) -> bool {
        self != Block::Air && self != Block::Water
    }

    pub open spec fn spec_is_transparent(self) -> bool {
        self == Block::Air || self == Block::Leaves || self == Block::Water
    }

    /// Whether the block stops movement and rays: everything but air and water.
    pub fn is_solid(self) -> (r: bool)
        ensures
            r == self.spec_is_solid(),
    {
        match self {
            Block::Air | Block::Water => false,
            _ => true,
        }
    }

    /// Whether neighbouring faces stay visible through this block.
    pub fn is_transparent(self) -> (r: bool)
        ensures
            r == self.spec_is_transparent(),
    {
        match self {
            Block::Air | Block::Leaves | Block::Water => true,
            _ => false,
        }
    }
}

/// Only air, leaves and water let the faces behind them show, and only air and water are not
/// solid. Among the solid blocks only leaves are see-through: grass, dirt, stone, sand and
/// wood hide whatever is behind them.
pub proof fn law_transparent_blocks(b: Block)
    ensures
        b.spec_is_transparent() <==> (!b.spec_is_solid() || b == Block::Leaves),
        !b.spec_is_solid() <==> (b == Block::Air || b == Block::Water),
        b.spec_is_transparent() <==> (b == Block::Air || b == Block::Leaves || b == Block::Water),
        !Block::Grass.spec_is_transparent() && !Block::Dirt.spec_is_transparent()
            && !Block::Stone.spec_is_transparent() && !Block::Sand.spec_is_transparent()
            && !Block::Wood.spec_is_transparent(),
{
}

/// Whether local coordinates lie inside a chunk.
pub open spec fn in_chunk(x: int, y: int, z: int) -> bool {
    0 <= x < CHUNK_W as int && 0 <= y < CHUNK_H as int && 0 <= z < CHUNK_D as int
}

/// Flat position of a block inside a chunk.
pub open spec fn block_index(x: int, y: int, z: int) -> int {
    y * 256 + z * 16 + x
}

pub proof fn lemma_block_index(x: int, y: int, z: int)
    requires
        in_chunk(x, y, z),
    ensures
        0 <= block_index(x, y, z) < CHUNK_VOL as int,
{
}

pub proof fn lemma_block_index_injective(x1: int, y1: int, z1: int, x2: int, y2: int, z2: int)
    requires
        in_chunk(x1, y1, z1),
        in_chunk(x2, y2, z2),
        block_index(x1, y1, z1) == block_index(x2, y2, z2),
    ensures
        x1 == x2 && y1 == y2 && z1 == z2,
{
}

/// A 16 x 64 x 16 block column with a flag telling that its mesh is stale.
pub struct Chunk {
    blocks: Vec<Block>,
    dirty: bool,
}

impl View for Chunk {
    type V = Seq<Block>;

    closed spec fn view(&self) -> Seq<Block> {
        self.blocks@
    }
}

impl Chunk {
    /// Whether the chunk changed since its mesh was last built.
    pub closed spec fn dirty_flag(&self) -> bool {
        self.dirty
    }

    /// A chunk is well formed when it holds exactly one block per position.
    pub open spec fn wf(&self) -> bool {
        self@.len() == CHUNK_VOL as int
    }

    /// The block at local coordinates; air outside the chunk.
    pub open spec fn block_at(&self, x: int, y: int, z: int) -> Block {
        if in_chunk(x, y, z) {
            self@[block_index(x, y, z)]
        } else {
            Block::Air
        }
    }

    /// A chunk full of air, marked dirty.
    pub fn empty() -> (c: Self)
        ensures
            c.wf(),
            c.dirty_flag(),
            forall|i: int| 0 <= i < CHUNK_VOL as int ==> c@[i] == Block::Air,
    {
        let mut blocks: Vec<Block> = Vec::new();
        while blocks.len() < CHUNK_VOL
            invariant
                blocks@.len() <= CHUNK_VOL as int,
                forall|i: int| 0 <= i < blocks@.len() ==> blocks@[i] == Block::Air,
            decreases CHUNK_VOL - blocks@.len(),
        {
            blocks.push(Block::Air);
        }
        Chunk { blocks, dirty: true }
    }

    fn idx(x: usize, y: usize, z: usize) -> (i: usize)
        requires
            in_chunk(x as int, y as int, z as int),
        ensures
            i as int == block_index(x as int, y as int, z as int),
            i < CHUNK_VOL,
    {
        y * CHUNK_W * CHUNK_D + z * CHUNK_W + x
    }

    /// The block at local coordinates; air outside the chunk.
    pub fn get(&self, x: usize, y: usize, z: usize) -> (b: Block)
        requires
            self.wf(),
        ensures
            b == self.block_at(x as int, y as int, z as int),
    {
        if x >= CHUNK_W || y >= CHUNK_H || z >= CHUNK_D {
            Block::Air
        } else {
            self.blocks[Self::idx(x, y, z)]
        }
    }

    /// Writes a block at local coordinates and marks the chunk dirty;
    /// coordinates outside the chunk leave it untouched.
    pub fn set(&mut self, x: usize, y: usize, z: usize, b: Block)
        requires
            old(self).wf(),
        ensures
            final(self).wf(),
            in_chunk(x as int, y as int, z as int) ==> {
                &&& final(self)@ == old(self)@.update(block_index(x as int, y as int, z as int), b)
                &&& final(self).dirty_flag()
            },
            !in_chunk(x as int, y as int, z as int) ==> *final(self) == *old(self),
    {
        if x < CHUNK_W && y < CHUNK_H && z < CHUNK_D {
            let i = Self::idx(x, y, z);
            self.blocks.set(i, b);
            self.dirty = true;
        }
    }

    /// Whether the chunk changed since its mesh was last built.
    pub fn is_dirty(&self) -> (r: bool)
        ensures
            r == self.dirty_flag(),
    {
        self.dirty
    }

    /// Sets or clears the stale-mesh flag; the blocks stay as they are.
    pub fn set_dirty(&mut self, d: bool)
        ensures
            final(self)@ == old(self)@,
            final(self).dirty_flag() == d,
    {
        self.dirty = d;
    }
}


// ─────────────────────────────────────────────────────────────────
// Terrain generation
// ─────────────────────────────────────────────────────────────────

/// Position of local column (x, z) in the order in which columns are generated
/// (x outer, z inner); also its position in the height and tree tables.
pub open spec fn column_index(x: int, z: int) -> int {
    x * 16 + z
}

/// The block of a terrain column of height `h` at height `y < h`:
/// the top block is grass (sand below height 12), the next three are dirt
/// (sand below height 12), the rest stone.
pub open spec fn terrain_block(h: int, y: int) -> Block {
    if y == h - 1 {
        if h < 12 { Block::Sand } else { Block::Grass }
    } else if y > (if h >= 4 { h - 4 } else { 0 }) {
        if h < 12 { Block::Sand } else { Block::Dirt }
    } else {
        Block::Stone
    }
}

/// A column grows a tree when its tree roll succeeded and its ground is at height 12 or more.
pub open spec fn grows_tree(h: int, roll: bool) -> bool {
    roll && h >= 12
}

/// Whether the tree of column (sx, sz) puts leaves at height `y`: its canopy spans
/// heights h+3 to h+5 over the 3 x 3 columns starting at (sx, sz).
pub open spec fn leaf_layer(hs: Seq<usize>, ts: Seq<bool>, sx: int, sz: int, y: int) -> bool {
    let h = hs[column_index(sx, sz)] as int;
    &&& grows_tree(h, ts[column_index(sx, sz)])
    &&& h + 3 <= y < h + 6
    &&& y < CHUNK_H as int
}

/// Whether a tree of a column with generation index below `k` reaches (x, y, z) with its canopy.
pub open spec fn leaves_before(hs: Seq<usize>, ts: Seq<bool>, k: int, x: int, y: int, z: int) -> bool {
    exists|sx: int, sz: int|
        0 <= sx <= x && x - 2 <= sx && 0 <= sz <= z && z - 2 <= sz && column_index(sx, sz) < k
            && #[trigger] leaf_layer(hs, ts, sx, sz, y)
}

/// Whether any tree of the chunk reaches (x, y, z) with its canopy.
pub open spec fn leaves_reach(hs: Seq<usize>, ts: Seq<bool>, x: int, y: int, z: int) -> bool {
    leaves_before(hs, ts, CHUNK_COLS as int, x, y, z)
}

/// The block that generation puts at (x, y, z), given the ground height and the tree roll
/// of every column.  Ground wins over water, water over wood, wood over leaves.
pub open spec fn generated_block(hs: Seq<usize>, ts: Seq<bool>, x: int, y: int, z: int) -> Block {
    let c = column_index(x, z);
    let h = hs[c] as int;
    if y < h {
        terrain_block(h, y)
    } else if h < 10 && y < 10 {
        Block::Water
    } else if grows_tree(h, ts[c]) && y < h + 5 {
        Block::Wood
    } else if leaves_reach(hs, ts, x, y, z) {
        Block::Leaves
    } else {
        Block::Air
    }
}

/// The state of a chunk once the columns with generation index below `k` are done:
/// those columns hold their final blocks, the others only the leaves that earlier trees spread.
pub open spec fn partial_block(hs: Seq<usize>, ts: Seq<bool>, k: int, x: int, y: int, z: int) -> Block {
    if column_index(x, z) < k {
        generated_block(hs, ts, x, y, z)
    } else if leaves_before(hs, ts, k, x, y, z) {
        Block::Leaves
    } else {
        Block::Air
    }
}

pub open spec fn generation_state(hs: Seq<usize>, ts: Seq<bool>, k: int, s: Seq<Block>) -> bool {
    &&& s.len() == CHUNK_VOL as int
    &&& forall|x: int, y: int, z: int|
        in_chunk(x, y, z) ==> #[trigger] s[block_index(x, y, z)] == partial_block(hs, ts, k, x, y, z)
}

/// Whether (x, y, z) lies in the canopy of a tree standing on column (lx, lz) at height `h`.
pub open spec fn in_canopy(lx: int, lz: int, h: int, x: int, y: int, z: int) -> bool {
    lx <= x < lx + 3 && lz <= z < lz + 3 && h + 3 <= y < h + 6
}

proof fn lemma_leaves_reach_own_column(hs: Seq<usize>, ts: Seq<bool>, x: int, y: int, z: int)
    requires
        0 <= x < 16,
        0 <= z < 16,
    ensures
        leaves_reach(hs, ts, x, y, z) == leaves_before(hs, ts, column_index(x, z) + 1, x, y, z),
{
    if leaves_reach(hs, ts, x, y, z) {
        let (sx, sz) = choose|sx: int, sz: int|
            0 <= sx <= x && x - 2 <= sx && 0 <= sz <= z && z - 2 <= sz && column_index(sx, sz)
                < CHUNK_COLS as int && #[trigger] leaf_layer(hs, ts, sx, sz, y);
        assert(column_index(sx, sz) < column_index(x, z) + 1);
    }
    if leaves_before(hs, ts, column_index(x, z) + 1, x, y, z) {
        let (sx, sz) = choose|sx: int, sz: int|
            0 <= sx <= x && x - 2 <= sx && 0 <= sz <= z && z - 2 <= sz && column_index(sx, sz)
                < column_index(x, z) + 1 && #[trigger] leaf_layer(hs, ts, sx, sz, y);
        assert(column_index(sx, sz) < CHUNK_COLS as int);
    }
}

/// One generation step: the column (lx, lz) with index k gets its ground, water and tree.
proof fn lemma_column_step(
    hs: Seq<usize>,
    ts: Seq<bool>,
    lx: int,
    lz: int,
    s0: Seq<Block>,
    s3: Seq<Block>,
)
    requires
        hs.len() == CHUNK_COLS as int,
        ts.len() == CHUNK_COLS as int,
        0 <= lx < 16,
        0 <= lz < 16,
        generation_state(hs, ts, column_index(lx, lz), s0),
        s3.len() == CHUNK_VOL as int,
        forall|x: int, y: int, z: int|
            in_chunk(x, y, z) ==> #[trigger] s3[block_index(x, y, z)] == column_result(
                hs[column_index(lx, lz)] as int,
                ts[column_index(lx, lz)],
                lx,
                lz,
                x,
                y,
                z,
                s0[block_index(x, y, z)],
            ),
    ensures
        generation_state(hs, ts, column_index(lx, lz) + 1, s3),
{
    let k = column_index(lx, lz);
    let h = hs[k] as int;
    assert forall|x: int, y: int, z: int| in_chunk(x, y, z) implies #[trigger] s3[block_index(x, y, z)]
        == partial_block(hs, ts, k + 1, x, y, z) by {
        let c = column_index(x, z);
        let old_b = s0[block_index(x, y, z)];
        assert(old_b == partial_block(hs, ts, k, x, y, z));
        if c < k {
            assert(!(x == lx && z == lz));
            assert(!in_canopy(lx, lz, h, x, y, z));
        } else if c == k {
            assert(x == lx && z == lz);
            lemma_leaves_reach_own_column(hs, ts, x, y, z);
            if leaves_before(hs, ts, k + 1, x, y, z) && !leaves_before(hs, ts, k, x, y, z) {
                let (sx, sz) = choose|sx: int, sz: int|
                    0 <= sx <= x && x - 2 <= sx && 0 <= sz <= z && z - 2 <= sz && column_index(sx, sz)
                        < k + 1 && #[trigger] leaf_layer(hs, ts, sx, sz, y);
                assert(column_index(sx, sz) == k);
                assert(sx == lx && sz == lz);
            }
            if leaf_layer(hs, ts, lx, lz, y) {
                assert(leaves_before(hs, ts, k + 1, x, y, z));
            }
        } else {
            assert(!(x == lx && z == lz));
            if leaves_before(hs, ts, k + 1, x, y, z) && !leaves_before(hs, ts, k, x, y, z) {
                let (sx, sz) = choose|sx: int, sz: int|
                    0 <= sx <= x && x - 2 <= sx && 0 <= sz <= z && z - 2 <= sz && column_index(sx, sz)
                        < k + 1 && #[trigger] leaf_layer(hs, ts, sx, sz, y);
                assert(column_index(sx, sz) == k);
                assert(sx == lx && sz == lz);
            }
            if grows_tree(h, ts[k]) && in_canopy(lx, lz, h, x, y, z) {
                assert(leaf_layer(hs, ts, lx, lz, y));
                assert(leaves_before(hs, ts, k + 1, x, y, z));
            }
        }
    }
}

/// The ground part of processing column (lx, lz) of height h: ground below h, water
/// from h up to height 10; `b` elsewhere.
pub open spec fn ground_result(h: int, lx: int, lz: int, x: int, y: int, z: int, b: Block) -> Block {
    if x == lx && z == lz && y < h {
        terrain_block(h, y)
    } else if x == lx && z == lz && h < 10 && h <= y < 10 {
        Block::Water
    } else {
        b
    }
}

/// The trunk part of processing column (lx, lz): five wood blocks on top of the ground.
pub open spec fn wood_result(h: int, t: bool, lx: int, lz: int, x: int, y: int, z: int, b: Block) -> Block {
    if x == lx && z == lz && grows_tree(h, t) && h <= y < h + 5 {
        Block::Wood
    } else {
        b
    }
}

/// The canopy part of processing column (lx, lz): leaves where the canopy meets air.
pub open spec fn canopy_result(h: int, t: bool, lx: int, lz: int, x: int, y: int, z: int, b: Block) -> Block {
    if grows_tree(h, t) && in_canopy(lx, lz, h, x, y, z) && b == Block::Air {
        Block::Leaves
    } else {
        b
    }
}

/// What processing column (lx, lz), of ground height h and tree roll t, leaves at (x, y, z)
/// when `b` was there before.
pub open spec fn column_result(h: int, t: bool, lx: int, lz: int, x: int, y: int, z: int, b: Block) -> Block {
    canopy_result(h, t, lx, lz, x, y, z, wood_result(h, t, lx, lz, x, y, z, ground_result(h, lx, lz, x, y, z, b)))
}

/// Whether the canopy walk over (dx, dz, dy) offsets, in that nesting order, has passed (x, y, z).
pub open spec fn canopy_visited(lx: int, lz: int, h: int, dx: int, dz: int, dy: int, x: int, y: int, z: int) -> bool {
    x - lx < dx || (x - lx == dx && (z - lz < dz || (z - lz == dz && y - h < dy)))
}

/// Lays the ground of column (lx, lz): terrain below height h, water up to height 10.
fn fill_ground(chunk: &mut Chunk, lx: usize, lz: usize, h: usize)
    requires
        old(chunk).wf(),
        lx < CHUNK_W,
        lz < CHUNK_D,
    ensures
        final(chunk).wf(),
        old(chunk).dirty_flag() ==> final(chunk).dirty_flag(),
        forall|x: int, y: int, z: int|
            in_chunk(x, y, z) ==> #[trigger] final(chunk)@[block_index(x, y, z)] == ground_result(
                h as int,
                lx as int,
                lz as int,
                x,
                y,
                z,
                old(chunk)@[block_index(x, y, z)],
            ),
{
    let ghost s0 = chunk@;
    let top: usize = if h < CHUNK_H { h } else { CHUNK_H };
    let mut ly: usize = 0;
    while ly < top
        invariant
            chunk.wf(),
            s0.len() == CHUNK_VOL as int,
            old(chunk).dirty_flag() ==> chunk.dirty_flag(),
            lx < CHUNK_W,
            lz < CHUNK_D,
            ly <= top,
            top as int == if h < CHUNK_H { h as int } else { CHUNK_H as int },
            forall|x: int, y: int, z: int|
                in_chunk(x, y, z) ==> #[trigger] chunk@[block_index(x, y, z)] == if x == lx && z
                    == lz && y < ly {
                    terrain_block(h as int, y)
                } else {
                    s0[block_index(x, y, z)]
                },
        decreases top - ly,
    {
        let floor: usize = if h >= 4 { h - 4 } else { 0 };
        let b = if ly == h - 1 {
            if h < 12 { Block::Sand } else { Block::Grass }
        } else if ly > floor {
            if h < 12 { Block::Sand } else { Block::Dirt }
        } else {
            Block::Stone
        };
        let ghost before = chunk@;
        chunk.set(lx, ly, lz, b);
        assert forall|x: int, y: int, z: int| in_chunk(x, y, z) implies #[trigger] chunk@[block_index(x, y, z)]
            == if x == lx && z == lz && y < ly + 1 {
            terrain_block(h as int, y)
        } else {
            s0[block_index(x, y, z)]
        } by {
            if !(x == lx && y == ly && z == lz) {
                if block_index(x, y, z) == block_index(lx as int, ly as int, lz as int) {
                    lemma_block_index_injective(x, y, z, lx as int, ly as int, lz as int);
                }
                assert(chunk@[block_index(x, y, z)] == before[block_index(x, y, z)]);
            }
        }
        ly = ly + 1;
    }
    if h < 10 {
        let ghost s1 = chunk@;
        let mut ly: usize = h;
        while ly < 10
            invariant
                chunk.wf(),
                s0.len() == CHUNK_VOL as int,
                old(chunk).dirty_flag() ==> chunk.dirty_flag(),
                lx < CHUNK_W,
                lz < CHUNK_D,
                h < 10,
                h <= ly <= 10,
                forall|x: int, y: int, z: int|
                    in_chunk(x, y, z) ==> #[trigger] chunk@[block_index(x, y, z)] == if x == lx && z
                        == lz && y < h {
                        terrain_block(h as int, y)
                    } else if x == lx && z == lz && h <= y < ly {
                        Block::Water
                    } else {
                        s0[block_index(x, y, z)]
                    },
            decreases 10 - ly,
        {
            let ghost before = chunk@;
            chunk.set(lx, ly, lz, Block::Water);
            assert forall|x: int, y: int, z: int| in_chunk(x, y, z) implies #[trigger] chunk@[block_index(x, y, z)]
                == if x == lx && z == lz && y < h {
                terrain_block(h as int, y)
            } else if x == lx && z == lz && h <= y < ly + 1 {
                Block::Water
            } else {
                s0[block_index(x, y, z)]
            } by {
                if !(x == lx && y == ly && z == lz) {
                    if block_index(x, y, z) == block_index(lx as int, ly as int, lz as int) {
                        lemma_block_index_injective(x, y, z, lx as int, ly as int, lz as int);
                    }
                    assert(chunk@[block_index(x, y, z)] == before[block_index(x, y, z)]);
                }
            }
            ly = ly + 1;
        }
    }
}

/// Grows the tree of column (lx, lz) standing on ground of height h: a five-block trunk,
/// then leaves wherever its 3 x 3 x 3 canopy meets air.
fn plant_tree(chunk: &mut Chunk, lx: usize, lz: usize, h: usize)
    requires
        old(chunk).wf(),
        lx < CHUNK_W,
        lz < CHUNK_D,
        h >= 12,
    ensures
        final(chunk).wf(),
        old(chunk).dirty_flag() ==> final(chunk).dirty_flag(),
        forall|x: int, y: int, z: int|
            in_chunk(x, y, z) ==> #[trigger] final(chunk)@[block_index(x, y, z)] == canopy_result(
                h as int,
                true,
                lx as int,
                lz as int,
                x,
                y,
                z,
                wood_result(h as int, true, lx as int, lz as int, x, y, z, old(chunk)@[block_index(x, y, z)]),
            ),
{
    let ghost s0 = chunk@;
    let ty = h;
    let mut dy: usize = 0;
    while dy < 5
        invariant
            chunk.wf(),
            s0.len() == CHUNK_VOL as int,
            old(chunk).dirty_flag() ==> chunk.dirty_flag(),
            lx < CHUNK_W,
            lz < CHUNK_D,
            ty == h,
            h >= 12,
            dy <= 5,
            forall|x: int, y: int, z: int|
                in_chunk(x, y, z) ==> #[trigger] chunk@[block_index(x, y, z)] == if x == lx && z
                    == lz && h <= y < h + dy {
                    Block::Wood
                } else {
                    s0[block_index(x, y, z)]
                },
        decreases 5 - dy,
    {
        if ty < CHUNK_H - dy {
            let ghost before = chunk@;
            chunk.set(lx, ty + dy, lz, Block::Wood);
            assert forall|x: int, y: int, z: int| in_chunk(x, y, z) implies #[trigger] chunk@[block_index(x, y, z)]
                == if x == lx && z == lz && h <= y < h + dy + 1 {
                Block::Wood
            } else {
                s0[block_index(x, y, z)]
            } by {
                if !(x == lx && y == ty + dy && z == lz) {
                    if block_index(x, y, z) == block_index(lx as int, (ty + dy) as int, lz as int) {
                        lemma_block_index_injective(x, y, z, lx as int, (ty + dy) as int, lz as int);
                    }
                    assert(chunk@[block_index(x, y, z)] == before[block_index(x, y, z)]);
                }
            }
        }
        dy = dy + 1;
    }
    let ghost s1 = chunk@;
    assert forall|x: int, y: int, z: int| in_chunk(x, y, z) implies #[trigger] s1[block_index(x, y, z)]
        == wood_result(h as int, true, lx as int, lz as int, x, y, z, s0[block_index(x, y, z)]) by {}
    let mut dx: usize = 0;
    while dx < 3
        invariant
            chunk.wf(),
            s1.len() == CHUNK_VOL as int,
            old(chunk).dirty_flag() ==> chunk.dirty_flag(),
            lx < CHUNK_W,
            lz < CHUNK_D,
            ty == h,
            h >= 12,
            dx <= 3,
            forall|x: int, y: int, z: int|
                in_chunk(x, y, z) ==> #[trigger] chunk@[block_index(x, y, z)] == if in_canopy(
                    lx as int,
                    lz as int,
                    h as int,
                    x,
                    y,
                    z,
                ) && canopy_visited(lx as int, lz as int, h as int, dx as int, 0, 3, x, y, z)
                    && s1[block_index(x, y, z)] == Block::Air {
                    Block::Leaves
                } else {
                    s1[block_index(x, y, z)]
                },
        decreases 3 - dx,
    {
        let mut dz: usize = 0;
        while dz < 3
            invariant
                chunk.wf(),
                s1.len() == CHUNK_VOL as int,
                old(chunk).dirty_flag() ==> chunk.dirty_flag(),
                lx < CHUNK_W,
                lz < CHUNK_D,
                ty == h,
                h >= 12,
                dx < 3,
                dz <= 3,
                forall|x: int, y: int, z: int|
                    in_chunk(x, y, z) ==> #[trigger] chunk@[block_index(x, y, z)] == if in_canopy(
                        lx as int,
                        lz as int,
                        h as int,
                        x,
                        y,
                        z,
                    ) && canopy_visited(lx as int, lz as int, h as int, dx as int, dz as int, 3, x, y, z)
                        && s1[block_index(x, y, z)] == Block::Air {
                        Block::Leaves
                    } else {
                        s1[block_index(x, y, z)]
                    },
            decreases 3 - dz,
        {
            let mut dy: usize = 3;
            while dy < 6
                invariant
                    chunk.wf(),
                    s1.len() == CHUNK_VOL as int,
                    old(chunk).dirty_flag() ==> chunk.dirty_flag(),
                    lx < CHUNK_W,
                    lz < CHUNK_D,
                    ty == h,
                    h >= 12,
                    dx < 3,
                    dz < 3,
                    3 <= dy <= 6,
                    forall|x: int, y: int, z: int|
                        in_chunk(x, y, z) ==> #[trigger] chunk@[block_index(x, y, z)] == if in_canopy(
                            lx as int,
                            lz as int,
                            h as int,
                            x,
                            y,
                            z,
                        ) && canopy_visited(
                            lx as int,
                            lz as int,
                            h as int,
                            dx as int,
                            dz as int,
                            dy as int,
                            x,
                            y,
                            z,
                        ) && s1[block_index(x, y, z)] == Block::Air {
                            Block::Leaves
                        } else {
                            s1[block_index(x, y, z)]
                        },
                decreases 6 - dy,
            {
                let lx2 = lx + dx;
                let lz2 = lz + dz;
                if lx2 < CHUNK_W && lz2 < CHUNK_D && ty < CHUNK_H - dy {
                    let cur = chunk.get(lx2, ty + dy, lz2);
                    if cur == Block::Air {
                        let ghost before = chunk@;
                        chunk.set(lx2, ty + dy, lz2, Block::Leaves);
                        assert forall|x: int, y: int, z: int| in_chunk(x, y, z) && !(x == lx2 && y
                            == ty + dy && z == lz2) implies #[trigger] chunk@[block_index(x, y, z)]
                            == before[block_index(x, y, z)] by {
                            if block_index(x, y, z) == block_index(
                                lx2 as int,
                                (ty + dy) as int,
                                lz2 as int,
                            ) {
                                lemma_block_index_injective(
                                    x,
                                    y,
                                    z,
                                    lx2 as int,
                                    (ty + dy) as int,
                                    lz2 as int,
                                );
                            }
                        }
                    }
                }
                dy = dy + 1;
            }
            dz = dz + 1;
        }
        dx = dx + 1;
    }
}

/// Generates a chunk from the ground height and the tree roll of each of its 256 columns,
/// both indexed by `x * 16 + z`.  Column by column (x outer, z inner) it lays terrain, fills
/// water up to height 10 and, where a tree grows, sets a trunk and a canopy of leaves that
/// may reach into the next columns.
pub fn generate_chunk(heights: &Vec<usize>, trees: &Vec<bool>) -> (c: Chunk)
    requires
        heights@.len() == CHUNK_COLS as int,
        trees@.len() == CHUNK_COLS as int,
    ensures
        c.wf(),
        c.dirty_flag(),
        forall|x: int, y: int, z: int|
            in_chunk(x, y, z) ==> #[trigger] c@[block_index(x, y, z)] == generated_block(
                heights@,
                trees@,
                x,
                y,
                z,
            ),
{
    let ghost hs = heights@;
    let ghost ts = trees@;
    let mut chunk = Chunk::empty();
    assert(generation_state(hs, ts, 0, chunk@)) by {
        assert forall|x: int, y: int, z: int| in_chunk(x, y, z) implies #[trigger] chunk@[block_index(x, y, z)]
            == partial_block(hs, ts, 0, x, y, z) by {
            lemma_block_index(x, y, z);
        }
    }
    let mut lx: usize = 0;
    while lx < CHUNK_W
        invariant
            hs == heights@,
            ts == trees@,
            hs.len() == CHUNK_COLS as int,
            ts.len() == CHUNK_COLS as int,
            lx <= CHUNK_W,
            chunk.wf(),
            chunk.dirty_flag(),
            generation_state(hs, ts, column_index(lx as int, 0), chunk@),
        decreases CHUNK_W - lx,
    {
        let mut lz: usize = 0;
        while lz < CHUNK_D
            invariant
                hs == heights@,
                ts == trees@,
                hs.len() == CHUNK_COLS as int,
                ts.len() == CHUNK_COLS as int,
                lx < CHUNK_W,
                lz <= CHUNK_D,
                chunk.wf(),
                chunk.dirty_flag(),
                generation_state(hs, ts, column_index(lx as int, lz as int), chunk@),
            decreases CHUNK_D - lz,
        {
            let c = lx * CHUNK_D + lz;
            let h = heights[c];
            let t = trees[c];
            let ghost s0 = chunk@;
            fill_ground(&mut chunk, lx, lz, h);
            let ghost s1 = chunk@;
            if h >= 12 && t {
                plant_tree(&mut chunk, lx, lz, h);
            }
            proof {
                assert forall|x: int, y: int, z: int| in_chunk(x, y, z) implies #[trigger] chunk@[block_index(
                    x,
                    y,
                    z,
                )] == column_result(
                    hs[column_index(lx as int, lz as int)] as int,
                    ts[column_index(lx as int, lz as int)],
                    lx as int,
                    lz as int,
                    x,
                    y,
                    z,
                    s0[block_index(x, y, z)],
                ) by {
                    assert(s1[block_index(x, y, z)] == ground_result(
                        h as int,
                        lx as int,
                        lz as int,
                        x,
                        y,
                        z,
                        s0[block_index(x, y, z)],
                    ));
                }
                lemma_column_step(hs, ts, lx as int, lz as int, s0, chunk@);
            }
            lz = lz + 1;
        }
        lx = lx + 1;
    }
    assert forall|x: int, y: int, z: int| in_chunk(x, y, z) implies #[trigger] chunk@[block_index(x, y, z)]
        == generated_block(hs, ts, x, y, z) by {
        assert(chunk@[block_index(x, y, z)] == partial_block(hs, ts, CHUNK_COLS as int, x, y, z));
    }
    chunk
}

// ─────────────────────────────────────────────────────────────────
// World
// ─────────────────────────────────────────────────────────────────

/// Map key of chunk (cx, cz): cx in the high 32 bits, cz shifted to be non-negative in the low ones.
pub open spec fn spec_chunk_key(cx: int, cz: int) -> int {
    cx * 0x1_0000_0000 + (cz + 0x8000_0000)
}

/// The map key under which the world keeps chunk (cx, cz).
pub fn chunk_key(cx: i32, cz: i32) -> (k: i64)
    ensures
        k as int == spec_chunk_key(cx as int, cz as int),
{
    (cx as i64) * 0x1_0000_0000i64 + ((cz as i64) + 0x8000_0000i64)
}

/// Distinct chunk coordinates have distinct keys.
pub proof fn lemma_chunk_key_injective(cx1: i32, cz1: i32, cx2: i32, cz2: i32)
    requires
        spec_chunk_key(cx1 as int, cz1 as int) == spec_chunk_key(cx2 as int, cz2 as int),
    ensures
        cx1 == cx2 && cz1 == cz2,
{
    if cx1 != cx2 {
        if cx1 < cx2 {
            assert(cx1 * 0x1_0000_0000 + 0x1_0000_0000 <= cx2 * 0x1_0000_0000) by (nonlinear_arith)
                requires
                    cx1 < cx2,
            ;
        } else {
            assert(cx2 * 0x1_0000_0000 + 0x1_0000_0000 <= cx1 * 0x1_0000_0000) by (nonlinear_arith)
                requires
                    cx2 < cx1,
            ;
        }
    }
}

proof fn lemma_floor_quotient_bounds(x: int, d: int, q: int, r: int)
    requires
        x == d * q + r,
        0 <= r < d,
        d >= 1,
    ensures
        x >= 0 ==> 0 <= q <= x,
        x < 0 ==> x <= q < 0,
{
    if x >= 0 {
        assert(0 <= q <= x) by (nonlinear_arith)
            requires
                x == d * q + r,
                0 <= r < d,
                d >= 1,
                x >= 0,
        ;
    } else {
        assert(x <= q < 0) by (nonlinear_arith)
            requires
                x == d * q + r,
                0 <= r < d,
                d >= 1,
                x < 0,
        ;
    }
}

/// Splits `a` into the floor quotient and the non-negative remainder of the division by `b`.
pub fn floor_div(a: i32, b: i32) -> (r: (i32, i32))
    requires
        b > 0,
    ensures
        r.0 as int == a as int / b as int,
        r.1 as int == a as int % b as int,
{
    let d = match a.checked_div_euclid(b) {
        Some(d) => d,
        None => 0,
    };
    let m = match a.checked_rem_euclid(b) {
        Some(m) => m,
        None => 0,
    };
    proof {
        vstd::arithmetic::div_mod::lemma_fundamental_div_mod(a as int, b as int);
        vstd::arithmetic::div_mod::lemma_mod_bound(a as int, b as int);
        lemma_floor_quotient_bounds(a as int, b as int, a as int / b as int, a as int % b as int);
    }
    (d, m)
}

/// A sparse world of chunks, keyed by `chunk_key`.
pub struct World {
    pub chunks: HashMap<i64, Chunk>,
}

impl World {
    /// Every chunk of the world is well formed.
    pub open spec fn wf(&self) -> bool {
        forall|k: i64| #[trigger] self.chunks@.contains_key(k) ==> self.chunks@[k].wf()
    }

    pub open spec fn has_chunk(&self, cx: int, cz: int) -> bool {
        self.chunks@.contains_key(spec_chunk_key(cx, cz) as i64)
    }

    pub open spec fn chunk_at(&self, cx: int, cz: int) -> Chunk {
        self.chunks@[spec_chunk_key(cx, cz) as i64]
    }

    /// The block at world coordinates: air above and below the world and in chunks not loaded.
    pub open spec fn block(&self, wx: int, wy: int, wz: int) -> Block {
        if wy < 0 || wy >= CHUNK_H as int {
            Block::Air
        } else if self.has_chunk(wx / 16, wz / 16) {
            self.chunk_at(wx / 16, wz / 16).block_at(wx % 16, wy, wz % 16)
        } else {
            Block::Air
        }
    }

    /// A world without chunks.
    pub fn new() -> (w: Self)
        ensures
            w.wf(),
            w.chunks@ == Map::<i64, Chunk>::empty(),
    {
        World { chunks: HashMap::new() }
    }

    /// Whether chunk (cx, cz) is loaded.
    pub fn contains_chunk(&self, cx: i32, cz: i32) -> (r: bool)
        ensures
            r == self.has_chunk(cx as int, cz as int),
    {
        let key = chunk_key(cx, cz);
        self.chunks.contains_key(&key)
    }

    /// Loads chunk (cx, cz) if it is missing, generating it from the given column heights
    /// and tree rolls (see `generate_chunk`); a loaded chunk is kept as it is.
    pub fn ensure_chunk(&mut self, cx: i32, cz: i32, heights: &Vec<usize>, trees: &Vec<bool>)
        requires
            old(self).wf(),
            heights@.len() == CHUNK_COLS as int,
            trees@.len() == CHUNK_COLS as int,
        ensures
            final(self).wf(),
            old(self).has_chunk(cx as int, cz as int) ==> final(self).chunks@ == old(self).chunks@,
            !old(self).has_chunk(cx as int, cz as int) ==> {
                &&& final(self).chunks@ == old(self).chunks@.insert(
                    spec_chunk_key(cx as int, cz as int) as i64,
                    final(self).chunk_at(cx as int, cz as int),
                )
                &&& final(self).chunk_at(cx as int, cz as int).dirty_flag()
                &&& forall|x: int, y: int, z: int|
                    in_chunk(x, y, z) ==> #[trigger] final(self).chunk_at(cx as int, cz as int)@[block_index(
                        x,
                        y,
                        z,
                    )] == generated_block(heights@, trees@, x, y, z)
            },
    {
        let key = chunk_key(cx, cz);
        if !self.chunks.contains_key(&key) {
            let c = generate_chunk(heights, trees);
            self.chunks.insert(key, c);
        }
    }

    /// The block at world coordinates; air outside the world's height and in chunks not loaded.
    pub fn get_block(&self, wx: i32, wy: i32, wz: i32) -> (b: Block)
        requires
            self.wf(),
        ensures
            b == self.block(wx as int, wy as int, wz as int),
    {
        if wy < 0 || wy >= CHUNK_H as i32 {
            return Block::Air;
        }
        let (cx, lx) = floor_div(wx, CHUNK_W as i32);
        let (cz, lz) = floor_div(wz, CHUNK_D as i32);
        let key = chunk_key(cx, cz);
        match self.chunks.get(&key) {
            Some(c) => c.get(lx as usize, wy as usize, lz as usize),
            None => Block::Air,
        }
    }

    /// Writes a block at world coordinates into its chunk and marks that chunk dirty;
    /// positions outside the world's height or in chunks not loaded are ignored.
    pub fn set_block(&mut self, wx: i32, wy: i32, wz: i32, b: Block)
        requires
            old(self).wf(),
        ensures
            final(self).wf(),
            set_block_result(*old(self), *final(self), wx as int, wy as int, wz as int, b),
    {
        if wy < 0 || wy >= CHUNK_H as i32 {
            return;
        }
        let (cx, lx) = floor_div(wx, CHUNK_W as i32);
        let (cz, lz) = floor_div(wz, CHUNK_D as i32);
        let key = chunk_key(cx, cz);
        let ghost m0 = self.chunks@;
        let removed = self.chunks.remove(&key);
        match removed {
            Some(mut chunk) => {
                assert(m0.contains_key(key) && chunk == m0[key]);
                chunk.set(lx as usize, wy as usize, lz as usize, b);
                self.chunks.insert(key, chunk);
                assert(self.chunks@ =~= m0.insert(key, chunk));
            },
            None => {
                assert(self.chunks@ =~= m0);
            },
        }
    }
}

impl World {
    /// Whether some block in the box x0..=x1, y0..=y1, z0..=z1 (world coordinates, bounds
    /// included; empty when a lower bound exceeds its upper bound) is solid.
    pub fn solid_in_box(&self, x0: i32, x1: i32, y0: i32, y1: i32, z0: i32, z1: i32) -> (r: bool)
        requires
            self.wf(),
        ensures
            r == exists|bx: int, by: int, bz: int|
                x0 <= bx <= x1 && y0 <= by <= y1 && z0 <= bz <= z1 && #[trigger] self.block(
                    bx,
                    by,
                    bz,
                ).spec_is_solid(),
    {
        if x0 > x1 || y0 > y1 || z0 > z1 {
            return false;
        }
        let mut bx = x0;
        loop
            invariant
                self.wf(),
                x0 <= bx <= x1,
                y0 <= y1,
                z0 <= z1,
                forall|px: int, py: int, pz: int|
                    x0 <= px < bx && y0 <= py <= y1 && z0 <= pz <= z1 ==> !(#[trigger] self.block(
                        px,
                        py,
                        pz,
                    ).spec_is_solid()),
            ensures
                forall|px: int, py: int, pz: int|
                    x0 <= px <= x1 && y0 <= py <= y1 && z0 <= pz <= z1 ==> !(#[trigger] self.block(
                        px,
                        py,
                        pz,
                    ).spec_is_solid()),
            decreases x1 - bx,
        {
            let mut by = y0;
            loop
                invariant
                    self.wf(),
                    x0 <= bx <= x1,
                    y0 <= by <= y1,
                    z0 <= z1,
                    forall|px: int, py: int, pz: int|
                        (x0 <= px < bx && y0 <= py <= y1 && z0 <= pz <= z1) || (px == bx && y0 <= py
                            < by && z0 <= pz <= z1) ==> !(#[trigger] self.block(px, py, pz).spec_is_solid()),
                ensures
                    forall|px: int, py: int, pz: int|
                        (x0 <= px < bx && y0 <= py <= y1 && z0 <= pz <= z1) || (px == bx && y0 <= py
                            <= y1 && z0 <= pz <= z1) ==> !(#[trigger] self.block(px, py, pz).spec_is_solid()),
                decreases y1 - by,
            {
                let mut bz = z0;
                loop
                    invariant
                        self.wf(),
                        x0 <= bx <= x1,
                        y0 <= by <= y1,
                        z0 <= bz <= z1,
                        forall|px: int, py: int, pz: int|
                            (x0 <= px < bx && y0 <= py <= y1 && z0 <= pz <= z1) || (px == bx && y0 <= py
                                < by && z0 <= pz <= z1) || (px == bx && py == by && z0 <= pz < bz)
                                ==> !(#[trigger] self.block(px, py, pz).spec_is_solid()),
                    ensures
                        forall|px: int, py: int, pz: int|
                            (x0 <= px < bx && y0 <= py <= y1 && z0 <= pz <= z1) || (px == bx && y0 <= py
                                < by && z0 <= pz <= z1) || (px == bx && py == by && z0 <= pz <= z1)
                                ==> !(#[trigger] self.block(px, py, pz).spec_is_solid()),
                    decreases z1 - bz,
                {
                    if self.get_block(bx, by, bz).is_solid() {
                        return true;
                    }
                    if bz == z1 {
                        break;
                    }
                    bz = bz + 1;
                }
                if by == y1 {
                    break;
                }
                by = by + 1;
            }
            if bx == x1 {
                break;
            }
            bx = bx + 1;
        }
        false
    }
}

/// Whether the chunk at (cx, cz) needs a new mesh: it is not loaded yet, or it is dirty.
pub open spec fn needs_mesh(w: World, cx: int, cz: int) -> bool {
    !w.has_chunk(cx, cz) || w.chunk_at(cx, cz).dirty_flag()
}

/// Chunk coordinates of the i-th position of the 5 x 5 area around the origin
/// (cx outer, cz inner, both from -2 to 2).
pub open spec fn area_coord(i: int) -> (i32, i32) {
    ((i / 5 - 2) as i32, (i % 5 - 2) as i32)
}

/// The coordinates among the first `n` positions of the area that need a new mesh, in order.
pub open spec fn stale_prefix(w: World, n: nat) -> Seq<(i32, i32)>
    decreases n,
{
    if n == 0 {
        Seq::empty()
    } else {
        let p = stale_prefix(w, (n - 1) as nat);
        let c = area_coord(n - 1);
        if needs_mesh(w, c.0 as int, c.1 as int) {
            p.push(c)
        } else {
            p
        }
    }
}

impl World {
    /// The chunks of the 5 x 5 area around the origin that need a new mesh: those not loaded
    /// yet and those marked dirty, with cx outer and cz inner, both from -2 to 2.
    pub fn stale_chunks(&self) -> (r: Vec<(i32, i32)>)
        ensures
            r@ == stale_prefix(*self, 25),
    {
        let mut out: Vec<(i32, i32)> = Vec::new();
        let mut cx: i32 = -2;
        while cx <= 2
            invariant
                -2 <= cx <= 3,
                out@ == stale_prefix(*self, ((cx + 2) * 5) as nat),
            decreases 3 - cx,
        {
            let mut cz: i32 = -2;
            while cz <= 2
                invariant
                    -2 <= cx <= 2,
                    -2 <= cz <= 3,
                    out@ == stale_prefix(*self, ((cx + 2) * 5 + cz + 2) as nat),
                decreases 3 - cz,
            {
                let ghost i = (cx + 2) * 5 + cz + 2;
                proof {
                    vstd::arithmetic::div_mod::lemma_fundamental_div_mod_converse(i, 5, cx + 2, cz + 2);
                }
                assert(area_coord(i) == (cx, cz));
                let key = chunk_key(cx, cz);
                match self.chunks.get(&key) {
                    Some(c) => {
                        if c.is_dirty() {
                            out.push((cx, cz));
                        }
                    },
                    None => {
                        out.push((cx, cz));
                    },
                }
                cz = cz + 1;
            }
            cx = cx + 1;
        }
        out
    }
}

/// The integer core of the terrain noise: a hash of a column's world coordinates.
pub open spec fn spec_hash2_bits(x: i32, z: i32) -> u32 {
    let h = (x.wrapping_mul(374761393i32).wrapping_add(z.wrapping_mul(668265263i32))) as u32;
    let h = h ^ (h >> 13u32);
    h.wrapping_mul(1274126177u32) ^ (h >> 16u32)
}

/// Hashes world column coordinates to 32 bits; the terrain noise divides it by `u32::MAX`.
pub fn hash2_bits(x: i32, z: i32) -> (r: u32)
    ensures
        r == spec_hash2_bits(x, z),
{
    let h = (x.wrapping_mul(374761393i32).wrapping_add(z.wrapping_mul(668265263i32))) as u32;
    let h = h ^ (h >> 13u32);
    h.wrapping_mul(1274126177u32) ^ (h >> 16u32)
}

/// How `set_block` changes the world: inside the world's height and a loaded chunk,
/// that chunk gets the block and is marked dirty; otherwise nothing changes.
pub open spec fn set_block_result(w0: World, w1: World, wx: int, wy: int, wz: int, b: Block) -> bool {
    let cx = wx / 16;
    let cz = wz / 16;
    if 0 <= wy < CHUNK_H as int && w0.has_chunk(cx, cz) {
        &&& w1.chunks@ == w0.chunks@.insert(spec_chunk_key(cx, cz) as i64, w1.chunk_at(cx, cz))
        &&& w1.chunk_at(cx, cz)@ == w0.chunk_at(cx, cz)@.update(block_index(wx % 16, wy, wz % 16), b)
        &&& w1.chunk_at(cx, cz).dirty_flag()
    } else {
        w1.chunks@ == w0.chunks@
    }
}

/// Reading a world position after `set_block` gives the block written when that position is
/// inside the world's height and in a loaded chunk, and air otherwise; every other position
/// reads as before.
pub proof fn law_set_block_then_block(
    w0: World,
    w1: World,
    wx: i32,
    wy: i32,
    wz: i32,
    b: Block,
    qx: i32,
    qy: i32,
    qz: i32,
)
    requires
        w0.wf(),
        set_block_result(w0, w1, wx as int, wy as int, wz as int, b),
    ensures
        (qx == wx && qy == wy && qz == wz) ==> w1.block(qx as int, qy as int, qz as int) == if 0
            <= wy < CHUNK_H as int && w0.has_chunk(wx / 16, wz / 16) {
            b
        } else {
            Block::Air
        },
        !(qx == wx && qy == wy && qz == wz) ==> w1.block(qx as int, qy as int, qz as int) == w0.block(
            qx as int,
            qy as int,
            qz as int,
        ),
{
    let cx = wx as int / 16;
    let cz = wz as int / 16;
    let qcx = qx as int / 16;
    let qcz = qz as int / 16;
    lemma_quotient_in_i32(wx);
    lemma_quotient_in_i32(wz);
    lemma_quotient_in_i32(qx);
    lemma_quotient_in_i32(qz);
    if 0 <= wy < CHUNK_H as int && w0.has_chunk(cx, cz) {
        let key = spec_chunk_key(cx, cz) as i64;
        let qkey = spec_chunk_key(qcx, qcz) as i64;
        if qcx == cx && qcz == cz {
            if 0 <= qy < CHUNK_H as int && !(qx == wx && qy == wy && qz == wz) {
                vstd::arithmetic::div_mod::lemma_fundamental_div_mod(wx as int, 16);
                vstd::arithmetic::div_mod::lemma_fundamental_div_mod(qx as int, 16);
                vstd::arithmetic::div_mod::lemma_fundamental_div_mod(wz as int, 16);
                vstd::arithmetic::div_mod::lemma_fundamental_div_mod(qz as int, 16);
                vstd::arithmetic::div_mod::lemma_mod_bound(wx as int, 16);
                vstd::arithmetic::div_mod::lemma_mod_bound(qx as int, 16);
                vstd::arithmetic::div_mod::lemma_mod_bound(wz as int, 16);
                vstd::arithmetic::div_mod::lemma_mod_bound(qz as int, 16);
                if block_index(qx as int % 16, qy as int, qz as int % 16) == block_index(
                    wx as int % 16,
                    wy as int,
                    wz as int % 16,
                ) {
                    lemma_block_index_injective(
                        qx as int % 16,
                        qy as int,
                        qz as int % 16,
                        wx as int % 16,
                        wy as int,
                        wz as int % 16,
                    );
                }
            }
        } else {
            if qkey == key {
                lemma_chunk_key_injective(qcx as i32, qcz as i32, cx as i32, cz as i32);
            }
            assert(w1.chunks@.contains_key(qkey) == w0.chunks@.contains_key(qkey));
        }
    }
}

proof fn lemma_quotient_in_i32(a: i32)
    ensures
        i32::MIN <= a as int / 16 <= i32::MAX,
        0 <= a as int % 16 < 16,
{
    vstd::arithmetic::div_mod::lemma_fundamental_div_mod(a as int, 16);
    vstd::arithmetic::div_mod::lemma_mod_bound(a as int, 16);
    lemma_floor_quotient_bounds(a as int, 16, a as int / 16, a as int % 16);
}

} // verus!
