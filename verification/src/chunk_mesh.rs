//! Face culling for chunk meshes: which block faces of a chunk can be seen.
use vstd::prelude::*;
use crate::chunk::{
    Block, World, CHUNK_W, CHUNK_H, CHUNK_D, in_chunk, block_index, spec_chunk_key, chunk_key,
};

verus! {

broadcast use vstd::std_specs::hash::group_hash_axioms;

/// Number of (block, face direction) slots in one chunk.
pub const FACE_SLOTS: usize = 98304;

/// One visible face: the world position of its block, the block, and the face direction
/// (0 = +Y, 1 = -Y, 2 = -Z, 3 = +Z, 4 = -X, 5 = +X).
#[derive(Debug, Clone, Copy, PartialEq, Eq, Structural)]
pub struct Face {
    pub x: i32,
    pub y: i32,
    pub z: i32,
    pub block: Block,
    pub dir: usize,
}

/// The world position of the neighbour across face `dir` of the block at (x, y, z).
pub open spec fn neighbour(x: int, y: int, z: int, dir: int) -> (int, int, int) {
    if dir == 0 {
        (x, y + 1, z)
    } else if dir == 1 {
        (x, y - 1, z)
    } else if dir == 2 {
        (x, y, z - 1)
    } else if dir == 3 {
        (x, y, z + 1)
    } else if dir == 4 {
        (x - 1, y, z)
    } else {
        (x + 1, y, z)
    }
}

/// A face of block `b` shows when the neighbour is transparent, except between two water blocks.
pub open spec fn face_shows(b: Block, nb: Block) -> bool {
    nb.spec_is_transparent() && !(b == Block::Water && nb == Block::Water)
}

/// Scan position of a face slot: y outermost, then z, then x, then the direction.
pub open spec fn slot_key(x: int, y: int, z: int, dir: int) -> int {
    ((y * 16 + z) * 16 + x) * 6 + dir
}

/// The face slot at scan position `n` of chunk (cx, cz) in `w`.
pub open spec fn slot_face(w: World, cx: int, cz: int, n: int) -> Face {
    let dir = n % 6;
    let x = (n / 6) % 16;
    let z = ((n / 6) / 16) % 16;
    let y = ((n / 6) / 16) / 16;
    Face {
        x: (cx * 16 + x) as i32,
        y: y as i32,
        z: (cz * 16 + z) as i32,
        block: w.chunk_at(cx, cz).block_at(x, y, z),
        dir: dir as usize,
    }
}

/// Whether a face slot is drawn: its block is not air and the face shows.
pub open spec fn slot_visible(w: World, f: Face) -> bool {
    let n = neighbour(f.x as int, f.y as int, f.z as int, f.dir as int);
    f.block != Block::Air && face_shows(f.block, w.block(n.0, n.1, n.2))
}

/// A face slot is drawn exactly when its block is not air and the block across the face is
/// air, leaves, or water against a block that is not water: no face is drawn against grass,
/// dirt, stone, sand or wood.
pub proof fn law_visible_face_neighbour(w: World, f: Face)
    ensures
        slot_visible(w, f) <==> ({
            let n = neighbour(f.x as int, f.y as int, f.z as int, f.dir as int);
            let nb = w.block(n.0, n.1, n.2);
            f.block != Block::Air && (nb == Block::Air || nb == Block::Leaves || (nb == Block::Water
                && f.block != Block::Water))
        }),
{
}

/// The visible faces among the first `n` face slots of chunk (cx, cz), in scan order.
pub open spec fn visible_prefix(w: World, cx: int, cz: int, n: nat) -> Seq<Face>
    decreases n,
{
    if n == 0 {
        Seq::empty()
    } else {
        let p = visible_prefix(w, cx, cz, (n - 1) as nat);
        let f = slot_face(w, cx, cz, n - 1);
        if slot_visible(w, f) {
            p.push(f)
        } else {
            p
        }
    }
}

proof fn lemma_slot_decode(x: int, y: int, z: int, dir: int)
    requires
        in_chunk(x, y, z),
        0 <= dir < 6,
    ensures
        slot_key(x, y, z, dir) % 6 == dir,
        (slot_key(x, y, z, dir) / 6) % 16 == x,
        ((slot_key(x, y, z, dir) / 6) / 16) % 16 == z,
        ((slot_key(x, y, z, dir) / 6) / 16) / 16 == y,
{
    let n = slot_key(x, y, z, dir);
    let m1 = (y * 16 + z) * 16 + x;
    let m2 = y * 16 + z;
    vstd::arithmetic::div_mod::lemma_fundamental_div_mod_converse(n, 6, m1, dir);
    vstd::arithmetic::div_mod::lemma_fundamental_div_mod_converse(m1, 16, m2, x);
    vstd::arithmetic::div_mod::lemma_fundamental_div_mod_converse(m2, 16, y, z);
}

/// The world coordinates of chunk (cx, cz) and of every neighbour of its non-air blocks fit
/// in `i32`: the chunk's first and last columns do, and a non-air block never sits on a side
/// whose outer neighbour would fall outside `i32`.
pub open spec fn faces_fit_i32(w: World, cx: int, cz: int) -> bool {
    &&& i32::MIN <= cx * 16 && cx * 16 + 15 <= i32::MAX
    &&& i32::MIN <= cz * 16 && cz * 16 + 15 <= i32::MAX
    &&& cx * 16 == i32::MIN ==> forall|y: int, z: int|
        #![trigger w.chunk_at(cx, cz).block_at(0, y, z)]
        in_chunk(0, y, z) ==> w.chunk_at(cx, cz).block_at(0, y, z) == Block::Air
    &&& cx * 16 + 15 == i32::MAX ==> forall|y: int, z: int|
        #![trigger w.chunk_at(cx, cz).block_at(15, y, z)]
        in_chunk(15, y, z) ==> w.chunk_at(cx, cz).block_at(15, y, z) == Block::Air
    &&& cz * 16 == i32::MIN ==> forall|x: int, y: int|
        #![trigger w.chunk_at(cx, cz).block_at(x, y, 0)]
        in_chunk(x, y, 0) ==> w.chunk_at(cx, cz).block_at(x, y, 0) == Block::Air
    &&& cz * 16 + 15 == i32::MAX ==> forall|x: int, y: int|
        #![trigger w.chunk_at(cx, cz).block_at(x, y, 15)]
        in_chunk(x, y, 15) ==> w.chunk_at(cx, cz).block_at(x, y, 15) == Block::Air
}

/// World coordinates of the neighbour across face `dir`.
fn neighbour_of(x: i32, y: i32, z: i32, dir: usize) -> (r: (i32, i32, i32))
    requires
        dir < 6,
        dir == 0 ==> y < i32::MAX,
        dir == 1 ==> y > i32::MIN,
        dir == 2 ==> z > i32::MIN,
        dir == 3 ==> z < i32::MAX,
        dir == 4 ==> x > i32::MIN,
        dir == 5 ==> x < i32::MAX,
    ensures
        (r.0 as int, r.1 as int, r.2 as int) == neighbour(x as int, y as int, z as int, dir as int),
{
    if dir == 0 {
        (x, y + 1, z)
    } else if dir == 1 {
        (x, y - 1, z)
    } else if dir == 2 {
        (x, y, z - 1)
    } else if dir == 3 {
        (x, y, z + 1)
    } else if dir == 4 {
        (x - 1, y, z)
    } else {
        (x + 1, y, z)
    }
}

/// The faces of chunk (cx, cz) that a mesh has to draw, in scan order (y, then z, then x,
/// then direction); `None` when the chunk is not loaded.  A face is drawn when its block is
/// not air and the neighbouring block, looked up across chunk borders, is transparent,
/// unless both are water.
pub fn visible_faces(world: &World, cx: i32, cz: i32) -> (r: Option<Vec<Face>>)
    requires
        world.wf(),
        world.has_chunk(cx as int, cz as int) ==> faces_fit_i32(*world, cx as int, cz as int),
    ensures
        r is None <==> !world.has_chunk(cx as int, cz as int),
        r matches Some(v) ==> v@ == visible_prefix(*world, cx as int, cz as int, FACE_SLOTS as nat),
{
    let key = chunk_key(cx, cz);
    let chunk = match world.chunks.get(&key) {
        Some(c) => c,
        None => {
            return None;
        },
    };
    let ghost w = *world;
    let wx0 = cx * CHUNK_W as i32;
    let wz0 = cz * CHUNK_D as i32;
    let mut faces: Vec<Face> = Vec::new();
    let mut y: usize = 0;
    while y < CHUNK_H
        invariant
            w == *world,
            world.wf(),
            world.has_chunk(cx as int, cz as int),
            *chunk == world.chunk_at(cx as int, cz as int),
            wx0 as int == cx * 16,
            wz0 as int == cz * 16,
            faces_fit_i32(w, cx as int, cz as int),
            y <= CHUNK_H,
            faces@ == visible_prefix(w, cx as int, cz as int, slot_key(0, y as int, 0, 0) as nat),
        decreases CHUNK_H - y,
    {
        let mut z: usize = 0;
        while z < CHUNK_D
            invariant
                w == *world,
                world.wf(),
                world.has_chunk(cx as int, cz as int),
                *chunk == world.chunk_at(cx as int, cz as int),
                wx0 as int == cx * 16,
                wz0 as int == cz * 16,
                faces_fit_i32(w, cx as int, cz as int),
                y < CHUNK_H,
                z <= CHUNK_D,
                faces@ == visible_prefix(w, cx as int, cz as int, slot_key(0, y as int, z as int, 0) as nat),
            decreases CHUNK_D - z,
        {
            let mut x: usize = 0;
            while x < CHUNK_W
                invariant
                    w == *world,
                    world.wf(),
                    world.has_chunk(cx as int, cz as int),
                    *chunk == world.chunk_at(cx as int, cz as int),
                    wx0 as int == cx * 16,
                    wz0 as int == cz * 16,
                    faces_fit_i32(w, cx as int, cz as int),
                    y < CHUNK_H,
                    z < CHUNK_D,
                    x <= CHUNK_W,
                    faces@ == visible_prefix(
                        w,
                        cx as int,
                        cz as int,
                        slot_key(x as int, y as int, z as int, 0) as nat,
                    ),
                decreases CHUNK_W - x,
            {
                let block = chunk.get(x, y, z);
                let wx = wx0 + x as i32;
                let wy = y as i32;
                let wz = wz0 + z as i32;
                let mut dir: usize = 0;
                while dir < 6
                    invariant
                        w == *world,
                        world.wf(),
                        world.has_chunk(cx as int, cz as int),
                        *chunk == world.chunk_at(cx as int, cz as int),
                        block == chunk.block_at(x as int, y as int, z as int),
                        wx as int == cx * 16 + x,
                        wy as int == y,
                        wz as int == cz * 16 + z,
                        faces_fit_i32(w, cx as int, cz as int),
                        y < CHUNK_H,
                        z < CHUNK_D,
                        x < CHUNK_W,
                        dir <= 6,
                        faces@ == visible_prefix(
                            w,
                            cx as int,
                            cz as int,
                            slot_key(x as int, y as int, z as int, dir as int) as nat,
                        ),
                    decreases 6 - dir,
                {
                    let ghost n = slot_key(x as int, y as int, z as int, dir as int);
                    proof {
                        lemma_slot_decode(x as int, y as int, z as int, dir as int);
                    }
                    let ghost f = slot_face(w, cx as int, cz as int, n);
                    assert(f == Face { x: wx, y: wy, z: wz, block, dir });
                    if block != Block::Air {
                        proof {
                            if x == 0 && cx * 16 == i32::MIN {
                                assert(w.chunk_at(cx as int, cz as int).block_at(0, y as int, z as int) == Block::Air);
                            }
                            if x == 15 && cx * 16 + 15 == i32::MAX {
                                assert(w.chunk_at(cx as int, cz as int).block_at(15, y as int, z as int) == Block::Air);
                            }
                            if z == 0 && cz * 16 == i32::MIN {
                                assert(w.chunk_at(cx as int, cz as int).block_at(x as int, y as int, 0) == Block::Air);
                            }
                            if z == 15 && cz * 16 + 15 == i32::MAX {
                                assert(w.chunk_at(cx as int, cz as int).block_at(x as int, y as int, 15) == Block::Air);
                            }
                        }
                        let (nx, ny, nz) = neighbour_of(wx, wy, wz, dir);
                        let nb = world.get_block(nx, ny, nz);
                        if nb.is_transparent() && !(block == Block::Water && nb == Block::Water) {
                            faces.push(Face { x: wx, y: wy, z: wz, block, dir });
                        }
                    }
                    dir = dir + 1;
                }
                x = x + 1;
            }
            z = z + 1;
        }
        y = y + 1;
    }
    Some(faces)
}

} // verus!
