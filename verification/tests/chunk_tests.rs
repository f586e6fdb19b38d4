use lilith::chunk::{
    chunk_key, floor_div, generate_chunk, hash2_bits, Block, Chunk, World, CHUNK_COLS, CHUNK_H,
};
use lilith::chunk_mesh::visible_faces;

fn flat(h: usize) -> (Vec<usize>, Vec<bool>) {
    (vec![h; CHUNK_COLS], vec![false; CHUNK_COLS])
}

#[test]
fn solid_and_transparent_blocks() {
    assert!(!Block::Air.is_solid());
    assert!(!Block::Water.is_solid());
    assert!(Block::Stone.is_solid());
    assert!(Block::Leaves.is_solid());
    assert!(Block::Air.is_transparent());
    assert!(Block::Leaves.is_transparent());
    assert!(Block::Water.is_transparent());
    assert!(!Block::Grass.is_transparent());
}

#[test]
fn empty_chunk_is_air_and_dirty() {
    let c = Chunk::empty();
    assert_eq!(c.get(0, 0, 0), Block::Air);
    assert_eq!(c.get(15, 63, 15), Block::Air);
    assert!(c.is_dirty());
}

#[test]
fn chunk_set_then_get() {
    let mut c = Chunk::empty();
    c.set_dirty(false);
    c.set(3, 10, 7, Block::Wood);
    assert_eq!(c.get(3, 10, 7), Block::Wood);
    assert_eq!(c.get(7, 10, 3), Block::Air);
    assert!(c.is_dirty());
}

#[test]
fn high_ground_is_grass_over_dirt_over_stone() {
    let (h, t) = flat(15);
    let c = generate_chunk(&h, &t);
    assert_eq!(c.get(0, 14, 0), Block::Grass);
    assert_eq!(c.get(0, 13, 0), Block::Dirt);
    assert_eq!(c.get(0, 12, 0), Block::Dirt);
    assert_eq!(c.get(0, 11, 0), Block::Stone);
    assert_eq!(c.get(0, 0, 0), Block::Stone);
    assert_eq!(c.get(0, 15, 0), Block::Air);
}

#[test]
fn low_ground_is_sand_under_water() {
    let (h, t) = flat(8);
    let c = generate_chunk(&h, &t);
    assert_eq!(c.get(5, 7, 5), Block::Sand);
    assert_eq!(c.get(5, 5, 5), Block::Sand);
    assert_eq!(c.get(5, 4, 5), Block::Stone);
    assert_eq!(c.get(5, 8, 5), Block::Water);
    assert_eq!(c.get(5, 9, 5), Block::Water);
    assert_eq!(c.get(5, 10, 5), Block::Air);
}

#[test]
fn tree_has_trunk_and_canopy() {
    let (h, mut t) = flat(12);
    t[0] = true;
    let c = generate_chunk(&h, &t);
    assert_eq!(c.get(0, 11, 0), Block::Grass);
    for y in 12..17 {
        assert_eq!(c.get(0, y, 0), Block::Wood);
    }
    assert_eq!(c.get(0, 17, 0), Block::Leaves);
    assert_eq!(c.get(1, 15, 1), Block::Leaves);
    assert_eq!(c.get(2, 17, 2), Block::Leaves);
    assert_eq!(c.get(3, 15, 0), Block::Air);
    assert_eq!(c.get(1, 18, 1), Block::Air);
}

#[test]
fn floor_div_rounds_down() {
    assert_eq!(floor_div(17, 16), (1, 1));
    assert_eq!(floor_div(-1, 16), (-1, 15));
    assert_eq!(floor_div(-16, 16), (-1, 0));
    assert_eq!(floor_div(-17, 16), (-2, 15));
    assert_eq!(floor_div(0, 16), (0, 0));
}

#[test]
fn chunk_keys_differ() {
    assert_ne!(chunk_key(0, 1), chunk_key(1, 0));
    assert_ne!(chunk_key(-1, 0), chunk_key(0, -1));
    assert_eq!(chunk_key(0, 0), 0x8000_0000);
}

#[test]
fn world_reads_what_was_written() {
    let mut w = World::new();
    let (h, t) = flat(10);
    w.ensure_chunk(0, 0, &h, &t);
    w.ensure_chunk(-1, 0, &h, &t);
    assert!(w.contains_chunk(0, 0));
    assert!(!w.contains_chunk(5, 5));
    assert_eq!(w.get_block(3, 9, 3), Block::Sand);
    assert_eq!(w.get_block(-1, 9, 3), Block::Sand);
    w.set_block(-1, 30, 3, Block::Stone);
    assert_eq!(w.get_block(-1, 30, 3), Block::Stone);
    assert_eq!(w.get_block(-1, 31, 3), Block::Air);
    // outside the height and in unloaded chunks nothing is stored
    w.set_block(3, CHUNK_H as i32, 3, Block::Stone);
    assert_eq!(w.get_block(3, CHUNK_H as i32, 3), Block::Air);
    w.set_block(100, 5, 100, Block::Stone);
    assert_eq!(w.get_block(100, 5, 100), Block::Air);
    assert_eq!(w.get_block(3, -1, 3), Block::Air);
}

#[test]
fn ensure_chunk_keeps_a_loaded_chunk() {
    let mut w = World::new();
    let (h, t) = flat(10);
    w.ensure_chunk(0, 0, &h, &t);
    w.set_block(0, 40, 0, Block::Wood);
    let (h2, t2) = flat(20);
    w.ensure_chunk(0, 0, &h2, &t2);
    assert_eq!(w.get_block(0, 40, 0), Block::Wood);
    assert_eq!(w.get_block(0, 15, 0), Block::Air);
}

#[test]
fn solid_box_check() {
    let mut w = World::new();
    let (h, t) = flat(10);
    w.ensure_chunk(0, 0, &h, &t);
    assert!(w.solid_in_box(1, 2, 9, 11, 1, 2));
    assert!(!w.solid_in_box(1, 2, 10, 12, 1, 2));
    assert!(!w.solid_in_box(2, 1, 0, 5, 0, 5));
}

#[test]
fn stale_chunks_lists_missing_and_dirty() {
    let mut w = World::new();
    let all = w.stale_chunks();
    assert_eq!(all.len(), 25);
    assert_eq!(all[0], (-2, -2));
    assert_eq!(all[1], (-2, -1));
    assert_eq!(all[24], (2, 2));
    let (h, t) = flat(10);
    for cx in -2..=2 {
        for cz in -2..=2 {
            w.ensure_chunk(cx, cz, &h, &t);
        }
    }
    let key = chunk_key(0, 0);
    for c in w.chunks.values_mut() {
        c.set_dirty(false);
    }
    assert!(w.stale_chunks().is_empty());
    w.set_block(1, 20, 1, Block::Stone);
    assert_eq!(w.stale_chunks(), vec![(0, 0)]);
    assert!(w.chunks.contains_key(&key));
}

#[test]
fn hash_of_columns() {
    assert_eq!(hash2_bits(0, 0), 0);
    assert_eq!(hash2_bits(1, 0), 2182407572);
    assert_eq!(hash2_bits(3, -7), 998471165);
    assert_eq!(hash2_bits(-100, 2000), 1156834437);
}

#[test]
fn faces_of_a_flat_chunk() {
    let mut w = World::new();
    assert!(visible_faces(&w, 0, 0).is_none());
    let (h, t) = flat(0);
    w.ensure_chunk(0, 0, &h, &t);
    // height 0: only water from 0 to 9; faces between water blocks are hidden
    w.set_block(5, 20, 5, Block::Stone);
    let faces = visible_faces(&w, 0, 0).unwrap();
    let stone: Vec<_> = faces.iter().filter(|f| f.block == Block::Stone).collect();
    assert_eq!(stone.len(), 6);
    assert_eq!((stone[0].x, stone[0].y, stone[0].z, stone[0].dir), (5, 20, 5, 0));
    // the water surface shows its top faces, and the bottom faces at y = 0 face the void
    let tops = faces.iter().filter(|f| f.block == Block::Water && f.dir == 0).count();
    assert_eq!(tops, 256);
    let bottoms = faces.iter().filter(|f| f.block == Block::Water && f.dir == 1).count();
    assert_eq!(bottoms, 256);
}
