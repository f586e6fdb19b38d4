//! The layout of the glyph atlas that text is drawn from: which characters it holds, where
//! each character's cell lies, and how glyph coverage lands in its pixels.
use vstd::prelude::*;

verus! {

/// Cells per atlas row.
pub const ATLAS_COLS: u32 = 32;

/// Width of one glyph cell in pixels.
pub const CELL_W: u32 = 54;

/// Height of one glyph cell in pixels.
pub const CELL_H: u32 = 58;

/// Number of characters in the atlas.
pub const ATLAS_GLYPHS: usize = 287;

/// The code point of the atlas's `i`-th character: printable ASCII (0x20 to 0x7E), then the
/// hiragana and katakana blocks (0x3040 to 0x30FF).
pub open spec fn atlas_code(i: int) -> int {
    if i < 95 {
        0x20 + i
    } else {
        0x3040 + (i - 95)
    }
}

/// Calls `char::from_u32`, which std documents as giving the char of that code point, or
/// `None` when the number is a surrogate (0xD800 to 0xDFFF) or above 0x10FFFF. Trusted, not
/// proved: the contract claims exactly that.
#[verifier::external_body]
fn char_from_code(u: u32) -> (c: Option<char>)
    ensures
        c is Some <==> (u <= 0x10FFFF && !(0xD800 <= u <= 0xDFFF)),
        c matches Some(ch) ==> ch as u32 == u,
{
    char::from_u32(u)
}

/// The characters of the atlas, in cell order (see `atlas_code`).
pub fn atlas_chars() -> (v: Vec<char>)
    ensures
        v@.len() == ATLAS_GLYPHS,
        forall|i: int| 0 <= i < ATLAS_GLYPHS ==> (#[trigger] v@[i]) as u32 as int == atlas_code(i),
{
    let mut v: Vec<char> = Vec::new();
    let mut u: u32 = 0x20;
    while u < 0x7F
        invariant
            0x20 <= u <= 0x7F,
            v@.len() == u - 0x20,
            forall|i: int| 0 <= i < v@.len() ==> (#[trigger] v@[i]) as u32 as int == atlas_code(i),
        decreases 0x7F - u,
    {
        if let Some(c) = char_from_code(u) {
            v.push(c);
        }
        u = u + 1;
    }
    let mut w: u32 = 0x3040;
    while w < 0x3100
        invariant
            0x3040 <= w <= 0x3100,
            v@.len() == 95 + (w - 0x3040),
            forall|i: int| 0 <= i < v@.len() ==> (#[trigger] v@[i]) as u32 as int == atlas_code(i),
        decreases 0x3100 - w,
    {
        if let Some(c) = char_from_code(w) {
            v.push(c);
        }
        w = w + 1;
    }
    v
}

/// The atlas size for `n` glyphs: `ATLAS_COLS` cells across and as many rows as it takes.
pub fn atlas_size(n: u32) -> (r: (u32, u32))
    requires
        n + ATLAS_COLS - 1 <= u32::MAX,
        ((n + ATLAS_COLS - 1) / ATLAS_COLS as int) * CELL_H <= u32::MAX,
    ensures
        r.0 == ATLAS_COLS * CELL_W,
        r.1 == ((n + ATLAS_COLS - 1) / ATLAS_COLS as int) * CELL_H,
{
    let rows = (n + ATLAS_COLS - 1) / ATLAS_COLS;
    (ATLAS_COLS * CELL_W, rows * CELL_H)
}

/// The top-left pixel of the `i`-th cell: cells run left to right, `ATLAS_COLS` per row.
pub fn cell_origin(i: u32) -> (r: (u32, u32))
    requires
        (i / ATLAS_COLS) * CELL_H <= u32::MAX,
    ensures
        r.0 == (i % ATLAS_COLS) * CELL_W,
        r.1 == (i / ATLAS_COLS) * CELL_H,
{
    ((i % ATLAS_COLS) * CELL_W, (i / ATLAS_COLS) * CELL_H)
}

/// Adds coverage `v` to atlas pixel (px, py), saturating at 255; a pixel outside the atlas
/// leaves it unchanged.
pub fn add_coverage(atlas: &mut Vec<u8>, atlas_w: u32, atlas_h: u32, px: u32, py: u32, v: u8)
    requires
        old(atlas)@.len() == atlas_w * atlas_h,
        atlas_w * atlas_h <= u32::MAX,
    ensures
        px < atlas_w && py < atlas_h ==> final(atlas)@ == old(atlas)@.update(
            py * atlas_w + px,
            if old(atlas)@[py * atlas_w + px] + v > 255 {
                255u8
            } else {
                (old(atlas)@[py * atlas_w + px] + v) as u8
            },
        ),
        !(px < atlas_w && py < atlas_h) ==> final(atlas)@ == old(atlas)@,
{
    if px < atlas_w && py < atlas_h {
        assert(py * atlas_w + px < atlas_w * atlas_h) by (nonlinear_arith)
            requires
                px < atlas_w,
                py < atlas_h,
        ;
        let idx = (py * atlas_w + px) as usize;
        let cur = atlas[idx];
        let sum = cur.saturating_add(v);
        atlas.set(idx, sum);
    }
}

/// The atlas as RGBA texels: white, with the coverage as alpha.
pub fn coverage_to_rgba(atlas: &Vec<u8>) -> (rgba: Vec<u8>)
    requires
        4 * atlas@.len() <= usize::MAX,
    ensures
        rgba@.len() == 4 * atlas@.len(),
        forall|i: int|
            0 <= i < atlas@.len() ==> #[trigger] rgba@[4 * i + 3] == atlas@[i] && rgba@[4 * i] == 255
                && rgba@[4 * i + 1] == 255 && rgba@[4 * i + 2] == 255,
{
    let mut rgba: Vec<u8> = Vec::new();
    let mut i: usize = 0;
    while i < atlas.len()
        invariant
            i <= atlas@.len(),
            rgba@.len() == 4 * i,
            forall|j: int|
                0 <= j < i ==> #[trigger] rgba@[4 * j + 3] == atlas@[j] && rgba@[4 * j] == 255
                    && rgba@[4 * j + 1] == 255 && rgba@[4 * j + 2] == 255,
        decreases atlas@.len() - i,
    {
        rgba.push(255);
        rgba.push(255);
        rgba.push(255);
        rgba.push(atlas[i]);
        i = i + 1;
    }
    rgba
}

} // verus!
