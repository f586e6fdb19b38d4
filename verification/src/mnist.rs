//! The MNIST files in IDX format, and the parameters of the convolutional network that reads
//! them.
use vstd::prelude::*;

verus! {

/// The sizes the convolution shader works with.
#[derive(Debug, Clone, Copy)]
pub struct CnnParams {
    pub input_w: u32,
    pub input_h: u32,
    pub num_class: u32,
    pub conv_filters: u32,
}

/// The big-endian 32-bit number in `b[at..at + 4]`.
pub open spec fn be_u32(b: Seq<u8>, at: int) -> int {
    b[at] * 0x100_0000 + b[at + 1] * 0x1_0000 + b[at + 2] * 0x100 + b[at + 3]
}

/// Reads the big-endian 32-bit number at `at`.
pub fn read_be_u32(b: &[u8], at: usize) -> (r: u32)
    requires
        at + 4 <= b@.len(),
    ensures
        r == be_u32(b@, at as int),
{
    let b0 = b[at] as u32;
    let b1 = b[at + 1] as u32;
    let b2 = b[at + 2] as u32;
    let b3 = b[at + 3] as u32;
    assert(b0 * 0x100_0000 + b1 * 0x1_0000 + b2 * 0x100 + b3 <= 0xffff_ffff) by (nonlinear_arith)
        requires
            b0 < 256,
            b1 < 256,
            b2 < 256,
            b3 < 256,
    ;
    b0 * 0x100_0000 + b1 * 0x1_0000 + b2 * 0x100 + b3
}

/// Number of images in an IDX3 image file: the header is magic, count, rows, columns.
pub open spec fn idx_count(img: Seq<u8>) -> int {
    be_u32(img, 4)
}

/// Pixels per image in an IDX3 image file.
pub open spec fn idx_pixels(img: Seq<u8>) -> int {
    be_u32(img, 8) * be_u32(img, 12)
}

/// The IDX3 header is four big-endian 32-bit fields: magic, image count, rows, columns. The
/// image count is the field in bytes 4 to 8, and the pixels per image are the product of the
/// rows (bytes 8 to 12) and columns (bytes 12 to 16); the count does not depend on the rows
/// and columns, nor the image size on the count.
pub proof fn law_idx_header_fields(img: Seq<u8>, other: Seq<u8>)
    requires
        img.len() >= 16,
        other.len() >= 16,
    ensures
        idx_count(img) == img[4] * 0x100_0000 + img[5] * 0x1_0000 + img[6] * 0x100 + img[7],
        idx_pixels(img) == (img[8] * 0x100_0000 + img[9] * 0x1_0000 + img[10] * 0x100 + img[11]) * (
        img[12] * 0x100_0000 + img[13] * 0x1_0000 + img[14] * 0x100 + img[15]),
        (forall|k: int| 4 <= k < 8 ==> img[k] == other[k]) ==> idx_count(img) == idx_count(other),
        (forall|k: int| 8 <= k < 16 ==> img[k] == other[k]) ==> idx_pixels(img) == idx_pixels(
            other,
        ),
{
    if forall|k: int| 4 <= k < 8 ==> img[k] == other[k] {
        assert(img[4] == other[4] && img[5] == other[5] && img[6] == other[6] && img[7] == other[7]);
    }
    if forall|k: int| 8 <= k < 16 ==> img[k] == other[k] {
        assert(img[8] == other[8] && img[9] == other[9] && img[10] == other[10] && img[11] == other[11]);
        assert(img[12] == other[12] && img[13] == other[13] && img[14] == other[14] && img[15]
            == other[15]);
    }
}

/// The images and labels of an MNIST pair of files, one byte per pixel.
pub struct MnistBytes {
    pub images: Vec<Vec<u8>>,
    pub labels: Vec<u8>,
    pub count: usize,
}

/// Splits an IDX3 image file and an IDX1 label file: image `i` is the `rows * cols` bytes
/// after the 16-byte header and the `i` images before it; the labels are the `count` bytes
/// after the 8-byte header of the label file.
pub fn split_mnist(img: &[u8], lbl: &[u8]) -> (r: MnistBytes)
    requires
        img@.len() >= 16,
        16 + idx_count(img@) * idx_pixels(img@) <= img@.len(),
        8 + idx_count(img@) <= lbl@.len(),
    ensures
        r.count == idx_count(img@),
        r.images@.len() == r.count,
        forall|i: int|
            0 <= i < r.count ==> (#[trigger] r.images@[i])@ == img@.subrange(
                16 + i * idx_pixels(img@),
                16 + (i + 1) * idx_pixels(img@),
            ),
        r.labels@ == lbl@.subrange(8, 8 + r.count),
{
    let count = read_be_u32(img, 4) as usize;
    let rows = read_be_u32(img, 8) as u64;
    let cols = read_be_u32(img, 12) as u64;
    assert(rows * cols <= 0xffff_ffff * 0xffff_ffff) by (nonlinear_arith)
        requires
            rows <= 0xffff_ffff,
            cols <= 0xffff_ffff,
    ;
    let px64: u64 = rows * cols;
    let ghost px = idx_pixels(img@);
    assert(px64 == px);
    let mut images: Vec<Vec<u8>> = Vec::new();
    let mut start: usize = 16;
    let mut i: usize = 0;
    if count > 0 {
        assert(px <= count * px) by (nonlinear_arith)
            requires
                count >= 1,
                px >= 0,
        ;
    }
    while i < count
        invariant
            i <= count,
            count == idx_count(img@),
            px64 == px,
            px == idx_pixels(img@),
            px >= 0,
            16 + count * px <= img@.len(),
            start == 16 + i * px,
            images@.len() == i,
            forall|j: int|
                0 <= j < i ==> (#[trigger] images@[j])@ == img@.subrange(
                    16 + j * px,
                    16 + (j + 1) * px,
                ),
        decreases count - i,
    {
        assert(16 + (i + 1) * px <= 16 + count * px) by (nonlinear_arith)
            requires
                i + 1 <= count,
                px >= 0,
        ;
        assert((i + 1) * px == i * px + px) by (nonlinear_arith);
        assert(img@.len() == img.len());
        assert(start + px <= img@.len());
        let step = px64 as usize;
        assert(step == px);
        let end = start + step;
        let mut one: Vec<u8> = Vec::new();
        let mut p = start;
        while p < end
            invariant
                start <= p <= end,
                end <= img@.len(),
                one@ == img@.subrange(start as int, p as int),
            decreases end - p,
        {
            one.push(img[p]);
            assert(img@.subrange(start as int, p + 1) =~= img@.subrange(start as int, p as int).push(
                img@[p as int],
            ));
            p = p + 1;
        }
        images.push(one);
        start = end;
        i = i + 1;
    }
    let mut labels: Vec<u8> = Vec::new();
    let mut k: usize = 0;
    assert(lbl@.len() == lbl.len());
    while k < count
        invariant
            k <= count,
            8 + count <= lbl@.len(),
            labels@ == lbl@.subrange(8, 8 + k),
            lbl@.len() == lbl.len(),
        decreases count - k,
    {
        labels.push(lbl[8 + k]);
        assert(lbl@.subrange(8, 8 + k + 1) =~= lbl@.subrange(8, 8 + k).push(lbl@[8 + k]));
        k = k + 1;
    }
    MnistBytes { images, labels, count }
}

} // verus!
