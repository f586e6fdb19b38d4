//! The text headers of the image files the core writes: Radiance HDR (RGBE) and binary
//! greyscale PNM.
use vstd::prelude::*;
use vstd::string::StringSliceAdditionalSpecFns;

verus! {

/// The ASCII byte of decimal digit `d`.
pub open spec fn digit_byte(d: nat) -> u8 {
    (0x30 + d) as u8
}

/// The decimal representation of `n`, as ASCII bytes, without leading zeros ("0" for zero).
pub open spec fn decimal(n: nat) -> Seq<u8>
    decreases n,
{
    if n < 10 {
        seq![digit_byte(n)]
    } else {
        decimal(n / 10).push(digit_byte(n % 10))
    }
}

/// The ASCII bytes of `n` in decimal (see `decimal`).
pub fn decimal_bytes(n: u64) -> (out: Vec<u8>)
    ensures
        out@ == decimal(n as nat),
{
    let mut rev: Vec<u8> = Vec::new();
    let mut m: u64 = n;
    rev.push((0x30 + m % 10) as u8);
    m = m / 10;
    proof {
        assert(rev@ =~= seq![digit_byte((n % 10) as nat)]);
        assert(rev@.reverse() =~= seq![digit_byte((n % 10) as nat)]);
        if n >= 10 {
            assert(decimal(n as nat) =~= decimal(m as nat) + rev@.reverse());
        }
    }
    while m > 0
        invariant
            rev@.len() >= 1,
            m > 0 ==> decimal(n as nat) == decimal(m as nat) + rev@.reverse(),
            m == 0 ==> decimal(n as nat) == rev@.reverse(),
        decreases m,
    {
        let ghost before = rev@;
        let d = m % 10;
        rev.push((0x30 + d) as u8);
        proof {
            assert(rev@.reverse() =~= seq![digit_byte(d as nat)] + before.reverse());
            if m >= 10 {
                assert(decimal(m as nat) == decimal((m / 10) as nat).push(digit_byte(d as nat)));
                assert(decimal((m / 10) as nat).push(digit_byte(d as nat)) + before.reverse()
                    =~= decimal((m / 10) as nat) + (seq![digit_byte(d as nat)] + before.reverse()));
            } else {
                assert(decimal(m as nat) == seq![digit_byte(d as nat)]);
            }
        }
        m = m / 10;
    }
    let mut out: Vec<u8> = Vec::new();
    let mut i: usize = rev.len();
    while i > 0
        invariant
            i <= rev@.len(),
            out@ == rev@.subrange(i as int, rev@.len() as int).reverse(),
        decreases i,
    {
        i = i - 1;
        out.push(rev[i]);
        assert(rev@.subrange(i as int, rev@.len() as int).reverse() =~= rev@.subrange(
            i + 1,
            rev@.len() as int,
        ).reverse().push(rev@[i as int]));
    }
    assert(rev@.subrange(0, rev@.len() as int) =~= rev@);
    out
}

/// Appends the bytes of `s` to `v`.
fn append_ascii(v: &mut Vec<u8>, s: &[u8])
    ensures
        final(v)@ == old(v)@ + s@,
{
    let mut i: usize = 0;
    while i < s.len()
        invariant
            i <= s@.len(),
            v@ == old(v)@ + s@.subrange(0, i as int),
        decreases s@.len() - i,
    {
        v.push(s[i]);
        assert(s@.subrange(0, i + 1) =~= s@.subrange(0, i as int).push(s@[i as int]));
        i = i + 1;
    }
    assert(s@.subrange(0, s@.len() as int) =~= s@);
}

/// The header of a Radiance HDR image of `width` x `height` pixels, rows from the top:
/// "#?RADIANCE\nFORMAT=32-bit_rle_rgbe\nEXPOSURE=1.0\n\n-Y <height> +X <width>\n".
pub open spec fn hdr_header_spec(width: nat, height: nat) -> Seq<u8> {
    "#?RADIANCE\nFORMAT=32-bit_rle_rgbe\nEXPOSURE=1.0\n\n-Y "@.map_values(|c: char| c as u8)
        + decimal(height) + " +X "@.map_values(|c: char| c as u8) + decimal(width) + seq![0x0Au8]
}

/// The header of a binary greyscale image of `cols` x `rows` pixels with 255 levels:
/// "P5\n<cols> <rows>\n255\n".
pub open spec fn pgm_header_spec(cols: nat, rows: nat) -> Seq<u8> {
    seq![0x50u8, 0x35u8, 0x0Au8] + decimal(cols) + seq![0x20u8] + decimal(rows) + seq![
        0x0Au8,
        0x32u8,
        0x35u8,
        0x35u8,
        0x0Au8,
    ]
}

/// The header of a Radiance HDR image (see `hdr_header_spec`).
pub fn hdr_header(width: u32, height: u32) -> (h: Vec<u8>)
    ensures
        h@ == hdr_header_spec(width as nat, height as nat),
{
    let head = "#?RADIANCE\nFORMAT=32-bit_rle_rgbe\nEXPOSURE=1.0\n\n-Y ";
    let mid = " +X ";
    proof {
        reveal_strlit("#?RADIANCE\nFORMAT=32-bit_rle_rgbe\nEXPOSURE=1.0\n\n-Y ");
        reveal_strlit(" +X ");
        vstd::string::is_ascii_spec_bytes(head);
        vstd::string::is_ascii_spec_bytes(mid);
        assert(head.spec_bytes() =~= head@.map_values(|c: char| c as u8));
        assert(mid.spec_bytes() =~= mid@.map_values(|c: char| c as u8));
    }
    let mut h: Vec<u8> = Vec::new();
    append_ascii(&mut h, head.as_bytes());
    let hd = decimal_bytes(height as u64);
    append_ascii(&mut h, hd.as_slice());
    append_ascii(&mut h, mid.as_bytes());
    let wd = decimal_bytes(width as u64);
    append_ascii(&mut h, wd.as_slice());
    h.push(0x0A);
    assert(h@ =~= hdr_header_spec(width as nat, height as nat));
    h
}

/// The header of a binary greyscale image (see `pgm_header_spec`).
pub fn pgm_header(cols: u64, rows: u64) -> (h: Vec<u8>)
    ensures
        h@ == pgm_header_spec(cols as nat, rows as nat),
{
    let mut h: Vec<u8> = Vec::new();
    h.push(0x50);
    h.push(0x35);
    h.push(0x0A);
    let cd = decimal_bytes(cols);
    append_ascii(&mut h, cd.as_slice());
    h.push(0x20);
    let rd = decimal_bytes(rows);
    append_ascii(&mut h, rd.as_slice());
    h.push(0x0A);
    h.push(0x32);
    h.push(0x35);
    h.push(0x35);
    h.push(0x0A);
    assert(h@ =~= pgm_header_spec(cols as nat, rows as nat));
    h
}

} // verus!
