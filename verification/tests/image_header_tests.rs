use lilith::image_header::{decimal_bytes, hdr_header, pgm_header};

#[test]
fn decimal_numbers() {
    assert_eq!(decimal_bytes(0), b"0".to_vec());
    assert_eq!(decimal_bytes(7), b"7".to_vec());
    assert_eq!(decimal_bytes(10), b"10".to_vec());
    assert_eq!(decimal_bytes(4096), b"4096".to_vec());
    assert_eq!(decimal_bytes(u64::MAX), u64::MAX.to_string().into_bytes());
}

#[test]
fn hdr_header_names_height_then_width() {
    assert_eq!(
        hdr_header(40, 5),
        b"#?RADIANCE\nFORMAT=32-bit_rle_rgbe\nEXPOSURE=1.0\n\n-Y 5 +X 40\n".to_vec()
    );
    let w = 1234u32;
    let h = 56u32;
    let expected = format!("#?RADIANCE\nFORMAT=32-bit_rle_rgbe\nEXPOSURE=1.0\n\n-Y {} +X {}\n", h, w);
    assert_eq!(hdr_header(w, h), expected.into_bytes());
}

#[test]
fn pgm_header_names_columns_then_rows() {
    assert_eq!(pgm_header(64, 128), b"P5\n64 128\n255\n".to_vec());
    assert_eq!(pgm_header(0, 1), format!("P5\n{} {}\n255\n", 0, 1).into_bytes());
}
