use lilith::font_atlas::{
    add_coverage, atlas_chars, atlas_size, cell_origin, coverage_to_rgba, ATLAS_GLYPHS,
};

#[test]
fn atlas_holds_ascii_and_kana() {
    let cs = atlas_chars();
    assert_eq!(cs.len(), ATLAS_GLYPHS);
    assert_eq!(cs[0], ' ');
    assert_eq!(cs[94], '~');
    assert_eq!(cs[95], '\u{3040}');
    assert_eq!(cs[96], 'ぁ');
    assert_eq!(cs[ATLAS_GLYPHS - 1], '\u{30FF}');
    let expected: Vec<char> = (0x20u32..0x7Fu32)
        .chain(0x3040u32..0x30A0u32)
        .chain(0x30A0u32..0x3100u32)
        .filter_map(char::from_u32)
        .collect();
    assert_eq!(cs, expected);
}

#[test]
fn atlas_geometry() {
    assert_eq!(atlas_size(287), (1728, 522));
    assert_eq!(atlas_size(32), (1728, 58));
    assert_eq!(atlas_size(0), (1728, 0));
    assert_eq!(cell_origin(0), (0, 0));
    assert_eq!(cell_origin(33), (54, 58));
    assert_eq!(cell_origin(31), (31 * 54, 0));
}

#[test]
fn coverage_saturates_and_stays_inside() {
    let mut a = vec![0u8; 6];
    add_coverage(&mut a, 3, 2, 1, 1, 200);
    add_coverage(&mut a, 3, 2, 1, 1, 100);
    add_coverage(&mut a, 3, 2, 3, 0, 50);
    add_coverage(&mut a, 3, 2, 0, 2, 50);
    add_coverage(&mut a, 3, 2, 2, 0, 7);
    assert_eq!(a, vec![0, 0, 7, 0, 255, 0]);
    assert_eq!(coverage_to_rgba(&vec![9, 0]), vec![255, 255, 255, 9, 255, 255, 255, 0]);
}
