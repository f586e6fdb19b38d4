use lilith::assets::{classify_extension, AssetKind, AssetRegistry, Engine, GpuAsset};
use lilith::ecs::{Component, ComponentStore, GameObject};
use lilith::mnist::{read_be_u32, split_mnist, CnnParams};

#[derive(Debug, Clone, PartialEq)]
struct Health(u32);
impl Component for Health {}

#[test]
fn asset_accessors_match_their_kind() {
    let s = GpuAsset::Shader("fn main() {}".to_string());
    assert_eq!(s.as_shader(), Some("fn main() {}"));
    assert!(s.as_vertex().is_none());
    let v = GpuAsset::Vertex(vec![1, 2]);
    assert_eq!(v.as_vertex(), Some(&[1u8, 2][..]));
    assert!(v.as_font().is_none());
    let f = GpuAsset::Font(vec![7]);
    assert_eq!(f.as_font(), Some(&[7u8][..]));
    let t = GpuAsset::Texture(vec![9]);
    assert_eq!(t.as_texture(), Some(&[9u8][..]));
    assert!(t.as_shader().is_none());
}

#[test]
fn extensions_pick_the_asset_kind() {
    assert_eq!(classify_extension("wgsl"), Some(AssetKind::Shader));
    assert_eq!(classify_extension("WGSL"), Some(AssetKind::Shader));
    assert_eq!(classify_extension("bin"), Some(AssetKind::Vertex));
    assert_eq!(classify_extension("Vert"), Some(AssetKind::Vertex));
    assert_eq!(classify_extension("ttf"), Some(AssetKind::Font));
    assert_eq!(classify_extension("OTF"), Some(AssetKind::Font));
    assert_eq!(classify_extension("png"), None);
    assert_eq!(classify_extension(""), None);
    assert_eq!(classify_extension("wgs"), None);
}

#[test]
fn registry_get_after_insert() {
    let mut r = AssetRegistry::new();
    assert!(r.is_empty());
    r.insert("default".to_string(), GpuAsset::Shader("a".to_string()));
    r.insert("quad".to_string(), GpuAsset::Vertex(vec![1, 2, 3]));
    r.insert("noto".to_string(), GpuAsset::Font(vec![4]));
    assert_eq!(r.len(), 3);
    assert_eq!(r.shader("default"), Some("a"));
    assert_eq!(r.vertex("quad"), Some(&[1u8, 2, 3][..]));
    assert_eq!(r.font("noto"), Some(&[4u8][..]));
    assert!(r.shader("quad").is_none());
    assert!(r.get("missing").is_none());
    r.insert("default".to_string(), GpuAsset::Shader("b".to_string()));
    assert_eq!(r.len(), 3);
    r.insert("extra".to_string(), GpuAsset::Texture(vec![]));
    assert_eq!(r.len(), 4);
    assert!(!r.is_empty());
    assert_eq!(r.shader("default"), Some("b"));
    let mut keys = r.keys();
    keys.sort();
    assert_eq!(keys, vec!["default", "extra", "noto", "quad"]);
    let d = AssetRegistry::default();
    assert_eq!(d.len(), 0);
}

#[test]
fn engine_holds_the_registry() {
    let mut r = AssetRegistry::new();
    r.insert("x".to_string(), GpuAsset::Texture(vec![]));
    let mut e = Engine::new(r);
    e.update();
    assert_eq!(e.registry.len(), 1);
}

#[test]
fn component_store_read_after_write() {
    let mut s: ComponentStore<Health> = ComponentStore::new();
    s.insert(1, Health(10));
    s.insert(2, Health(20));
    assert_eq!(s.get(1), Some(&Health(10)));
    if let Some(h) = s.get_mut(2) {
        h.0 = 25;
    }
    assert_eq!(s.get(2), Some(&Health(25)));
    assert!(s.get_mut(3).is_none());
    s.remove(1);
    assert!(s.get(1).is_none());
    let mut all = s.iter();
    all.sort_by_key(|p| p.0);
    assert_eq!(all, vec![(2, &Health(25))]);
    let g = GameObject { id: 7 };
    assert_eq!(g, GameObject { id: 7 });
    let d: ComponentStore<Health> = ComponentStore::default();
    assert!(d.iter().is_empty());
}

fn idx_files() -> (Vec<u8>, Vec<u8>) {
    let mut img = vec![0, 0, 8, 3, 0, 0, 0, 2, 0, 0, 0, 2, 0, 0, 0, 3];
    img.extend_from_slice(&[1, 2, 3, 4, 5, 6, 7, 8, 9, 10, 11, 12, 99]);
    let lbl = vec![0, 0, 8, 1, 0, 0, 0, 2, 7, 3, 5];
    (img, lbl)
}

#[test]
fn big_endian_numbers() {
    assert_eq!(read_be_u32(&[0x00, 0x00, 0x08, 0x03], 0), 2051);
    assert_eq!(read_be_u32(&[9, 0xff, 0xff, 0xff, 0xff], 1), u32::MAX);
    assert_eq!(read_be_u32(&[0x12, 0x34, 0x56, 0x78], 0), 0x1234_5678);
}

#[test]
fn mnist_files_split_into_images_and_labels() {
    let (img, lbl) = idx_files();
    let m = split_mnist(&img, &lbl);
    assert_eq!(m.count, 2);
    assert_eq!(m.images, vec![vec![1, 2, 3, 4, 5, 6], vec![7, 8, 9, 10, 11, 12]]);
    assert_eq!(m.labels, vec![7, 3]);
    let p = CnnParams { input_w: 28, input_h: 28, num_class: 10, conv_filters: 8 };
    assert_eq!(p.input_w * p.input_h, 784);
}

#[test]
fn extension_case_does_not_matter() {
    for (a, b) in [("WgSl", "wgsl"), ("BIN", "bin"), ("vErT", "VERT"), ("tTf", "TTF"), ("Png", "PNG")] {
        assert_eq!(classify_extension(a), classify_extension(b));
    }
}
