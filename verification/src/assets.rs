//! The assets that go to the GPU (shaders, vertex data, fonts, textures) and the registry that
//! holds them by name.
use vstd::prelude::*;
use crate::text::chars_of;

verus! {

broadcast use vstd::string::group_string_axioms;

/// An asset the GPU pipeline can take.
#[derive(Debug, Clone)]
pub enum GpuAsset {
    /// WGSL source text.
    Shader(String),
    /// Vertex data; its layout is for the caller to read.
    Vertex(Vec<u8>),
    /// A TrueType or OpenType font file.
    Font(Vec<u8>),
    /// Texture data.
    Texture(Vec<u8>),
}

impl GpuAsset {
    /// The source text of a shader.
    pub fn as_shader(&self) -> (r: Option<&str>)
        ensures
            match self {
                GpuAsset::Shader(s) => r is Some && r->0@ == s@,
                _ => r is None,
            },
    {
        match self {
            GpuAsset::Shader(s) => Some(s.as_str()),
            _ => None,
        }
    }

    /// The bytes of vertex data.
    pub fn as_vertex(&self) -> (r: Option<&[u8]>)
        ensures
            match self {
                GpuAsset::Vertex(v) => r is Some && r->0@ == v@,
                _ => r is None,
            },
    {
        match self {
            GpuAsset::Vertex(v) => Some(v.as_slice()),
            _ => None,
        }
    }

    /// The bytes of a font.
    pub fn as_font(&self) -> (r: Option<&[u8]>)
        ensures
            match self {
                GpuAsset::Font(v) => r is Some && r->0@ == v@,
                _ => r is None,
            },
    {
        match self {
            GpuAsset::Font(v) => Some(v.as_slice()),
            _ => None,
        }
    }

    /// The bytes of a texture.
    pub fn as_texture(&self) -> (r: Option<&[u8]>)
        ensures
            match self {
                GpuAsset::Texture(v) => r is Some && r->0@ == v@,
                _ => r is None,
            },
    {
        match self {
            GpuAsset::Texture(v) => Some(v.as_slice()),
            _ => None,
        }
    }
}

/// Which kind of asset a file holds, by its extension.
#[derive(Debug, Clone, Copy, PartialEq, Eq, Structural)]
pub enum AssetKind {
    Shader,
    Vertex,
    Font,
}

/// `c` with an ASCII capital turned into its small letter.
pub open spec fn ascii_lower(c: char) -> char {
    if 'A' <= c <= 'Z' {
        ((c as u32) + 32) as char
    } else {
        c
    }
}

/// Whether `s` spells the lower-case word `word` in any mix of ASCII cases.
pub open spec fn spells(s: Seq<char>, word: Seq<char>) -> bool {
    s.len() == word.len() && forall|i: int| 0 <= i < s.len() ==> ascii_lower(#[trigger] s[i]) == word[i]
}

/// The kind of asset behind an extension: `wgsl` a shader, `bin` and `vert` vertex data,
/// `ttf` and `otf` a font, in any case; nothing for any other extension.
pub open spec fn extension_kind(ext: Seq<char>) -> Option<AssetKind> {
    if spells(ext, "wgsl"@) {
        Some(AssetKind::Shader)
    } else if spells(ext, "bin"@) || spells(ext, "vert"@) {
        Some(AssetKind::Vertex)
    } else if spells(ext, "ttf"@) || spells(ext, "otf"@) {
        Some(AssetKind::Font)
    } else {
        None
    }
}

fn lower_matches(c: char, w: char) -> (r: bool)
    ensures
        r == (ascii_lower(c) == w),
{
    if 'A' <= c && c <= 'Z' {
        (c as u32) + 32 == (w as u32)
    } else {
        c == w
    }
}

fn spells_word(ext: &Vec<char>, word: &str) -> (r: bool)
    ensures
        r == spells(ext@, word@),
{
    let w = chars_of(word);
    if ext.len() != w.len() {
        return false;
    }
    let mut i: usize = 0;
    while i < ext.len()
        invariant
            i <= ext@.len(),
            ext@.len() == w@.len(),
            w@ == word@,
            forall|j: int| 0 <= j < i ==> ascii_lower(#[trigger] ext@[j]) == w@[j],
        decreases ext@.len() - i,
    {
        if !lower_matches(ext[i], w[i]) {
            return false;
        }
        i = i + 1;
    }
    true
}

/// The kind of asset a file with extension `ext` holds (see `extension_kind`).
pub fn classify_extension(ext: &str) -> (r: Option<AssetKind>)
    ensures
        r == extension_kind(ext@),
{
    let e = chars_of(ext);
    if spells_word(&e, "wgsl") {
        Some(AssetKind::Shader)
    } else if spells_word(&e, "bin") || spells_word(&e, "vert") {
        Some(AssetKind::Vertex)
    } else if spells_word(&e, "ttf") || spells_word(&e, "otf") {
        Some(AssetKind::Font)
    } else {
        None
    }
}

/// Extensions that differ only in ASCII case name the same kind of asset.
pub proof fn law_extension_case_blind(a: Seq<char>, b: Seq<char>)
    requires
        a.len() == b.len(),
        forall|i: int| 0 <= i < a.len() ==> ascii_lower(#[trigger] a[i]) == ascii_lower(b[i]),
    ensures
        extension_kind(a) == extension_kind(b),
{
    assert forall|w: Seq<char>| spells(a, w) == spells(b, w) by {
        if spells(a, w) {
            assert forall|i: int| 0 <= i < b.len() implies ascii_lower(#[trigger] b[i]) == w[i] by {
                assert(ascii_lower(a[i]) == w[i]);
            }
        }
        if spells(b, w) {
            assert forall|i: int| 0 <= i < a.len() implies ascii_lower(#[trigger] a[i]) == w[i] by {
                assert(ascii_lower(b[i]) == w[i]);
            }
        }
    }
    assert(spells(a, "wgsl"@) == spells(b, "wgsl"@));
    assert(spells(a, "bin"@) == spells(b, "bin"@));
    assert(spells(a, "vert"@) == spells(b, "vert"@));
    assert(spells(a, "ttf"@) == spells(b, "ttf"@));
    assert(spells(a, "otf"@) == spells(b, "otf"@));
}

/// The map that a list of named assets stands for: each name to its asset.
pub open spec fn entries_map(s: Seq<(String, GpuAsset)>) -> Map<Seq<char>, GpuAsset>
    decreases s.len(),
{
    if s.len() == 0 {
        Map::empty()
    } else {
        entries_map(s.drop_last()).insert(s.last().0@, s.last().1)
    }
}

/// No name occurs twice.
pub open spec fn distinct_names(s: Seq<(String, GpuAsset)>) -> bool {
    forall|i: int, j: int| 0 <= i < j < s.len() ==> (#[trigger] s[i]).0@ != (#[trigger] s[j]).0@
}

proof fn lemma_entries_map(s: Seq<(String, GpuAsset)>)
    requires
        distinct_names(s),
    ensures
        entries_map(s).dom().finite(),
        entries_map(s).dom().len() == s.len(),
        forall|i: int|
            0 <= i < s.len() ==> #[trigger] entries_map(s).contains_key(s[i].0@) && entries_map(
                s,
            )[s[i].0@] == s[i].1,
        forall|k: Seq<char>| #[trigger]
            entries_map(s).contains_key(k) ==> exists|i: int| 0 <= i < s.len() && s[i].0@ == k,
    decreases s.len(),
{
    if s.len() > 0 {
        let p = s.drop_last();
        assert(distinct_names(p)) by {
            assert forall|i: int, j: int| 0 <= i < j < p.len() implies (#[trigger] p[i]).0@ != (
            #[trigger] p[j]).0@ by {
                assert(p[i] == s[i] && p[j] == s[j]);
            }
        }
        lemma_entries_map(p);
        let last = s.last();
        assert(!entries_map(p).contains_key(last.0@)) by {
            if entries_map(p).contains_key(last.0@) {
                let i = choose|i: int| 0 <= i < p.len() && p[i].0@ == last.0@;
                assert(s[i] == p[i]);
                assert(s[i].0@ != s[s.len() - 1].0@);
            }
        }
        assert forall|i: int| 0 <= i < s.len() implies #[trigger] entries_map(s).contains_key(
            s[i].0@,
        ) && entries_map(s)[s[i].0@] == s[i].1 by {
            if i < s.len() - 1 {
                assert(s[i] == p[i]);
                assert(entries_map(p).contains_key(p[i].0@));
                assert(s[i].0@ != s[s.len() - 1].0@);
            }
        }
        assert forall|k: Seq<char>| #[trigger]
            entries_map(s).contains_key(k) implies exists|i: int|
            0 <= i < s.len() && s[i].0@ == k by {
            if k != last.0@ {
                assert(entries_map(p).contains_key(k));
                let i = choose|i: int| 0 <= i < p.len() && p[i].0@ == k;
                assert(s[i] == p[i]);
            } else {
                assert(s[s.len() - 1].0@ == k);
            }
        }
    }
}

/// All assets by name (the file name without its extension).
pub struct AssetRegistry {
    assets: Vec<(String, GpuAsset)>,
}

impl View for AssetRegistry {
    type V = Map<Seq<char>, GpuAsset>;

    closed spec fn view(&self) -> Map<Seq<char>, GpuAsset> {
        entries_map(self.assets@)
    }
}

impl AssetRegistry {
    /// The registry keeps each name once.
    pub closed spec fn wf(&self) -> bool {
        distinct_names(self.assets@)
    }

    /// An empty registry.
    pub fn new() -> (r: Self)
        ensures
            r.wf(),
            r@ == Map::<Seq<char>, GpuAsset>::empty(),
            r@.dom().finite(),
    {
        AssetRegistry { assets: Vec::new() }
    }

    fn position(&self, key: &str) -> (r: Option<usize>)
        requires
            self.wf(),
        ensures
            match r {
                Some(i) => i < self.assets@.len() && self.assets@[i as int].0@ == key@,
                None => forall|i: int| 0 <= i < self.assets@.len() ==> self.assets@[i].0@ != key@,
            },
    {
        let k = key.to_owned();
        let mut i: usize = 0;
        while i < self.assets.len()
            invariant
                i <= self.assets@.len(),
                k@ == key@,
                forall|j: int| 0 <= j < i ==> self.assets@[j].0@ != key@,
            decreases self.assets@.len() - i,
        {
            if self.assets[i].0 == k {
                return Some(i);
            }
            i = i + 1;
        }
        None
    }

    /// The asset named `key`.
    pub fn get(&self, key: &str) -> (r: Option<&GpuAsset>)
        requires
            self.wf(),
        ensures
            match r {
                Some(a) => self@.contains_key(key@) && *a == self@[key@],
                None => !self@.contains_key(key@),
            },
    {
        proof {
            lemma_entries_map(self.assets@);
        }
        match self.position(key) {
            Some(i) => {
                assert(entries_map(self.assets@).contains_key(self.assets@[i as int].0@));
                Some(&self.assets[i].1)
            },
            None => {
                assert(!entries_map(self.assets@).contains_key(key@));
                None
            },
        }
    }

    /// The source text of the shader named `key`.
    pub fn shader(&self, key: &str) -> (r: Option<&str>)
        requires
            self.wf(),
        ensures
            match r {
                Some(s) => self@.contains_key(key@) && (self@[key@] matches GpuAsset::Shader(t)
                    && s@ == t@),
                None => !(self@.contains_key(key@) && self@[key@] is Shader),
            },
    {
        match self.get(key) {
            Some(a) => a.as_shader(),
            None => None,
        }
    }

    /// The bytes of the vertex data named `key`.
    pub fn vertex(&self, key: &str) -> (r: Option<&[u8]>)
        requires
            self.wf(),
        ensures
            match r {
                Some(b) => self@.contains_key(key@) && (self@[key@] matches GpuAsset::Vertex(v)
                    && b@ == v@),
                None => !(self@.contains_key(key@) && self@[key@] is Vertex),
            },
    {
        match self.get(key) {
            Some(a) => a.as_vertex(),
            None => None,
        }
    }

    /// The bytes of the font named `key`.
    pub fn font(&self, key: &str) -> (r: Option<&[u8]>)
        requires
            self.wf(),
        ensures
            match r {
                Some(b) => self@.contains_key(key@) && (self@[key@] matches GpuAsset::Font(v)
                    && b@ == v@),
                None => !(self@.contains_key(key@) && self@[key@] is Font),
            },
    {
        match self.get(key) {
            Some(a) => a.as_font(),
            None => None,
        }
    }

    /// Registers `asset` under `key`, in place of what was there.
    pub fn insert(&mut self, key: String, asset: GpuAsset)
        requires
            old(self).wf(),
        ensures
            final(self).wf(),
            final(self)@ == old(self)@.insert(key@, asset),
            final(self)@.dom().finite(),
    {
        proof {
            lemma_entries_map(self.assets@);
        }
        let ghost k = key@;
        match self.position(key.as_str()) {
            Some(i) => {
                let ghost before = self.assets@;
                self.assets.set(i, (key, asset));
                proof {
                    assert(distinct_names(self.assets@)) by {
                        assert forall|a: int, b: int|
                            0 <= a < b < self.assets@.len() implies (
                            #[trigger] self.assets@[a]).0@ != (#[trigger] self.assets@[b]).0@ by {
                            assert(before[a].0@ != before[b].0@);
                        }
                    }
                    lemma_entries_map(self.assets@);
                    assert(entries_map(self.assets@) =~= entries_map(before).insert(k, asset)) by {
                        assert forall|n: Seq<char>|
                            #[trigger] entries_map(self.assets@).contains_key(n) <==> entries_map(
                                before,
                            ).insert(k, asset).contains_key(n) by {
                            if entries_map(self.assets@).contains_key(n) {
                                let j = choose|j: int|
                                    0 <= j < self.assets@.len() && self.assets@[j].0@ == n;
                                if j != i {
                                    assert(entries_map(before).contains_key(before[j].0@));
                                }
                            }
                            if entries_map(before).contains_key(n) {
                                let j = choose|j: int| 0 <= j < before.len() && before[j].0@ == n;
                                if j != i {
                                    assert(entries_map(self.assets@).contains_key(
                                        self.assets@[j].0@,
                                    ));
                                }
                            }
                        }
                        assert forall|n: Seq<char>|
                            #[trigger] entries_map(self.assets@).contains_key(n) implies entries_map(
                                self.assets@,
                            )[n] == entries_map(before).insert(k, asset)[n] by {
                            let j = choose|j: int|
                                0 <= j < self.assets@.len() && self.assets@[j].0@ == n;
                            if j != i {
                                assert(entries_map(before).contains_key(before[j].0@));
                                assert(before[j].0@ != before[i as int].0@);
                            }
                        }
                    }
                }
            },
            None => {
                let ghost before = self.assets@;
                self.assets.push((key, asset));
                proof {
                    assert(self.assets@.drop_last() =~= before);
                    assert(distinct_names(self.assets@)) by {
                        assert forall|a: int, b: int|
                            0 <= a < b < self.assets@.len() implies (
                            #[trigger] self.assets@[a]).0@ != (#[trigger] self.assets@[b]).0@ by {
                            if b < before.len() {
                                assert(before[a].0@ != before[b].0@);
                            } else {
                                assert(before[a].0@ != k);
                            }
                        }
                    }
                }
            },
        }
    }

    /// The names of all assets, each once, in no particular order.
    pub fn keys(&self) -> (r: Vec<String>)
        requires
            self.wf(),
        ensures
            r@.len() == self@.dom().len(),
            forall|i: int| 0 <= i < r@.len() ==> self@.contains_key(#[trigger] r@[i]@),
            forall|k: Seq<char>| #[trigger]
                self@.contains_key(k) ==> exists|i: int| 0 <= i < r@.len() && r@[i]@ == k,
            forall|i: int, j: int| 0 <= i < j < r@.len() ==> (#[trigger] r@[i])@ != (#[trigger] r@[j])@,
    {
        proof {
            lemma_entries_map(self.assets@);
        }
        let mut r: Vec<String> = Vec::new();
        let mut i: usize = 0;
        while i < self.assets.len()
            invariant
                i <= self.assets@.len(),
                r@.len() == i,
                forall|j: int| 0 <= j < i ==> (#[trigger] r@[j])@ == self.assets@[j].0@,
            decreases self.assets@.len() - i,
        {
            r.push(self.assets[i].0.clone());
            i = i + 1;
        }
        proof {
            assert forall|k: Seq<char>| #[trigger]
                self@.contains_key(k) implies exists|i: int| 0 <= i < r@.len() && r@[i]@ == k by {
                let j = choose|j: int| 0 <= j < self.assets@.len() && self.assets@[j].0@ == k;
                assert(r@[j]@ == k);
            }
            assert forall|i: int, j: int| 0 <= i < j < r@.len() implies (#[trigger] r@[i])@ != (
            #[trigger] r@[j])@ by {
                assert(self.assets@[i].0@ != self.assets@[j].0@);
            }
            assert forall|i: int| 0 <= i < r@.len() implies self@.contains_key(#[trigger] r@[i]@) by {
                assert(entries_map(self.assets@).contains_key(self.assets@[i].0@));
            }
        }
        r
    }

    /// Number of assets.
    pub fn len(&self) -> (n: usize)
        requires
            self.wf(),
        ensures
            n == self@.dom().len(),
    {
        proof {
            lemma_entries_map(self.assets@);
        }
        self.assets.len()
    }

    /// Whether the registry holds no asset.
    pub fn is_empty(&self) -> (b: bool)
        requires
            self.wf(),
        ensures
            b == (self@.dom().len() == 0),
    {
        proof {
            lemma_entries_map(self.assets@);
        }
        self.assets.len() == 0
    }
}

impl Default for AssetRegistry {
    fn default() -> (r: Self)
        ensures
            r.wf(),
            r@ == Map::<Seq<char>, GpuAsset>::empty(),
    {
        Self::new()
    }
}

/// A well-formed registry holds finitely many names.
pub proof fn lemma_registry_finite(r: AssetRegistry)
    requires
        r.wf(),
    ensures
        r@.dom().finite(),
{
    lemma_entries_map(r.assets@);
}

/// After `insert(key, asset)` the registry holds one name more when `key` was new, and as
/// many as before when it replaced an asset.
pub proof fn law_len_after_insert(
    before: AssetRegistry,
    after: AssetRegistry,
    key: Seq<char>,
    asset: GpuAsset,
)
    requires
        before.wf(),
        after@ == before@.insert(key, asset),
    ensures
        after@.dom().len() == before@.dom().len() + if before@.contains_key(key) { 0int } else { 1int },
        after@.dom().len() > 0,
{
    lemma_entries_map(before.assets@);
    if before@.contains_key(key) {
        assert(after@.dom() =~= before@.dom());
    } else {
        assert(after@.dom() =~= before@.dom().insert(key));
    }
}

/// After `insert(key, asset)`, `get(key)` finds that asset, and every other name finds what it
/// found before.
pub proof fn law_get_after_insert(
    before: AssetRegistry,
    after: AssetRegistry,
    key: Seq<char>,
    asset: GpuAsset,
    other: Seq<char>,
)
    requires
        after@ == before@.insert(key, asset),
        other != key,
    ensures
        after@.contains_key(key),
        after@[key] == asset,
        after@.contains_key(other) == before@.contains_key(other),
        before@.contains_key(other) ==> after@[other] == before@[other],
{
}

/// The engine core: it only ties the asset registry to the systems.
pub struct Engine {
    pub registry: AssetRegistry,
}

impl Engine {
    /// An engine over `registry`.
    pub fn new(registry: AssetRegistry) -> (e: Self)
        ensures
            e.registry == registry,
    {
        Engine { registry }
    }

    /// One step of the engine; no system is attached yet, so nothing changes.
    pub fn update(&mut self)
        ensures
            *final(self) == *old(self),
    {
    }
}

} // verus!
