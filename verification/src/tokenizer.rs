//! The character-level tokenizer of the language model: every distinct character of the
//! training texts gets an id, in order of first appearance, after the two reserved ones.
use vstd::prelude::*;
use std::collections::HashMap;
use crate::text::chars_of;

verus! {

broadcast use {vstd::string::group_string_axioms, vstd::std_specs::hash::group_hash_axioms};

/// The padding character; its id is 0.
pub const PAD: char = '\0';

/// The character that stands for every unknown one; its id is 1.
pub const UNK: char = '\x01';

/// All texts one after the other.
pub open spec fn joined(ts: Seq<Seq<char>>) -> Seq<char>
    decreases ts.len(),
{
    if ts.len() == 0 {
        Seq::empty()
    } else {
        joined(ts.drop_last()) + ts.last()
    }
}

/// The vocabulary built from `s`: the two reserved characters, then each character of `s` the
/// first time it occurs.
pub open spec fn vocab_of(s: Seq<char>) -> Seq<char>
    decreases s.len(),
{
    if s.len() == 0 {
        seq![PAD, UNK]
    } else {
        let v = vocab_of(s.drop_last());
        if v.contains(s.last()) {
            v
        } else {
            v.push(s.last())
        }
    }
}

/// The texts as character sequences.
pub open spec fn texts_view(texts: Seq<&str>) -> Seq<Seq<char>> {
    texts.map_values(|t: &str| t@)
}

/// Two characters with the same code point are the same character.
proof fn lemma_code_point_injective(a: char, b: char)
    requires
        a as u32 == b as u32,
    ensures
        a == b,
{
}

/// Maps each character (by its code point) to its id, and each id back to its character.
pub struct CharTokenizer {
    pub char_to_id: HashMap<u32, usize>,
    pub id_to_char: Vec<char>,
    pub vocab_size: usize,
}

/// `m` indexes `v`: each character of `v` maps to its position, and nothing else is mapped.
pub open spec fn indexes(m: Map<u32, usize>, v: Seq<char>) -> bool {
    &&& v.no_duplicates()
    &&& forall|i: int|
        0 <= i < v.len() ==> #[trigger] m.contains_key(v[i] as u32) && m[v[i] as u32] == i
    &&& forall|k: u32| #[trigger]
        m.contains_key(k) ==> exists|i: int| 0 <= i < v.len() && v[i] as u32 == k
}

impl CharTokenizer {
    /// The two tables agree and `vocab_size` is their size.
    pub open spec fn wf(&self) -> bool {
        &&& self.vocab_size == self.id_to_char@.len()
        &&& indexes(self.char_to_id@, self.id_to_char@)
    }

    /// The id of `c`: its entry, or 1 (unknown) where it has none.
    pub open spec fn id_of(&self, c: char) -> usize {
        if self.char_to_id@.contains_key(c as u32) {
            self.char_to_id@[c as u32]
        } else {
            1
        }
    }

    /// The ids of `s`, cut or padded with 0 to `max_len`.
    pub open spec fn spec_encode(&self, s: Seq<char>, max_len: nat) -> Seq<usize> {
        Seq::new(max_len, |j: int| if j < s.len() { self.id_of(s[j]) } else { 0 })
    }

    /// Builds the vocabulary of `texts` (see `vocab_of`).
    pub fn build(texts: &[&str]) -> (t: Self)
        ensures
            t.wf(),
            t.id_to_char@ == vocab_of(joined(texts_view(texts@))),
            t.char_to_id@.dom().finite(),
            t.char_to_id@.dom().len() == t.vocab_size,
    {
        let mut chars: Vec<char> = Vec::new();
        let mut map: HashMap<u32, usize> = HashMap::new();
        chars.push(PAD);
        map.insert(PAD as u32, 0);
        chars.push(UNK);
        map.insert(UNK as u32, 1);
        proof {
            assert(map@.dom() =~= Set::<u32>::empty().insert(PAD as u32).insert(UNK as u32));
            assert(chars@ =~= vocab_of(Seq::empty()));
            assert(joined(texts_view(texts@).take(0)) =~= Seq::empty());
            assert forall|k: u32| #[trigger]
                map@.contains_key(k) implies exists|i: int|
                0 <= i < chars@.len() && chars@[i] as u32 == k by {
                if k == PAD as u32 {
                    assert(chars@[0] as u32 == k);
                } else {
                    assert(chars@[1] as u32 == k);
                }
            }
        }
        let mut i: usize = 0;
        while i < texts.len()
            invariant
                i <= texts@.len(),
                indexes(map@, chars@),
                map@.dom().finite(),
                map@.dom().len() == chars@.len(),
                chars@ == vocab_of(joined(texts_view(texts@).take(i as int))),
            decreases texts@.len() - i,
        {
            let cs = chars_of(texts[i]);
            let ghost before = joined(texts_view(texts@).take(i as int));
            let mut j: usize = 0;
            while j < cs.len()
                invariant
                    j <= cs@.len(),
                    cs@ == texts@[i as int]@,
                    indexes(map@, chars@),
                    map@.dom().finite(),
                    map@.dom().len() == chars@.len(),
                    chars@ == vocab_of(before + cs@.take(j as int)),
                decreases cs@.len() - j,
            {
                let c = cs[j];
                let ghost cur = before + cs@.take(j as int);
                proof {
                    assert((before + cs@.take(j + 1)).drop_last() =~= cur);
                    assert((before + cs@.take(j + 1)).last() == c);
                }
                if !map.contains_key(&(c as u32)) {
                    proof {
                        assert(!chars@.contains(c)) by {
                            if chars@.contains(c) {
                                let k = choose|k: int| 0 <= k < chars@.len() && chars@[k] == c;
                                assert(map@.contains_key(chars@[k] as u32));
                            }
                        }
                    }
                    let n = chars.len();
                    let ghost old_chars = chars@;
                    let ghost old_map = map@;
                    chars.push(c);
                    map.insert(c as u32, n);
                    proof {
                        assert(!old_map.contains_key(c as u32));
                        assert(map@.dom() =~= old_map.dom().insert(c as u32));
                        assert forall|a: int, b: int|
                            0 <= a < b < chars@.len() implies chars@[a] != chars@[b] by {
                            if b == n {
                                assert(old_chars.contains(old_chars[a]));
                            }
                        }
                        assert forall|a: int| 0 <= a < chars@.len() implies #[trigger] map@.contains_key(
                            chars@[a] as u32,
                        ) && map@[chars@[a] as u32] == a by {
                            if a < n {
                                assert(old_map.contains_key(old_chars[a] as u32));
                                assert(old_chars[a] != c);
                            }
                        }
                        assert forall|k: u32| #[trigger]
                            map@.contains_key(k) implies exists|a: int|
                            0 <= a < chars@.len() && chars@[a] as u32 == k by {
                            if k == c as u32 {
                                assert(chars@[n as int] as u32 == k);
                            } else {
                                assert(old_map.contains_key(k));
                                let a = choose|a: int|
                                    0 <= a < old_chars.len() && old_chars[a] as u32 == k;
                                assert(chars@[a] as u32 == k);
                            }
                        }
                    }
                } else {
                    proof {
                        assert(map@.contains_key(c as u32));
                        let k = choose|k: int| 0 <= k < chars@.len() && chars@[k] as u32 == c as u32;
                        lemma_code_point_injective(chars@[k], c);
                        assert(chars@[k] == c);
                        assert(chars@.contains(c));
                    }
                }
                j = j + 1;
            }
            proof {
                let tv = texts_view(texts@);
                assert(cs@.take(cs@.len() as int) =~= cs@);
                assert(tv.take(i + 1).drop_last() =~= tv.take(i as int));
                assert(tv.take(i + 1).last() == cs@);
            }
            i = i + 1;
        }
        proof {
            assert(texts_view(texts@).take(texts@.len() as int) =~= texts_view(texts@));
        }
        let vocab_size = chars.len();
        CharTokenizer { char_to_id: map, id_to_char: chars, vocab_size }
    }

    /// The ids of `s` (1 for a character it does not know), cut or padded with 0 to `max_len`.
    pub fn encode(&self, s: &str, max_len: usize) -> (ids: Vec<usize>)
        ensures
            ids@ == self.spec_encode(s@, max_len as nat),
    {
        let cs = chars_of(s);
        let mut ids: Vec<usize> = Vec::new();
        let mut j: usize = 0;
        while j < cs.len() && j < max_len
            invariant
                j <= cs@.len(),
                j <= max_len,
                cs@ == s@,
                ids@ == self.spec_encode(s@, max_len as nat).take(j as int),
            decreases max_len - j,
        {
            let c = cs[j];
            let id = match self.char_to_id.get(&(c as u32)) {
                Some(v) => *v,
                None => 1,
            };
            ids.push(id);
            assert(ids@ =~= self.spec_encode(s@, max_len as nat).take(j + 1));
            j = j + 1;
        }
        while ids.len() < max_len
            invariant
                ids@.len() <= max_len,
                ids@.len() >= s@.len() || ids@.len() == max_len,
                ids@ == self.spec_encode(s@, max_len as nat).take(ids@.len() as int),
            decreases max_len - ids@.len(),
        {
            let ghost k: int = ids@.len() as int;
            ids.push(0);
            assert(ids@ =~= self.spec_encode(s@, max_len as nat).take(k + 1));
        }
        assert(ids@ =~= self.spec_encode(s@, max_len as nat));
        ids
    }
}

/// The vocabulary starts with the padding and the unknown character, holds no character twice,
/// and holds every character of the texts it was built from.
pub proof fn law_vocab_covers(s: Seq<char>)
    ensures
        vocab_of(s).len() >= 2,
        vocab_of(s)[0] == PAD,
        vocab_of(s)[1] == UNK,
        vocab_of(s).no_duplicates(),
        forall|j: int| 0 <= j < s.len() ==> vocab_of(s).contains(#[trigger] s[j]),
    decreases s.len(),
{
    if s.len() > 0 {
        let p = s.drop_last();
        law_vocab_covers(p);
        let v = vocab_of(p);
        assert forall|j: int| 0 <= j < s.len() implies vocab_of(s).contains(#[trigger] s[j]) by {
            if j < s.len() - 1 {
                assert(p[j] == s[j]);
                assert(v.contains(p[j]));
                if !v.contains(s.last()) {
                    let k = choose|k: int| 0 <= k < v.len() && v[k] == p[j];
                    assert(vocab_of(s)[k] == s[j]);
                }
            } else if !v.contains(s.last()) {
                assert(vocab_of(s)[v.len() as int] == s[j]);
            }
        }
        if !v.contains(s.last()) {
            assert forall|a: int, b: int|
                0 <= a < b < vocab_of(s).len() implies vocab_of(s)[a] != vocab_of(s)[b] by {
                if b == v.len() {
                    assert(v.contains(v[a]));
                }
            }
        }
    }
}

/// Encoding a text whose characters all belong to the vocabulary loses nothing within
/// `max_len`: each id names the character it came from.
pub proof fn law_known_chars_round_trip(t: CharTokenizer, s: Seq<char>, max_len: nat)
    requires
        t.wf(),
        forall|j: int| 0 <= j < s.len() ==> t.id_to_char@.contains(#[trigger] s[j]),
    ensures
        forall|j: int|
            0 <= j < s.len() && j < max_len ==> #[trigger] t.spec_encode(s, max_len)[j]
                < t.vocab_size && t.id_to_char@[t.spec_encode(s, max_len)[j] as int] == s[j],
{
    assert forall|j: int| 0 <= j < s.len() && j < max_len implies #[trigger] t.spec_encode(
        s,
        max_len,
    )[j] < t.vocab_size && t.id_to_char@[t.spec_encode(s, max_len)[j] as int] == s[j] by {
        assert(t.id_to_char@.contains(s[j]));
        let k = choose|k: int| 0 <= k < t.id_to_char@.len() && t.id_to_char@[k] == s[j];
        assert(t.char_to_id@.contains_key(t.id_to_char@[k] as u32));
    }
}

/// The vocabulary holds nothing but the padding character, the unknown character and
/// characters of the texts it was built from.
pub proof fn law_vocab_only(s: Seq<char>)
    ensures
        forall|j: int|
            0 <= j < vocab_of(s).len() ==> #[trigger] vocab_of(s)[j] == PAD || vocab_of(s)[j]
                == UNK || s.contains(vocab_of(s)[j]),
    decreases s.len(),
{
    if s.len() > 0 {
        let p = s.drop_last();
        law_vocab_only(p);
        let v = vocab_of(p);
        assert forall|j: int| 0 <= j < vocab_of(s).len() implies #[trigger] vocab_of(s)[j] == PAD
            || vocab_of(s)[j] == UNK || s.contains(vocab_of(s)[j]) by {
            if j < v.len() {
                assert(vocab_of(s)[j] == v[j]);
                if p.contains(v[j]) {
                    let k = choose|k: int| 0 <= k < p.len() && p[k] == v[j];
                    assert(s[k] == p[k]);
                }
            } else {
                assert(vocab_of(s)[j] == s[s.len() - 1]);
            }
        }
    }
}

} // verus!
