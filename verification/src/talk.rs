//! Kana to romaji tokenization for the voice output: each token names one voice sample.
use vstd::prelude::*;
use crate::text::{chars_of, string_from_range};

verus! {

broadcast use vstd::string::group_string_axioms;

/// Romaji of a single kana, if the voice bank has it.
pub open spec fn single_romaji(c: char) -> Option<Seq<char>> {
    match c {
        'あ' => Some("a"@),
        'い' => Some("i"@),
        'う' => Some("u"@),
        'え' => Some("e"@),
        'お' => Some("o"@),
        'か' => Some("ka"@),
        'き' => Some("ki"@),
        'く' => Some("ku"@),
        'け' => Some("ke"@),
        'こ' => Some("ko"@),
        'が' => Some("ga"@),
        'ぎ' => Some("gi"@),
        'ぐ' => Some("gu"@),
        'げ' => Some("ge"@),
        'ご' => Some("go"@),
        'さ' => Some("sa"@),
        'し' => Some("si"@),
        'す' => Some("su"@),
        'せ' => Some("se"@),
        'そ' => Some("so"@),
        'ざ' => Some("za"@),
        'じ' => Some("zi"@),
        'ず' => Some("zu"@),
        'ぜ' => Some("ze"@),
        'ぞ' => Some("zo"@),
        'た' => Some("ta"@),
        'ち' => Some("ti"@),
        'つ' => Some("tu"@),
        'て' => Some("te"@),
        'と' => Some("to"@),
        'だ' => Some("da"@),
        'ぢ' => Some("di"@),
        'づ' => Some("du"@),
        'で' => Some("de"@),
        'ど' => Some("do"@),
        'な' => Some("na"@),
        'に' => Some("ni"@),
        'ぬ' => Some("nu"@),
        'ね' => Some("ne"@),
        'の' => Some("no"@),
        'は' => Some("ha"@),
        'ひ' => Some("hi"@),
        'ふ' => Some("fu"@),
        'へ' => Some("he"@),
        'ほ' => Some("ho"@),
        'ば' => Some("ba"@),
        'び' => Some("bi"@),
        'ぶ' => Some("bu"@),
        'べ' => Some("be"@),
        'ぼ' => Some("bo"@),
        'ぱ' => Some("pa"@),
        'ぴ' => Some("pi"@),
        'ぷ' => Some("pu"@),
        'ぺ' => Some("pe"@),
        'ぽ' => Some("po"@),
        'ま' => Some("ma"@),
        'み' => Some("mi"@),
        'む' => Some("mu"@),
        'め' => Some("me"@),
        'も' => Some("mo"@),
        'や' => Some("ya"@),
        'ゆ' => Some("yu"@),
        'よ' => Some("yo"@),
        'ら' => Some("ra"@),
        'り' => Some("ri"@),
        'る' => Some("ru"@),
        'れ' => Some("re"@),
        'ろ' => Some("ro"@),
        'わ' => Some("wa"@),
        'を' => Some("wo"@),
        'ん' => Some("nn"@),
        _ => None,
    }
}

/// Consonant part of a contracted sound (a kana followed by a small ya, yu, yo or e).
pub open spec fn contracted_prefix(c: char) -> Option<Seq<char>> {
    match c {
        'き' => Some("ky"@),
        'ぎ' => Some("gy"@),
        'し' => Some("sy"@),
        'じ' => Some("zy"@),
        'ち' => Some("ty"@),
        'に' => Some("ny"@),
        'ひ' => Some("hy"@),
        'び' => Some("by"@),
        'ぴ' => Some("py"@),
        'み' => Some("my"@),
        'り' => Some("ry"@),
        _ => None,
    }
}

/// Vowel of a small ya, yu, yo or e.
pub open spec fn contracted_vowel(c: char) -> Option<Seq<char>> {
    match c {
        'ゃ' => Some("a"@),
        'ゅ' => Some("u"@),
        'ょ' => Some("o"@),
        'ぇ' => Some("e"@),
        _ => None,
    }
}

/// Vowel of a small a, i, e or o after a voiced u (ヴ).
pub open spec fn vu_vowel(c: char) -> Option<Seq<char>> {
    match c {
        'ぁ' => Some("a"@),
        'ぃ' => Some("i"@),
        'ぇ' => Some("e"@),
        'ぉ' => Some("o"@),
        _ => None,
    }
}

/// Romaji of a two-kana sound, if the voice bank has it: contracted sounds such as きゃ → kya,
/// and ヴ with a small vowel, such as ヴぁ → va.
pub open spec fn pair_romaji(a: char, b: char) -> Option<Seq<char>> {
    if a == 'ヴ' && vu_vowel(b) is Some {
        Some("v"@ + vu_vowel(b)->0)
    } else if contracted_prefix(a) is Some && contracted_vowel(b) is Some {
        Some(contracted_prefix(a)->0 + contracted_vowel(b)->0)
    } else {
        None
    }
}

/// Greedy tokenization: a known two-kana sound is taken first, then a known single kana;
/// a character with neither is skipped.
pub open spec fn kana_tokens(cs: Seq<char>) -> Seq<Seq<char>>
    decreases cs.len(),
{
    if cs.len() == 0 {
        Seq::empty()
    } else if cs.len() >= 2 && pair_romaji(cs[0], cs[1]) is Some {
        seq![pair_romaji(cs[0], cs[1])->0] + kana_tokens(cs.skip(2))
    } else if single_romaji(cs[0]) is Some {
        seq![single_romaji(cs[0])->0] + kana_tokens(cs.skip(1))
    } else {
        kana_tokens(cs.skip(1))
    }
}

/// Tokenizing two texts one after the other gives the tokens of the first followed by those
/// of the second, when the last character of the first and the first character of the
/// second do not form a two-kana sound.
pub proof fn law_kana_concat(a: Seq<char>, b: Seq<char>)
    requires
        a.len() > 0 && b.len() > 0 ==> pair_romaji(a.last(), b[0]) is None,
    ensures
        kana_tokens(a + b) == kana_tokens(a) + kana_tokens(b),
    decreases a.len(),
{
    let ab = a + b;
    if a.len() == 0 {
        assert(ab =~= b);
        assert(kana_tokens(a) + kana_tokens(b) =~= kana_tokens(b));
    } else if b.len() == 0 {
        assert(ab =~= a);
        assert(kana_tokens(a) + kana_tokens(b) =~= kana_tokens(a));
    } else if a.len() >= 2 && pair_romaji(a[0], a[1]) is Some {
        assert(ab[0] == a[0] && ab[1] == a[1]);
        assert(ab.skip(2) =~= a.skip(2) + b);
        if a.skip(2).len() > 0 {
            assert(a.skip(2).last() == a.last());
        }
        law_kana_concat(a.skip(2), b);
        assert(kana_tokens(ab) =~= seq![pair_romaji(a[0], a[1])->0] + (kana_tokens(a.skip(2))
            + kana_tokens(b)));
    } else {
        assert(ab[0] == a[0]);
        assert(ab.len() >= 2 ==> pair_romaji(ab[0], ab[1]) is None) by {
            if a.len() >= 2 {
                assert(ab[1] == a[1]);
            } else {
                assert(ab[1] == b[0]);
                assert(a.last() == a[0]);
            }
        }
        assert(ab.skip(1) =~= a.skip(1) + b);
        if a.skip(1).len() > 0 {
            assert(a.skip(1).last() == a.last());
        }
        law_kana_concat(a.skip(1), b);
        if single_romaji(a[0]) is Some {
            assert(kana_tokens(ab) =~= seq![single_romaji(a[0])->0] + (kana_tokens(a.skip(1))
                + kana_tokens(b)));
        }
    }
}

/// Every token names a sample of the voice bank: the romaji of a single kana or of a
/// two-kana sound; characters with neither give no token.
pub proof fn law_kana_tokens_from_table(cs: Seq<char>)
    ensures
        forall|i: int|
            0 <= i < kana_tokens(cs).len() ==> (exists|c: char|
                single_romaji(c) == Some(#[trigger] kana_tokens(cs)[i])) || (exists|c: char, d: char|
                pair_romaji(c, d) == Some(kana_tokens(cs)[i])),
    decreases cs.len(),
{
    if cs.len() > 0 {
        let two = cs.len() >= 2 && pair_romaji(cs[0], cs[1]) is Some;
        let rest = if two { cs.skip(2) } else { cs.skip(1) };
        law_kana_tokens_from_table(rest);
        assert forall|i: int| 0 <= i < kana_tokens(cs).len() implies (exists|c: char|
            single_romaji(c) == Some(#[trigger] kana_tokens(cs)[i])) || (exists|c: char, d: char|
            pair_romaji(c, d) == Some(kana_tokens(cs)[i])) by {
            if two {
                if i == 0 {
                    assert(pair_romaji(cs[0], cs[1]) == Some(kana_tokens(cs)[0]));
                } else {
                    assert(kana_tokens(cs)[i] == kana_tokens(rest)[i - 1]);
                }
            } else if single_romaji(cs[0]) is Some {
                if i == 0 {
                    assert(single_romaji(cs[0]) == Some(kana_tokens(cs)[0]));
                } else {
                    assert(kana_tokens(cs)[i] == kana_tokens(rest)[i - 1]);
                }
            } else {
                assert(kana_tokens(cs)[i] == kana_tokens(rest)[i]);
            }
        }
    }
}

/// The kana of the syllable table by row and column: the vowel row, then the rows of
/// k, g, s, z, t, d, n, h, b, p, m and r, each in the column order a, i, u, e, o.
pub open spec fn kana_row(r: int) -> Seq<char> {
    if r == 0 {
        seq!['あ', 'い', 'う', 'え', 'お']
    } else if r == 1 {
        seq!['か', 'き', 'く', 'け', 'こ']
    } else if r == 2 {
        seq!['が', 'ぎ', 'ぐ', 'げ', 'ご']
    } else if r == 3 {
        seq!['さ', 'し', 'す', 'せ', 'そ']
    } else if r == 4 {
        seq!['ざ', 'じ', 'ず', 'ぜ', 'ぞ']
    } else if r == 5 {
        seq!['た', 'ち', 'つ', 'て', 'と']
    } else if r == 6 {
        seq!['だ', 'ぢ', 'づ', 'で', 'ど']
    } else if r == 7 {
        seq!['な', 'に', 'ぬ', 'ね', 'の']
    } else if r == 8 {
        seq!['は', 'ひ', 'ふ', 'へ', 'ほ']
    } else if r == 9 {
        seq!['ば', 'び', 'ぶ', 'べ', 'ぼ']
    } else if r == 10 {
        seq!['ぱ', 'ぴ', 'ぷ', 'ぺ', 'ぽ']
    } else if r == 11 {
        seq!['ま', 'み', 'む', 'め', 'も']
    } else {
        seq!['ら', 'り', 'る', 'れ', 'ろ']
    }
}

/// The consonant that starts every syllable of a row of the kana table (none for the vowel row).
pub open spec fn row_consonant(r: int) -> Seq<char> {
    if r == 0 {
        seq![]
    } else if r == 1 {
        seq!['k']
    } else if r == 2 {
        seq!['g']
    } else if r == 3 {
        seq!['s']
    } else if r == 4 {
        seq!['z']
    } else if r == 5 {
        seq!['t']
    } else if r == 6 {
        seq!['d']
    } else if r == 7 {
        seq!['n']
    } else if r == 8 {
        seq!['h']
    } else if r == 9 {
        seq!['b']
    } else if r == 10 {
        seq!['p']
    } else if r == 11 {
        seq!['m']
    } else {
        seq!['r']
    }
}

/// The vowel that ends every syllable of a column of the kana table.
pub open spec fn column_vowel(j: int) -> char {
    seq!['a', 'i', 'u', 'e', 'o'][j]
}

proof fn lemma_one_kana(c: char)
    ensures
        kana_tokens(seq![c]) == (if single_romaji(c) is Some {
            seq![single_romaji(c)->0]
        } else {
            Seq::<Seq<char>>::empty()
        }),
{
    let cs = seq![c];
    assert(cs.skip(1) =~= Seq::<char>::empty());
    assert(kana_tokens(Seq::<char>::empty()) == Seq::<Seq<char>>::empty());
    if single_romaji(c) is Some {
        assert(seq![single_romaji(c)->0] + Seq::<Seq<char>>::empty() =~= seq![single_romaji(c)->0]);
    }
}

/// A single kana of the table is one voice sample, named by its standard romaji: the
/// consonant of its row followed by the vowel of its column (ふ, read fu, is the one exception).
pub proof fn law_single_kana_romaji(r: int, j: int)
    requires
        0 <= r < 13,
        0 <= j < 5,
        !(r == 8 && j == 2),
    ensures
        kana_tokens(seq![kana_row(r)[j]]) == seq![row_consonant(r).push(column_vowel(j))],
{
    lemma_one_kana(kana_row(r)[j]);
    if r == 0 && j == 0 {
        reveal_strlit("a");
        assert(single_romaji('あ')->0 =~= row_consonant(r).push(column_vowel(j)));
    } else if r == 0 && j == 1 {
        reveal_strlit("i");
        assert(single_romaji('い')->0 =~= row_consonant(r).push(column_vowel(j)));
    } else if r == 0 && j == 2 {
        reveal_strlit("u");
        assert(single_romaji('う')->0 =~= row_consonant(r).push(column_vowel(j)));
    } else if r == 0 && j == 3 {
        reveal_strlit("e");
        assert(single_romaji('え')->0 =~= row_consonant(r).push(column_vowel(j)));
    } else if r == 0 && j == 4 {
        reveal_strlit("o");
        assert(single_romaji('お')->0 =~= row_consonant(r).push(column_vowel(j)));
    } else if r == 1 && j == 0 {
        reveal_strlit("ka");
        assert(single_romaji('か')->0 =~= row_consonant(r).push(column_vowel(j)));
    } else if r == 1 && j == 1 {
        reveal_strlit("ki");
        assert(single_romaji('き')->0 =~= row_consonant(r).push(column_vowel(j)));
    } else if r == 1 && j == 2 {
        reveal_strlit("ku");
        assert(single_romaji('く')->0 =~= row_consonant(r).push(column_vowel(j)));
    } else if r == 1 && j == 3 {
        reveal_strlit("ke");
        assert(single_romaji('け')->0 =~= row_consonant(r).push(column_vowel(j)));
    } else if r == 1 && j == 4 {
        reveal_strlit("ko");
        assert(single_romaji('こ')->0 =~= row_consonant(r).push(column_vowel(j)));
    } else if r == 2 && j == 0 {
        reveal_strlit("ga");
        assert(single_romaji('が')->0 =~= row_consonant(r).push(column_vowel(j)));
    } else if r == 2 && j == 1 {
        reveal_strlit("gi");
        assert(single_romaji('ぎ')->0 =~= row_consonant(r).push(column_vowel(j)));
    } else if r == 2 && j == 2 {
        reveal_strlit("gu");
        assert(single_romaji('ぐ')->0 =~= row_consonant(r).push(column_vowel(j)));
    } else if r == 2 && j == 3 {
        reveal_strlit("ge");
        assert(single_romaji('げ')->0 =~= row_consonant(r).push(column_vowel(j)));
    } else if r == 2 && j == 4 {
        reveal_strlit("go");
        assert(single_romaji('ご')->0 =~= row_consonant(r).push(column_vowel(j)));
    } else if r == 3 && j == 0 {
        reveal_strlit("sa");
        assert(single_romaji('さ')->0 =~= row_consonant(r).push(column_vowel(j)));
    } else if r == 3 && j == 1 {
        reveal_strlit("si");
        assert(single_romaji('し')->0 =~= row_consonant(r).push(column_vowel(j)));
    } else if r == 3 && j == 2 {
        reveal_strlit("su");
        assert(single_romaji('す')->0 =~= row_consonant(r).push(column_vowel(j)));
    } else if r == 3 && j == 3 {
        reveal_strlit("se");
        assert(single_romaji('せ')->0 =~= row_consonant(r).push(column_vowel(j)));
    } else if r == 3 && j == 4 {
        reveal_strlit("so");
        assert(single_romaji('そ')->0 =~= row_consonant(r).push(column_vowel(j)));
    } else if r == 4 && j == 0 {
        reveal_strlit("za");
        assert(single_romaji('ざ')->0 =~= row_consonant(r).push(column_vowel(j)));
    } else if r == 4 && j == 1 {
        reveal_strlit("zi");
        assert(single_romaji('じ')->0 =~= row_consonant(r).push(column_vowel(j)));
    } else if r == 4 && j == 2 {
        reveal_strlit("zu");
        assert(single_romaji('ず')->0 =~= row_consonant(r).push(column_vowel(j)));
    } else if r == 4 && j == 3 {
        reveal_strlit("ze");
        assert(single_romaji('ぜ')->0 =~= row_consonant(r).push(column_vowel(j)));
    } else if r == 4 && j == 4 {
        reveal_strlit("zo");
        assert(single_romaji('ぞ')->0 =~= row_consonant(r).push(column_vowel(j)));
    } else if r == 5 && j == 0 {
        reveal_strlit("ta");
        assert(single_romaji('た')->0 =~= row_consonant(r).push(column_vowel(j)));
    } else if r == 5 && j == 1 {
        reveal_strlit("ti");
        assert(single_romaji('ち')->0 =~= row_consonant(r).push(column_vowel(j)));
    } else if r == 5 && j == 2 {
        reveal_strlit("tu");
        assert(single_romaji('つ')->0 =~= row_consonant(r).push(column_vowel(j)));
    } else if r == 5 && j == 3 {
        reveal_strlit("te");
        assert(single_romaji('て')->0 =~= row_consonant(r).push(column_vowel(j)));
    } else if r == 5 && j == 4 {
        reveal_strlit("to");
        assert(single_romaji('と')->0 =~= row_consonant(r).push(column_vowel(j)));
    } else if r == 6 && j == 0 {
        reveal_strlit("da");
        assert(single_romaji('だ')->0 =~= row_consonant(r).push(column_vowel(j)));
    } else if r == 6 && j == 1 {
        reveal_strlit("di");
        assert(single_romaji('ぢ')->0 =~= row_consonant(r).push(column_vowel(j)));
    } else if r == 6 && j == 2 {
        reveal_strlit("du");
        assert(single_romaji('づ')->0 =~= row_consonant(r).push(column_vowel(j)));
    } else if r == 6 && j == 3 {
        reveal_strlit("de");
        assert(single_romaji('で')->0 =~= row_consonant(r).push(column_vowel(j)));
    } else if r == 6 && j == 4 {
        reveal_strlit("do");
        assert(single_romaji('ど')->0 =~= row_consonant(r).push(column_vowel(j)));
    } else if r == 7 && j == 0 {
        reveal_strlit("na");
        assert(single_romaji('な')->0 =~= row_consonant(r).push(column_vowel(j)));
    } else if r == 7 && j == 1 {
        reveal_strlit("ni");
        assert(single_romaji('に')->0 =~= row_consonant(r).push(column_vowel(j)));
    } else if r == 7 && j == 2 {
        reveal_strlit("nu");
        assert(single_romaji('ぬ')->0 =~= row_consonant(r).push(column_vowel(j)));
    } else if r == 7 && j == 3 {
        reveal_strlit("ne");
        assert(single_romaji('ね')->0 =~= row_consonant(r).push(column_vowel(j)));
    } else if r == 7 && j == 4 {
        reveal_strlit("no");
        assert(single_romaji('の')->0 =~= row_consonant(r).push(column_vowel(j)));
    } else if r == 8 && j == 0 {
        reveal_strlit("ha");
        assert(single_romaji('は')->0 =~= row_consonant(r).push(column_vowel(j)));
    } else if r == 8 && j == 1 {
        reveal_strlit("hi");
        assert(single_romaji('ひ')->0 =~= row_consonant(r).push(column_vowel(j)));
    } else if r == 8 && j == 3 {
        reveal_strlit("he");
        assert(single_romaji('へ')->0 =~= row_consonant(r).push(column_vowel(j)));
    } else if r == 8 && j == 4 {
        reveal_strlit("ho");
        assert(single_romaji('ほ')->0 =~= row_consonant(r).push(column_vowel(j)));
    } else if r == 9 && j == 0 {
        reveal_strlit("ba");
        assert(single_romaji('ば')->0 =~= row_consonant(r).push(column_vowel(j)));
    } else if r == 9 && j == 1 {
        reveal_strlit("bi");
        assert(single_romaji('び')->0 =~= row_consonant(r).push(column_vowel(j)));
    } else if r == 9 && j == 2 {
        reveal_strlit("bu");
        assert(single_romaji('ぶ')->0 =~= row_consonant(r).push(column_vowel(j)));
    } else if r == 9 && j == 3 {
        reveal_strlit("be");
        assert(single_romaji('べ')->0 =~= row_consonant(r).push(column_vowel(j)));
    } else if r == 9 && j == 4 {
        reveal_strlit("bo");
        assert(single_romaji('ぼ')->0 =~= row_consonant(r).push(column_vowel(j)));
    } else if r == 10 && j == 0 {
        reveal_strlit("pa");
        assert(single_romaji('ぱ')->0 =~= row_consonant(r).push(column_vowel(j)));
    } else if r == 10 && j == 1 {
        reveal_strlit("pi");
        assert(single_romaji('ぴ')->0 =~= row_consonant(r).push(column_vowel(j)));
    } else if r == 10 && j == 2 {
        reveal_strlit("pu");
        assert(single_romaji('ぷ')->0 =~= row_consonant(r).push(column_vowel(j)));
    } else if r == 10 && j == 3 {
        reveal_strlit("pe");
        assert(single_romaji('ぺ')->0 =~= row_consonant(r).push(column_vowel(j)));
    } else if r == 10 && j == 4 {
        reveal_strlit("po");
        assert(single_romaji('ぽ')->0 =~= row_consonant(r).push(column_vowel(j)));
    } else if r == 11 && j == 0 {
        reveal_strlit("ma");
        assert(single_romaji('ま')->0 =~= row_consonant(r).push(column_vowel(j)));
    } else if r == 11 && j == 1 {
        reveal_strlit("mi");
        assert(single_romaji('み')->0 =~= row_consonant(r).push(column_vowel(j)));
    } else if r == 11 && j == 2 {
        reveal_strlit("mu");
        assert(single_romaji('む')->0 =~= row_consonant(r).push(column_vowel(j)));
    } else if r == 11 && j == 3 {
        reveal_strlit("me");
        assert(single_romaji('め')->0 =~= row_consonant(r).push(column_vowel(j)));
    } else if r == 11 && j == 4 {
        reveal_strlit("mo");
        assert(single_romaji('も')->0 =~= row_consonant(r).push(column_vowel(j)));
    } else if r == 12 && j == 0 {
        reveal_strlit("ra");
        assert(single_romaji('ら')->0 =~= row_consonant(r).push(column_vowel(j)));
    } else if r == 12 && j == 1 {
        reveal_strlit("ri");
        assert(single_romaji('り')->0 =~= row_consonant(r).push(column_vowel(j)));
    } else if r == 12 && j == 2 {
        reveal_strlit("ru");
        assert(single_romaji('る')->0 =~= row_consonant(r).push(column_vowel(j)));
    } else if r == 12 && j == 3 {
        reveal_strlit("re");
        assert(single_romaji('れ')->0 =~= row_consonant(r).push(column_vowel(j)));
    } else if r == 12 && j == 4 {
        reveal_strlit("ro");
        assert(single_romaji('ろ')->0 =~= row_consonant(r).push(column_vowel(j)));
    }
}

/// The kana outside the regular rows are one voice sample each: ふ is fu, the y row is ya, yu
/// and yo, and わ, を and ん are wa, wo and nn.
pub proof fn law_other_kana_romaji()
    ensures
        kana_tokens(seq!['ふ']) == seq![seq!['f', 'u']],
        kana_tokens(seq!['や']) == seq![seq!['y', 'a']],
        kana_tokens(seq!['ゆ']) == seq![seq!['y', 'u']],
        kana_tokens(seq!['よ']) == seq![seq!['y', 'o']],
        kana_tokens(seq!['わ']) == seq![seq!['w', 'a']],
        kana_tokens(seq!['を']) == seq![seq!['w', 'o']],
        kana_tokens(seq!['ん']) == seq![seq!['n', 'n']],
{
    lemma_one_kana('ふ');
    reveal_strlit("fu");
    assert(single_romaji('ふ')->0 =~= seq!['f', 'u']);
    lemma_one_kana('や');
    reveal_strlit("ya");
    assert(single_romaji('や')->0 =~= seq!['y', 'a']);
    lemma_one_kana('ゆ');
    reveal_strlit("yu");
    assert(single_romaji('ゆ')->0 =~= seq!['y', 'u']);
    lemma_one_kana('よ');
    reveal_strlit("yo");
    assert(single_romaji('よ')->0 =~= seq!['y', 'o']);
    lemma_one_kana('わ');
    reveal_strlit("wa");
    assert(single_romaji('わ')->0 =~= seq!['w', 'a']);
    lemma_one_kana('を');
    reveal_strlit("wo");
    assert(single_romaji('を')->0 =~= seq!['w', 'o']);
    lemma_one_kana('ん');
    reveal_strlit("nn");
    assert(single_romaji('ん')->0 =~= seq!['n', 'n']);
}

/// The small kana that follow an i-column kana in a contracted sound, in the order ゃ, ゅ, ょ, ぇ.
pub open spec fn small_kana(k: int) -> char {
    seq!['ゃ', 'ゅ', 'ょ', 'ぇ'][k]
}

/// The vowel of each small kana of `small_kana`: a, u, o, e.
pub open spec fn small_vowel(k: int) -> char {
    seq!['a', 'u', 'o', 'e'][k]
}

/// The small vowels that follow ヴ, in the order ぁ, ぃ, ぇ, ぉ.
pub open spec fn small_vowel_kana(k: int) -> char {
    seq!['ぁ', 'ぃ', 'ぇ', 'ぉ'][k]
}

/// The vowel of each small kana of `small_vowel_kana`: a, i, e, o.
pub open spec fn small_vowel_romaji(k: int) -> char {
    seq!['a', 'i', 'e', 'o'][k]
}

proof fn lemma_two_kana(a: char, b: char)
    requires
        pair_romaji(a, b) is Some,
    ensures
        kana_tokens(seq![a, b]) == seq![pair_romaji(a, b)->0],
{
    let cs = seq![a, b];
    assert(cs[0] == a && cs[1] == b);
    assert(cs.skip(2) =~= Seq::<char>::empty());
    assert(kana_tokens(Seq::<char>::empty()) == Seq::<Seq<char>>::empty());
    assert(seq![pair_romaji(a, b)->0] + Seq::<Seq<char>>::empty() =~= seq![pair_romaji(a, b)->0]);
}

/// An i-column kana of a consonant row other than the d row, followed by a small ya, yu, yo or
/// e, is one voice sample: the row's consonant, a y, and the small kana's vowel (きゃ is kya).
pub proof fn law_contracted_romaji(r: int, k: int)
    requires
        1 <= r < 13,
        r != 6,
        0 <= k < 4,
    ensures
        kana_tokens(seq![kana_row(r)[1], small_kana(k)]) == seq![
            row_consonant(r) + seq!['y', small_vowel(k)],
        ],
{
    if r == 1 {
        reveal_strlit("ky");
        assert(contracted_prefix('き')->0 =~= row_consonant(r) + seq!['y']);
    } else if r == 2 {
        reveal_strlit("gy");
        assert(contracted_prefix('ぎ')->0 =~= row_consonant(r) + seq!['y']);
    } else if r == 3 {
        reveal_strlit("sy");
        assert(contracted_prefix('し')->0 =~= row_consonant(r) + seq!['y']);
    } else if r == 4 {
        reveal_strlit("zy");
        assert(contracted_prefix('じ')->0 =~= row_consonant(r) + seq!['y']);
    } else if r == 5 {
        reveal_strlit("ty");
        assert(contracted_prefix('ち')->0 =~= row_consonant(r) + seq!['y']);
    } else if r == 7 {
        reveal_strlit("ny");
        assert(contracted_prefix('に')->0 =~= row_consonant(r) + seq!['y']);
    } else if r == 8 {
        reveal_strlit("hy");
        assert(contracted_prefix('ひ')->0 =~= row_consonant(r) + seq!['y']);
    } else if r == 9 {
        reveal_strlit("by");
        assert(contracted_prefix('び')->0 =~= row_consonant(r) + seq!['y']);
    } else if r == 10 {
        reveal_strlit("py");
        assert(contracted_prefix('ぴ')->0 =~= row_consonant(r) + seq!['y']);
    } else if r == 11 {
        reveal_strlit("my");
        assert(contracted_prefix('み')->0 =~= row_consonant(r) + seq!['y']);
    } else if r == 12 {
        reveal_strlit("ry");
        assert(contracted_prefix('り')->0 =~= row_consonant(r) + seq!['y']);
    }
    reveal_strlit("a");
    reveal_strlit("u");
    reveal_strlit("o");
    reveal_strlit("e");
    let a = kana_row(r)[1];
    let b = small_kana(k);
    if k == 0 {
        assert(contracted_vowel(b)->0 =~= seq![small_vowel(k)]);
    } else if k == 1 {
        assert(contracted_vowel(b)->0 =~= seq![small_vowel(k)]);
    } else if k == 2 {
        assert(contracted_vowel(b)->0 =~= seq![small_vowel(k)]);
    } else {
        assert(contracted_vowel(b)->0 =~= seq![small_vowel(k)]);
    }
    assert(a != 'ヴ');
    lemma_two_kana(a, b);
    assert(pair_romaji(a, b)->0 =~= row_consonant(r) + seq!['y', small_vowel(k)]);
}

/// ヴ followed by a small a, i, e or o is one voice sample: v and that vowel (ヴぁ is va).
pub proof fn law_vu_romaji(k: int)
    requires
        0 <= k < 4,
    ensures
        kana_tokens(seq!['ヴ', small_vowel_kana(k)]) == seq![seq!['v', small_vowel_romaji(k)]],
{
    reveal_strlit("v");
    reveal_strlit("a");
    reveal_strlit("i");
    reveal_strlit("e");
    reveal_strlit("o");
    let b = small_vowel_kana(k);
    if k == 0 {
        assert(vu_vowel(b)->0 =~= seq![small_vowel_romaji(k)]);
    } else if k == 1 {
        assert(vu_vowel(b)->0 =~= seq![small_vowel_romaji(k)]);
    } else if k == 2 {
        assert(vu_vowel(b)->0 =~= seq![small_vowel_romaji(k)]);
    } else {
        assert(vu_vowel(b)->0 =~= seq![small_vowel_romaji(k)]);
    }
    lemma_two_kana('ヴ', b);
    assert(pair_romaji('ヴ', b)->0 =~= seq!['v', small_vowel_romaji(k)]);
}

fn single_lookup(c: char) -> (r: Option<&'static str>)
    ensures
        match r {
            Some(s) => single_romaji(c) == Some(s@),
            None => single_romaji(c) is None,
        },
{
    match c {
        'あ' => Some("a"),
        'い' => Some("i"),
        'う' => Some("u"),
        'え' => Some("e"),
        'お' => Some("o"),
        'か' => Some("ka"),
        'き' => Some("ki"),
        'く' => Some("ku"),
        'け' => Some("ke"),
        'こ' => Some("ko"),
        'が' => Some("ga"),
        'ぎ' => Some("gi"),
        'ぐ' => Some("gu"),
        'げ' => Some("ge"),
        'ご' => Some("go"),
        'さ' => Some("sa"),
        'し' => Some("si"),
        'す' => Some("su"),
        'せ' => Some("se"),
        'そ' => Some("so"),
        'ざ' => Some("za"),
        'じ' => Some("zi"),
        'ず' => Some("zu"),
        'ぜ' => Some("ze"),
        'ぞ' => Some("zo"),
        'た' => Some("ta"),
        'ち' => Some("ti"),
        'つ' => Some("tu"),
        'て' => Some("te"),
        'と' => Some("to"),
        'だ' => Some("da"),
        'ぢ' => Some("di"),
        'づ' => Some("du"),
        'で' => Some("de"),
        'ど' => Some("do"),
        'な' => Some("na"),
        'に' => Some("ni"),
        'ぬ' => Some("nu"),
        'ね' => Some("ne"),
        'の' => Some("no"),
        'は' => Some("ha"),
        'ひ' => Some("hi"),
        'ふ' => Some("fu"),
        'へ' => Some("he"),
        'ほ' => Some("ho"),
        'ば' => Some("ba"),
        'び' => Some("bi"),
        'ぶ' => Some("bu"),
        'べ' => Some("be"),
        'ぼ' => Some("bo"),
        'ぱ' => Some("pa"),
        'ぴ' => Some("pi"),
        'ぷ' => Some("pu"),
        'ぺ' => Some("pe"),
        'ぽ' => Some("po"),
        'ま' => Some("ma"),
        'み' => Some("mi"),
        'む' => Some("mu"),
        'め' => Some("me"),
        'も' => Some("mo"),
        'や' => Some("ya"),
        'ゆ' => Some("yu"),
        'よ' => Some("yo"),
        'ら' => Some("ra"),
        'り' => Some("ri"),
        'る' => Some("ru"),
        'れ' => Some("re"),
        'ろ' => Some("ro"),
        'わ' => Some("wa"),
        'を' => Some("wo"),
        'ん' => Some("nn"),
        _ => None,
    }
}

fn prefix_lookup(c: char) -> (r: Option<&'static str>)
    ensures
        match r {
            Some(s) => contracted_prefix(c) == Some(s@),
            None => contracted_prefix(c) is None,
        },
{
    match c {
        'き' => Some("ky"),
        'ぎ' => Some("gy"),
        'し' => Some("sy"),
        'じ' => Some("zy"),
        'ち' => Some("ty"),
        'に' => Some("ny"),
        'ひ' => Some("hy"),
        'び' => Some("by"),
        'ぴ' => Some("py"),
        'み' => Some("my"),
        'り' => Some("ry"),
        _ => None,
    }
}

fn contracted_vowel_lookup(c: char) -> (r: Option<&'static str>)
    ensures
        match r {
            Some(s) => contracted_vowel(c) == Some(s@),
            None => contracted_vowel(c) is None,
        },
{
    match c {
        'ゃ' => Some("a"),
        'ゅ' => Some("u"),
        'ょ' => Some("o"),
        'ぇ' => Some("e"),
        _ => None,
    }
}

fn vu_vowel_lookup(c: char) -> (r: Option<&'static str>)
    ensures
        match r {
            Some(s) => vu_vowel(c) == Some(s@),
            None => vu_vowel(c) is None,
        },
{
    match c {
        'ぁ' => Some("a"),
        'ぃ' => Some("i"),
        'ぇ' => Some("e"),
        'ぉ' => Some("o"),
        _ => None,
    }
}

fn pair_lookup(a: char, b: char) -> (r: Option<String>)
    ensures
        match r {
            Some(s) => pair_romaji(a, b) == Some(s@),
            None => pair_romaji(a, b) is None,
        },
{
    if a == 'ヴ' {
        if let Some(v) = vu_vowel_lookup(b) {
            return Some(String::from_str("v").concat(v));
        }
    }
    match (prefix_lookup(a), contracted_vowel_lookup(b)) {
        (Some(p), Some(v)) => Some(String::from_str(p).concat(v)),
        _ => None,
    }
}

/// Converts Japanese kana text into the romaji names of the voice samples to play, in order.
pub fn tokenize_kana(text: &str) -> (r: Vec<String>)
    ensures
        r@.map_values(|s: String| s@) == kana_tokens(text@),
{
    let chars = chars_of(text);
    let ghost cs = chars@;
    let mut result: Vec<String> = Vec::new();
    let mut i: usize = 0;
    assert(cs.skip(0) =~= cs);
    assert(result@.map_values(|s: String| s@) + kana_tokens(cs) =~= kana_tokens(cs));
    while i < chars.len()
        invariant
            cs == chars@,
            cs == text@,
            i <= chars.len(),
            result@.map_values(|s: String| s@) + kana_tokens(cs.skip(i as int)) == kana_tokens(cs),
        decreases chars.len() - i,
    {
        let ghost rest = cs.skip(i as int);
        let mut matched = false;
        if i + 1 < chars.len() {
            if let Some(s) = pair_lookup(chars[i], chars[i + 1]) {
                proof {
                    assert(rest[0] == chars@[i as int] && rest[1] == chars@[i + 1]);
                    assert(rest.skip(2) =~= cs.skip(i + 2));
                }
                let ghost before = result@.map_values(|s: String| s@);
                result.push(s);
                assert(result@.map_values(|s: String| s@) =~= before.push(s@));
                assert(before.push(s@) + kana_tokens(cs.skip(i + 2)) =~= before + kana_tokens(rest));
                matched = true;
                i = i + 2;
            }
        }
        if !matched {
            proof {
                assert(rest[0] == chars@[i as int]);
                assert(rest.skip(1) =~= cs.skip(i + 1));
                if i + 1 < chars.len() {
                    assert(rest[1] == chars@[i + 1]);
                }
            }
            let ghost before = result@.map_values(|s: String| s@);
            if let Some(s) = single_lookup(chars[i]) {
                let owned = String::from_str(s);
                result.push(owned);
                assert(result@.map_values(|s: String| s@) =~= before.push(s@));
                assert(before.push(s@) + kana_tokens(cs.skip(i + 1)) =~= before + kana_tokens(rest));
            }
            i = i + 1;
        }
    }
    assert(cs.skip(i as int) =~= Seq::<char>::empty());
    assert(result@.map_values(|s: String| s@) + Seq::<Seq<char>>::empty() =~= result@.map_values(|s: String| s@));
    result
}

/// Number of leading '_' of `s`.
pub open spec fn leading_underscores(s: Seq<char>) -> nat
    decreases s.len(),
{
    if s.len() > 0 && s[0] == '_' {
        1 + leading_underscores(s.skip(1))
    } else {
        0
    }
}

proof fn lemma_underscores_from(s: Seq<char>, i: int)
    requires
        0 <= i <= s.len(),
        forall|j: int| 0 <= j < i ==> #[trigger] s[j] == '_',
    ensures
        leading_underscores(s) == i + leading_underscores(s.skip(i)),
    decreases i,
{
    if i > 0 {
        let t = s.skip(1);
        assert forall|j: int| 0 <= j < i - 1 implies #[trigger] t[j] == '_' by {
            assert(t[j] == s[j + 1]);
        }
        lemma_underscores_from(t, i - 1);
        assert(t.skip(i - 1) =~= s.skip(i));
    } else {
        assert(s.skip(0) =~= s);
    }
}

/// The sample name of a voice file: its stem without leading '_'.
pub fn wav_key(stem: &str) -> (k: String)
    ensures
        k@ == stem@.skip(leading_underscores(stem@) as int),
{
    let cs = chars_of(stem);
    let mut i: usize = 0;
    while i < cs.len() && cs[i] == '_'
        invariant
            i <= cs@.len(),
            forall|j: int| 0 <= j < i ==> #[trigger] cs@[j] == '_',
        decreases cs@.len() - i,
    {
        i = i + 1;
    }
    proof {
        lemma_underscores_from(cs@, i as int);
        if i < cs@.len() {
            assert(cs@.skip(i as int)[0] == cs@[i as int]);
        }
    }
    let k = string_from_range(&cs, i, cs.len());
    assert(cs@.subrange(i as int, cs@.len() as int) =~= stem@.skip(leading_underscores(stem@) as int));
    k
}

} // verus!
