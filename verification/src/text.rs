//! Character-level helpers shared by the parsers.
use vstd::prelude::*;

verus! {

broadcast use vstd::string::group_string_axioms;

/// The characters of a string, in order.
pub fn chars_of(s: &str) -> (v: Vec<char>)
    ensures
        v@ == s@,
{
    let mut v: Vec<char> = Vec::new();
    for c in it: s.chars()
        invariant
            v@ == it.seq().take(it.index() as int),
    {
        v.push(c);
    }
    v
}

/// Unicode `White_Space`, the property behind `char::is_whitespace`.
pub open spec fn is_ws(c: char) -> bool {
    let u = c as u32;
    (0x9 <= u <= 0xD) || u == 0x20 || u == 0x85 || u == 0xA0 || u == 0x1680 || (0x2000 <= u
        <= 0x200A) || u == 0x2028 || u == 0x2029 || u == 0x202F || u == 0x205F || u == 0x3000
}

/// Whether `c` is Unicode white space.
pub fn is_whitespace(c: char) -> (r: bool)
    ensures
        r == is_ws(c),
{
    let u = c as u32;
    (0x9 <= u && u <= 0xD) || u == 0x20 || u == 0x85 || u == 0xA0 || u == 0x1680 || (0x2000 <= u
        && u <= 0x200A) || u == 0x2028 || u == 0x2029 || u == 0x202F || u == 0x205F || u == 0x3000
}

/// Number of leading white-space characters of `s`.
pub open spec fn leading_ws(s: Seq<char>) -> nat
    decreases s.len(),
{
    if s.len() > 0 && is_ws(s[0]) {
        1 + leading_ws(s.skip(1))
    } else {
        0
    }
}

/// Number of trailing white-space characters of `s`.
pub open spec fn trailing_ws(s: Seq<char>) -> nat
    decreases s.len(),
{
    if s.len() > 0 && is_ws(s.last()) {
        1 + trailing_ws(s.drop_last())
    } else {
        0
    }
}

/// `s` without its leading white space (`str::trim_start`).
pub open spec fn trim_start(s: Seq<char>) -> Seq<char> {
    s.skip(leading_ws(s) as int)
}

/// `s` without its trailing white space (`str::trim_end`).
pub open spec fn trim_end(s: Seq<char>) -> Seq<char> {
    s.take(s.len() - trailing_ws(s))
}

/// `s` without leading and trailing white space (`str::trim`).
pub open spec fn trim(s: Seq<char>) -> Seq<char> {
    trim_end(trim_start(s))
}

pub proof fn lemma_leading_ws(s: Seq<char>)
    ensures
        leading_ws(s) <= s.len(),
        forall|i: int| 0 <= i < leading_ws(s) ==> is_ws(#[trigger] s[i]),
        leading_ws(s) < s.len() ==> !is_ws(s[leading_ws(s) as int]),
    decreases s.len(),
{
    if s.len() > 0 && is_ws(s[0]) {
        lemma_leading_ws(s.skip(1));
        assert forall|i: int| 0 <= i < leading_ws(s) implies is_ws(#[trigger] s[i]) by {
            if i > 0 {
                assert(s[i] == s.skip(1)[i - 1]);
            }
        }
        if leading_ws(s) < s.len() {
            assert(s[leading_ws(s) as int] == s.skip(1)[leading_ws(s.skip(1)) as int]);
        }
    }
}

pub proof fn lemma_trailing_ws(s: Seq<char>)
    ensures
        trailing_ws(s) <= s.len(),
        forall|i: int| s.len() - trailing_ws(s) <= i < s.len() ==> is_ws(#[trigger] s[i]),
        trailing_ws(s) < s.len() ==> !is_ws(s[s.len() - trailing_ws(s) - 1]),
    decreases s.len(),
{
    if s.len() > 0 && is_ws(s.last()) {
        lemma_trailing_ws(s.drop_last());
        assert forall|i: int| s.len() - trailing_ws(s) <= i < s.len() implies is_ws(#[trigger] s[i]) by {
            if i < s.len() - 1 {
                assert(s[i] == s.drop_last()[i]);
            }
        }
        if trailing_ws(s) < s.len() {
            assert(s[s.len() - trailing_ws(s) - 1] == s.drop_last()[s.drop_last().len()
                - trailing_ws(s.drop_last()) - 1]);
        }
    }
}

/// Counting leading white space from position `i` on, when everything before `i` is white space.
proof fn lemma_leading_ws_from(s: Seq<char>, i: int)
    requires
        0 <= i <= s.len(),
        forall|j: int| 0 <= j < i ==> is_ws(#[trigger] s[j]),
    ensures
        leading_ws(s) == i + leading_ws(s.skip(i)),
    decreases i,
{
    if i > 0 {
        assert(is_ws(s[0]));
        assert forall|j: int| 0 <= j < i - 1 implies is_ws(#[trigger] s.skip(1)[j]) by {
            assert(s.skip(1)[j] == s[j + 1]);
        }
        lemma_leading_ws_from(s.skip(1), i - 1);
        assert(s.skip(1).skip(i - 1) =~= s.skip(i));
    } else {
        assert(s.skip(0) =~= s);
    }
}

proof fn lemma_trailing_ws_from(s: Seq<char>, n: int)
    requires
        0 <= n <= s.len(),
        forall|j: int| s.len() - n <= j < s.len() ==> is_ws(#[trigger] s[j]),
    ensures
        trailing_ws(s) == n + trailing_ws(s.take(s.len() - n)),
    decreases n,
{
    if n > 0 {
        assert(is_ws(s[s.len() - 1]));
        assert forall|j: int| s.drop_last().len() - (n - 1) <= j < s.drop_last().len() implies is_ws(
            #[trigger] s.drop_last()[j],
        ) by {
            assert(s.drop_last()[j] == s[j]);
        }
        lemma_trailing_ws_from(s.drop_last(), n - 1);
        assert(s.drop_last().take(s.drop_last().len() - (n - 1)) =~= s.take(s.len() - n));
    } else {
        assert(s.take(s.len() - 0) =~= s);
    }
}

/// Position of the first character of `s` from `from` on that is not white space
/// (or the length of `s` when there is none).
pub fn skip_ws(s: &Vec<char>, from: usize) -> (r: usize)
    requires
        from <= s@.len(),
    ensures
        r == from + leading_ws(s@.skip(from as int)),
{
    let mut i = from;
    while i < s.len() && is_whitespace(s[i])
        invariant
            from <= i <= s@.len(),
            forall|j: int| from <= j < i ==> is_ws(#[trigger] s@[j]),
        decreases s@.len() - i,
    {
        i = i + 1;
    }
    proof {
        let t = s@.skip(from as int);
        assert forall|j: int| 0 <= j < i - from implies is_ws(#[trigger] t[j]) by {
            assert(t[j] == s@[from + j]);
        }
        lemma_leading_ws_from(t, i - from);
        assert(t.skip(i - from) =~= s@.skip(i as int));
        if i < s@.len() {
            assert(leading_ws(s@.skip(i as int)) == 0);
        } else {
            assert(s@.skip(i as int).len() == 0);
        }
    }
    i
}

/// The end of `s[from..to]` without its trailing white space.
pub fn trim_end_at(s: &Vec<char>, from: usize, to: usize) -> (r: usize)
    requires
        from <= to <= s@.len(),
    ensures
        r == to - trailing_ws(s@.subrange(from as int, to as int)),
{
    let mut e = to;
    while e > from && is_whitespace(s[e - 1])
        invariant
            from <= e <= to,
            to <= s@.len(),
            forall|j: int| e <= j < to ==> is_ws(#[trigger] s@[j]),
        decreases e - from,
    {
        e = e - 1;
    }
    proof {
        let t = s@.subrange(from as int, to as int);
        assert forall|j: int| t.len() - (to - e) <= j < t.len() implies is_ws(#[trigger] t[j]) by {
            assert(t[j] == s@[from + j]);
        }
        lemma_trailing_ws_from(t, to - e);
        let rest = t.take(t.len() - (to - e));
        if e > from {
            assert(rest.last() == s@[e - 1]);
            assert(trailing_ws(rest) == 0);
        } else {
            assert(rest.len() == 0);
        }
    }
    e
}

/// Whether `needle` occurs in `hay` at position `i`.
pub open spec fn occurs_at(hay: Seq<char>, needle: Seq<char>, i: int) -> bool {
    0 <= i && i + needle.len() <= hay.len() && hay.subrange(i, i + needle.len()) == needle
}

/// Position of the first occurrence of `needle` in `hay` (`str::find` with a string pattern).
#[verifier::opaque]
pub open spec fn find_first(hay: Seq<char>, needle: Seq<char>) -> Option<int> {
    if exists|i: int| occurs_at(hay, needle, i) {
        Some(
            choose|i: int|
                occurs_at(hay, needle, i) && forall|j: int| 0 <= j < i ==> !occurs_at(hay, needle, j),
        )
    } else {
        None
    }
}

/// Whether `needle` occurs in `hay` at position `i`.
fn matches_at(hay: &Vec<char>, needle: &Vec<char>, i: usize) -> (r: bool)
    requires
        i <= hay@.len(),
    ensures
        r == occurs_at(hay@, needle@, i as int),
{
    if needle.len() > hay.len() - i {
        return false;
    }
    let mut k: usize = 0;
    while k < needle.len()
        invariant
            i + needle@.len() <= hay@.len(),
            hay@.len() == hay.len(),
            k <= needle@.len(),
            forall|j: int| 0 <= j < k ==> hay@[i + j] == needle@[j],
        decreases needle@.len() - k,
    {
        if hay[i + k] != needle[k] {
            assert(hay@.subrange(i as int, i + needle@.len())[k as int] != needle@[k as int]);
            return false;
        }
        k = k + 1;
    }
    assert(hay@.subrange(i as int, i + needle@.len()) =~= needle@);
    true
}

pub proof fn lemma_find_first_is(hay: Seq<char>, needle: Seq<char>, p: int)
    requires
        occurs_at(hay, needle, p),
        forall|j: int| 0 <= j < p ==> !occurs_at(hay, needle, j),
    ensures
        find_first(hay, needle) == Some(p),
{
    reveal(find_first);
    let q = choose|i: int|
        occurs_at(hay, needle, i) && forall|j: int| 0 <= j < i ==> !occurs_at(hay, needle, j);
    assert(occurs_at(hay, needle, q) && forall|j: int| 0 <= j < q ==> !occurs_at(hay, needle, j));
    if q < p {
        assert(!occurs_at(hay, needle, q));
    }
    if p < q {
        assert(!occurs_at(hay, needle, p));
    }
}

/// Where `needle` occurs nowhere, `find_first` finds nothing.
pub proof fn lemma_find_first_none(hay: Seq<char>, needle: Seq<char>)
    requires
        forall|j: int| !occurs_at(hay, needle, j),
    ensures
        find_first(hay, needle) is None,
{
    reveal(find_first);
}

/// Position of the first occurrence of `needle` in `hay`, if any.
pub fn find(hay: &Vec<char>, needle: &Vec<char>) -> (r: Option<usize>)
    ensures
        match r {
            Some(p) => find_first(hay@, needle@) == Some(p as int) && occurs_at(hay@, needle@, p as int),
            None => find_first(hay@, needle@) is None,
        },
{
    let mut i: usize = 0;
    loop
        invariant
            i <= hay@.len(),
            forall|j: int| 0 <= j < i ==> !occurs_at(hay@, needle@, j),
        ensures
            forall|j: int| 0 <= j <= hay@.len() ==> !occurs_at(hay@, needle@, j),
        decreases hay@.len() - i,
    {
        if matches_at(hay, needle, i) {
            proof {
                lemma_find_first_is(hay@, needle@, i as int);
            }
            return Some(i);
        }
        if i == hay.len() {
            break;
        }
        i = i + 1;
    }
    assert forall|j: int| !occurs_at(hay@, needle@, j) by {
        if j > hay@.len() {
            assert(j + needle@.len() > hay@.len());
        }
    }
    proof {
        lemma_find_first_none(hay@, needle@);
    }
    None
}

/// Calls `String::push`, which std documents as appending the given char to the end of the
/// string. Trusted, not proved: the contract claims the characters afterwards are the old ones
/// followed by `c`.
#[verifier::external_body]
pub(crate) fn push_char(s: &mut String, c: char)
    ensures
        final(s)@ == old(s)@.push(c),
{
    s.push(c);
}

/// A string holding `cs[from..to]`.
pub fn string_from_range(cs: &Vec<char>, from: usize, to: usize) -> (r: String)
    requires
        from <= to <= cs@.len(),
    ensures
        r@ == cs@.subrange(from as int, to as int),
{
    let mut out = String::new();
    let mut i = from;
    while i < to
        invariant
            from <= i <= to,
            to <= cs@.len(),
            out@ == cs@.subrange(from as int, i as int),
        decreases to - i,
    {
        push_char(&mut out, cs[i]);
        assert(cs@.subrange(from as int, i + 1) =~= cs@.subrange(from as int, i as int).push(cs@[i as int]));
        i = i + 1;
    }
    out
}

/// Whether `c` is an ASCII decimal digit.
pub open spec fn is_digit(c: char) -> bool {
    '0' <= c <= '9'
}

/// Number of leading ASCII digits of `s`.
pub open spec fn digit_run(s: Seq<char>) -> nat
    decreases s.len(),
{
    if s.len() > 0 && is_digit(s[0]) {
        1 + digit_run(s.skip(1))
    } else {
        0
    }
}

/// Decimal value of a string of digits.
pub open spec fn digits_value(ds: Seq<char>) -> nat
    decreases ds.len(),
{
    if ds.len() == 0 {
        0
    } else {
        digits_value(ds.drop_last()) * 10 + (ds.last() as nat - '0' as nat) as nat
    }
}

/// `str::parse::<u64>` on a string of ASCII digits: its value, unless it is empty or does
/// not fit in a `u64`.
pub open spec fn parse_u64(ds: Seq<char>) -> Option<u64> {
    if ds.len() > 0 && digits_value(ds) <= u64::MAX as nat {
        Some(digits_value(ds) as u64)
    } else {
        None
    }
}

proof fn lemma_digit_run_from(s: Seq<char>, i: int)
    requires
        0 <= i <= s.len(),
        forall|j: int| 0 <= j < i ==> is_digit(#[trigger] s[j]),
    ensures
        digit_run(s) == i + digit_run(s.skip(i)),
    decreases i,
{
    if i > 0 {
        assert(is_digit(s[0]));
        assert forall|j: int| 0 <= j < i - 1 implies is_digit(#[trigger] s.skip(1)[j]) by {
            assert(s.skip(1)[j] == s[j + 1]);
        }
        lemma_digit_run_from(s.skip(1), i - 1);
        assert(s.skip(1).skip(i - 1) =~= s.skip(i));
    } else {
        assert(s.skip(0) =~= s);
    }
}

/// End of the run of ASCII digits of `cs` that starts at `from`.
pub fn digits_end(cs: &Vec<char>, from: usize) -> (r: usize)
    requires
        from <= cs@.len(),
    ensures
        r == from + digit_run(cs@.skip(from as int)),
{
    let mut i = from;
    while i < cs.len() && '0' <= cs[i] && cs[i] <= '9'
        invariant
            from <= i <= cs@.len(),
            forall|j: int| from <= j < i ==> is_digit(#[trigger] cs@[j]),
        decreases cs@.len() - i,
    {
        i = i + 1;
    }
    proof {
        let t = cs@.skip(from as int);
        assert forall|j: int| 0 <= j < i - from implies is_digit(#[trigger] t[j]) by {
            assert(t[j] == cs@[from + j]);
        }
        lemma_digit_run_from(t, i - from);
        assert(t.skip(i - from) =~= cs@.skip(i as int));
    }
    i
}

proof fn lemma_digits_value_grows(ds: Seq<char>)
    requires
        ds.len() > 0,
        forall|j: int| 0 <= j < ds.len() ==> is_digit(#[trigger] ds[j]),
    ensures
        digits_value(ds) >= digits_value(ds.drop_last()),
{
}

/// Parses the digits `cs[from..to]` as a `u64`; `None` when the range is empty or the value
/// does not fit.
pub fn parse_digits(cs: &Vec<char>, from: usize, to: usize) -> (r: Option<u64>)
    requires
        from <= to <= cs@.len(),
        forall|j: int| from <= j < to ==> is_digit(#[trigger] cs@[j]),
    ensures
        r == parse_u64(cs@.subrange(from as int, to as int)),
{
    if from == to {
        return None;
    }
    let mut v: u64 = 0;
    let mut i = from;
    while i < to
        invariant
            from <= i <= to,
            to <= cs@.len(),
            forall|j: int| from <= j < to ==> is_digit(#[trigger] cs@[j]),
            v as nat == digits_value(cs@.subrange(from as int, i as int)),
        decreases to - i,
    {
        let ghost prefix = cs@.subrange(from as int, i as int);
        let ghost next = cs@.subrange(from as int, i + 1);
        assert(next.drop_last() =~= prefix);
        assert(next.last() == cs@[i as int]);
        let d = (cs[i] as u32 - '0' as u32) as u64;
        match v.checked_mul(10) {
            Some(m) => match m.checked_add(d) {
                Some(n) => {
                    v = n;
                },
                None => {
                    proof {
                        lemma_value_stays_large(cs@.subrange(from as int, to as int), i + 1 - from);
                        assert(cs@.subrange(from as int, to as int).take(i + 1 - from) =~= next);
                    }
                    return None;
                },
            },
            None => {
                proof {
                    lemma_value_stays_large(cs@.subrange(from as int, to as int), i + 1 - from);
                    assert(cs@.subrange(from as int, to as int).take(i + 1 - from) =~= next);
                }
                return None;
            },
        }
        i = i + 1;
    }
    proof {
        assert(cs@.subrange(from as int, to as int).len() > 0);
    }
    Some(v)
}

/// A prefix of digits too large for a `u64` stays too large when more digits follow.
proof fn lemma_value_stays_large(ds: Seq<char>, k: int)
    requires
        0 < k <= ds.len(),
        forall|j: int| 0 <= j < ds.len() ==> is_digit(#[trigger] ds[j]),
    ensures
        digits_value(ds.take(k)) <= digits_value(ds),
    decreases ds.len() - k,
{
    if k < ds.len() {
        lemma_value_stays_large(ds, k + 1);
        assert(ds.take(k + 1).drop_last() =~= ds.take(k));
        assert forall|j: int| 0 <= j < ds.take(k + 1).len() implies is_digit(#[trigger] ds.take(k + 1)[j]) by {
            assert(ds.take(k + 1)[j] == ds[j]);
        }
        lemma_digits_value_grows(ds.take(k + 1));
    } else {
        assert(ds.take(k) =~= ds);
    }
}

/// Position of the first `c` in `cs` from `from` on, or the length of `cs` when there is none.
pub fn find_char_from(cs: &Vec<char>, from: usize, c: char) -> (r: usize)
    requires
        from <= cs@.len(),
    ensures
        from <= r <= cs@.len(),
        forall|j: int| from <= j < r ==> cs@[j] != c,
        r < cs@.len() ==> cs@[r as int] == c,
        r < cs@.len() ==> find_first(cs@.skip(from as int), seq![c]) == Some(r - from),
        r == cs@.len() ==> find_first(cs@.skip(from as int), seq![c]) is None,
{
    let mut e = from;
    while e < cs.len() && cs[e] != c
        invariant
            from <= e <= cs@.len(),
            forall|j: int| from <= j < e ==> cs@[j] != c,
        decreases cs@.len() - e,
    {
        e = e + 1;
    }
    proof {
        let inner = cs@.skip(from as int);
        assert forall|j: int| 0 <= j < e - from implies !occurs_at(inner, seq![c], j) by {
            assert(inner.subrange(j, j + 1)[0] == cs@[from + j]);
        }
        if e < cs@.len() {
            assert(inner.subrange(e - from, e - from + 1) =~= seq![c]);
            lemma_find_first_is(inner, seq![c], e - from);
        } else {
            assert forall|j: int| !occurs_at(inner, seq![c], j) by {
                if 0 <= j < inner.len() {
                    assert(inner.subrange(j, j + 1)[0] == cs@[from + j]);
                }
            }
            lemma_find_first_none(inner, seq![c]);
        }
    }
    e
}

} // verus!
