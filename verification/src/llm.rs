//! The question-answering data set (one JSON object per line), the character tokenizer
//! and the configuration of the small language model.
use vstd::prelude::*;
use std::collections::{HashMap, HashSet};
use crate::tokenizer::{CharTokenizer, vocab_of, joined, texts_view};
use crate::text::{
    chars_of, find, find_first, trim_start, trim, leading_ws, trailing_ws, skip_ws,
    trim_end_at, string_from_range, digits_end, digit_run, parse_digits, parse_u64, is_digit,
    lemma_leading_ws, lemma_trailing_ws, find_char_from,
};

verus! {

broadcast use vstd::string::group_string_axioms;

/// One five-choice question of the data set.
#[derive(Debug, Clone)]
pub struct QaItem {
    pub q_id: u64,
    pub question: String,
    pub choices: [String; 5],
    pub label: usize,
}

/// What a question says: id, question text, the five choices and the index of the answer.
pub open spec fn qa_view(q: QaItem) -> (u64, Seq<char>, Seq<Seq<char>>, usize) {
    (q.q_id, q.question@, q.choices@.map_values(|c: String| c@), q.label)
}

/// The model input of a question: the question followed by " [i]" and choice i for each i.
pub open spec fn spec_as_input(q: QaItem) -> Seq<char> {
    q.question@ + " [0]"@ + q.choices@[0]@ + " [1]"@ + q.choices@[1]@ + " [2]"@ + q.choices@[2]@
        + " [3]"@ + q.choices@[3]@ + " [4]"@ + q.choices@[4]@
}

impl QaItem {
    /// The question and all its choices as one model input string.
    pub fn as_input(&self) -> (s: String)
        ensures
            s@ == spec_as_input(*self),
    {
        let mut s = self.question.clone();
        s.append(" [0]");
        s.append(self.choices[0].as_str());
        s.append(" [1]");
        s.append(self.choices[1].as_str());
        s.append(" [2]");
        s.append(self.choices[2].as_str());
        s.append(" [3]");
        s.append(self.choices[3].as_str());
        s.append(" [4]");
        s.append(self.choices[4].as_str());
        s
    }
}

/// The text that introduces the value of `key` in a JSON line: `"key":`.
pub open spec fn key_needle(key: Seq<char>) -> Seq<char> {
    seq!['"'] + key + seq!['"', ':']
}

/// Where the value of `key` starts: after the first `"key":` and the white space that follows.
pub open spec fn value_start(line: Seq<char>, key: Seq<char>) -> Option<int> {
    match find_first(line, key_needle(key)) {
        Some(pos) => {
            let after = pos + key_needle(key).len();
            Some(after + leading_ws(line.skip(after)))
        },
        None => None,
    }
}

/// The string value of `key` in a JSON line: the text between the opening quote right after
/// `"key":` (white space allowed) and the next quote, without escape handling.
pub open spec fn spec_extract_str(line: Seq<char>, key: Seq<char>) -> Option<Seq<char>> {
    match value_start(line, key) {
        Some(st) => {
            if st < line.len() && line[st] == '"' {
                let inner = line.skip(st + 1);
                match find_first(inner, seq!['"']) {
                    Some(e) => Some(inner.take(e)),
                    None => None,
                }
            } else {
                None
            }
        },
        None => None,
    }
}

/// The number value of `key` in a JSON line: the run of digits after `"key":` (white space
/// allowed); none when the digits run to the end of the line, when there are none, or when
/// they do not fit in a `u64`.
pub open spec fn spec_extract_num(line: Seq<char>, key: Seq<char>) -> Option<u64> {
    match value_start(line, key) {
        Some(st) => {
            let rest = line.skip(st);
            if digit_run(rest) < rest.len() {
                parse_u64(rest.take(digit_run(rest) as int))
            } else {
                None
            }
        },
        None => None,
    }
}

/// A data set line parsed into a question: every field present, or nothing.
pub open spec fn spec_parse_qa_line(line: Seq<char>) -> Option<(u64, Seq<char>, Seq<Seq<char>>, usize)> {
    let q_id = spec_extract_num(line, "q_id"@);
    let question = spec_extract_str(line, "question"@);
    let c0 = spec_extract_str(line, "choice0"@);
    let c1 = spec_extract_str(line, "choice1"@);
    let c2 = spec_extract_str(line, "choice2"@);
    let c3 = spec_extract_str(line, "choice3"@);
    let c4 = spec_extract_str(line, "choice4"@);
    let label = spec_extract_num(line, "label"@);
    if q_id is Some && question is Some && c0 is Some && c1 is Some && c2 is Some && c3 is Some
        && c4 is Some && label is Some {
        Some(
            (
                q_id->0,
                question->0,
                seq![c0->0, c1->0, c2->0, c3->0, c4->0],
                (label->0) as usize,
            ),
        )
    } else {
        None
    }
}

/// The key of choice `i` in a data set line: "choice" followed by the digit `i`.
pub open spec fn choice_key(i: int) -> Seq<char> {
    "choice"@.push(seq!['0', '1', '2', '3', '4'][i])
}

/// A line parses exactly when its id, question, five choices and label are all present. The
/// parsed id and label are the numbers under "q_id" and "label", the question is the string
/// under "question", and choice `i` is the string under "choice" followed by the digit `i`.
pub proof fn law_parse_qa_fields(line: Seq<char>)
    ensures
        spec_parse_qa_line(line) is Some <==> (spec_extract_num(line, "q_id"@) is Some
            && spec_extract_str(line, "question"@) is Some && (forall|i: int|
            0 <= i < 5 ==> #[trigger] spec_extract_str(line, choice_key(i)) is Some)
            && spec_extract_num(line, "label"@) is Some),
        spec_parse_qa_line(line) is Some ==> {
            let q = spec_parse_qa_line(line)->0;
            &&& q.0 == spec_extract_num(line, "q_id"@)->0
            &&& q.1 == spec_extract_str(line, "question"@)->0
            &&& q.2.len() == 5
            &&& forall|i: int|
                0 <= i < 5 ==> q.2[i] == (#[trigger] spec_extract_str(line, choice_key(i)))->0
            &&& q.3 == (spec_extract_num(line, "label"@)->0) as usize
        },
{
    reveal_strlit("choice");
    reveal_strlit("choice0");
    reveal_strlit("choice1");
    reveal_strlit("choice2");
    reveal_strlit("choice3");
    reveal_strlit("choice4");
    assert(choice_key(0) =~= "choice0"@);
    assert(choice_key(1) =~= "choice1"@);
    assert(choice_key(2) =~= "choice2"@);
    assert(choice_key(3) =~= "choice3"@);
    assert(choice_key(4) =~= "choice4"@);
}

fn needle_for(key: &str) -> (v: Vec<char>)
    ensures
        v@ == key_needle(key@),
{
    let mut v: Vec<char> = Vec::new();
    v.push('"');
    let k = chars_of(key);
    let mut i: usize = 0;
    while i < k.len()
        invariant
            i <= k@.len(),
            v@ == seq!['"'] + k@.take(i as int),
        decreases k@.len() - i,
    {
        v.push(k[i]);
        assert(k@.take(i + 1) =~= k@.take(i as int).push(k@[i as int]));
        i = i + 1;
    }
    v.push('"');
    v.push(':');
    assert(k@.take(k@.len() as int) =~= k@);
    assert(v@ =~= key_needle(key@));
    v
}

fn value_start_of(line: &Vec<char>, key: &str) -> (r: Option<usize>)
    ensures
        match r {
            Some(st) => value_start(line@, key@) == Some(st as int) && st <= line@.len(),
            None => value_start(line@, key@) is None,
        },
{
    let needle = needle_for(key);
    match find(line, &needle) {
        Some(pos) => {
            assert(pos + needle@.len() <= line@.len() && line@.len() == line.len() && needle@.len() == needle.len());
            let after = pos + needle.len();
            let st = skip_ws(line, after);
            proof {
                lemma_leading_ws(line@.skip(after as int));
            }
            Some(st)
        },
        None => None,
    }
}

/// Range of the string value of `key` in `line`.
fn extract_str_range(line: &Vec<char>, key: &str) -> (r: Option<(usize, usize)>)
    ensures
        match r {
            Some((a, b)) => a <= b <= line@.len() && spec_extract_str(line@, key@) == Some(
                line@.subrange(a as int, b as int),
            ),
            None => spec_extract_str(line@, key@) is None,
        },
{
    let st = match value_start_of(line, key) {
        Some(st) => st,
        None => {
            return None;
        },
    };
    if st < line.len() && line[st] == '"' {
        let e = find_char_from(line, st + 1, '"');
        if e < line.len() {
            assert(line@.skip(st + 1).take(e - (st + 1)) =~= line@.subrange(st + 1, e as int));
            Some((st + 1, e))
        } else {
            None
        }
    } else {
        None
    }
}

/// The string value of `key` in a JSON line (see `spec_extract_str`).
pub fn extract_str<'a>(s: &'a str, key: &str) -> (r: Option<&'a str>)
    ensures
        match r {
            Some(v) => spec_extract_str(s@, key@) == Some(v@),
            None => spec_extract_str(s@, key@) is None,
        },
{
    let line = chars_of(s);
    match extract_str_range(&line, key) {
        Some((a, b)) => Some(s.substring_char(a, b)),
        None => None,
    }
}

fn extract_num_chars(line: &Vec<char>, key: &str) -> (r: Option<u64>)
    ensures
        r == spec_extract_num(line@, key@),
{
    let st = match value_start_of(line, key) {
        Some(st) => st,
        None => {
            return None;
        },
    };
    let e = digits_end(line, st);
    proof {
        let rest = line@.skip(st as int);
        lemma_digit_run_bound(rest);
        assert(rest.take(digit_run(rest) as int) =~= line@.subrange(st as int, e as int));
        assert forall|j: int| st <= j < e implies is_digit(#[trigger] line@[j]) by {
            assert(line@[j] == rest[j - st]);
        }
    }
    if e < line.len() {
        parse_digits(line, st, e)
    } else {
        None
    }
}

proof fn lemma_digit_run_bound(s: Seq<char>)
    ensures
        digit_run(s) <= s.len(),
        forall|j: int| 0 <= j < digit_run(s) ==> is_digit(#[trigger] s[j]),
    decreases s.len(),
{
    if s.len() > 0 && is_digit(s[0]) {
        lemma_digit_run_bound(s.skip(1));
        assert forall|j: int| 0 <= j < digit_run(s) implies is_digit(#[trigger] s[j]) by {
            if j > 0 {
                assert(s[j] == s.skip(1)[j - 1]);
            }
        }
    }
}

/// The number value of `key` in a JSON line (see `spec_extract_num`).
pub fn extract_num(s: &str, key: &str) -> (r: Option<u64>)
    ensures
        r == spec_extract_num(s@, key@),
{
    let line = chars_of(s);
    extract_num_chars(&line, key)
}

fn extract_string(line: &Vec<char>, key: &str) -> (r: Option<String>)
    ensures
        match r {
            Some(v) => spec_extract_str(line@, key@) == Some(v@),
            None => spec_extract_str(line@, key@) is None,
        },
{
    match extract_str_range(line, key) {
        Some((a, b)) => Some(string_from_range(line, a, b)),
        None => None,
    }
}

fn parse_qa_chars(line: &Vec<char>) -> (r: Option<QaItem>)
    ensures
        match r {
            Some(q) => spec_parse_qa_line(line@) == Some(qa_view(q)),
            None => spec_parse_qa_line(line@) is None,
        },
{
    let q_id = match extract_num_chars(line, "q_id") {
        Some(v) => v,
        None => {
            return None;
        },
    };
    let question = match extract_string(line, "question") {
        Some(v) => v,
        None => {
            return None;
        },
    };
    let c0 = match extract_string(line, "choice0") {
        Some(v) => v,
        None => {
            return None;
        },
    };
    let c1 = match extract_string(line, "choice1") {
        Some(v) => v,
        None => {
            return None;
        },
    };
    let c2 = match extract_string(line, "choice2") {
        Some(v) => v,
        None => {
            return None;
        },
    };
    let c3 = match extract_string(line, "choice3") {
        Some(v) => v,
        None => {
            return None;
        },
    };
    let c4 = match extract_string(line, "choice4") {
        Some(v) => v,
        None => {
            return None;
        },
    };
    let label = match extract_num_chars(line, "label") {
        Some(v) => v,
        None => {
            return None;
        },
    };
    let item = QaItem { q_id, question, choices: [c0, c1, c2, c3, c4], label: label as usize };
    assert(item.choices@.map_values(|c: String| c@) =~= seq![
        item.choices@[0]@,
        item.choices@[1]@,
        item.choices@[2]@,
        item.choices@[3]@,
        item.choices@[4]@,
    ]);
    Some(item)
}

/// Parses one data set line: `q_id`, `question`, `choice0` to `choice4` and `label` must all
/// be present (see `spec_parse_qa_line`).
pub fn parse_qa_line(line: &str) -> (r: Option<QaItem>)
    ensures
        match r {
            Some(q) => spec_parse_qa_line(line@) == Some(qa_view(q)),
            None => spec_parse_qa_line(line@) is None,
        },
{
    let cs = chars_of(line);
    parse_qa_chars(&cs)
}

/// What one line of a data set file contributes: the question it holds once trimmed, if it is
/// not blank and parses.
pub open spec fn line_items(line: Seq<char>) -> Seq<(u64, Seq<char>, Seq<Seq<char>>, usize)> {
    let t = trim(line);
    if t.len() > 0 && spec_parse_qa_line(t) is Some {
        seq![spec_parse_qa_line(t)->0]
    } else {
        Seq::empty()
    }
}

/// The questions of a data set file, line by line (lines end at '\n').
pub open spec fn dataset_items(s: Seq<char>) -> Seq<(u64, Seq<char>, Seq<Seq<char>>, usize)>
    decreases s.len(),
{
    match find_first(s, seq!['\n']) {
        Some(p) => {
            if 0 <= p < s.len() {
                line_items(s.take(p)) + dataset_items(s.skip(p + 1))
            } else {
                Seq::empty()
            }
        },
        None => line_items(s),
    }
}

fn copy_range(cs: &Vec<char>, from: usize, to: usize) -> (r: Vec<char>)
    requires
        from <= to <= cs@.len(),
    ensures
        r@ == cs@.subrange(from as int, to as int),
{
    let mut out: Vec<char> = Vec::new();
    let mut i = from;
    while i < to
        invariant
            from <= i <= to,
            to <= cs@.len(),
            out@ == cs@.subrange(from as int, i as int),
        decreases to - i,
    {
        out.push(cs[i]);
        assert(cs@.subrange(from as int, i + 1) =~= cs@.subrange(from as int, i as int).push(
            cs@[i as int],
        ));
        i = i + 1;
    }
    out
}

/// What one line contributes, computed.
fn line_item(line: &Vec<char>) -> (r: Option<QaItem>)
    ensures
        match r {
            Some(q) => line_items(line@) == seq![qa_view(q)],
            None => line_items(line@) == Seq::<(u64, Seq<char>, Seq<Seq<char>>, usize)>::empty(),
        },
{
    let a = skip_ws(line, 0);
    proof {
        assert(line@.skip(0) =~= line@);
        lemma_leading_ws(line@);
    }
    let b = trim_end_at(line, a, line.len());
    proof {
        let ts = line@.subrange(a as int, line@.len() as int);
        assert(ts =~= trim_start(line@));
        lemma_trailing_ws(ts);
        assert(ts.take(ts.len() - trailing_ws(ts)) =~= line@.subrange(a as int, b as int));
        assert(trim(line@) =~= line@.subrange(a as int, b as int));
    }
    if a == b {
        return None;
    }
    let t = copy_range(line, a, b);
    parse_qa_chars(&t)
}

/// The questions of a data set file: each line trimmed, blank lines skipped, lines that do
/// not parse dropped (see `dataset_items`).
pub fn parse_dataset(raw: &str) -> (items: Vec<QaItem>)
    ensures
        items@.map_values(|q: QaItem| qa_view(q)) == dataset_items(raw@),
{
    let cs = chars_of(raw);
    let mut items: Vec<QaItem> = Vec::new();
    let mut start: usize = 0;
    proof {
        assert(cs@.skip(0) =~= cs@);
    }
    loop
        invariant
            start <= cs@.len(),
            cs@ == raw@,
            items@.map_values(|q: QaItem| qa_view(q)) + dataset_items(cs@.skip(start as int))
                == dataset_items(raw@),
        decreases cs@.len() - start,
    {
        let e = find_char_from(&cs, start, '\n');
        let line = copy_range(&cs, start, e);
        let ghost rest = cs@.skip(start as int);
        let ghost before = items@.map_values(|q: QaItem| qa_view(q));
        proof {
            assert(line@ =~= rest.take(e - start));
        }
        match line_item(&line) {
            Some(q) => {
                items.push(q);
                assert(items@.map_values(|q: QaItem| qa_view(q)) =~= before + line_items(line@));
            },
            None => {
                assert(items@.map_values(|q: QaItem| qa_view(q)) =~= before + line_items(line@));
            },
        }
        if e == cs.len() {
            proof {
                assert(rest.take(e - start) =~= rest);
                assert(dataset_items(rest) == line_items(rest));
                assert(before + line_items(line@) + Seq::empty() =~= before + line_items(line@));
            }
            assert(items@.map_values(|q: QaItem| qa_view(q)) == dataset_items(raw@));
            return items;
        }
        proof {
            assert(rest.skip(e - start + 1) =~= cs@.skip(e + 1));
            assert(dataset_items(rest) == line_items(rest.take(e - start)) + dataset_items(
                cs@.skip(e + 1),
            ));
            assert(before + line_items(line@) + dataset_items(cs@.skip(e + 1)) =~= before + (
            line_items(line@) + dataset_items(cs@.skip(e + 1))));
        }
        start = e + 1;
    }
}

/// Sizes of the one-layer transformer.
#[derive(Debug, Clone)]
pub struct LlmConfig {
    pub d_model: usize,
    pub n_heads: usize,
    pub d_ff: usize,
    pub seq_len: usize,
    pub n_classes: usize,
    pub vocab_size: usize,
}

impl LlmConfig {
    /// The configuration for the five-choice data set: 64 wide, 4 heads, a 256 wide
    /// feed-forward layer, 128 tokens and 5 classes.
    pub fn default_qa(vocab_size: usize) -> (c: Self)
        ensures
            c.d_model == 64,
            c.n_heads == 4,
            c.d_ff == 256,
            c.seq_len == 128,
            c.n_classes == 5,
            c.vocab_size == vocab_size,
    {
        LlmConfig { d_model: 64, n_heads: 4, d_ff: 256, seq_len: 128, n_classes: 5, vocab_size }
    }

    /// Width of one attention head.
    pub fn d_k(&self) -> (r: usize)
        requires
            self.n_heads > 0,
        ensures
            r == self.d_model / self.n_heads,
    {
        self.d_model / self.n_heads
    }
}

/// The model inputs of the questions, in order.
pub open spec fn inputs_of(items: Seq<QaItem>) -> Seq<Seq<char>> {
    items.map_values(|q: QaItem| spec_as_input(q))
}

/// The tokenizer of a data set: built from the model input of every question.
pub fn build_tokenizer(items: &Vec<QaItem>) -> (t: CharTokenizer)
    ensures
        t.wf(),
        t.id_to_char@ == vocab_of(joined(inputs_of(items@))),
{
    let mut texts: Vec<String> = Vec::new();
    let mut i: usize = 0;
    while i < items.len()
        invariant
            i <= items@.len(),
            texts@.len() == i,
            forall|k: int| 0 <= k < i ==> #[trigger] texts@[k]@ == spec_as_input(items@[k]),
        decreases items@.len() - i,
    {
        texts.push(items[i].as_input());
        i = i + 1;
    }
    let mut refs: Vec<&str> = Vec::new();
    let mut k: usize = 0;
    while k < texts.len()
        invariant
            k <= texts@.len(),
            refs@.len() == k,
            forall|m: int| 0 <= m < k ==> #[trigger] refs@[m]@ == texts@[m]@,
        decreases texts@.len() - k,
    {
        refs.push(texts[k].as_str());
        k = k + 1;
    }
    let t = CharTokenizer::build(refs.as_slice());
    proof {
        assert(texts_view(refs@) =~= inputs_of(items@));
    }
    t
}

/// The training pairs of a data set: the ids of each question's model input, cut or padded to
/// `seq_len`, with its answer.
pub fn encode_dataset(t: &CharTokenizer, items: &Vec<QaItem>, seq_len: usize) -> (data: Vec<
    (Vec<usize>, usize),
>)
    ensures
        data@.len() == items@.len(),
        forall|k: int|
            0 <= k < items@.len() ==> (#[trigger] data@[k]).0@ == t.spec_encode(
                spec_as_input(items@[k]),
                seq_len as nat,
            ) && data@[k].1 == items@[k].label,
{
    let mut data: Vec<(Vec<usize>, usize)> = Vec::new();
    let mut i: usize = 0;
    while i < items.len()
        invariant
            i <= items@.len(),
            data@.len() == i,
            forall|k: int|
                0 <= k < i ==> (#[trigger] data@[k]).0@ == t.spec_encode(
                    spec_as_input(items@[k]),
                    seq_len as nat,
                ) && data@[k].1 == items@[k].label,
        decreases items@.len() - i,
    {
        let input = items[i].as_input();
        let ids = t.encode(input.as_str(), seq_len);
        data.push((ids, items[i].label));
        i = i + 1;
    }
    data
}

/// How many exchanges a chat keeps.
pub const HISTORY_LIMIT: usize = 50;

/// The history after one more exchange: it is appended, and the oldest is dropped when that
/// makes more than `HISTORY_LIMIT`.
pub open spec fn next_history(h: Seq<(String, String)>, e: (String, String)) -> Seq<
    (String, String),
> {
    if h.len() + 1 > HISTORY_LIMIT {
        h.push(e).skip(1)
    } else {
        h.push(e)
    }
}

/// Records one exchange of a chat (see `next_history`).
pub fn record_exchange(history: &mut Vec<(String, String)>, user: String, reply: String)
    ensures
        final(history)@ == next_history(old(history)@, (user, reply)),
{
    history.push((user, reply));
    if history.len() > HISTORY_LIMIT {
        history.remove(0);
    }
}

/// A chat history that was within the limit stays within it, and the newest exchange is its
/// last entry.
pub proof fn law_history_bounded(h: Seq<(String, String)>, e: (String, String))
    requires
        h.len() <= HISTORY_LIMIT,
    ensures
        next_history(h, e).len() <= HISTORY_LIMIT,
        next_history(h, e).last() == e,
{
}

} // verus!
