//! The state behind the user interface: what elements react to, the text of an input field
//! with its cursor, and the chat line being typed.
use vstd::prelude::*;
use crate::text::{chars_of, push_char, string_from_range};

verus! {

broadcast use vstd::string::group_string_axioms;

/// What a UI element reacts to.
#[derive(Debug, Clone)]
pub enum Action {
    /// A click or a tap.
    Click,
    /// Text input.
    KeyInput,
    /// The pointer resting on it.
    Hover,
    /// Nothing: a static element.
    Inert,
}

/// Horizontal alignment of a text.
#[derive(Debug, Clone, Copy)]
pub enum Align {
    Left,
    Center,
    Right,
}

/// What a button of the neural panel does.
#[derive(Debug, Clone, Copy, PartialEq, Eq, Structural)]
pub enum ButtonAction {
    RequestToHuman,
    SaveWeights,
}

/// Number of bytes of `c` in UTF-8.
pub open spec fn utf8_len(c: char) -> nat {
    let u = c as u32;
    if u < 0x80 {
        1
    } else if u < 0x800 {
        2
    } else if u < 0x1_0000 {
        3
    } else {
        4
    }
}

/// Number of bytes of `s` in UTF-8.
pub open spec fn byte_len(s: Seq<char>) -> nat
    decreases s.len(),
{
    if s.len() == 0 {
        0
    } else {
        byte_len(s.drop_last()) + utf8_len(s.last())
    }
}

/// The byte offset `cursor` falls right before the `k`-th character of `s` (or at its end).
pub open spec fn at_boundary(s: Seq<char>, cursor: int, k: int) -> bool {
    0 <= k <= s.len() && byte_len(s.take(k)) == cursor
}

/// Number of bytes of `c` in UTF-8 (`char::len_utf8`).
pub fn len_utf8(c: char) -> (n: usize)
    ensures
        n == utf8_len(c),
{
    let u = c as u32;
    if u < 0x80 {
        1
    } else if u < 0x800 {
        2
    } else if u < 0x1_0000 {
        3
    } else {
        4
    }
}

proof fn lemma_byte_len_take_step(s: Seq<char>, k: int)
    requires
        0 <= k < s.len(),
    ensures
        byte_len(s.take(k + 1)) == byte_len(s.take(k)) + utf8_len(s[k]),
{
    assert(s.take(k + 1).drop_last() =~= s.take(k));
}

proof fn lemma_byte_len_grows(s: Seq<char>, a: int, b: int)
    requires
        0 <= a < b <= s.len(),
    ensures
        byte_len(s.take(a)) < byte_len(s.take(b)),
    decreases b - a,
{
    lemma_byte_len_take_step(s, b - 1);
    if a < b - 1 {
        lemma_byte_len_grows(s, a, b - 1);
    }
}

/// At most one character index sits at a byte offset.
proof fn lemma_boundary_unique(s: Seq<char>, cursor: int, k1: int, k2: int)
    requires
        at_boundary(s, cursor, k1),
        at_boundary(s, cursor, k2),
    ensures
        k1 == k2,
{
    if k1 < k2 {
        lemma_byte_len_grows(s, k1, k2);
    }
    if k2 < k1 {
        lemma_byte_len_grows(s, k2, k1);
    }
}

/// The text of an input field and its cursor, a byte offset into the text that always falls
/// between two characters.
#[derive(Debug, Clone)]
pub struct InputBuffer {
    pub buffer: String,
    pub cursor: usize,
    pub is_focused: bool,
    pub placeholder: String,
}

/// The text and the cursor after typing `c`: `c` goes in at the cursor and the cursor moves
/// past it.
pub open spec fn typed(s: Seq<char>, k: int, cursor: int, c: char) -> (Seq<char>, int) {
    (s.insert(k, c), cursor + utf8_len(c))
}

/// The text and the cursor after a backspace: the character before the cursor goes and the
/// cursor moves back over it; at the start nothing changes.
pub open spec fn erased(s: Seq<char>, k: int, cursor: int) -> (Seq<char>, int) {
    if cursor == 0 {
        (s, cursor)
    } else {
        (s.remove(k - 1), cursor - utf8_len(s[k - 1]))
    }
}

impl InputBuffer {
    /// The cursor sits between two characters.
    pub open spec fn wf(&self) -> bool {
        exists|k: int| at_boundary(self.buffer@, self.cursor as int, k)
    }

    /// The index of the character right after the cursor.
    pub open spec fn cursor_index(&self) -> int {
        choose|k: int| at_boundary(self.buffer@, self.cursor as int, k)
    }

    /// An empty, unfocused field showing `placeholder`.
    pub fn new(placeholder: String) -> (b: Self)
        ensures
            b.wf(),
            b.buffer@ == Seq::<char>::empty(),
            b.cursor == 0,
            !b.is_focused,
            b.placeholder == placeholder,
    {
        let b = InputBuffer { buffer: String::new(), cursor: 0, is_focused: false, placeholder };
        assert(at_boundary(b.buffer@, b.cursor as int, 0)) by {
            assert(b.buffer@.take(0) =~= Seq::<char>::empty());
        }
        b
    }

    /// Finds the character index of the cursor.
    fn locate(&self) -> (k: usize)
        requires
            self.wf(),
        ensures
            k == self.cursor_index(),
            at_boundary(self.buffer@, self.cursor as int, k as int),
    {
        let cs = chars_of(self.buffer.as_str());
        let ghost target = self.cursor_index();
        proof {
            let w = choose|k: int| at_boundary(self.buffer@, self.cursor as int, k);
            assert(at_boundary(self.buffer@, self.cursor as int, w));
        }
        let mut k: usize = 0;
        let mut acc: usize = 0;
        proof {
            assert(cs@.take(0) =~= Seq::<char>::empty());
        }
        while acc < self.cursor
            invariant
                cs@ == self.buffer@,
                at_boundary(self.buffer@, self.cursor as int, target),
                0 <= k <= target,
                acc == byte_len(cs@.take(k as int)),
                acc <= self.cursor,
            decreases target - k,
        {
            proof {
                assert(k < target);
                lemma_byte_len_take_step(cs@, k as int);
                if k + 1 < target {
                    lemma_byte_len_grows(cs@, k + 1, target);
                }
                assert(byte_len(cs@.take(k + 1)) <= self.cursor);
            }
            acc = acc + len_utf8(cs[k]);
            k = k + 1;
        }
        proof {
            if k < target {
                lemma_byte_len_grows(cs@, k as int, target);
            }
        }
        k
    }

    /// Types `c` at the cursor (see `typed`).
    pub fn push_char(&mut self, c: char)
        requires
            old(self).wf(),
            old(self).cursor + utf8_len(c) <= usize::MAX,
        ensures
            final(self).wf(),
            (final(self).buffer@, final(self).cursor as int) == typed(
                old(self).buffer@,
                old(self).cursor_index(),
                old(self).cursor as int,
                c,
            ),
            final(self).cursor_index() == old(self).cursor_index() + 1,
            final(self).is_focused == old(self).is_focused,
            final(self).placeholder == old(self).placeholder,
    {
        let k = self.locate();
        let cs = chars_of(self.buffer.as_str());
        let mut out = string_from_range(&cs, 0, k);
        push_char(&mut out, c);
        let rest = string_from_range(&cs, k, cs.len());
        out.append(rest.as_str());
        let ghost s = self.buffer@;
        let n = len_utf8(c);
        self.buffer = out;
        self.cursor = self.cursor + n;
        proof {
            assert(self.buffer@ =~= s.insert(k as int, c));
            assert(self.buffer@.take(k + 1) =~= s.take(k as int).push(c));
            assert(s.take(k as int).push(c).drop_last() =~= s.take(k as int));
            assert(at_boundary(self.buffer@, self.cursor as int, k + 1));
            let w = choose|j: int| at_boundary(self.buffer@, self.cursor as int, j);
            lemma_boundary_unique(self.buffer@, self.cursor as int, w, k + 1);
        }
    }

    /// Erases the character before the cursor, if any (see `erased`).
    pub fn backspace(&mut self)
        requires
            old(self).wf(),
        ensures
            final(self).wf(),
            (final(self).buffer@, final(self).cursor as int) == erased(
                old(self).buffer@,
                old(self).cursor_index(),
                old(self).cursor as int,
            ),
            old(self).cursor > 0 ==> final(self).cursor_index() == old(self).cursor_index() - 1,
            final(self).is_focused == old(self).is_focused,
            final(self).placeholder == old(self).placeholder,
    {
        if self.cursor > 0 {
            let k = self.locate();
            let cs = chars_of(self.buffer.as_str());
            let ghost s = self.buffer@;
            proof {
                if k == 0 {
                    assert(s.take(0) =~= Seq::<char>::empty());
                }
                lemma_byte_len_take_step(s, k - 1);
            }
            let prev = self.cursor - len_utf8(cs[k - 1]);
            let mut out = string_from_range(&cs, 0, k - 1);
            let rest = string_from_range(&cs, k, cs.len());
            out.append(rest.as_str());
            self.buffer = out;
            self.cursor = prev;
            proof {
                assert(self.buffer@ =~= s.remove(k - 1));
                assert(self.buffer@.take(k - 1) =~= s.take(k - 1));
                assert(at_boundary(self.buffer@, self.cursor as int, k - 1));
                let w = choose|j: int| at_boundary(self.buffer@, self.cursor as int, j);
                lemma_boundary_unique(self.buffer@, self.cursor as int, w, k - 1);
            }
        } else {
            proof {
                let w = choose|k: int| at_boundary(self.buffer@, self.cursor as int, k);
                assert(at_boundary(self.buffer@, self.cursor as int, w));
            }
        }
    }
}

/// A backspace right after typing a character gives back the text and the cursor there were
/// before.
pub proof fn law_backspace_undoes_typing(b: InputBuffer, c: char)
    requires
        b.wf(),
    ensures
        ({
            let (s1, cur1) = typed(b.buffer@, b.cursor_index(), b.cursor as int, c);
            erased(s1, b.cursor_index() + 1, cur1) == (b.buffer@, b.cursor as int)
        }),
{
    let w = choose|k: int| at_boundary(b.buffer@, b.cursor as int, k);
    assert(at_boundary(b.buffer@, b.cursor as int, w));
    let k = b.cursor_index();
    let (s1, cur1) = typed(b.buffer@, k, b.cursor as int, c);
    assert(s1[k] == c);
    assert(s1.remove(k) =~= b.buffer@);
}

/// The chat line after the text input `text` arrives: a backspace ("\x08") drops the last
/// character, a newline sends the line (and empties it) unless it is empty, and any other text
/// is appended. The second part is the line that was sent, if any.
pub open spec fn chat_step(line: Seq<char>, text: Seq<char>) -> (Seq<char>, Option<Seq<char>>) {
    if text == seq!['\x08'] {
        (if line.len() > 0 { line.drop_last() } else { line }, None)
    } else if text == seq!['\n'] {
        if line.len() > 0 {
            (Seq::empty(), Some(line))
        } else {
            (line, None)
        }
    } else {
        (line + text, None)
    }
}

fn is_single(text: &str, c: char) -> (r: bool)
    ensures
        r == (text@ == seq![c]),
{
    let cs = chars_of(text);
    if cs.len() == 1 && cs[0] == c {
        assert(cs@ =~= seq![c]);
        true
    } else {
        proof {
            if text@ == seq![c] {
                assert(cs@[0] == c);
            }
        }
        false
    }
}

/// Applies one text input to the chat line (see `chat_step`) and returns the line that was
/// sent, if any.
pub fn apply_chat_input(line: &mut String, text: &str) -> (sent: Option<String>)
    ensures
        (final(line)@, match sent {
            Some(s) => Some(s@),
            None => None,
        }) == chat_step(old(line)@, text@),
{
    if is_single(text, '\x08') {
        let cs = chars_of(line.as_str());
        if cs.len() > 0 {
            let shorter = string_from_range(&cs, 0, cs.len() - 1);
            *line = shorter;
            assert(line@ =~= cs@.drop_last());
        }
        None
    } else if is_single(text, '\n') {
        let msg = line.clone();
        if msg.as_str().unicode_len() > 0 {
            *line = String::new();
            Some(msg)
        } else {
            None
        }
    } else {
        line.append(text);
        None
    }
}

} // verus!
