//! Keys, and the one-line editor that filters and expressions are typed into.
use vstd::prelude::*;
use vstd::string::*;
use vstd::utf8::*;

use crate::text::{chars_of, control, is_control};

verus! {

/// The keys that mean something here.
#[derive(Clone, Copy, Debug, PartialEq, Eq, Structural)]
pub enum KeyCode {
    Char(char),
    Backspace,
    Delete,
    Down,
    End,
    Enter,
    Esc,
    Home,
    Left,
    PageDown,
    PageUp,
    Right,
    Tab,
    Up,
    /// Any other key.
    Other,
}

/// A key press with the modifiers that matter.
#[derive(Clone, Copy, Debug, PartialEq, Eq, Structural)]
pub struct KeyEvent {
    pub code: KeyCode,
    pub control: bool,
    pub alt: bool,
}

/// What the text is typed for: the filter of a column, or a new expression.
#[derive(Debug, PartialEq, Eq)]
pub enum InputKind {
    Filter(String),
    Expression,
}

#[verifier::ext_equal]
pub enum InputKindModel {
    Filter(Seq<char>),
    Expression,
}

impl View for InputKind {
    type V = InputKindModel;

    open spec fn view(&self) -> InputKindModel {
        match self {
            InputKind::Filter(name) => InputKindModel::Filter(name@),
            InputKind::Expression => InputKindModel::Expression,
        }
    }
}

impl Clone for InputKind {
    fn clone(&self) -> (k: Self)
        ensures
            k@ == self@,
    {
        match self {
            InputKind::Filter(name) => InputKind::Filter(name.clone()),
            InputKind::Expression => InputKind::Expression,
        }
    }
}

/// A line of text being edited. The cursor counts characters, never bytes.
#[derive(Debug)]
pub struct Input {
    pub kind: InputKind,
    pub text: String,
    pub cursor: usize,
}

#[verifier::ext_equal]
pub struct InputModel {
    pub kind: InputKindModel,
    pub text: Seq<char>,
    pub cursor: nat,
}

impl View for Input {
    type V = InputModel;

    open spec fn view(&self) -> InputModel {
        InputModel { kind: self.kind@, text: self.text@, cursor: self.cursor as nat }
    }
}

impl Clone for Input {
    fn clone(&self) -> (i: Self)
        ensures
            i@ == self@,
    {
        Input { kind: self.kind.clone(), text: self.text.clone(), cursor: self.cursor }
    }
}

impl InputModel {
    /// The cursor stands in the text or at its end.
    pub open spec fn wf(self) -> bool {
        self.cursor <= self.text.len()
    }
}

/// A new line of text, with the cursor at its end.
pub open spec fn opened(kind: InputKindModel, text: Seq<char>) -> InputModel {
    InputModel { kind, text, cursor: text.len() }
}

/// `s` without control characters.
pub open spec fn cleaned(s: Seq<char>) -> Seq<char> {
    s.filter(|c: char| !control(c))
}

/// `s`, cleaned, typed at the cursor.
pub open spec fn typed(m: InputModel, s: Seq<char>) -> InputModel {
    InputModel {
        kind: m.kind,
        text: m.text.take(m.cursor as int) + cleaned(s) + m.text.skip(m.cursor as int),
        cursor: m.cursor + cleaned(s).len(),
    }
}

/// What a key does to the line.
pub open spec fn edited(m: InputModel, key: KeyEvent) -> InputModel {
    match key.code {
        KeyCode::Char(c) => if key.control && c == 'u' {
            InputModel { text: Seq::empty(), cursor: 0, ..m }
        } else if key.control && c == 'a' {
            InputModel { cursor: 0, ..m }
        } else if key.control && c == 'e' {
            InputModel { cursor: m.text.len(), ..m }
        } else if !key.control && !key.alt {
            typed(m, seq![c])
        } else {
            m
        },
        KeyCode::Left if m.cursor > 0 => InputModel { cursor: (m.cursor - 1) as nat, ..m },
        KeyCode::Right if m.cursor < m.text.len() => InputModel { cursor: m.cursor + 1, ..m },
        KeyCode::Home => InputModel { cursor: 0, ..m },
        KeyCode::End => InputModel { cursor: m.text.len(), ..m },
        KeyCode::Backspace if m.cursor > 0 => InputModel {
            text: m.text.remove(m.cursor - 1),
            cursor: (m.cursor - 1) as nat,
            ..m
        },
        KeyCode::Delete if m.cursor < m.text.len() => InputModel {
            text: m.text.remove(m.cursor as int),
            ..m
        },
        _ => m,
    }
}

/// The bytes of two texts one after the other are those of both.
pub proof fn lemma_encode_concat(a: Seq<char>, b: Seq<char>)
    ensures
        encode_utf8(a + b) == encode_utf8(a) + encode_utf8(b),
    decreases a.len(),
{
    if a.len() == 0 {
        assert(a + b =~= b);
        assert(encode_utf8(a) + encode_utf8(b) =~= encode_utf8(b));
    } else {
        assert((a + b).drop_first() =~= a.drop_first() + b);
        lemma_encode_concat(a.drop_first(), b);
        assert(encode_utf8(a + b) =~= encode_utf8(a) + encode_utf8(b));
    }
}

proof fn lemma_encode_one(c: char)
    ensures
        encode_utf8(seq![c]) == encode_scalar(c as u32),
{
    assert(seq![c].drop_first() =~= Seq::empty());
    assert(encode_utf8(Seq::<char>::empty()) =~= Seq::empty());
    assert(encode_utf8(seq![c]) =~= encode_scalar(c as u32) + Seq::empty());
    assert(encode_scalar(c as u32) + Seq::empty() =~= encode_scalar(c as u32));
}

/// Where a prefix of the characters ends, the bytes have a character boundary.
proof fn lemma_prefix_boundary(a: Seq<char>, b: Seq<char>)
    ensures
        is_char_boundary(encode_utf8(a + b), encode_utf8(a).len() as int),
    decreases a.len(),
{
    let bytes = encode_utf8(a + b);
    encode_utf8_valid_utf8(a + b);
    if a.len() == 0 {
        is_char_boundary_start_end_of_seq(bytes);
    } else {
        encode_utf8_first_scalar(a + b);
        assert((a + b).drop_first() =~= a.drop_first() + b);
        assert(pop_first_scalar(bytes) =~= encode_utf8(a.drop_first() + b));
        lemma_prefix_boundary(a.drop_first(), b);
        lemma_encode_concat(a, b);
    }
}

fn utf8_width(c: char) -> (n: usize)
    ensures
        n == encode_scalar(c as u32).len(),
        1 <= n <= 4,
{
    let u: u32 = c as u32;
    if u <= 0x7f {
        1
    } else if u <= 0x7ff {
        2
    } else if u <= 0xffff {
        3
    } else {
        4
    }
}

/// `s` without control characters.
fn clean(s: &str) -> (t: String)
    ensures
        t@ == cleaned(s@),
{
    let chars = chars_of(s);
    let ghost keep = |c: char| !control(c);
    let mut t = String::new();
    let mut i: usize = 0;
    proof {
        reveal(Seq::filter);
        assert(t@ =~= s@.take(0).filter(keep));
    }
    while i < chars.len()
        invariant
            chars@ == s@,
            keep == (|c: char| !control(c)),
            i <= chars@.len(),
            t@ == s@.take(i as int).filter(keep),
        decreases chars@.len() - i,
    {
        proof {
            broadcast use Seq::lemma_filter_push;

            assert(s@.take(i + 1) =~= s@.take(i as int).push(s@[i as int]));
        }
        if !is_control(chars[i]) {
            t.push(chars[i]);
        }
        i += 1;
    }
    assert(s@.take(i as int) =~= s@);
    t
}

impl Input {
    pub fn new(kind: InputKind, text: String) -> (i: Self)
        ensures
            i@ == opened(kind@, text@),
            i@.wf(),
    {
        let cursor = text.as_str().unicode_len();
        Input { kind, text, cursor }
    }

    /// The byte offset of the cursor.
    fn byte_index(&self) -> (n: usize)
        requires
            self@.wf(),
        ensures
            n == encode_utf8(self.text@.take(self.cursor as int)).len(),
            is_char_boundary(encode_utf8(self.text@), n as int),
    {
        let ghost s = self.text@;
        let chars = chars_of(self.text.as_str());
        let bytes = self.text.as_str().as_bytes().len();
        let mut n: usize = 0;
        let mut i: usize = 0;
        assert(encode_utf8(s.take(0)).len() == 0);
        while i < self.cursor
            invariant
                s == self.text@,
                chars@ == s,
                i <= self.cursor <= s.len(),
                bytes == encode_utf8(s).len(),
                n == encode_utf8(s.take(i as int)).len(),
            decreases self.cursor - i,
        {
            proof {
                let c = s[i as int];
                assert(s.take(i + 1) =~= s.take(i as int) + seq![c]);
                lemma_encode_concat(s.take(i as int), seq![c]);
                lemma_encode_one(c);
                assert(s =~= s.take(i + 1) + s.skip(i + 1));
                lemma_encode_concat(s.take(i + 1), s.skip(i + 1));
            }
            n += utf8_width(chars[i]);
            i += 1;
        }
        proof {
            assert(s =~= s.take(i as int) + s.skip(i as int));
            lemma_prefix_boundary(s.take(i as int), s.skip(i as int));
        }
        n
    }

    /// The text before and after the cursor.
    fn halves(&self) -> (r: (&str, &str))
        requires
            self@.wf(),
        ensures
            r.0@ == self.text@.take(self.cursor as int),
            r.1@ == self.text@.skip(self.cursor as int),
    {
        let at = self.byte_index();
        let (head, tail) = self.text.as_str().split_at(at);
        proof {
            let s = self.text@;
            let a = s.take(self.cursor as int);
            let b = s.skip(self.cursor as int);
            assert(s =~= a + b);
            lemma_encode_concat(a, b);
            assert(head.spec_bytes() =~= encode_utf8(a));
            assert(tail.spec_bytes() =~= encode_utf8(b));
            encode_utf8_decode_utf8(head@);
            encode_utf8_decode_utf8(a);
            encode_utf8_decode_utf8(tail@);
            encode_utf8_decode_utf8(b);
        }
        (head, tail)
    }

    /// Types `s` at the cursor, leaving control characters out.
    pub fn insert(&mut self, s: &str)
        requires
            old(self)@.wf(),
        ensures
            final(self)@ == typed(old(self)@, s@),
            final(self)@.wf(),
    {
        let clean = clean(s);
        let count = clean.as_str().unicode_len();
        let (head, tail) = self.halves();
        let mut text = head.to_owned();
        text.append(clean.as_str());
        text.append(tail);
        let total = text.as_str().unicode_len();
        assert(self.cursor + count <= total);
        self.text = text;
        self.cursor = self.cursor + count;
    }

    /// Removes the character at the cursor.
    fn remove_at_cursor(&mut self)
        requires
            old(self).cursor < old(self).text@.len(),
        ensures
            final(self).kind == old(self).kind,
            final(self).cursor == old(self).cursor,
            final(self).text@ == old(self).text@.remove(old(self).cursor as int),
    {
        let (head, tail) = self.halves();
        let mut text = head.to_owned();
        text.append(tail.substring_char(1, tail.unicode_len()));
        assert(text@ =~= self.text@.remove(self.cursor as int));
        self.text = text;
    }

    /// Edits the line.
    pub fn key(&mut self, key: KeyEvent)
        requires
            old(self)@.wf(),
        ensures
            final(self)@ == edited(old(self)@, key),
            final(self)@.wf(),
    {
        let len = self.text.as_str().unicode_len();
        match key.code {
            KeyCode::Char(c) => {
                if key.control && c == 'u' {
                    self.text = String::new();
                    self.cursor = 0;
                } else if key.control && c == 'a' {
                    self.cursor = 0;
                } else if key.control && c == 'e' {
                    self.cursor = len;
                } else if !key.control && !key.alt {
                    let mut s = String::new();
                    s.push(c);
                    assert(s@ =~= seq![c]);
                    self.insert(s.as_str());
                }
            },
            KeyCode::Left => {
                self.cursor = self.cursor.saturating_sub(1);
            },
            KeyCode::Right => {
                if self.cursor < len {
                    self.cursor = self.cursor + 1;
                }
            },
            KeyCode::Home => {
                self.cursor = 0;
            },
            KeyCode::End => {
                self.cursor = len;
            },
            KeyCode::Backspace => {
                if self.cursor > 0 {
                    self.cursor = self.cursor - 1;
                    self.remove_at_cursor();
                }
            },
            KeyCode::Delete => {
                if self.cursor < len {
                    self.remove_at_cursor();
                }
            },
            _ => {},
        }
    }
}

} // verus!
