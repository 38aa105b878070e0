//! Lexical scan of one SELECT expression, just deep enough to find the `AS` that
//! introduces its alias. SQLite itself validates the expression.
use vstd::prelude::*;
use vstd::string::*;
use vstd::utf8::*;

verus! {

/// A byte that opens a string literal or a quoted identifier.
pub open spec fn opens_quote(c: u8) -> bool {
    c == '\'' as u8 || c == '"' as u8 || c == '`' as u8 || c == '[' as u8
}

/// The byte that closes what `open` opened.
pub open spec fn closing(open: u8) -> u8 {
    if open == '[' as u8 {
        (']' as u8)
    } else {
        open
    }
}

/// A byte that a bare word may start with.
pub open spec fn starts_word(c: u8) -> bool {
    ('a' as u8) <= c <= 'z' as u8 || ('A' as u8) <= c <= 'Z' as u8 || c == '_' as u8
}

/// A byte that a bare word may go on with.
pub open spec fn continues_word(c: u8) -> bool {
    starts_word(c) || ('0' as u8) <= c <= '9' as u8
}

/// The first position at or after `i` that is past the quoted text closed by
/// `close`. A doubled closing byte stands for itself, except for `]`; quoted text
/// that is never closed runs to the end.
pub open spec fn quote_end(b: Seq<u8>, i: int, close: u8) -> int
    decreases b.len() - i,
{
    if i >= b.len() {
        b.len() as int
    } else if b[i] != close {
        quote_end(b, i + 1, close)
    } else if close != ']' as u8 && i + 1 < b.len() && b[i + 1] == close {
        quote_end(b, i + 2, close)
    } else {
        i + 1
    }
}

/// The first line break at or after `i`, or the end.
pub open spec fn line_end(b: Seq<u8>, i: int) -> int
    decreases b.len() - i,
{
    if i >= b.len() {
        b.len() as int
    } else if b[i] == '\n' as u8 {
        i
    } else {
        line_end(b, i + 1)
    }
}

/// The position past the first `*/` at or after `i`, or the end.
pub open spec fn comment_end(b: Seq<u8>, i: int) -> int
    decreases b.len() - i,
{
    if i + 1 >= b.len() {
        b.len() as int
    } else if b[i] == '*' as u8 && b[i + 1] == '/' as u8 {
        i + 2
    } else {
        comment_end(b, i + 1)
    }
}

/// The first position at or after `i` that does not continue a word.
pub open spec fn word_end(b: Seq<u8>, i: int) -> int
    decreases b.len() - i,
{
    if i >= b.len() {
        b.len() as int
    } else if continues_word(b[i]) {
        word_end(b, i + 1)
    } else {
        i
    }
}

/// The end of the token that starts at `i`: quoted text, a comment, a word, or a
/// single byte.
pub open spec fn token_end(b: Seq<u8>, i: int) -> int {
    if opens_quote(b[i]) {
        quote_end(b, i + 1, closing(b[i]))
    } else if b[i] == '-' as u8 && i + 1 < b.len() && b[i + 1] == '-' as u8 {
        line_end(b, i)
    } else if b[i] == '/' as u8 && i + 1 < b.len() && b[i + 1] == '*' as u8 {
        comment_end(b, i + 2)
    } else if starts_word(b[i]) {
        word_end(b, i)
    } else {
        i + 1
    }
}

proof fn lemma_quote_end_bounds(b: Seq<u8>, i: int, close: u8)
    requires
        0 <= i <= b.len(),
    ensures
        i <= quote_end(b, i, close) <= b.len(),
    decreases b.len() - i,
{
    if i < b.len() {
        if b[i] != close {
            lemma_quote_end_bounds(b, i + 1, close);
        } else if close != ']' as u8 && i + 1 < b.len() && b[i + 1] == close {
            lemma_quote_end_bounds(b, i + 2, close);
        }
    }
}

proof fn lemma_line_end_bounds(b: Seq<u8>, i: int)
    requires
        0 <= i <= b.len(),
    ensures
        i <= line_end(b, i) <= b.len(),
    decreases b.len() - i,
{
    if i < b.len() {
        lemma_line_end_bounds(b, i + 1);
    }
}

proof fn lemma_comment_end_bounds(b: Seq<u8>, i: int)
    requires
        0 <= i <= b.len(),
    ensures
        i <= comment_end(b, i) <= b.len(),
    decreases b.len() - i,
{
    if i + 1 < b.len() {
        lemma_comment_end_bounds(b, i + 1);
    }
}

proof fn lemma_word_end_bounds(b: Seq<u8>, i: int)
    requires
        0 <= i <= b.len(),
    ensures
        i <= word_end(b, i) <= b.len(),
    decreases b.len() - i,
{
    if i < b.len() {
        lemma_word_end_bounds(b, i + 1);
    }
}

/// A token is never empty and ends within the text.
pub proof fn lemma_token_end_bounds(b: Seq<u8>, i: int)
    requires
        0 <= i < b.len(),
    ensures
        i < token_end(b, i) <= b.len(),
{
    lemma_quote_end_bounds(b, i + 1, closing(b[i]));
    lemma_line_end_bounds(b, i + 1);
    if i + 1 < b.len() {
        lemma_comment_end_bounds(b, i + 2);
    }
    lemma_word_end_bounds(b, i + 1);
}

/// The tokens of `b` from position `i` on, each as its start and its end.
pub open spec fn tokens(b: Seq<u8>, i: int) -> Seq<(int, int)>
    decreases b.len() - i,
    when i >= 0
{
    if i >= b.len() {
        Seq::empty()
    } else {
        proof {
            lemma_token_end_bounds(b, i);
        }
        seq![(i, token_end(b, i))] + tokens(b, token_end(b, i))
    }
}

/// How many parentheses are open before token `k`; closing one that is not open
/// changes nothing.
pub open spec fn depth(b: Seq<u8>, t: Seq<(int, int)>, k: int) -> int
    decreases k,
{
    if k <= 0 {
        0
    } else {
        let before = depth(b, t, k - 1);
        if b[t[k - 1].0] == '(' as u8 {
            before + 1
        } else if b[t[k - 1].0] == ')' as u8 && before > 0 {
            before - 1
        } else {
            before
        }
    }
}

/// Token `k` is the word `AS`, in any case, outside all parentheses.
pub open spec fn is_alias_token(b: Seq<u8>, t: Seq<(int, int)>, k: int) -> bool {
    &&& 0 <= k < t.len()
    &&& depth(b, t, k) == 0
    &&& t[k].1 == t[k].0 + 2
    &&& b[t[k].0] == 'a' as u8 || b[t[k].0] == 'A' as u8
    &&& b[t[k].0 + 1] == 's' as u8 || b[t[k].0 + 1] == 'S' as u8
}

/// The start of the last alias token among the first `n`.
pub open spec fn last_alias(b: Seq<u8>, t: Seq<(int, int)>, n: int) -> Option<int>
    decreases n,
{
    if n <= 0 {
        None
    } else if is_alias_token(b, t, n - 1) {
        Some(t[n - 1].0)
    } else {
        last_alias(b, t, n - 1)
    }
}

/// Where the alias of the expression `b` begins.
pub open spec fn alias_at(b: Seq<u8>) -> Option<int> {
    last_alias(b, tokens(b, 0), tokens(b, 0).len() as int)
}

fn is_word_start(c: u8) -> (r: bool)
    ensures
        r == starts_word(c),
{
    ('a' as u8 <= c && c <= 'z' as u8) || ('A' as u8 <= c && c <= 'Z' as u8) || c == '_' as u8
}

fn is_word_byte(c: u8) -> (r: bool)
    ensures
        r == continues_word(c),
{
    is_word_start(c) || (('0' as u8) <= c && c <= '9' as u8)
}

fn skip_quoted(b: &[u8], start: usize) -> (end: usize)
    requires
        start < b@.len(),
        opens_quote(b@[start as int]),
    ensures
        end == quote_end(b@, start + 1, closing(b@[start as int])),
{
    let close: u8 = if b[start] == '[' as u8 {
        (']' as u8)
    } else {
        b[start]
    };
    let mut i: usize = start + 1;
    while i < b.len()
        invariant
            start < i <= b@.len(),
            close == closing(b@[start as int]),
            quote_end(b@, i as int, close) == quote_end(b@, start + 1, close),
        decreases b@.len() - i,
    {
        if b[i] == close {
            if close != ']' as u8 && i + 1 < b.len() && b[i + 1] == close {
                i += 2;
            } else {
                return i + 1;
            }
        } else {
            i += 1;
        }
    }
    i
}

fn skip_line_comment(b: &[u8], start: usize) -> (end: usize)
    requires
        start < b@.len(),
    ensures
        end == line_end(b@, start as int),
{
    let mut i: usize = start;
    while i < b.len() && b[i] != '\n' as u8
        invariant
            start <= i <= b@.len(),
            line_end(b@, i as int) == line_end(b@, start as int),
        decreases b@.len() - i,
    {
        i += 1;
    }
    i
}

fn skip_block_comment(b: &[u8], start: usize) -> (end: usize)
    requires
        start + 2 <= b@.len(),
    ensures
        end == comment_end(b@, start + 2),
{
    let len: usize = b.len();
    let mut i: usize = start + 2;
    while i < len - 1
        invariant
            len == b@.len(),
            start + 2 <= i <= b@.len(),
            comment_end(b@, i as int) == comment_end(b@, start + 2),
        decreases b@.len() - i,
    {
        if b[i] == '*' as u8 && b[i + 1] == '/' as u8 {
            return i + 2;
        }
        i += 1;
    }
    len
}

fn skip_word(b: &[u8], start: usize) -> (end: usize)
    requires
        start < b@.len(),
    ensures
        end == word_end(b@, start as int),
{
    let mut i: usize = start;
    while i < b.len() && is_word_byte(b[i])
        invariant
            start <= i <= b@.len(),
            word_end(b@, i as int) == word_end(b@, start as int),
        decreases b@.len() - i,
    {
        i += 1;
    }
    i
}

/// Finds the byte offset of the outer `AS` token of a SELECT expression, ignoring
/// nested expressions, quoted identifiers, string literals and SQL comments. Of
/// several such tokens the last one counts.
pub fn alias_start(sql: &str) -> (alias: Option<usize>)
    ensures
        match alias {
            None => alias_at(sql.spec_bytes()) is None,
            Some(p) => alias_at(sql.spec_bytes()) == Some(p as int),
        },
{
    let b = sql.as_bytes();
    let ghost t = tokens(b@, 0);
    let ghost mut k: int = 0;
    let mut i: usize = 0;
    let mut depth_now: usize = 0;
    let mut alias: Option<usize> = None;
    assert(t.skip(0) =~= t);
    while i < b.len()
        invariant
            t == tokens(b@, 0),
            0 <= k <= t.len(),
            i <= b@.len(),
            t.skip(k) == tokens(b@, i as int),
            depth_now == depth(b@, t, k),
            depth_now <= i,
            match alias {
                None => last_alias(b@, t, k) is None,
                Some(p) => last_alias(b@, t, k) == Some(p as int),
            },
        decreases b@.len() - i,
    {
        let ghost start = i as int;
        let c: u8 = b[i];
        proof {
            lemma_token_end_bounds(b@, start);
            let rest = tokens(b@, token_end(b@, start));
            assert(tokens(b@, start) == seq![(start, token_end(b@, start))] + rest);
            assert(t[k] == t.skip(k)[0]);
            assert(t.skip(k + 1) =~= t.skip(k).skip(1));
            assert(t.skip(k).skip(1) =~= rest);
        }
        if c == '\'' as u8 || c == '"' as u8 || c == '`' as u8 || c == '[' as u8 {
            i = skip_quoted(b, i);
        } else if c == '-' as u8 && i + 1 < b.len() && b[i + 1] == '-' as u8 {
            i = skip_line_comment(b, i);
        } else if c == '/' as u8 && i + 1 < b.len() && b[i + 1] == '*' as u8 {
            i = skip_block_comment(b, i);
        } else if c == '(' as u8 {
            depth_now += 1;
            i += 1;
        } else if c == ')' as u8 {
            depth_now = depth_now.saturating_sub(1);
            i += 1;
        } else if is_word_start(c) {
            let end: usize = skip_word(b, i);
            if depth_now == 0 && end - i == 2 && (c == 'a' as u8 || c == 'A' as u8) && (b[i + 1]
                == 's' as u8 || b[i + 1] == 'S' as u8) {
                alias = Some(i);
            }
            i = end;
        } else {
            i += 1;
        }
        proof {
            k = k + 1;
        }
    }
    assert(t.skip(k).len() == 0);
    alias
}

/// The tokens lie one after another within the text, each where it should end.
pub proof fn lemma_tokens(b: Seq<u8>, i: int)
    requires
        0 <= i <= b.len(),
    ensures
        forall|k: int|
            0 <= k < tokens(b, i).len() ==> i <= (#[trigger] tokens(b, i)[k]).0 < tokens(
                b,
                i,
            )[k].1 <= b.len() && tokens(b, i)[k].1 == token_end(b, tokens(b, i)[k].0),
    decreases b.len() - i,
{
    if i < b.len() {
        lemma_token_end_bounds(b, i);
        let e = token_end(b, i);
        lemma_tokens(b, e);
        let t = tokens(b, i);
        assert forall|k: int| 0 <= k < t.len() implies i <= (#[trigger] t[k]).0 < t[k].1 <= b.len()
            && t[k].1 == token_end(b, t[k].0) by {
            if k > 0 {
                assert(t[k] == tokens(b, e)[k - 1]);
            }
        }
    }
}

proof fn lemma_last_alias(b: Seq<u8>, t: Seq<(int, int)>, n: int)
    requires
        n <= t.len(),
    ensures
        match last_alias(b, t, n) {
            None => forall|k: int| 0 <= k < n ==> !#[trigger] is_alias_token(b, t, k),
            Some(p) => exists|k: int|
                0 <= k < n && #[trigger] is_alias_token(b, t, k) && t[k].0 == p && (forall|j: int|
                    k < j < n ==> !#[trigger] is_alias_token(b, t, j)),
        },
    decreases n,
{
    if n > 0 && !is_alias_token(b, t, n - 1) {
        lemma_last_alias(b, t, n - 1);
    }
}

/// The alias begins at an `AS` that stands outside all parentheses, string
/// literals, quoted identifiers and comments, and no later token is one; where no
/// alias is found, no token is such an `AS`.
pub proof fn law_alias_is_the_last_outer_as(b: Seq<u8>)
    ensures
        match alias_at(b) {
            None => forall|k: int| !#[trigger] is_alias_token(b, tokens(b, 0), k),
            Some(p) => exists|k: int|
                #[trigger] is_alias_token(b, tokens(b, 0), k) && tokens(b, 0)[k] == (p, p + 2) && (
                forall|j: int| k < j ==> !#[trigger] is_alias_token(b, tokens(b, 0), j)),
        },
{
    let t = tokens(b, 0);
    lemma_last_alias(b, t, t.len() as int);
}

/// An expression can be cut where its alias begins: that is a character boundary.
pub proof fn lemma_alias_boundary(sql: Seq<char>)
    ensures
        alias_at(encode_utf8(sql)) matches Some(p) ==> 0 <= p < encode_utf8(sql).len()
            && is_char_boundary(encode_utf8(sql), p),
{
    let b = encode_utf8(sql);
    law_alias_is_the_last_outer_as(b);
    lemma_tokens(b, 0);
    encode_utf8_valid_utf8(sql);
    if let Some(p) = alias_at(b) {
        let k = choose|k: int|
            #[trigger] is_alias_token(b, tokens(b, 0), k) && tokens(b, 0)[k] == (p, p + 2);
        assert(b[p] == 'a' as u8 || b[p] == 'A' as u8);
        is_char_boundary_iff_not_is_continuation_byte(b, p);
    }
}

} // verus!
