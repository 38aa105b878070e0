//! What the text functions do, character by character, and where the tokens of an
//! expression end.
use vstd::prelude::*;

use crate::db::{hex, hex_digit, value_text, ValueModel};
use crate::names::{before, listing};
use crate::scan::{
    alias_at, comment_end, depth, is_alias_token, lemma_tokens, line_end, quote_end, token_end,
    tokens, word_end,
};
use crate::text::{
    control, folded, same_ignoring_case, signed_decimal, trimmed, trimmed_end, trimmed_start,
    white_space,
};

verus! {

/// `t` is what is left of `s` between `a` and `b`, where all the rest is white space
/// and neither end is.
pub open spec fn trims_to(s: Seq<char>, t: Seq<char>, a: int, b: int) -> bool {
    &&& 0 <= a <= b <= s.len()
    &&& t == s.subrange(a, b)
    &&& forall|i: int| 0 <= i < a ==> white_space(#[trigger] s[i])
    &&& forall|i: int| b <= i < s.len() ==> white_space(#[trigger] s[i])
    &&& a < b ==> !white_space(s[a]) && !white_space(s[b - 1])
}

proof fn lemma_start_trimmed(s: Seq<char>) -> (a: int)
    ensures
        0 <= a <= s.len(),
        trimmed_start(s) == s.skip(a),
        forall|i: int| 0 <= i < a ==> white_space(#[trigger] s[i]),
        a < s.len() ==> !white_space(s[a]),
    decreases s.len(),
{
    if s.len() > 0 && white_space(s[0]) {
        let rest = s.drop_first();
        let a = lemma_start_trimmed(rest);
        assert(rest.skip(a) =~= s.skip(a + 1));
        assert forall|i: int| 0 <= i < a + 1 implies white_space(#[trigger] s[i]) by {
            if i > 0 {
                assert(s[i] == rest[i - 1]);
            }
        }
        if a + 1 < s.len() {
            assert(s[a + 1] == rest[a]);
        }
        a + 1
    } else {
        assert(s.skip(0) =~= s);
        0
    }
}

proof fn lemma_end_trimmed(s: Seq<char>) -> (b: int)
    ensures
        0 <= b <= s.len(),
        trimmed_end(s) == s.take(b),
        forall|i: int| b <= i < s.len() ==> white_space(#[trigger] s[i]),
        b > 0 ==> !white_space(s[b - 1]),
    decreases s.len(),
{
    if s.len() > 0 && white_space(s.last()) {
        let rest = s.drop_last();
        let b = lemma_end_trimmed(rest);
        assert(rest.take(b) =~= s.take(b));
        assert forall|i: int| b <= i < s.len() implies white_space(#[trigger] s[i]) by {
            if i < rest.len() {
                assert(s[i] == rest[i]);
            }
        }
        b
    } else {
        assert(s.take(s.len() as int) =~= s);
        s.len() as int
    }
}

/// Trimming takes away the white space at both ends and nothing else.
pub proof fn law_trimming_takes_only_the_ends(s: Seq<char>)
    ensures
        exists|a: int, b: int| #[trigger] trims_to(s, trimmed(s), a, b),
{
    let a = lemma_start_trimmed(s);
    let t = s.skip(a);
    let b = lemma_end_trimmed(t);
    assert(t.take(b) =~= s.subrange(a, a + b));
    assert forall|i: int| a + b <= i < s.len() implies white_space(#[trigger] s[i]) by {
        assert(s[i] == t[i - a]);
    }
    if b > 0 {
        assert(s[a + b - 1] == t[b - 1]);
    }
    assert(trims_to(s, trimmed(s), a, a + b));
}

/// `c` is an ASCII capital letter and `d` the small one.
pub open spec fn capital_of(c: char, d: char) -> bool {
    65 <= c as u32 <= 90 && d as u32 == c as u32 + 32
}

/// Two texts are the same but for case just where they are as long, and at each place
/// have the same character or the two cases of one ASCII letter.
pub proof fn law_only_ascii_letters_have_case(a: Seq<char>, b: Seq<char>)
    ensures
        same_ignoring_case(a, b) <==> a.len() == b.len() && forall|i: int|
            0 <= i < a.len() ==> #[trigger] a[i] == b[i] || capital_of(a[i], b[i]) || capital_of(
                b[i],
                a[i],
            ),
{
    assert forall|c: char, d: char| #![trigger folded(c), folded(d)] (folded(c) == folded(d)) == (c
        == d || capital_of(c, d) || capital_of(d, c)) by {
        vstd::utf8::char_u32_cast(c, c as u32);
        vstd::utf8::char_u32_cast(d, d as u32);
    }
    if same_ignoring_case(a, b) {
        assert forall|i: int| 0 <= i < a.len() implies #[trigger] a[i] == b[i] || capital_of(
            a[i],
            b[i],
        ) || capital_of(b[i], a[i]) by {
            assert(folded(a[i]) == folded(b[i]));
        }
    }
}

/// `a` and `b` are the same before place `i`, where `a` ends or has the smaller code
/// point.
pub open spec fn smaller_at(a: Seq<char>, b: Seq<char>, i: int) -> bool {
    &&& 0 <= i <= a.len()
    &&& i < b.len()
    &&& a.take(i) == b.take(i)
    &&& i == a.len() || (a[i] as u32) < (b[i] as u32)
}

/// Names are ordered by the first character in which they differ; a name comes before
/// those that it begins.
pub proof fn law_names_are_ordered_by_the_first_difference(a: Seq<char>, b: Seq<char>)
    ensures
        before(a, b) <==> exists|i: int| #[trigger] smaller_at(a, b, i),
    decreases a.len(),
{
    if b.len() == 0 {
    } else if a.len() == 0 {
        assert(a.take(0) =~= b.take(0));
        assert(smaller_at(a, b, 0));
    } else if a[0] != b[0] {
        assert(a.take(0) =~= b.take(0));
        if before(a, b) {
            assert(smaller_at(a, b, 0));
        }
        if exists|i: int| #[trigger] smaller_at(a, b, i) {
            let i = choose|i: int| #[trigger] smaller_at(a, b, i);
            if i > 0 {
                assert(a.take(i)[0] == a[0] && b.take(i)[0] == b[0]);
            }
        }
    } else {
        let (x, y) = (a.drop_first(), b.drop_first());
        law_names_are_ordered_by_the_first_difference(x, y);
        if before(a, b) {
            let i = choose|i: int| #[trigger] smaller_at(x, y, i);
            assert(a.take(i + 1) =~= seq![a[0]] + x.take(i));
            assert(b.take(i + 1) =~= seq![b[0]] + y.take(i));
            assert(smaller_at(a, b, i + 1));
        }
        if exists|i: int| #[trigger] smaller_at(a, b, i) {
            let i = choose|i: int| #[trigger] smaller_at(a, b, i);
            assert(i > 0);
            assert(x.take(i - 1) =~= a.take(i).drop_first());
            assert(y.take(i - 1) =~= b.take(i).drop_first());
            assert(smaller_at(x, y, i - 1));
        }
    }
}

/// The names of a finite set are listed each once, in order, and no others.
pub proof fn law_names_are_listed_in_order(all: Set<Seq<char>>, name: Seq<char>)
    requires
        all.finite(),
    ensures
        listing(all).len() == all.len(),
        listing(all).contains(name) <==> all.contains(name),
        forall|i: int, j: int|
            0 <= i < j < listing(all).len() ==> before(
                #[trigger] listing(all)[i],
                #[trigger] listing(all)[j],
            ),
{
    crate::names::lemma_finite_set_is_listed(all);
    crate::names::lemma_listed_len(listing(all), all);
}

/// The control characters are those below the space, `DEL`, and the 32 that follow it;
/// white space is what Unicode gives that property.
pub proof fn law_character_classes(c: char)
    ensures
        control(c) <==> c as u32 <= 31 || 127 <= c as u32 <= 159,
        white_space(c) <==> (9 <= c as u32 <= 13 || c as u32 == 32 || c as u32 == 133 || c as u32
            == 160 || c as u32 == 5760 || 8192 <= c as u32 <= 8202 || c as u32 == 8232 || c as u32
            == 8233 || c as u32 == 8239 || c as u32 == 8287 || c as u32 == 12288),
{
}

/// The value of a hexadecimal digit in capitals.
pub open spec fn hex_value(c: char) -> int {
    if '0' <= c <= '9' {
        c as u32 - '0' as u32
    } else if 'A' <= c <= 'F' {
        c as u32 - 'A' as u32 + 10
    } else {
        -1
    }
}

/// Two digits of `text` write byte `i` of `b`.
pub open spec fn byte_written(text: Seq<char>, b: Seq<u8>, i: int) -> bool {
    &&& hex_value(text[2 * i]) >= 0
    &&& hex_value(text[2 * i + 1]) >= 0
    &&& b[i] as int == hex_value(text[2 * i]) * 16 + hex_value(text[2 * i + 1])
}

/// Hexadecimal text has two digits for each byte, which write it.
pub proof fn law_hex_writes_every_byte(b: Seq<u8>)
    ensures
        hex(b).len() == 2 * b.len(),
        forall|i: int| 0 <= i < b.len() ==> #[trigger] byte_written(hex(b), b, i),
    decreases b.len(),
{
    if b.len() > 0 {
        let rest = b.drop_last();
        law_hex_writes_every_byte(rest);
        assert forall|i: int| 0 <= i < b.len() implies #[trigger] byte_written(hex(b), b, i) by {
            if i < rest.len() {
                assert(byte_written(hex(rest), rest, i));
                assert(rest[i] == b[i]);
                assert(hex(b)[2 * i] == hex(rest)[2 * i]);
                assert(hex(b)[2 * i + 1] == hex(rest)[2 * i + 1]);
            } else {
                let n = b.last() as int;
                assert(hex(b)[2 * i] == hex_digit(n / 16));
                assert(hex(b)[2 * i + 1] == hex_digit(n % 16));
            }
        }
    }
}

/// The text of a cell: `NULL`, the number in decimal with its sign, the text as it is,
/// and a blob in hexadecimal as a SQL literal.
pub proof fn law_cells_are_written_out(n: i64, s: Seq<char>, b: Seq<u8>)
    ensures
        value_text(ValueModel::Null) == "NULL"@,
        n >= 0 ==> value_text(ValueModel::Integer(n)) == crate::text::decimal(n as nat),
        n < 0 ==> value_text(ValueModel::Integer(n)) == "-"@ + crate::text::decimal(-n as nat),
        value_text(ValueModel::Real(s)) == s,
        value_text(ValueModel::Text(s)) == s,
        value_text(ValueModel::Blob(b)) == "X'"@ + hex(b) + "'"@,
        signed_decimal(n as int) == value_text(ValueModel::Integer(n)),
{
}

/// The bytes, with each `close` written twice.
pub open spec fn paired(inner: Seq<u8>, close: u8) -> Seq<u8>
    decreases inner.len(),
{
    if inner.len() == 0 {
        Seq::empty()
    } else {
        (if inner[0] == close {
            seq![close, close]
        } else {
            seq![inner[0]]
        }) + paired(inner.drop_first(), close)
    }
}

proof fn lemma_quote_closes(b: Seq<u8>, i: int, inner: Seq<u8>, close: u8, rest: Seq<u8>)
    requires
        0 <= i <= b.len(),
        close != ']' as u8,
        b.skip(i) == paired(inner, close) + seq![close] + rest,
        rest.len() == 0 || rest[0] != close,
    ensures
        quote_end(b, i, close) == i + paired(inner, close).len() + 1,
    decreases inner.len(),
{
    let t = b.skip(i);
    if inner.len() == 0 {
        assert(b[i] == t[0]);
        if rest.len() > 0 {
            assert(b[i + 1] == t[1] && t[1] == rest[0]);
        }
    } else {
        let more = inner.drop_first();
        assert(b[i] == t[0]);
        if inner[0] == close {
            assert(b[i + 1] == t[1]);
            assert(b.skip(i + 2) =~= t.skip(2));
            assert(t.skip(2) =~= paired(more, close) + seq![close] + rest);
            lemma_quote_closes(b, i + 2, more, close, rest);
        } else {
            assert(b.skip(i + 1) =~= t.skip(1));
            assert(t.skip(1) =~= paired(more, close) + seq![close] + rest);
            lemma_quote_closes(b, i + 1, more, close, rest);
        }
    }
}

proof fn lemma_quote_stays_open(b: Seq<u8>, i: int, inner: Seq<u8>, close: u8)
    requires
        0 <= i <= b.len(),
        close != ']' as u8,
        b.skip(i) == paired(inner, close),
    ensures
        quote_end(b, i, close) == b.len(),
    decreases inner.len(),
{
    let t = b.skip(i);
    if inner.len() > 0 {
        let more = inner.drop_first();
        assert(t.len() > 0 && (inner[0] == close ==> t.len() > 1));
        assert(b[i] == t[0]);
        if inner[0] == close {
            assert(b[i + 1] == t[1]);
            assert(b.skip(i + 2) =~= t.skip(2));
            assert(t.skip(2) =~= paired(more, close));
            lemma_quote_stays_open(b, i + 2, more, close);
        } else {
            assert(b.skip(i + 1) =~= t.skip(1));
            assert(t.skip(1) =~= paired(more, close));
            lemma_quote_stays_open(b, i + 1, more, close);
        }
    } else {
        assert(t.len() == 0);
    }
}

/// What is quoted by `'`, `"` or `` ` `` is one token up to the quote that closes it,
/// whatever it holds; a doubled quote does not close it, and where none does the token
/// runs to the end.
pub proof fn law_quoted_text_is_one_token(
    b: Seq<u8>,
    i: int,
    quote: u8,
    inner: Seq<u8>,
    rest: Seq<u8>,
)
    requires
        0 <= i < b.len(),
        quote == 0x27 || quote == 0x22 || quote == 0x60,
    ensures
        b.skip(i) == seq![quote] + paired(inner, quote) + seq![quote] + rest && (rest.len() == 0
            || rest[0] != quote) ==> token_end(b, i) == i + 2 + paired(inner, quote).len(),
        b.skip(i) == seq![quote] + paired(inner, quote) ==> token_end(b, i) == b.len(),
{
    let t = b.skip(i);
    assert(b.skip(i + 1) =~= t.skip(1));
    assert(b[i] == t[0]);
    if t == seq![quote] + paired(inner, quote) + seq![quote] + rest && (rest.len() == 0 || rest[0]
        != quote) {
        assert(t.skip(1) =~= paired(inner, quote) + seq![quote] + rest);
        lemma_quote_closes(b, i + 1, inner, quote, rest);
    }
    if t == seq![quote] + paired(inner, quote) {
        assert(t.skip(1) =~= paired(inner, quote));
        lemma_quote_stays_open(b, i + 1, inner, quote);
    }
}

proof fn lemma_bracket_closes(b: Seq<u8>, i: int, n: int)
    requires
        0 <= i,
        0 <= n,
        i + n <= b.len(),
        forall|k: int| i <= k < i + n ==> #[trigger] b[k] != 0x5d,
    ensures
        i + n < b.len() && b[i + n] == 0x5d ==> quote_end(b, i, 0x5d) == i + n + 1,
        i + n == b.len() ==> quote_end(b, i, 0x5d) == b.len(),
    decreases n,
{
    if n > 0 {
        lemma_bracket_closes(b, i + 1, n - 1);
    }
}

/// What stands in square brackets is one token up to the first `]`, or to the end.
pub proof fn law_bracketed_text_is_one_token(b: Seq<u8>, i: int, n: int)
    requires
        0 <= i < b.len(),
        b[i] == 0x5b,
        0 <= n,
        i + 1 + n <= b.len(),
        forall|k: int| i < k < i + 1 + n ==> #[trigger] b[k] != 0x5d,
    ensures
        i + 1 + n < b.len() && b[i + 1 + n] == 0x5d ==> token_end(b, i) == i + n + 2,
        i + 1 + n == b.len() ==> token_end(b, i) == b.len(),
{
    lemma_bracket_closes(b, i + 1, n);
}

proof fn lemma_line_ends(b: Seq<u8>, i: int, n: int)
    requires
        0 <= i,
        0 <= n,
        i + n <= b.len(),
        forall|k: int| i <= k < i + n ==> #[trigger] b[k] != 0x0a,
        i + n == b.len() || b[i + n] == 0x0a,
    ensures
        line_end(b, i) == i + n,
    decreases n,
{
    if n > 0 {
        lemma_line_ends(b, i + 1, n - 1);
    }
}

/// A comment that two dashes begin is one token up to the end of its line.
pub proof fn law_line_comments_end_with_the_line(b: Seq<u8>, i: int, n: int)
    requires
        0 <= i,
        2 <= n,
        i + n <= b.len(),
        b[i] == 0x2d,
        b[i + 1] == 0x2d,
        forall|k: int| i <= k < i + n ==> #[trigger] b[k] != 0x0a,
        i + n == b.len() || b[i + n] == 0x0a,
    ensures
        token_end(b, i) == i + n,
{
    lemma_line_ends(b, i, n);
}

/// `*/` stands at `k`.
pub open spec fn closes_comment(b: Seq<u8>, k: int) -> bool {
    k + 1 < b.len() && b[k] == 0x2a && b[k + 1] == 0x2f
}

proof fn lemma_comment_closes(b: Seq<u8>, i: int, n: int)
    requires
        0 <= i,
        0 <= n,
        i + n <= b.len(),
        forall|k: int| i <= k < i + n ==> !#[trigger] closes_comment(b, k),
        i + n == b.len() || closes_comment(b, i + n),
    ensures
        comment_end(b, i) == if i + n == b.len() {
            b.len() as int
        } else {
            i + n + 2
        },
    decreases n,
{
    if n > 0 {
        assert(!closes_comment(b, i));
        lemma_comment_closes(b, i + 1, n - 1);
    }
}

/// A comment that `/*` begins is one token up to the first `*/` behind that, or to the
/// end.
pub proof fn law_block_comments_end_where_they_close(b: Seq<u8>, i: int, n: int)
    requires
        0 <= i,
        0 <= n,
        i + 2 + n <= b.len(),
        b[i] == 0x2f,
        b[i + 1] == 0x2a,
        forall|k: int| i + 2 <= k < i + 2 + n ==> !#[trigger] closes_comment(b, k),
        i + 2 + n == b.len() || closes_comment(b, i + 2 + n),
    ensures
        token_end(b, i) == if i + 2 + n == b.len() {
            b.len() as int
        } else {
            i + n + 4
        },
{
    lemma_comment_closes(b, i + 2, n);
}

/// An ASCII letter or an underscore.
pub open spec fn letter(c: u8) -> bool {
    0x61 <= c <= 0x7a || 0x41 <= c <= 0x5a || c == 0x5f
}

/// An ASCII digit.
pub open spec fn numeral(c: u8) -> bool {
    0x30 <= c <= 0x39
}

proof fn lemma_word_ends(b: Seq<u8>, i: int, n: int)
    requires
        0 <= i,
        0 <= n,
        i + n <= b.len(),
        forall|k: int| i <= k < i + n ==> letter(#[trigger] b[k]) || numeral(b[k]),
        i + n == b.len() || !(letter(b[i + n]) || numeral(b[i + n])),
    ensures
        word_end(b, i) == i + n,
    decreases n,
{
    if n > 0 {
        assert(letter(b[i]) || numeral(b[i]));
        lemma_word_ends(b, i + 1, n - 1);
    }
}

/// A word, which a letter begins, is one token as far as letters and digits go.
pub proof fn law_words_are_one_token(b: Seq<u8>, i: int, n: int)
    requires
        0 <= i,
        1 <= n,
        i + n <= b.len(),
        letter(b[i]),
        forall|k: int| i <= k < i + n ==> letter(#[trigger] b[k]) || numeral(b[k]),
        i + n == b.len() || !(letter(b[i + n]) || numeral(b[i + n])),
    ensures
        token_end(b, i) == i + n,
{
    lemma_word_ends(b, i, n);
}

/// Every other byte is a token of its own.
pub proof fn law_other_bytes_stand_alone(b: Seq<u8>, i: int)
    requires
        0 <= i < b.len(),
        b[i] != 0x27 && b[i] != 0x22 && b[i] != 0x60 && b[i] != 0x5b,
        !letter(b[i]),
        !(b[i] == 0x2d && i + 1 < b.len() && b[i + 1] == 0x2d),
        !(b[i] == 0x2f && i + 1 < b.len() && b[i + 1] == 0x2a),
    ensures
        token_end(b, i) == i + 1,
{
}

proof fn lemma_tokens_tile(b: Seq<u8>, i: int)
    requires
        0 <= i <= b.len(),
    ensures
        ({
            let t = tokens(b, i);
            &&& i < b.len() ==> t.len() > 0 && t[0].0 == i && t.last().1 == b.len()
            &&& i == b.len() ==> t.len() == 0
            &&& forall|k: int| 0 <= k < t.len() - 1 ==> (#[trigger] t[k]).1 == t[k + 1].0
        }),
    decreases b.len() - i,
{
    if i < b.len() {
        crate::scan::lemma_token_end_bounds(b, i);
        let e = token_end(b, i);
        lemma_tokens_tile(b, e);
        let t = tokens(b, i);
        let rest = tokens(b, e);
        assert(t == seq![(i, e)] + rest);
        assert forall|k: int| 0 <= k < t.len() - 1 implies (#[trigger] t[k]).1 == t[k + 1].0 by {
            assert(t[k + 1] == rest[k]);
            if k > 0 {
                assert(t[k] == rest[k - 1]);
            }
        }
    }
}

/// The tokens follow each other without a gap from the start of the text to its end,
/// and each ends where a token that starts there ends.
pub proof fn law_tokens_cover_the_text(b: Seq<u8>)
    ensures
        ({
            let t = tokens(b, 0);
            &&& b.len() > 0 ==> t.len() > 0 && t[0].0 == 0 && t.last().1 == b.len()
            &&& b.len() == 0 ==> t.len() == 0
            &&& forall|k: int| 0 <= k < t.len() - 1 ==> (#[trigger] t[k]).1 == t[k + 1].0
            &&& forall|k: int|
                0 <= k < t.len() ==> 0 <= (#[trigger] t[k]).0 < t[k].1 && t[k].1 == token_end(
                    b,
                    t[k].0,
                )
        }),
{
    lemma_tokens_tile(b, 0);
    lemma_tokens(b, 0);
}

/// Parentheses are counted from none at the start; a `(` opens one, a `)` closes one
/// where one is open, and no other token does either.
pub proof fn law_parentheses_are_counted(b: Seq<u8>, t: Seq<(int, int)>, k: int)
    requires
        0 <= k < t.len(),
    ensures
        depth(b, t, 0) == 0,
        depth(b, t, k) >= 0,
        b[t[k].0] == 0x28 ==> depth(b, t, k + 1) == depth(b, t, k) + 1,
        b[t[k].0] == 0x29 && depth(b, t, k) > 0 ==> depth(b, t, k + 1) == depth(b, t, k) - 1,
        b[t[k].0] == 0x29 && depth(b, t, k) == 0 ==> depth(b, t, k + 1) == 0,
        b[t[k].0] != 0x28 && b[t[k].0] != 0x29 ==> depth(b, t, k + 1) == depth(b, t, k),
    decreases k,
{
    if k > 0 {
        law_parentheses_are_counted(b, t, k - 1);
    }
}

/// The alias begins at the last token that is the two letters `AS`, in either case,
/// with no parenthesis open; where there is none, there is no alias.
pub proof fn law_alias_begins_at_the_last_open_as(b: Seq<u8>, k: int)
    requires
        0 <= k < tokens(b, 0).len(),
        ({
            let t = tokens(b, 0);
            &&& depth(b, t, k) == 0
            &&& t[k].1 == t[k].0 + 2
            &&& b[t[k].0] == 0x41 || b[t[k].0] == 0x61
            &&& b[t[k].0 + 1] == 0x53 || b[t[k].0 + 1] == 0x73
        }),
    ensures
        alias_at(b) matches Some(p) && p >= tokens(b, 0)[k].0,
        alias_at(b) matches Some(p) ==> p == tokens(b, 0)[k].0 || exists|j: int|
            k < j < tokens(b, 0).len() && #[trigger] tokens(b, 0)[j].0 == p,
{
    let t = tokens(b, 0);
    crate::scan::law_alias_is_the_last_outer_as(b);
    assert(is_alias_token(b, t, k));
    let p = alias_at(b)->0;
    let j = choose|j: int|
        #[trigger] is_alias_token(b, t, j) && t[j] == (p, p + 2) && (forall|m: int|
            j < m ==> !#[trigger] is_alias_token(b, t, m));
    assert(j >= k);
    lemma_token_starts_rise(b, k, j);
}

proof fn lemma_token_starts_rise(b: Seq<u8>, j: int, k: int)
    requires
        0 <= j <= k < tokens(b, 0).len(),
    ensures
        tokens(b, 0)[j].0 <= tokens(b, 0)[k].0,
    decreases k - j,
{
    if j < k {
        law_tokens_cover_the_text(b);
        lemma_token_starts_rise(b, j + 1, k);
        assert(tokens(b, 0)[j].1 == tokens(b, 0)[j + 1].0);
    }
}

/// Where an alias is found, an `AS` stands there, in either case, as a token with no
/// parenthesis open.
pub proof fn law_alias_is_an_open_as(b: Seq<u8>, p: int)
    requires
        alias_at(b) == Some(p),
    ensures
        exists|k: int|
            0 <= k < tokens(b, 0).len() && #[trigger] tokens(b, 0)[k] == (p, p + 2) && depth(
                b,
                tokens(b, 0),
                k,
            ) == 0,
        b[p] == 0x41 || b[p] == 0x61,
        b[p + 1] == 0x53 || b[p + 1] == 0x73,
{
    let t = tokens(b, 0);
    crate::scan::law_alias_is_the_last_outer_as(b);
    let k = choose|k: int| #[trigger] is_alias_token(b, t, k) && t[k] == (p, p + 2);
    assert(0 <= k < t.len() && t[k] == (p, p + 2));
}

} // verus!
