//! Quoted identifiers: SQL reads a quoted name back as it was, and nothing in the
//! name can end the identifier early.
use vstd::prelude::*;
use vstd::utf8::*;

use crate::db::{doubled, quoted};
use crate::names::{lemma_finite_set_is_listed, listing};
use crate::scan::{quote_end, token_end};
use crate::sql::{bound, conditions, where_clause};
use crate::text::joined;

verus! {

/// `rest` does not start with a double quote, so that it cannot be taken for a part
/// of a quoted name before it.
pub open spec fn stands_apart(rest: Seq<char>) -> bool {
    rest.len() == 0 || rest[0] != '"'
}

/// The rest of a quoted identifier, as SQL reads it from behind the opening quote: a
/// doubled quote stands for one, a single one ends the identifier. What comes back
/// is the identifier and what follows it.
pub open spec fn quoted_rest(s: Seq<char>) -> Option<(Seq<char>, Seq<char>)>
    decreases s.len(),
{
    if s.len() == 0 {
        None
    } else if s[0] != '"' {
        match quoted_rest(s.drop_first()) {
            Some((name, rest)) => Some((seq![s[0]] + name, rest)),
            None => None,
        }
    } else if s.len() > 1 && s[1] == '"' {
        match quoted_rest(s.skip(2)) {
            Some((name, rest)) => Some((seq!['"'] + name, rest)),
            None => None,
        }
    } else {
        Some((Seq::empty(), s.drop_first()))
    }
}

/// Reads a quoted identifier at the start of `s`.
pub open spec fn read_quoted(s: Seq<char>) -> Option<(Seq<char>, Seq<char>)> {
    if s.len() > 0 && s[0] == '"' {
        quoted_rest(s.drop_first())
    } else {
        None
    }
}

/// A character as it stands within quotes.
pub open spec fn doubled_char(c: char) -> Seq<char> {
    if c == '"' {
        seq!['"', '"']
    } else {
        seq![c]
    }
}

proof fn lemma_doubled_front(s: Seq<char>)
    requires
        s.len() > 0,
    ensures
        doubled(s) == doubled_char(s[0]) + doubled(s.drop_first()),
    decreases s.len(),
{
    if s.len() == 1 {
        assert(s.drop_last() =~= Seq::empty());
        assert(s.drop_first() =~= Seq::empty());
        assert(doubled(s.drop_last()) =~= Seq::empty());
        assert(doubled(s) =~= doubled_char(s[0]) + doubled(s.drop_first()));
    } else {
        lemma_doubled_front(s.drop_last());
        assert(s.drop_last().drop_first() =~= s.drop_first().drop_last());
        assert(doubled(s) =~= doubled_char(s[0]) + doubled(s.drop_first()));
    }
}

proof fn lemma_quoted_rest(name: Seq<char>, rest: Seq<char>)
    requires
        stands_apart(rest),
    ensures
        quoted_rest(doubled(name) + seq!['"'] + rest) == Some((name, rest)),
    decreases name.len(),
{
    let s = doubled(name) + seq!['"'] + rest;
    if name.len() == 0 {
        assert(name =~= Seq::empty());
        assert(doubled(name) =~= Seq::empty());
        assert(s.drop_first() =~= rest);
    } else {
        let tail = name.drop_first();
        lemma_doubled_front(name);
        lemma_quoted_rest(tail, rest);
        assert(name =~= seq![name[0]] + tail);
        if name[0] == '"' {
            assert(s.skip(2) =~= doubled(tail) + seq!['"'] + rest);
        } else {
            assert(s.drop_first() =~= doubled(tail) + seq!['"'] + rest);
        }
    }
}

/// SQL reads a quoted name back as the name itself, whatever it holds, and goes on
/// with what follows it.
pub proof fn law_quoted_names_are_read_back(name: Seq<char>, rest: Seq<char>)
    requires
        stands_apart(rest),
    ensures
        read_quoted(quoted(name) + rest) == Some((name, rest)),
{
    let s = quoted(name) + rest;
    assert(s.drop_first() =~= doubled(name) + seq!['"'] + rest);
    lemma_quoted_rest(name, rest);
}

/// Different names stay different when quoted.
pub proof fn law_quoting_keeps_names_apart(a: Seq<char>, b: Seq<char>)
    requires
        quoted(a) == quoted(b),
    ensures
        a == b,
{
    let none = Seq::<char>::empty();
    assert(quoted(a) + none =~= quoted(a));
    assert(quoted(b) + none =~= quoted(b));
    law_quoted_names_are_read_back(a, none);
    law_quoted_names_are_read_back(b, none);
}

/// The bytes of a character that is no double quote hold none.
proof fn lemma_no_quote_byte(c: char)
    requires
        c != '"',
    ensures
        encode_scalar(c as u32).len() > 0,
        forall|k: int|
            0 <= k < encode_scalar(c as u32).len() ==> #[trigger] encode_scalar(c as u32)[k]
                != '"' as u8,
{
    let n = c as u32;
    char_is_scalar(c);
    char_u32_cast(c, n);
    char_u32_cast('"', 0x22);
    assert(n != 0x22);
    assert(n <= 0x7f && n != 0x22 ==> (n & 0x7f) as u8 != 0x22) by (bit_vector);
    assert(0xc0u8 | ((n >> 6) & 0x1f) as u8 != 0x22) by (bit_vector);
    assert(0xe0u8 | ((n >> 12) & 0x0f) as u8 != 0x22) by (bit_vector);
    assert(0xf0u8 | ((n >> 18) & 0x7) as u8 != 0x22) by (bit_vector);
    assert(0x80u8 | (n & 0x3f) as u8 != 0x22) by (bit_vector);
    assert(0x80u8 | ((n >> 6) & 0x3f) as u8 != 0x22) by (bit_vector);
    assert(0x80u8 | ((n >> 12) & 0x3f) as u8 != 0x22) by (bit_vector);
}

proof fn lemma_quote_byte()
    ensures
        encode_scalar('"' as u32) == seq!['"' as u8],
{
    assert(0x22u32 & 0x7f == 0x22) by (bit_vector);
    assert(encode_scalar('"' as u32) =~= seq!['"' as u8]);
}

proof fn lemma_quote_end_skips(b: Seq<u8>, i: int, n: int, close: u8)
    requires
        0 <= n,
        0 <= i,
        i + n <= b.len(),
        forall|k: int| i <= k < i + n ==> #[trigger] b[k] != close,
    ensures
        quote_end(b, i, close) == quote_end(b, i + n, close),
    decreases n,
{
    if n > 0 {
        lemma_quote_end_skips(b, i + 1, n - 1, close);
    }
}

/// The bytes from `i` on are those of a quoted name, from behind its opening quote,
/// and of what follows: the quote that closes the name is the one that is found.
proof fn lemma_quote_end_of_doubled(b: Seq<u8>, i: int, name: Seq<char>, rest: Seq<char>)
    requires
        0 <= i <= b.len(),
        b.skip(i) == encode_utf8(doubled(name)) + seq!['"' as u8] + encode_utf8(rest),
        stands_apart(rest),
    ensures
        quote_end(b, i, '"' as u8) == i + encode_utf8(doubled(name)).len() + 1,
    decreases name.len(),
{
    let quote = '"' as u8;
    let body = encode_utf8(doubled(name));
    let after = encode_utf8(rest);
    let t = b.skip(i);
    assert(t.len() == body.len() + 1 + after.len());
    if name.len() == 0 {
        assert(doubled(name) =~= Seq::empty());
        assert(body.len() == 0);
        assert(b[i] == t[0]);
        assert(t[0] == quote);
        if rest.len() > 0 {
            lemma_no_quote_byte(rest[0]);
            let first = encode_scalar(rest[0] as u32);
            assert(after =~= first + encode_utf8(rest.drop_first()));
            assert(b[i + 1] == t[1]);
            assert(t[1] == after[0]);
            assert(after[0] == first[0]);
        }
    } else {
        let c = name[0];
        let tail = name.drop_first();
        let more = encode_utf8(doubled(tail));
        lemma_doubled_front(name);
        if c == '"' {
            lemma_quote_byte();
            let d = doubled(name);
            assert(d.drop_first() =~= seq!['"'] + doubled(tail));
            assert(d.drop_first().drop_first() =~= doubled(tail));
            assert(body =~= seq![quote] + encode_utf8(d.drop_first()));
            assert(encode_utf8(d.drop_first()) =~= seq![quote] + more);
            assert(b[i] == t[0] && b[i + 1] == t[1]);
            assert(t[0] == body[0] && t[1] == body[1]);
            assert(b.skip(i + 2) =~= t.skip(2));
            assert(t.skip(2) =~= more + seq![quote] + after);
            lemma_quote_end_of_doubled(b, i + 2, tail, rest);
        } else {
            let first = encode_scalar(c as u32);
            lemma_no_quote_byte(c);
            assert(doubled(name).drop_first() =~= doubled(tail));
            assert(body =~= first + more);
            assert forall|k: int| i <= k < i + first.len() implies #[trigger] b[k] != quote by {
                assert(b[k] == t[k - i]);
                assert(t[k - i] == first[k - i]);
            }
            lemma_quote_end_skips(b, i, first.len() as int, quote);
            assert(b.skip(i + first.len()) =~= t.skip(first.len() as int));
            assert(t.skip(first.len() as int) =~= more + seq![quote] + after);
            lemma_quote_end_of_doubled(b, i + first.len(), tail, rest);
        }
    }
}

/// A quoted name is one token, whatever it holds: nothing in it can end the
/// identifier early.
pub proof fn law_quoted_names_are_one_token(name: Seq<char>, rest: Seq<char>)
    requires
        stands_apart(rest),
    ensures
        token_end(encode_utf8(quoted(name)) + encode_utf8(rest), 0) == encode_utf8(
            quoted(name),
        ).len(),
{
    let quote = '"' as u8;
    let whole = encode_utf8(quoted(name));
    let body = encode_utf8(doubled(name));
    let b = whole + encode_utf8(rest);
    lemma_quote_byte();
    assert(quoted(name).drop_first() =~= doubled(name) + seq!['"']);
    crate::input::lemma_encode_concat(doubled(name), seq!['"']);
    assert(encode_utf8(seq!['"']) =~= seq![quote]) by {
        assert(seq!['"'].drop_first() =~= Seq::empty());
        assert(encode_utf8(Seq::<char>::empty()) =~= Seq::empty());
    }
    assert(whole =~= seq![quote] + body + seq![quote]);
    assert(b.skip(1) =~= body + seq![quote] + encode_utf8(rest));
    lemma_quote_end_of_doubled(b, 1, name, rest);
}

proof fn lemma_joined_front(parts: Seq<Seq<char>>, separator: Seq<char>)
    requires
        parts.len() > 1,
    ensures
        joined(parts, separator) == parts[0] + separator + joined(parts.drop_first(), separator),
    decreases parts.len(),
{
    let rest = parts.drop_first();
    if parts.len() == 2 {
        assert(parts.drop_last() =~= seq![parts[0]]);
        assert(rest =~= seq![parts[1]]);
        assert(joined(parts.drop_last(), separator) == parts[0]);
        assert(joined(rest, separator) == parts[1]);
    } else {
        lemma_joined_front(parts.drop_last(), separator);
        assert(parts.drop_last().drop_first() =~= rest.drop_last());
        assert(joined(rest, separator) =~= joined(rest.drop_last(), separator) + separator
            + parts.last());
        assert(joined(parts, separator) =~= parts[0] + separator + joined(rest, separator));
    }
}

/// What follows the first name in the joined conditions of `names`.
spec fn after_first(names: Seq<Seq<char>>) -> Seq<char> {
    " LIKE ?"@ + if names.len() > 1 {
        " AND "@ + joined(conditions(names.drop_first()), " AND "@)
    } else {
        Seq::empty()
    }
}

proof fn lemma_conditions_front(names: Seq<Seq<char>>)
    requires
        names.len() > 0,
    ensures
        joined(conditions(names), " AND "@) == quoted(names[0]) + after_first(names),
        stands_apart(after_first(names)),
{
    let parts = conditions(names);
    reveal_strlit(" LIKE ?");
    if names.len() > 1 {
        lemma_joined_front(parts, " AND "@);
        assert(parts.drop_first() =~= conditions(names.drop_first()));
    }
    assert(joined(parts, " AND "@) =~= quoted(names[0]) + after_first(names));
}

proof fn lemma_conditions_apart(a: Seq<Seq<char>>, b: Seq<Seq<char>>)
    requires
        a.len() > 0,
        b.len() > 0,
        joined(conditions(a), " AND "@) == joined(conditions(b), " AND "@),
    ensures
        a == b,
    decreases a.len(),
{
    let (x, y) = (after_first(a), after_first(b));
    lemma_conditions_front(a);
    lemma_conditions_front(b);
    law_quoted_names_are_read_back(a[0], x);
    law_quoted_names_are_read_back(b[0], y);
    assert(a[0] == b[0] && x == y);
    reveal_strlit(" LIKE ?");
    reveal_strlit(" AND ");
    if a.len() > 1 && b.len() > 1 {
        assert(x.skip(12) =~= joined(conditions(a.drop_first()), " AND "@));
        assert(y.skip(12) =~= joined(conditions(b.drop_first()), " AND "@));
        lemma_conditions_apart(a.drop_first(), b.drop_first());
        assert(a =~= seq![a[0]] + a.drop_first());
        assert(b =~= seq![b[0]] + b.drop_first());
    } else {
        assert(a.len() == 1 && b.len() == 1);
        assert(a =~= b);
    }
}

/// Filters on different columns have different conditions, and filters with
/// different texts on the same columns have different parameters. So the condition
/// and the parameters tell the filters.
pub proof fn law_conditions_and_parameters_tell_the_filters(
    a: Map<Seq<char>, Seq<char>>,
    b: Map<Seq<char>, Seq<char>>,
)
    requires
        a.dom().finite(),
        b.dom().finite(),
        where_clause(listing(a.dom())) == where_clause(listing(b.dom())),
        bound(a) == bound(b),
    ensures
        a == b,
{
    let names = listing(a.dom());
    let others = listing(b.dom());
    lemma_finite_set_is_listed(a.dom());
    lemma_finite_set_is_listed(b.dom());
    reveal_strlit(" WHERE ");
    reveal_strlit("%");
    if names.len() > 0 && others.len() > 0 {
        assert(where_clause(names).skip(7) =~= joined(conditions(names), " AND "@));
        assert(where_clause(others).skip(7) =~= joined(conditions(others), " AND "@));
        lemma_conditions_apart(names, others);
    }
    assert(names =~= others);
    assert(a.dom() =~= b.dom()) by {
        assert forall|s: Seq<char>| a.dom().contains(s) <==> b.dom().contains(s) by {
            assert(names.contains(s) <==> others.contains(s));
        }
    }
    assert forall|s: Seq<char>| a.contains_key(s) implies a[s] == b[s] by {
        assert(names.contains(s));
        let i = choose|i: int| 0 <= i < names.len() && names[i] == s;
        let (x, y) = (bound(a)[i], bound(b)[i]);
        assert(x == "%"@ + a[s] + "%"@);
        assert(y == "%"@ + b[s] + "%"@);
        assert(a[s] =~= x.subrange(1, x.len() - 1));
        assert(b[s] =~= y.subrange(1, y.len() - 1));
    }
    assert(a =~= b);
}

} // verus!
