//! Copying through the terminal: the OSC 52 control sequence that asks it to put a
//! text on the clipboard.
use vstd::prelude::*;
use vstd::string::*;
use vstd::utf8::*;

use crate::text::control;

verus! {

/// The six bits of `b` from bit `6 * i` on, as a number; bits past the end are 0.
pub open spec fn sextet(b: Seq<u8>, i: int) -> int {
    let first = 6 * i / 8;
    let window = b[first] as int * 256 + if first + 1 < b.len() {
        b[first + 1] as int
    } else {
        0
    };
    let skipped = 6 * i % 8;
    let unit: int = if skipped == 0 {
        1024
    } else if skipped == 2 {
        256
    } else if skipped == 4 {
        64
    } else {
        16
    };
    window / unit % 64
}

/// The letter of the standard alphabet for `v`.
pub open spec fn base64_letter(v: int) -> char {
    if v < 26 {
        ('A' as u32 + v) as char
    } else if v < 52 {
        ('a' as u32 + (v - 26)) as char
    } else if v < 62 {
        ('0' as u32 + (v - 52)) as char
    } else if v == 62 {
        '+'
    } else {
        '/'
    }
}

/// Character `i` of the base64 text of `b`: a letter of the standard alphabet for
/// every six bits, then padding.
pub open spec fn base64_char(b: Seq<u8>, i: int) -> char {
    if 6 * i < 8 * b.len() {
        base64_letter(sextet(b, i))
    } else {
        '='
    }
}

/// How long the base64 text of `n` bytes is.
pub open spec fn base64_len(n: nat) -> nat {
    (n + 2) / 3 * 4
}

/// The base64 text of `b`, in the standard alphabet, with padding.
pub open spec fn base64_text(b: Seq<u8>) -> Seq<char> {
    Seq::new(base64_len(b.len()), |i: int| base64_char(b, i))
}

/// `base64::engine::general_purpose::STANDARD` encodes in the standard alphabet of
/// RFC 4648, padded with `=` to a multiple of four characters. It panics where the
/// text would be larger than memory can hold.
#[verifier::external_body]
fn encode_standard(bytes: &[u8]) -> (s: String)
    requires
        base64_len(bytes@.len()) <= isize::MAX,
    ensures
        s@ == base64_text(bytes@),
{
    base64::Engine::encode(&base64::engine::general_purpose::STANDARD, bytes)
}

/// The sequence that asks the terminal to copy `text`.
pub open spec fn osc52(text: Seq<char>) -> Seq<char> {
    seq!['\u{1b}'] + "]52;c;"@ + base64_text(encode_utf8(text)) + seq!['\u{7}']
}

/// The sequence that asks the terminal to copy `text`. Base64 keeps what the text
/// holds from being read as terminal controls.
pub fn clipboard_sequence(text: &str) -> (s: String)
    requires
        base64_len(encode_utf8(text@).len()) <= isize::MAX,
    ensures
        s@ == osc52(text@),
{
    let mut s = String::new();
    s.push('\u{1b}');
    s.append("]52;c;");
    s.append(encode_standard(text.as_bytes()).as_str());
    s.push('\u{7}');
    assert(s@ =~= osc52(text@));
    s
}

proof fn lemma_sextet_bounds(b: Seq<u8>, i: int)
    ensures
        0 <= sextet(b, i) < 64,
{
}

/// Whatever text is copied, the sequence holds no control character but the escape
/// that opens it and the bell that closes it.
pub proof fn law_clipboard_holds_no_controls(text: Seq<char>)
    ensures
        osc52(text).len() >= 2,
        osc52(text).first() == '\u{1b}',
        osc52(text).last() == '\u{7}',
        forall|i: int|
            0 < i < osc52(text).len() - 1 ==> !control(#[trigger] osc52(text)[i]),
{
    reveal_strlit("]52;c;");
    let b = encode_utf8(text);
    let s = osc52(text);
    let payload = base64_text(b);
    assert forall|i: int| 0 < i < s.len() - 1 implies !control(#[trigger] s[i]) by {
        if i >= 7 {
            assert(s[i] == payload[i - 7]);
            lemma_sextet_bounds(b, i - 7);
        }
    }
}

proof fn lemma_letters_apart(v: int, w: int)
    requires
        0 <= v < 64,
        0 <= w < 64,
    ensures
        base64_letter(v) != '=',
        base64_letter(v) == base64_letter(w) ==> v == w,
{
}

/// The six bits of two bytes from the first bit on.
proof fn lemma_window_from_0(p: int, q: int)
    requires
        0 <= p < 256,
        0 <= q < 256,
    ensures
        (p * 256 + q) / 1024 % 64 == p / 4,
{
    assert((p * 256 + q) / 1024 == p / 4);
}

/// The six bits of two bytes from the third bit on.
proof fn lemma_window_from_2(p: int, q: int)
    requires
        0 <= p < 256,
        0 <= q < 256,
    ensures
        (p * 256 + q) / 256 % 64 == p % 64,
{
    assert((p * 256 + q) / 256 == p);
}

/// The six bits of two bytes from the fifth bit on.
proof fn lemma_window_from_4(p: int, q: int)
    requires
        0 <= p < 256,
        0 <= q < 256,
    ensures
        (p * 256 + q) / 64 % 64 == p % 16 * 4 + q / 64,
{
    assert((p * 256 + q) / 64 == p * 4 + q / 64);
}

/// The six bits of two bytes from the seventh bit on.
proof fn lemma_window_from_6(p: int, q: int)
    requires
        0 <= p < 256,
        0 <= q < 256,
    ensures
        (p * 256 + q) / 16 % 64 == p % 4 * 16 + q / 16,
{
    assert((p * 256 + q) / 16 == p * 16 + q / 16);
}

/// The byte that follows byte `i`, 0 at the end.
spec fn byte_after(b: Seq<u8>, i: int) -> int {
    if i + 1 < b.len() {
        b[i + 1] as int
    } else {
        0
    }
}

proof fn lemma_group_sextets(b: Seq<u8>, k: int)
    requires
        0 <= k,
    ensures
        sextet(b, 4 * k) == b[3 * k] / 4,
        sextet(b, 4 * k + 1) == b[3 * k] % 4 * 16 + byte_after(b, 3 * k) / 16,
        sextet(b, 4 * k + 2) == b[3 * k + 1] % 16 * 4 + byte_after(b, 3 * k + 1) / 64,
        sextet(b, 4 * k + 3) == b[3 * k + 2] % 64,
{
    assert(6 * (4 * k) / 8 == 3 * k && 6 * (4 * k) % 8 == 0);
    assert(6 * (4 * k + 1) / 8 == 3 * k && 6 * (4 * k + 1) % 8 == 6);
    assert(6 * (4 * k + 2) / 8 == 3 * k + 1 && 6 * (4 * k + 2) % 8 == 4);
    assert(6 * (4 * k + 3) / 8 == 3 * k + 2 && 6 * (4 * k + 3) % 8 == 2);
    lemma_window_from_0(b[3 * k] as int, byte_after(b, 3 * k));
    lemma_window_from_6(b[3 * k] as int, byte_after(b, 3 * k));
    lemma_window_from_4(b[3 * k + 1] as int, byte_after(b, 3 * k + 1));
    lemma_window_from_2(b[3 * k + 2] as int, byte_after(b, 3 * k + 2));
}

/// The bytes of a group of three, from the sextets that hold them.
proof fn lemma_bytes_of_sextets(b: Seq<u8>, k: int)
    requires
        0 <= k,
        3 * k < b.len(),
    ensures
        b[3 * k] == sextet(b, 4 * k) * 4 + sextet(b, 4 * k + 1) / 16,
        3 * k + 1 < b.len() ==> b[3 * k + 1] == sextet(b, 4 * k + 1) % 16 * 16 + sextet(
            b,
            4 * k + 2,
        ) / 4,
        3 * k + 2 < b.len() ==> b[3 * k + 2] == sextet(b, 4 * k + 2) % 4 * 64 + sextet(
            b,
            4 * k + 3,
        ),
{
    lemma_group_sextets(b, k);
}

/// Equal base64 texts end their letters at the same place and hold the same sextets.
proof fn lemma_same_sextet(a: Seq<u8>, b: Seq<u8>, i: int)
    requires
        base64_text(a) == base64_text(b),
        0 <= i < base64_len(a.len()),
    ensures
        6 * i < 8 * a.len() <==> 6 * i < 8 * b.len(),
        6 * i < 8 * a.len() ==> sextet(a, i) == sextet(b, i),
{
    assert(base64_text(a).len() == base64_len(a.len()));
    assert(base64_text(b).len() == base64_len(b.len()));
    assert(base64_text(a)[i] == base64_char(a, i));
    assert(base64_text(b)[i] == base64_char(b, i));
    lemma_sextet_bounds(a, i);
    lemma_sextet_bounds(b, i);
    lemma_letters_apart(sextet(a, i), sextet(b, i));
    lemma_letters_apart(sextet(b, i), sextet(a, i));
}

proof fn lemma_base64_tells_bytes(a: Seq<u8>, b: Seq<u8>)
    requires
        base64_text(a) == base64_text(b),
    ensures
        a == b,
{
    assert(base64_text(a).len() == base64_len(a.len()));
    assert(base64_text(b).len() == base64_len(b.len()));
    if a.len() < b.len() {
        lemma_same_sextet(a, b, (8 * a.len() + 5) as int / 6);
    } else if b.len() < a.len() {
        lemma_same_sextet(a, b, (8 * b.len() + 5) as int / 6);
    }
    assert(a.len() == b.len());
    assert forall|j: int| 0 <= j < a.len() implies a[j] == b[j] by {
        let k = j / 3;
        lemma_bytes_of_sextets(a, k);
        lemma_bytes_of_sextets(b, k);
        lemma_same_sextet(a, b, 4 * k);
        lemma_same_sextet(a, b, 4 * k + 1);
        lemma_same_sextet(a, b, 4 * k + 2);
        lemma_same_sextet(a, b, 4 * k + 3);
        assert(j == 3 * k || j == 3 * k + 1 || j == 3 * k + 2);
    }
    assert(a =~= b);
}

/// The terminal can tell from the sequence what was copied: different texts have
/// different sequences.
pub proof fn law_clipboard_tells_the_text(a: Seq<char>, b: Seq<char>)
    requires
        osc52(a) == osc52(b),
    ensures
        a == b,
{
    let (x, y) = (encode_utf8(a), encode_utf8(b));
    reveal_strlit("]52;c;");
    let n = osc52(a).len() as int;
    assert(osc52(a).subrange(7, n - 1) =~= base64_text(x));
    assert(osc52(b).subrange(7, n - 1) =~= base64_text(y));
    lemma_base64_tells_bytes(x, y);
    encode_utf8_decode_utf8(a);
    encode_utf8_decode_utf8(b);
}

/// The number that a base64 letter stands for.
pub open spec fn base64_value(c: char) -> int {
    if 'A' <= c <= 'Z' {
        c as u32 - 'A' as u32
    } else if 'a' <= c <= 'z' {
        c as u32 - 'a' as u32 + 26
    } else if '0' <= c <= '9' {
        c as u32 - '0' as u32 + 52
    } else if c == '+' {
        62
    } else if c == '/' {
        63
    } else {
        -1
    }
}

/// Group `k` of four characters holds the three bytes from `3 * k` on, or those that
/// there are, with padding in place of the others.
pub open spec fn group_decodes(p: Seq<char>, b: Seq<u8>, k: int) -> bool {
    let (v, w) = (base64_value(p[4 * k]), base64_value(p[4 * k + 1]));
    let (x, y) = (base64_value(p[4 * k + 2]), base64_value(p[4 * k + 3]));
    &&& v >= 0 && w >= 0 && b[3 * k] == v * 4 + w / 16
    &&& if 3 * k + 1 < b.len() {
        x >= 0 && b[3 * k + 1] == w % 16 * 16 + x / 4
    } else {
        w % 16 == 0 && p[4 * k + 2] == '='
    }
    &&& if 3 * k + 2 < b.len() {
        y >= 0 && b[3 * k + 2] == x % 4 * 64 + y
    } else {
        p[4 * k + 3] == '=' && (3 * k + 1 < b.len() ==> x % 4 == 0)
    }
}

proof fn lemma_letter_value(v: int)
    requires
        0 <= v < 64,
    ensures
        base64_value(base64_letter(v)) == v,
{
}

proof fn lemma_group_decodes(b: Seq<u8>, k: int)
    requires
        0 <= k,
        3 * k < b.len(),
    ensures
        4 * k + 3 < base64_len(b.len()),
        group_decodes(base64_text(b), b, k),
{
    let p = base64_text(b);
    lemma_group_sextets(b, k);
    lemma_bytes_of_sextets(b, k);
    lemma_sextet_bounds(b, 4 * k);
    lemma_sextet_bounds(b, 4 * k + 1);
    lemma_sextet_bounds(b, 4 * k + 2);
    lemma_sextet_bounds(b, 4 * k + 3);
    lemma_letter_value(sextet(b, 4 * k));
    lemma_letter_value(sextet(b, 4 * k + 1));
    lemma_letter_value(sextet(b, 4 * k + 2));
    lemma_letter_value(sextet(b, 4 * k + 3));
    assert(p[4 * k] == base64_char(b, 4 * k));
    assert(p[4 * k + 1] == base64_char(b, 4 * k + 1));
    assert(p[4 * k + 2] == base64_char(b, 4 * k + 2));
    assert(p[4 * k + 3] == base64_char(b, 4 * k + 3));
}

/// The sequence is `ESC ] 52 ; c ;`, the text in base64, and `BEL`: decoded group by
/// group, its payload gives back the bytes of the text, all of them and no others.
pub proof fn law_clipboard_payload_decodes_to_the_text(text: Seq<char>)
    ensures
        ({
            let s = osc52(text);
            let b = encode_utf8(text);
            let p = s.subrange(7, s.len() - 1);
            &&& s.len() == p.len() + 8
            &&& s.take(7) == seq!['\u{1b}'] + "]52;c;"@
            &&& s.last() == '\u{7}'
            &&& p.len() == (b.len() + 2) / 3 * 4
            &&& forall|k: int| 0 <= k && 3 * k < b.len() ==> #[trigger] group_decodes(p, b, k)
        }),
{
    reveal_strlit("]52;c;");
    let s = osc52(text);
    let b = encode_utf8(text);
    let p = s.subrange(7, s.len() - 1);
    assert(p =~= base64_text(b));
    assert(s.take(7) =~= seq!['\u{1b}'] + "]52;c;"@);
    assert forall|k: int| 0 <= k && 3 * k < b.len() implies #[trigger] group_decodes(p, b, k) by {
        lemma_group_decodes(b, k);
    }
}

} // verus!
