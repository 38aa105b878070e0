use sqlens::text::{
    chars_of, eq_ignore_case, integer_text, is_control, is_white_space, join, push_decimal, trim,
};

#[test]
fn character_classes_agree_with_std() {
    for c in '\0'..=char::MAX {
        assert_eq!(is_control(c), c.is_control(), "{c:?}");
        assert_eq!(is_white_space(c), c.is_whitespace(), "{c:?}");
    }
}

#[test]
fn trim_removes_white_space_at_both_ends() {
    for s in [
        "",
        "   ",
        "a",
        " a b\t",
        "\u{2003}wide\u{3000}",
        "\r\nline\n",
        "\u{a0}é🙂 ",
        "\u{200b}kept\u{200b}",
    ] {
        assert_eq!(trim(s), s.trim());
    }
    assert_eq!(trim("  id + 1 "), "id + 1");
}

#[test]
fn integers_are_written_in_decimal() {
    for n in [0, 7, 10, -1, -10, 1234567890, i64::MAX, i64::MIN, i64::MIN + 1] {
        assert_eq!(integer_text(n), n.to_string());
    }
    let mut s = String::from("OFFSET ");
    push_decimal(&mut s, u64::MAX);
    assert_eq!(s, "OFFSET 18446744073709551615");
}

#[test]
fn only_ascii_case_is_ignored() {
    assert!(eq_ignore_case("Name", "nAME"));
    assert!(!eq_ignore_case("name", "names"));
    assert!(!eq_ignore_case("É", "é"));
    assert!(eq_ignore_case("É1", "É1"));
    assert!(!eq_ignore_case("[", "{"));
    assert!(!eq_ignore_case("@", "`"));
}

#[test]
fn parts_are_joined_with_the_separator_between() {
    assert_eq!(join(&vec![], ", "), "");
    assert_eq!(join(&vec!["a".into()], ", "), "a");
    assert_eq!(
        join(&vec!["a".into(), "".into(), "c".into()], ", "),
        "a, , c"
    );
}

#[test]
fn characters_come_in_order() {
    assert_eq!(chars_of("a界🙂"), ['a', '界', '🙂']);
}
