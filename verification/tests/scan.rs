use sqlens::scan::alias_start;

#[test]
fn outer_as_is_found() {
    assert_eq!(alias_start("UPPER(name) AS upper_name"), Some(12));
    assert_eq!(alias_start("id as x"), Some(3));
    assert_eq!(alias_start("CAST(price AS REAL) * quantity AS total"), Some(31));
    assert_eq!(alias_start("a AS b AS c"), Some(7));
    assert_eq!(alias_start("AS"), Some(0));
}

#[test]
fn other_as_is_ignored() {
    assert_eq!(alias_start(""), None);
    assert_eq!(alias_start("id + 1"), None);
    assert_eq!(alias_start("CAST(id AS TEXT)"), None);
    assert_eq!(alias_start("' AS '"), None);
    assert_eq!(alias_start("'it''s AS x'"), None);
    assert_eq!(alias_start("\" AS \""), None);
    assert_eq!(alias_start("` AS `"), None);
    assert_eq!(alias_start("[ AS ]"), None);
    assert_eq!(alias_start("[a]] AS x"), Some(5));
    assert_eq!(alias_start("id -- AS x"), None);
    assert_eq!(alias_start("id -- AS x\nAS y"), Some(11));
    assert_eq!(alias_start("id /* AS x */"), None);
    assert_eq!(alias_start("id /* AS x"), None);
    assert_eq!(alias_start("id /*/ AS x */"), None);
    assert_eq!(alias_start("basic"), None);
    assert_eq!(alias_start("as_is"), None);
    assert_eq!(alias_start("'unclosed AS x"), None);
}

#[test]
fn closing_parentheses_do_not_go_below_none() {
    assert_eq!(alias_start(") AS x"), Some(2));
    assert_eq!(alias_start("((a) AS x"), None);
    assert_eq!(alias_start("'é界' AS x"), Some(8));
}
