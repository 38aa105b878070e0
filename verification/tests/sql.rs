use sqlens::db::{quote_ident, schema, schema_sql, Column, ColumnInfo, Expression, Query, Value};
use sqlens::names::{NameMap, NameSet};
use sqlens::sql::{
    count_sql, every_name, filter_params, names_of_columns, normalize, page_sql, source_sql,
    visible_columns,
};

fn column(name: &str) -> Column {
    Column {
        name: name.into(),
        kind: "TEXT".into(),
        primary_key: false,
        generated: false,
    }
}

fn expression(body: &str, label: &str) -> Expression {
    Expression {
        body: body.into(),
        label: label.into(),
    }
}

#[test]
fn identifiers_are_quoted() {
    assert_eq!(quote_ident("name"), "\"name\"");
    assert_eq!(quote_ident(""), "\"\"");
    assert_eq!(quote_ident("a\"b"), "\"a\"\"b\"");
    assert_eq!(quote_ident("\"\"é"), "\"\"\"\"\"é\"");
    assert_ne!(quote_ident("a\"\"b"), quote_ident("a\"b"));
    assert_eq!(schema_sql("a\"b"), "PRAGMA table_xinfo(\"a\"\"b\")");
}

#[test]
fn schema_marks_generated_columns_and_leaves_out_internal_ones() {
    let info = |name: &str, hidden: i32, key: i32| ColumnInfo {
        hidden,
        name: name.into(),
        kind: "INT".into(),
        key,
    };
    let columns = schema(&vec![
        info("id", 0, 1),
        info("secret", 1, 0),
        info("virtual", 2, 0),
        info("stored", 3, 2),
    ]);
    let seen: Vec<(&str, bool, bool)> = columns
        .iter()
        .map(|c| (c.name.as_str(), c.primary_key, c.generated))
        .collect();
    assert_eq!(
        seen,
        [
            ("id", true, false),
            ("virtual", false, true),
            ("stored", true, true)
        ]
    );
    assert_eq!(columns[0].kind, "INT");
    assert_eq!(columns[0].clone(), columns[0]);
}

#[test]
fn filters_stand_outside_the_projection() {
    let columns = vec![column("id"), column("a\"b")];
    let mut query = Query::new("t t".into());
    query.expressions.push(expression("id + 1", "next"));
    assert_eq!(
        source_sql(&columns, &query),
        "(SELECT \"id\", \"a\"\"b\", (id + 1\n) AS \"next\" FROM \"t t\")"
    );
    query.filters.insert("next".into(), "2".into());
    query.filters.insert("id".into(), "1".into());
    let source = source_sql(&columns, &query);
    assert_eq!(
        source,
        "(SELECT \"id\", \"a\"\"b\", (id + 1\n) AS \"next\" FROM \"t t\") WHERE \"id\" LIKE ? AND \"next\" LIKE ?"
    );
    assert_eq!(filter_params(&query.filters), ["%1%", "%2%"]);
    assert_eq!(
        count_sql(&"(x)".to_string()),
        "SELECT COUNT(*) FROM (x)"
    );
    query.filters.insert("id".into(), "other ' text".into());
    assert_eq!(source_sql(&columns, &query), source);
    assert_eq!(filter_params(&query.filters), ["%other ' text%", "%2%"]);
    assert!(filter_params(&NameMap::new()).is_empty());
}

#[test]
fn page_statement_sorts_and_limits() {
    let columns = vec!["id".to_string(), "n".to_string()];
    let source = "(SELECT 1)".to_string();
    assert_eq!(
        page_sql(&columns, &source, &None, 0),
        "SELECT \"id\", \"n\" FROM (SELECT 1) LIMIT 50 OFFSET 0"
    );
    assert_eq!(
        page_sql(&columns, &source, &Some(("n".into(), true)), 3),
        "SELECT \"id\", \"n\" FROM (SELECT 1) ORDER BY \"n\" DESC LIMIT 50 OFFSET 150"
    );
    assert_eq!(
        page_sql(&columns, &source, &Some(("n".into(), false)), 1),
        "SELECT \"id\", \"n\" FROM (SELECT 1) ORDER BY \"n\" ASC LIMIT 50 OFFSET 50"
    );
}

#[test]
fn hidden_columns_are_not_shown() {
    let columns = vec![column("a"), column("b"), column("c")];
    let expressions = vec![expression("1", "one")];
    let mut hidden = NameSet::new();
    hidden.insert("b".into());
    assert_eq!(
        visible_columns(&columns, &hidden, &expressions),
        ["a", "c", "one"]
    );
    assert_eq!(names_of_columns(&columns), ["a", "b", "c"]);
    assert_eq!(every_name(&columns, &expressions), ["a", "b", "c", "one"]);
}

#[test]
fn normalizing_drops_what_does_not_exist() {
    let columns = vec![column("a"), column("b")];
    let mut query = Query::new("t".into());
    query.hidden.insert("a".into());
    query.hidden.insert("gone".into());
    query.filters.insert("a".into(), "x".into());
    query.filters.insert("gone".into(), "y".into());
    query.sort = Some(("b".into(), true));
    normalize(&mut query, &columns);
    assert_eq!(query.hidden.len(), 1);
    assert_eq!(query.filters.len(), 1);
    assert_eq!(query.sort, Some(("b".into(), true)));
    query.sort = Some(("gone".into(), true));
    normalize(&mut query, &columns);
    assert_eq!(query.sort, None);
    assert!(query.filters.get(&"a".to_string()).is_some());
}

#[test]
fn cells_have_a_text() {
    assert_eq!(Value::Null.text(), "NULL");
    assert_eq!(Value::Integer(-42).text(), "-42");
    assert_eq!(Value::Real("1.5".into()).text(), "1.5");
    assert_eq!(Value::Text("[bold]é".into()).text(), "[bold]é");
    assert_eq!(Value::Blob(vec![0, 15, 160, 255]).text(), "X'000FA0FF'");
    assert_eq!(Value::Blob(vec![]).text(), "X''");
    assert_eq!(Value::Blob(vec![1]).clone(), Value::Blob(vec![1]));
}

#[test]
fn queries_are_compared_by_what_they_ask() {
    let mut a = Query::new("t".into());
    let mut b = Query::new("t".into());
    for name in ["x", "y"] {
        a.hidden.insert(name.into());
        a.filters.insert(name.into(), "1".into());
    }
    for name in ["y", "x"] {
        b.hidden.insert(name.into());
        b.filters.insert(name.into(), "1".into());
    }
    assert_eq!(a, b);
    assert_eq!(a.clone(), a);
    b.page = 1;
    assert_ne!(a, b);
}
