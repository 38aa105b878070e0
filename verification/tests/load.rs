use sqlens::db::{ColumnInfo, Page, Query, Value};
use sqlens::load::{
    cook, expression, load, CountCache, LoadError, RawValue, Statement, Step,
};

fn info(name: &str) -> ColumnInfo {
    ColumnInfo {
        hidden: 0,
        name: name.into(),
        kind: "TEXT".into(),
        key: 0,
    }
}

fn statement(columns: &[&str], readonly: bool) -> Statement {
    Statement {
        columns: columns.iter().map(|s| s.to_string()).collect(),
        readonly,
    }
}

fn begun(query: Query, add: Option<&str>) -> Step {
    match load(query, add.map(String::from)) {
        Step::Schema(s) => s.resume(Ok(vec![info("id"), info("name")])),
        _ => panic!(),
    }
}

fn failed(step: Step) -> LoadError {
    match step {
        Step::Failed(e) => e,
        _ => panic!(),
    }
}

fn page(step: Step) -> Page {
    match step {
        Step::Loaded(page) => page,
        _ => panic!(),
    }
}

#[test]
fn a_page_is_loaded_step_by_step() {
    let mut cache = CountCache::default();
    let step = match load(Query::new("t".into()), None) {
        Step::Schema(s) => {
            assert_eq!(s.sql, "PRAGMA table_xinfo(\"t\")");
            s.resume(Ok(vec![info("id"), info("name")]))
        }
        _ => panic!(),
    };
    let step = match step {
        Step::Version(s) => {
            assert_eq!(s.sql, "PRAGMA data_version");
            s.resume(Ok(3), &cache)
        }
        _ => panic!(),
    };
    let step = match step {
        Step::Count(s) => {
            assert_eq!(
                s.sql,
                "SELECT COUNT(*) FROM (SELECT \"id\", \"name\" FROM \"t\")"
            );
            assert!(s.plan.params.is_empty());
            s.resume(Ok(1), &mut cache)
        }
        _ => panic!(),
    };
    assert_eq!((cache.version, cache.count), (3, 1));
    let step = match step {
        Step::Shape(s) => {
            assert_eq!(
                s.page.sql,
                "SELECT \"id\", \"name\" FROM (SELECT \"id\", \"name\" FROM \"t\") LIMIT 50 OFFSET 0"
            );
            s.resume(Ok(statement(&["id", "name"], true)))
        }
        _ => panic!(),
    };
    let step = match step {
        Step::Rows(s) => s.resume(Ok(vec![vec![
            RawValue::Integer(1),
            RawValue::Text(b"one".to_vec()),
        ]])),
        _ => panic!(),
    };
    let page = page(step);
    assert_eq!(page.total, 1);
    assert!(page.rows.iter().all(|row| row.len() == page.columns.len()));
    assert_eq!(
        page.rows,
        [[Value::Integer(1), Value::Text("one".into())]]
    );

    // The same query at the same version is not counted again; at another it is.
    match begun(page.query.clone(), None) {
        Step::Version(s) => assert!(matches!(s.resume(Ok(3), &cache), Step::Shape(_))),
        _ => panic!(),
    }
    match begun(page.query, None) {
        Step::Version(s) => assert!(matches!(s.resume(Ok(4), &cache), Step::Count(_))),
        _ => panic!(),
    }
}

#[test]
fn an_expression_without_alias_is_its_own_label() {
    let step = begun(Query::new("t".into()), Some(" id + 1 "));
    match step {
        Step::Body(s) => {
            assert_eq!(s.sql, "SELECT (id + 1\n) FROM \"t\" LIMIT 0");
            assert_eq!((s.body.as_str(), s.label.as_str()), ("id + 1", "id + 1"));
            match s.resume(Ok(statement(&["x"], true))) {
                Step::Version(s) => {
                    assert_eq!(s.plan.columns, ["id", "name", "id + 1"]);
                    assert_eq!(s.plan.query.expressions[0].body, "id + 1");
                }
                _ => panic!(),
            }
        }
        _ => panic!(),
    }
}

#[test]
fn an_alias_is_asked_of_the_database() {
    match begun(Query::new("t".into()), Some("id AS \"a b\"")) {
        Step::Alias(s) => {
            assert_eq!(s.sql, "SELECT id AS \"a b\"\nFROM \"t\" LIMIT 0");
            assert_eq!(s.body, "id");
            match s.resume(Ok(statement(&["a b"], true))) {
                Step::Body(s) => assert_eq!(s.label, "a b"),
                _ => panic!(),
            }
        }
        _ => panic!(),
    }
}

#[test]
fn every_failure_has_its_own_error() {
    let say = || Err("said".to_string());
    let q = || Query::new("t".into());
    let database = LoadError::Database("said".into());
    match load(q(), None) {
        Step::Schema(s) => assert_eq!(failed(s.resume(say_columns())), database),
        _ => panic!(),
    }
    match load(q(), None) {
        Step::Schema(s) => assert_eq!(
            failed(s.resume(Ok(vec![]))),
            LoadError::NoVisibleColumns("t".into())
        ),
        _ => panic!(),
    }
    assert_eq!(failed(begun(q(), Some(" \t"))), LoadError::EmptyExpression);
    match begun(q(), Some("id AS x")) {
        Step::Alias(s) => assert_eq!(failed(s.resume(say())), database),
        _ => panic!(),
    }
    match begun(q(), Some("id, name AS x")) {
        Step::Alias(s) => assert_eq!(
            failed(s.resume(Ok(statement(&["id", "x"], true)))),
            LoadError::NotOneColumn
        ),
        _ => panic!(),
    }
    match begun(q(), Some("id")) {
        Step::Body(s) => assert_eq!(failed(s.resume(say())), database),
        _ => panic!(),
    }
    match begun(q(), Some("zap()")) {
        Step::Body(s) => assert_eq!(
            failed(s.resume(Ok(statement(&["x"], false)))),
            LoadError::NotScalar
        ),
        _ => panic!(),
    }
    match begun(q(), Some("id")) {
        Step::Body(s) => assert_eq!(
            failed(s.resume(Ok(statement(&["x", "y"], true)))),
            LoadError::NotScalar
        ),
        _ => panic!(),
    }
    match begun(q(), Some("NAME")) {
        Step::Body(s) => assert_eq!(
            failed(s.resume(Ok(statement(&["x"], true)))),
            LoadError::DuplicateLabel("NAME".into())
        ),
        _ => panic!(),
    }
    let mut hidden = q();
    hidden.hidden.insert("id".into());
    hidden.hidden.insert("name".into());
    assert_eq!(failed(begun(hidden, None)), LoadError::NothingVisible);
    let mut cache = CountCache::default();
    match begun(q(), None) {
        Step::Version(s) => {
            assert_eq!(failed(s.resume(Err("said".into()), &cache)), database)
        }
        _ => panic!(),
    }
    match begun(q(), None) {
        Step::Version(s) => match s.resume(Ok(1), &cache) {
            Step::Count(s) => {
                assert_eq!(failed(s.resume(Err("said".into()), &mut cache)), database)
            }
            _ => panic!(),
        },
        _ => panic!(),
    }
    assert_eq!(cache.key, "");
    let mut shape = || match begun(q(), None) {
        Step::Version(s) => match s.resume(Ok(1), &CountCache::default()) {
            Step::Count(s) => match s.resume(Ok(1), &mut cache) {
                Step::Shape(s) => s,
                _ => panic!(),
            },
            _ => panic!(),
        },
        _ => panic!(),
    };
    assert_eq!(failed(shape().resume(say())), database);
    assert_eq!(
        failed(shape().resume(Ok(statement(&["id"], true)))),
        LoadError::ColumnCountChanged
    );
    match shape().resume(Ok(statement(&["id", "name"], true))) {
        Step::Rows(s) => assert_eq!(failed(s.resume(Err("said".into()))), database),
        _ => panic!(),
    }
}

fn say_columns() -> Result<Vec<ColumnInfo>, String> {
    Err("said".into())
}

#[test]
fn errors_have_messages() {
    for (e, message) in [
        (LoadError::Database("disk I/O error".into()), "disk I/O error"),
        (
            LoadError::NoVisibleColumns("t".into()),
            "No visible columns in t",
        ),
        (LoadError::EmptyExpression, "Enter a SELECT expression"),
        (
            LoadError::NotOneColumn,
            "An expression must return exactly one column",
        ),
        (
            LoadError::NotScalar,
            "Enter one read-only scalar expression",
        ),
        (
            LoadError::DuplicateLabel("n".into()),
            "Duplicate column label: n",
        ),
        (
            LoadError::NothingVisible,
            "Keep at least one column visible",
        ),
        (
            LoadError::ColumnCountChanged,
            "Query column count changed unexpectedly",
        ),
    ] {
        assert_eq!(e.message(), message);
    }
}

#[test]
fn page_numbers_are_brought_into_the_result() {
    let at = |page: usize, total: usize| {
        let mut q = Query::new("t".into());
        q.page = page;
        match begun(q, None) {
            Step::Version(s) => match s.resume(Ok(1), &CountCache::default()) {
                Step::Count(s) => match s.resume(Ok(total), &mut CountCache::default()) {
                    Step::Shape(s) => s.page.query.page,
                    _ => panic!(),
                },
                _ => panic!(),
            },
            _ => panic!(),
        }
    };
    assert_eq!(at(0, 0), 0);
    assert_eq!(at(5, 0), 0);
    assert_eq!(at(1, 50), 0);
    assert_eq!(at(1, 51), 1);
    assert_eq!(at(999, 120), 2);
    assert_eq!(at(1, usize::MAX), 1);
    assert_eq!(at(usize::MAX, usize::MAX), (usize::MAX - 1) / 50);
}

#[test]
fn cells_are_decoded() {
    assert_eq!(cook(RawValue::Null), Value::Null);
    assert_eq!(cook(RawValue::Integer(5)), Value::Integer(5));
    assert_eq!(
        cook(RawValue::Real("0.5".into())),
        Value::Real("0.5".into())
    );
    assert_eq!(
        cook(RawValue::Blob(vec![255, 0])),
        Value::Blob(vec![255, 0])
    );
    assert_eq!(
        cook(RawValue::Text("é界".as_bytes().to_vec())),
        Value::Text("é界".into())
    );
    let broken = vec![b'a', 0xf0, 0x9f, 0x99, b'b', 0xff];
    assert_eq!(
        cook(RawValue::Text(broken)),
        Value::Text("a\u{fffd}b\u{fffd}".into())
    );
}

#[test]
fn expressions_can_be_started_alone() {
    match expression(Query::new("t".into()), vec![], "  x AS y ") {
        Step::Alias(s) => assert_eq!(s.body, "x"),
        _ => panic!(),
    }
    assert!(matches!(
        expression(Query::new("t".into()), vec![], ""),
        Step::Failed(LoadError::EmptyExpression)
    ));
}
