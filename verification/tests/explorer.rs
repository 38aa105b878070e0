//! The library over a real SQLite database: the statements that each step names are
//! run on a connection, and what comes back is handed to the next step.
use std::path::Path;
use std::sync::{Arc, Mutex};

use rusqlite::types::ValueRef;
use rusqlite::{params_from_iter, Connection, OpenFlags};
use sqlens::app::{App, Focus};
use sqlens::db::{ColumnInfo, Page, Query, Value};
use sqlens::input::{Input, InputKind, KeyCode, KeyEvent};
use sqlens::load::{load as start, CountCache, LoadError, RawValue, Statement, Step};
use sqlens::worker::{next_request, superseded, Reply, Worker};

fn columns(conn: &Connection, sql: &str) -> rusqlite::Result<Vec<ColumnInfo>> {
    let mut stmt = conn.prepare(sql)?;
    let rows = stmt.query_map([], |r| {
        Ok(ColumnInfo {
            hidden: r.get(6)?,
            name: r.get(1)?,
            kind: r.get(2)?,
            key: r.get(5)?,
        })
    })?;
    rows.collect()
}

fn prepare(conn: &Connection, sql: &str) -> rusqlite::Result<Statement> {
    let stmt = conn.prepare(sql)?;
    let columns = stmt.column_names().into_iter().map(String::from).collect();
    Ok(Statement {
        columns,
        readonly: stmt.readonly(),
    })
}

fn rows(
    conn: &Connection,
    sql: &str,
    params: &[String],
    width: usize,
) -> rusqlite::Result<Vec<Vec<RawValue>>> {
    let mut stmt = conn.prepare(sql)?;
    let rows = stmt.query_map(params_from_iter(params.iter()), |r| {
        (0..width)
            .map(|i| {
                Ok(match r.get_ref(i)? {
                    ValueRef::Null => RawValue::Null,
                    ValueRef::Integer(v) => RawValue::Integer(v),
                    ValueRef::Real(v) => RawValue::Real(v.to_string()),
                    ValueRef::Text(v) => RawValue::Text(v.to_vec()),
                    ValueRef::Blob(v) => RawValue::Blob(v.to_vec()),
                })
            })
            .collect::<rusqlite::Result<Vec<_>>>()
    })?;
    rows.collect()
}

fn said(e: rusqlite::Error) -> String {
    e.to_string()
}

fn load(
    conn: &Connection,
    query: Query,
    add: Option<&str>,
    cache: &mut CountCache,
) -> Result<Page, LoadError> {
    let mut step = start(query, add.map(String::from));
    loop {
        step = match step {
            Step::Schema(s) => {
                let answer = columns(conn, &s.sql).map_err(said);
                s.resume(answer)
            }
            Step::Alias(s) => {
                let answer = prepare(conn, &s.sql).map_err(said);
                s.resume(answer)
            }
            Step::Body(s) => {
                let answer = prepare(conn, &s.sql).map_err(said);
                s.resume(answer)
            }
            Step::Version(s) => {
                let answer = conn.query_row(&s.sql, [], |r| r.get(0)).map_err(said);
                s.resume(answer, cache)
            }
            Step::Count(s) => {
                let params = params_from_iter(s.plan.params.iter());
                let answer = conn.query_row(&s.sql, params, |r| r.get(0)).map_err(said);
                s.resume(answer, cache)
            }
            Step::Shape(s) => {
                let answer = prepare(conn, &s.page.sql).map_err(said);
                s.resume(answer)
            }
            Step::Rows(s) => {
                let answer = rows(conn, &s.page.sql, &s.page.params, s.page.columns.len());
                s.resume(answer.map_err(said))
            }
            Step::Loaded(page) => return Ok(page),
            Step::Failed(e) => return Err(e),
        };
    }
}

fn open(path: &Path) -> Connection {
    let conn = Connection::open_with_flags(path, OpenFlags::SQLITE_OPEN_READ_ONLY).unwrap();
    conn.execute_batch("PRAGMA query_only = ON; PRAGMA trusted_schema = OFF;")
        .unwrap();
    conn
}

fn total(conn: &Connection, query: Query, cache: &mut CountCache) -> usize {
    match load(conn, query, None, cache) {
        Ok(page) => page.total,
        Err(e) => panic!("{}", e.message()),
    }
}

fn loaded(conn: &Connection, query: Query, add: Option<&str>) -> Page {
    match load(conn, query, add, &mut CountCache::default()) {
        Ok(page) => page,
        Err(e) => panic!("{}", e.message()),
    }
}

/// An explorer with the database that its requests go to.
struct Session {
    app: App,
    conn: Connection,
    cache: CountCache,
}

impl Session {
    fn answer(&mut self) {
        while self.app.loading {
            let mut requests = self.app.worker.take_requests();
            assert!(!requests.is_empty());
            let first = requests.remove(0);
            let generation = self.app.worker.generation;
            if let Some(request) = next_request(first, requests, generation) {
                let result = load(
                    &self.conn,
                    request.query,
                    request.add.as_deref(),
                    &mut self.cache,
                );
                let reply = Reply {
                    id: request.id,
                    result,
                };
                assert!(self.app.poll(vec![reply], 0));
            }
        }
    }

    fn settle(&mut self) {
        self.answer();
        assert!(self.app.error.is_none(), "{:?}", self.app.error);
    }

    fn press(&mut self, code: KeyCode) {
        self.app.key(plain(code), 0);
    }

    fn page(&self) -> &Page {
        self.app.page.as_ref().unwrap()
    }

    fn query(&self) -> &Query {
        self.app.query.as_ref().unwrap()
    }

    fn write(&mut self, text: &str) {
        self.app.input.as_mut().unwrap().insert(text);
    }
}

fn plain(code: KeyCode) -> KeyEvent {
    KeyEvent {
        code,
        control: false,
        alt: false,
    }
}

fn control(code: KeyCode) -> KeyEvent {
    KeyEvent {
        code,
        control: true,
        alt: false,
    }
}

fn session() -> Session {
    let conn = Connection::open_in_memory().unwrap();
    conn.execute_batch("CREATE TABLE t(id INTEGER, name TEXT); INSERT INTO t VALUES(1,'[bold]literal[/bold]'),(2,'βeta');").unwrap();
    let mut s = Session {
        app: App::new(vec!["t".into()], Worker::new()),
        conn,
        cache: CountCache::default(),
    };
    s.settle();
    s
}

fn fixture() -> Connection {
    let conn = Connection::open_in_memory().unwrap();
    conn.execute_batch("CREATE TABLE t (id INTEGER PRIMARY KEY, name TEXT, n INTEGER GENERATED ALWAYS AS (id*2)); INSERT INTO t(id,name) VALUES (1,'alpha'), (2,'beta'), (3,NULL);").unwrap();
    conn
}

#[test]
fn unicode_input_edits_at_character_boundaries() {
    let mut input = Input::new(InputKind::Expression, "a界🙂".into());
    input.key(plain(KeyCode::Left));
    input.key(plain(KeyCode::Backspace));
    input.insert("é");
    assert_eq!(input.text, "aé🙂");
    input.key(plain(KeyCode::Delete));
    assert_eq!(input.text, "aé");
}

#[test]
fn filter_expression_remove_and_navigation() {
    let mut s = session();
    s.press(KeyCode::Enter);
    s.press(KeyCode::Char('+'));
    s.write("id*2 AS double");
    s.press(KeyCode::Enter);
    s.settle();
    s.app.col = 2;
    s.press(KeyCode::Char('f'));
    s.write("4");
    s.press(KeyCode::Enter);
    s.settle();
    assert_eq!(s.page().total, 1);
    s.press(KeyCode::Char('s'));
    s.settle();
    s.press(KeyCode::Delete);
    s.settle();
    let q = s.query();
    assert!(q.filters.is_empty());
    assert!(q.sort.is_none());
    assert!(q.expressions.is_empty());
    assert_eq!(s.page().total, 2);
    s.press(KeyCode::Enter);
    assert!(s.app.detail);
    s.press(KeyCode::Esc);
    assert!(!s.app.detail);
}

#[test]
fn hiding_earlier_column_preserves_selected_column_and_last_column() {
    let mut s = session();
    s.app.focus = Focus::Grid;
    s.app.col = 1;
    s.press(KeyCode::Char('1'));
    s.settle();
    assert_eq!(s.app.col, 0);
    assert_eq!(s.app.column().as_deref(), Some("name"));
    s.press(KeyCode::Char('2'));
    assert!(!s.app.loading);
    assert_eq!(s.page().columns.len(), 1);
}

#[test]
fn failed_expression_preserves_last_successful_page() {
    let mut s = session();
    s.app.focus = Focus::Grid;
    s.press(KeyCode::Char('+'));
    s.write("id,name");
    s.press(KeyCode::Enter);
    s.answer();
    assert!(s.app.error.is_some());
    assert_eq!(s.app.input.as_ref().unwrap().text, "id,name");
    assert_eq!(s.page().columns.len(), 2);
    assert!(s.query().expressions.is_empty());
}

#[test]
fn copy_does_not_remove_expression_and_quit_works_in_dialog() {
    let mut s = session();
    s.app.focus = Focus::Grid;
    s.app.col = 1;
    assert_eq!(
        s.app.key(plain(KeyCode::Char('c')), 0),
        Some("[bold]literal[/bold]".into())
    );
    s.press(KeyCode::Char('+'));
    s.app.key(control(KeyCode::Char('q')), 0);
    assert!(s.app.quit);
}

#[test]
fn generated_columns_and_typed_values() {
    let page = loaded(&fixture(), Query::new("t".into()), None);
    assert!(page.schema[2].generated);
    assert_eq!(page.rows[0][2], Value::Integer(2));
    assert_eq!(page.rows[2][1], Value::Null);
}

#[test]
fn expressions_are_scalar_and_labels_are_unambiguous() {
    let conn = fixture();
    for raw in [
        "id, name",
        "*",
        "id FROM t",
        "id; DELETE FROM t",
        "id AS NAME",
    ] {
        assert!(
            load(
                &conn,
                Query::new("t".into()),
                Some(raw),
                &mut CountCache::default()
            )
            .is_err(),
            "{raw}"
        );
    }
    for raw in [
        "CAST(id AS TEXT) AS \"cast value\"",
        "' AS ' AS [space]",
        "id /* AS nope */ AS `double`",
        "id + 1",
        "json_extract('{\"id\":2}', '$.id') AS json_id",
    ] {
        let p = loaded(&conn, Query::new("t".into()), Some(raw));
        assert_eq!(p.columns.len(), 4);
        assert_eq!(p.rows[0].len(), 4);
    }
}

#[test]
fn filters_bind_values_and_preserve_boolean_expression_precedence() {
    let conn = fixture();
    let mut page = loaded(
        &conn,
        Query::new("t".into()),
        Some("id = 1 OR id = 2 AS matches"),
    );
    page.query.filters.insert("matches".into(), "0".into());
    page.query.hidden.insert("id".into());
    let page = loaded(&conn, page.query, None);
    assert_eq!(page.total, 1);
    assert_eq!(page.rows[0][1], Value::Integer(6));
    let mut query = Query::new("t".into());
    query.filters.insert("name".into(), "' OR 1=1 --".into());
    assert_eq!(loaded(&conn, query, None).total, 0);
}

#[test]
fn pagination_sort_and_clamping() {
    let conn = fixture();
    conn.execute_batch("WITH RECURSIVE n(x) AS (VALUES(4) UNION ALL SELECT x+1 FROM n WHERE x<120) INSERT INTO t(id,name) SELECT x, 'row' FROM n;").unwrap();
    let mut q = Query::new("t".into());
    q.sort = Some(("id".into(), true));
    q.page = 1;
    let p = loaded(&conn, q.clone(), None);
    assert_eq!(p.rows[0][0], Value::Integer(70));
    q.page = 999;
    let p = loaded(&conn, q, None);
    assert_eq!(p.query.page, 2);
    assert_eq!(p.rows.len(), 20);
}

#[test]
fn readonly_and_quoted_identifiers() {
    let dir = tempfile::tempdir().unwrap();
    let path = dir.path().join("data ?#.sqlite");
    let conn = Connection::open(&path).unwrap();
    conn.execute_batch("CREATE TABLE \"a\"\"b\" (\"x\"\"y\" TEXT); INSERT INTO \"a\"\"b\" VALUES ('[bold]literal[/bold]');").unwrap();
    drop(conn);
    let conn = open(&path);
    assert!(conn.execute("DELETE FROM \"a\"\"b\"", []).is_err());
    let p = loaded(&conn, Query::new("a\"b".into()), None);
    assert_eq!(p.rows[0][0].text(), "[bold]literal[/bold]");
}

#[test]
fn count_cache_tracks_external_writes_and_aggregate_results() {
    let dir = tempfile::tempdir().unwrap();
    let path = dir.path().join("live.sqlite");
    let writer = Connection::open(&path).unwrap();
    writer
        .execute_batch("CREATE TABLE t(id INTEGER); INSERT INTO t VALUES(1),(2);")
        .unwrap();
    let reader = open(&path);
    let mut cache = CountCache::default();
    let q = Query::new("t".into());
    assert_eq!(total(&reader, q.clone(), &mut cache), 2);
    writer.execute("INSERT INTO t VALUES(3)", []).unwrap();
    assert_eq!(total(&reader, q.clone(), &mut cache), 3);
    let page = match load(&reader, q, Some("COUNT(*) AS count"), &mut cache) {
        Ok(page) => page,
        Err(e) => panic!("{}", e.message()),
    };
    assert_eq!(page.total, 1);
    assert_eq!(page.rows[0][1], Value::Integer(3));
}

#[test]
fn views_blobs_and_empty_results() {
    let conn = fixture();
    conn.execute_batch("CREATE VIEW v AS SELECT id, X'00FF' AS bytes FROM t;")
        .unwrap();
    let page = loaded(&conn, Query::new("v".into()), None);
    assert_eq!(page.rows[0][1], Value::Blob(vec![0, 255]));
    assert_eq!(page.rows[0][1].text(), "X'00FF'");
    let mut q = Query::new("v".into());
    q.filters.insert("id".into(), "no match".into());
    q.page = 100;
    let page = loaded(&conn, q, None);
    assert_eq!(page.total, 0);
    assert_eq!(page.query.page, 0);
    assert!(page.rows.is_empty());
}

#[test]
fn worker_interrupts_expensive_query_for_new_request() {
    let conn = fixture();
    conn.execute_batch("CREATE VIEW slow AS WITH RECURSIVE n(x) AS (VALUES(1) UNION ALL SELECT x+1 FROM n WHERE x<1000000000) SELECT sum(x) AS n FROM n;").unwrap();
    let worker = Arc::new(Mutex::new(Worker::new()));
    let slow = worker.lock().unwrap().request(Query::new("slow".into()), None);
    let mut cache = CountCache::default();

    // The next request comes in while the slow query runs.
    let shared = Arc::clone(&worker);
    let mut calls = 0;
    conn.progress_handler(
        1000,
        Some(move || {
            let mut worker = shared.lock().unwrap();
            calls += 1;
            if calls == 200 {
                worker.request(Query::new("t".into()), None);
            }
            superseded(worker.generation, slow)
        }),
    );
    let mut waiting = worker.lock().unwrap().take_requests();
    let generation = worker.lock().unwrap().generation;
    let request = next_request(waiting.remove(0), waiting, generation).unwrap();
    assert_eq!(request.id, slow);
    assert!(load(&conn, request.query, None, &mut cache).is_err());

    let id = worker.lock().unwrap().generation;
    let shared = Arc::clone(&worker);
    conn.progress_handler(
        1000,
        Some(move || superseded(shared.lock().unwrap().generation, id)),
    );
    let mut waiting = worker.lock().unwrap().take_requests();
    let request = next_request(waiting.remove(0), waiting, id).unwrap();
    assert_eq!(request.id, id);
    assert_eq!(total(&conn, request.query, &mut cache), 3);
}

#[test]
fn cached_count_is_not_taken_again_while_paging() {
    let conn = fixture();
    conn.execute_batch("WITH RECURSIVE n(x) AS (VALUES(4) UNION ALL SELECT x+1 FROM n WHERE x<120) INSERT INTO t(id,name) SELECT x, 'row' FROM n;").unwrap();
    let mut cache = CountCache::default();
    assert_eq!(total(&conn, Query::new("t".into()), &mut cache), 120);
    // A count that SQLite would not give shows that the cached one is used.
    cache.count = 70;
    let mut q = Query::new("t".into());
    q.page = 5;
    q.sort = Some(("name".into(), false));
    q.hidden.insert("id".into());
    let page = match load(&conn, q, None, &mut cache) {
        Ok(page) => page,
        Err(e) => panic!("{}", e.message()),
    };
    assert_eq!(page.total, 70);
    assert_eq!(page.query.page, 1);
    assert_eq!(page.columns, ["name", "n"]);
    let mut q = Query::new("t".into());
    q.filters.insert("name".into(), "alpha".into());
    assert_eq!(total(&conn, q, &mut cache), 1);
}

#[test]
fn loading_a_loaded_query_again_gives_the_same_page() {
    let conn = fixture();
    let mut q = Query::new("t".into());
    q.filters.insert("gone".into(), "x".into());
    q.hidden.insert("gone".into());
    q.sort = Some(("gone".into(), true));
    q.page = 7;
    let page = loaded(&conn, q, Some("id * 10 AS tens"));
    assert_eq!(page.query.page, 0);
    assert!(page.query.filters.is_empty());
    assert!(page.query.sort.is_none());
    assert_eq!(page.query.hidden.len(), 0);
    let again = loaded(&conn, page.query.clone(), None);
    assert_eq!(again.columns, page.columns);
    assert_eq!(again.rows, page.rows);
    assert_eq!(again.sql, page.sql);
    assert_eq!(again.total, page.total);
    assert_eq!(again.params, page.params);
}

#[test]
fn hidden_columns_keep_their_filters() {
    let conn = fixture();
    let mut q = Query::new("t".into());
    q.filters.insert("name".into(), "et".into());
    q.hidden.insert("name".into());
    let page = loaded(&conn, q, None);
    assert_eq!(page.columns, ["id", "n"]);
    assert_eq!(page.total, 1);
    assert_eq!(page.params, ["%et%"]);
    assert_eq!(page.rows[0][0], Value::Integer(2));
}

#[test]
fn like_wildcards_keep_their_meaning() {
    let conn = fixture();
    let mut q = Query::new("t".into());
    q.filters.insert("name".into(), "a_p%a".into());
    assert_eq!(loaded(&conn, q, None).total, 1);
}

#[test]
fn real_numbers_and_broken_text_are_shown() {
    let conn = Connection::open_in_memory().unwrap();
    conn.execute_batch("CREATE TABLE r(x REAL, y TEXT); INSERT INTO r VALUES(1.5, CAST(X'61FF62' AS TEXT)), (2.0, 'ok');")
        .unwrap();
    let page = loaded(&conn, Query::new("r".into()), None);
    assert_eq!(page.rows[0][0].text(), "1.5");
    assert_eq!(page.rows[1][0].text(), "2");
    assert_eq!(page.rows[0][1].text(), "a\u{fffd}b");
    assert_eq!(page.rows[1][1].text(), "ok");
}

#[test]
fn internal_columns_of_virtual_tables_are_left_out() {
    let conn = Connection::open_in_memory().unwrap();
    conn.execute_batch("CREATE VIRTUAL TABLE docs USING fts5(body); INSERT INTO docs VALUES('one two');")
        .unwrap();
    let page = loaded(&conn, Query::new("docs".into()), None);
    assert_eq!(page.columns, ["body"]);
    assert_eq!(page.rows[0][0].text(), "one two");
}

#[test]
fn missing_table_has_no_columns() {
    let e = load(
        &fixture(),
        Query::new("nowhere".into()),
        None,
        &mut CountCache::default(),
    );
    assert!(matches!(e, Err(LoadError::NoVisibleColumns(ref table)) if table == "nowhere"));
}

#[test]
fn each_refused_expression_says_why() {
    let conn = fixture();
    let refused = |raw: &str| {
        match load(
            &conn,
            Query::new("t".into()),
            Some(raw),
            &mut CountCache::default(),
        ) {
            Ok(_) => panic!("{raw}"),
            Err(e) => e,
        }
    };
    assert_eq!(refused("   "), LoadError::EmptyExpression);
    assert_eq!(refused("id, name AS b"), LoadError::NotOneColumn);
    assert_eq!(
        refused("id AS NAME"),
        LoadError::DuplicateLabel("NAME".into())
    );
    assert_eq!(
        refused("id AS \"Id\"").message(),
        "Duplicate column label: Id"
    );
    assert!(matches!(refused("no_such_column"), LoadError::Database(_)));
}

#[test]
fn aliases_are_decoded_by_sqlite() {
    let conn = fixture();
    let page = loaded(
        &conn,
        Query::new("t".into()),
        Some("  upper(name) as \"Big \"\"N\"\"\"  "),
    );
    let added = &page.query.expressions[0];
    assert_eq!(added.body, "upper(name)");
    assert_eq!(added.label, "Big \"N\"");
    assert_eq!(page.rows[0][3], Value::Text("ALPHA".into()));
}

#[test]
fn opening_another_table_drops_the_pending_one() {
    let conn = Connection::open_in_memory().unwrap();
    conn.execute_batch("CREATE TABLE a(x); CREATE TABLE b(y); INSERT INTO b VALUES(7);")
        .unwrap();
    let mut s = Session {
        app: App::new(vec!["a".into(), "b".into()], Worker::new()),
        conn,
        cache: CountCache::default(),
    };
    s.press(KeyCode::Down);
    let requests = s.app.worker.take_requests();
    assert_eq!(requests.len(), 2);
    let old = load(&s.conn, requests[0].query.clone(), None, &mut s.cache);
    assert!(!s.app.poll(
        vec![Reply {
            id: requests[0].id,
            result: old,
        }],
        0
    ));
    assert!(s.app.loading && s.app.page.is_none());
    let new = load(&s.conn, requests[1].query.clone(), None, &mut s.cache);
    assert!(s.app.poll(
        vec![Reply {
            id: requests[1].id,
            result: new,
        }],
        0
    ));
    assert_eq!(s.page().columns, ["y"]);
}

#[test]
fn filter_comes_back_as_it_was_typed() {
    let mut s = session();
    s.app.focus = Focus::Grid;
    s.app.col = 1;
    s.press(KeyCode::Char('f'));
    s.write(" eta ");
    s.press(KeyCode::Enter);
    s.settle();
    assert_eq!(s.page().total, 0);
    assert_eq!(s.page().params, ["% eta %"]);
    s.press(KeyCode::Char('f'));
    assert_eq!(s.app.input.as_ref().unwrap().text, " eta ");
    s.app.key(control(KeyCode::Char('u')), 0);
    s.press(KeyCode::Enter);
    s.settle();
    assert!(s.query().filters.is_empty());
    assert_eq!(s.page().total, 2);
}

#[test]
fn columns_are_chosen_from_the_list() {
    let mut s = session();
    s.app.focus = Focus::Grid;
    s.press(KeyCode::Char('v'));
    assert_eq!(s.app.chooser, Some(0));
    s.press(KeyCode::Down);
    s.press(KeyCode::Down);
    assert_eq!(s.app.chooser, Some(1));
    s.press(KeyCode::Char(' '));
    s.settle();
    assert_eq!(s.page().columns, ["id"]);
    s.press(KeyCode::Up);
    s.press(KeyCode::Enter);
    assert!(!s.app.loading);
    let (text, until) = s.app.notice.as_ref().unwrap();
    assert_eq!(text, "Keep at least one base column visible");
    assert_eq!(*until, 3000);
    s.press(KeyCode::Down);
    s.press(KeyCode::Enter);
    s.settle();
    assert_eq!(s.page().columns, ["id", "name"]);
    s.press(KeyCode::Esc);
    assert!(s.app.chooser.is_none());
}

#[test]
fn a_base_column_remains_visible_through_a_session() {
    let mut s = session();
    s.app.focus = Focus::Grid;
    s.press(KeyCode::Char('+'));
    s.write("id + 1 AS next");
    s.press(KeyCode::Enter);
    s.settle();
    for c in ['1', '2', '1', '2', '2', '1', 'r', '2'] {
        s.press(KeyCode::Char(c));
        s.settle();
        let page = s.page();
        assert!(page
            .schema
            .iter()
            .any(|column| page.columns.contains(&column.name)));
    }
}

#[test]
fn an_expression_without_alias_is_trimmed_once_and_for_all() {
    let page = loaded(&fixture(), Query::new("t".into()), Some(" \t id + 1 \n"));
    let added = &page.query.expressions[0];
    assert_eq!(added.body, "id + 1");
    assert_eq!(added.label, "id + 1");
}
