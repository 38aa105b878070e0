use sqlens::app::{App, Focus, ListState, TableState};
use sqlens::db::{Column, Expression, Page, Query, Value};
use sqlens::input::{Input, InputKind, KeyCode, KeyEvent};
use sqlens::load::LoadError;
use sqlens::worker::{Reply, Worker};

fn key(code: KeyCode) -> KeyEvent {
    KeyEvent {
        code,
        control: false,
        alt: false,
    }
}

fn ctrl(code: KeyCode) -> KeyEvent {
    KeyEvent {
        code,
        control: true,
        alt: false,
    }
}

fn column(name: &str) -> Column {
    Column {
        name: name.into(),
        kind: "".into(),
        primary_key: false,
        generated: false,
    }
}

/// A page of three columns, two rows of 120.
fn page(query: Query) -> Page {
    Page {
        query,
        schema: vec![column("a"), column("b"), column("c")],
        columns: vec!["a".into(), "b".into(), "c".into()],
        rows: vec![
            vec![
                Value::Integer(1),
                Value::Text("one".into()),
                Value::Blob(vec![1]),
            ],
            vec![
                Value::Integer(2),
                Value::Null,
                Value::Real("2.5".into()),
            ],
        ],
        total: 120,
        sql: "SELECT".into(),
        params: vec![],
    }
}

fn answer(app: &mut App, result: Result<Page, LoadError>) {
    let id = app.worker.generation;
    assert!(app.poll(vec![Reply { id, result }], 0));
}

fn app() -> App {
    let mut app = App::new(
        vec!["t".into(), "u".into(), "v".into()],
        Worker::new(),
    );
    let query = app.query.as_ref().unwrap().clone();
    answer(&mut app, Ok(page(query)));
    app
}

fn grid() -> App {
    let mut app = app();
    app.key(key(KeyCode::Enter), 0);
    assert!(app.focus == Focus::Grid);
    app
}

fn press(app: &mut App, code: KeyCode) {
    assert_eq!(app.key(key(code), 0), None);
}

#[test]
fn the_first_table_opens_at_start() {
    let app = App::new(vec!["t".into()], Worker::new());
    assert!(app.loading);
    assert_eq!(app.pending, Some(1));
    assert_eq!(app.list.selected, Some(0));
    assert_eq!(app.worker.outbox[0].query.table, "t");
    let empty = App::new(vec![], Worker::new());
    assert!(!empty.loading && empty.query.is_none());
    assert_eq!(empty.list, ListState::new());
    assert_eq!(empty.grid, TableState::new());
}

#[test]
fn tables_are_navigated() {
    let mut app = app();
    for (code, expected) in [
        (KeyCode::Up, 0),
        (KeyCode::Down, 1),
        (KeyCode::Down, 2),
        (KeyCode::Down, 2),
        (KeyCode::Home, 0),
        (KeyCode::End, 2),
        (KeyCode::Up, 1),
    ] {
        press(&mut app, code);
        assert_eq!(app.list.selected, Some(expected));
    }
    assert_eq!(app.query.as_ref().unwrap().table, "u");
    assert!(app.page.is_none());
    app.select_table(7);
    assert_eq!(app.list.selected, Some(1));
    press(&mut app, KeyCode::Right);
    assert!(app.focus == Focus::Grid);
}

#[test]
fn cells_are_navigated_within_the_page() {
    let mut app = grid();
    press(&mut app, KeyCode::Down);
    press(&mut app, KeyCode::Down);
    press(&mut app, KeyCode::Right);
    assert_eq!((app.row, app.col), (1, 1));
    assert_eq!(app.cell(), Some(&Value::Null));
    app.move_cell(-5, 9);
    assert_eq!((app.row, app.col), (0, 2));
    app.move_cell(isize::MAX, isize::MIN);
    assert_eq!((app.row, app.col), (1, 0));
    press(&mut app, KeyCode::Home);
    assert_eq!(app.row, 0);
    press(&mut app, KeyCode::End);
    assert_eq!(app.row, 1);
    app.row = 40;
    app.col = 40;
    app.first_col = 40;
    app.clamp_selection();
    assert_eq!((app.row, app.col, app.first_col), (1, 2, 2));
}

#[test]
fn left_from_the_first_column_returns_to_the_tables() {
    let mut app = grid();
    press(&mut app, KeyCode::Right);
    press(&mut app, KeyCode::Left);
    assert!(app.focus == Focus::Grid);
    press(&mut app, KeyCode::Left);
    assert!(app.focus == Focus::Tables);
    assert!(!app.loading);
}

#[test]
fn tab_switches_the_focus() {
    let mut app = app();
    press(&mut app, KeyCode::Tab);
    assert!(app.focus == Focus::Grid);
    press(&mut app, KeyCode::Tab);
    assert!(app.focus == Focus::Tables);
}

#[test]
fn grid_commands_need_its_focus() {
    let mut app = app();
    for c in ['s', 'S', 'f', '+', 'v', '1', 'C', 'r', 'c'] {
        press(&mut app, KeyCode::Char(c));
    }
    press(&mut app, KeyCode::Delete);
    press(&mut app, KeyCode::PageDown);
    assert!(!app.loading && app.input.is_none() && app.chooser.is_none());
    assert_eq!(app.worker.generation, 1);
}

#[test]
fn loading_blocks_the_grid_until_it_is_left() {
    let mut app = grid();
    press(&mut app, KeyCode::Char('r'));
    assert!(app.loading);
    assert_eq!(app.worker.generation, 2);
    for c in ['s', 'f', '+', '1', 'C', 'r', 'c'] {
        press(&mut app, KeyCode::Char(c));
    }
    press(&mut app, KeyCode::Down);
    assert_eq!((app.worker.generation, app.row), (2, 0));
    assert_eq!(app.cell(), None);
    app.key(key(KeyCode::Esc), 500);
    assert!(!app.loading && app.focus == Focus::Tables);
    assert_eq!(app.worker.generation, 3);
    assert_eq!(app.notice, Some(("Query cancelled".into(), 3500)));
    let late = Reply {
        id: 2,
        result: Err(LoadError::NothingVisible),
    };
    assert!(!app.poll(vec![late], 600));
    assert!(app.error.is_none() && app.page.is_some());
    assert!(app.poll(vec![], 3500));
    assert!(app.notice.is_none());
    assert!(!app.poll(vec![], 9000));
}

#[test]
fn sorting_again_clears_the_sort() {
    let mut app = grid();
    app.row = 1;
    app.sort(true);
    assert_eq!(
        app.query.as_ref().unwrap().sort,
        Some(("a".into(), true))
    );
    assert_eq!(app.row, 0);
    app.sort(false);
    assert_eq!(
        app.query.as_ref().unwrap().sort,
        Some(("a".into(), false))
    );
    app.sort(false);
    assert_eq!(app.query.as_ref().unwrap().sort, None);
}

#[test]
fn toggling_twice_restores_and_the_last_column_stays() {
    let mut app = grid();
    app.toggle_column(1, 0);
    assert_eq!(app.query.as_ref().unwrap().hidden.len(), 1);
    app.toggle_column(1, 0);
    assert_eq!(app.query.as_ref().unwrap().hidden.len(), 0);
    app.toggle_column(0, 0);
    app.toggle_column(2, 0);
    let asked = app.worker.generation;
    app.toggle_column(1, 40);
    assert_eq!(app.worker.generation, asked);
    assert_eq!(app.query.as_ref().unwrap().hidden.len(), 2);
    assert_eq!(
        app.notice,
        Some(("Keep at least one base column visible".into(), 3040))
    );
    app.toggle_column(9, 0);
    assert_eq!(app.worker.generation, asked);
}

#[test]
fn digits_toggle_the_first_ten_columns() {
    let mut app = grid();
    press(&mut app, KeyCode::Char('3'));
    assert!(app
        .query
        .as_ref()
        .unwrap()
        .hidden
        .contains(&"c".to_string()));
    let query = app.query.as_ref().unwrap().clone();
    answer(&mut app, Ok(page(query)));
    press(&mut app, KeyCode::Char('0'));
    press(&mut app, KeyCode::Char('9'));
    assert!(!app.loading);
}

#[test]
fn removing_an_expression_leaves_no_trace() {
    let mut app = grid();
    let mut query = app.query.as_ref().unwrap().clone();
    query.expressions.push(Expression {
        body: "1".into(),
        label: "b".into(),
    });
    query.expressions.push(Expression {
        body: "2".into(),
        label: "two".into(),
    });
    query.filters.insert("b".into(), "1".into());
    query.filters.insert("a".into(), "9".into());
    query.sort = Some(("b".into(), true));
    query.page = 2;
    app.query = Some(query);
    app.col = 1;
    press(&mut app, KeyCode::Delete);
    let q = app.query.as_ref().unwrap();
    assert_eq!(q.expressions.len(), 1);
    assert_eq!(q.expressions[0].label, "two");
    assert_eq!(q.filters.len(), 1);
    assert_eq!(q.sort, None);
    assert_eq!(q.page, 0);
    assert!(app.loading);
}

#[test]
fn base_columns_are_not_removed() {
    let mut app = grid();
    app.remove_expression(7);
    assert!(!app.loading);
    assert_eq!(
        app.notice,
        Some(("Select an expression column to remove it".into(), 3007))
    );
}

#[test]
fn clearing_drops_filters_and_sort() {
    let mut app = grid();
    let mut query = app.query.as_ref().unwrap().clone();
    query.filters.insert("a".into(), "9".into());
    query.hidden.insert("b".into());
    query.sort = Some(("a".into(), true));
    query.page = 1;
    app.query = Some(query);
    press(&mut app, KeyCode::Char('C'));
    let q = app.query.as_ref().unwrap();
    assert!(q.filters.is_empty());
    assert_eq!((q.sort.clone(), q.page, q.hidden.len()), (None, 0, 1));
}

#[test]
fn pages_turn_one_by_one() {
    let mut app = grid();
    let mut seen = vec![];
    for code in [
        KeyCode::PageUp,
        KeyCode::PageDown,
        KeyCode::PageDown,
        KeyCode::PageDown,
        KeyCode::PageUp,
    ] {
        press(&mut app, code);
        if app.loading {
            let query = app.query.as_ref().unwrap().clone();
            answer(&mut app, Ok(page(query)));
        }
        seen.push(app.query.as_ref().unwrap().page);
    }
    assert_eq!(seen, [0, 1, 2, 2, 1]);
    assert_eq!(app.worker.generation, 4);
}

#[test]
fn a_failure_keeps_the_page_and_opens_the_input_again() {
    let mut app = grid();
    press(&mut app, KeyCode::Char('+'));
    app.paste("bad\nsql");
    press(&mut app, KeyCode::Enter);
    assert!(app.loading && app.input.is_none());
    answer(&mut app, Err(LoadError::NotScalar));
    assert_eq!(
        app.error.as_deref(),
        Some("Enter one read-only scalar expression")
    );
    let input = app.input.as_ref().unwrap();
    assert_eq!((input.text.as_str(), input.cursor), ("badsql", 6));
    assert_eq!(input.kind, InputKind::Expression);
    assert!(app.page.is_some());
    press(&mut app, KeyCode::Esc);
    assert!(app.input.is_none());
    press(&mut app, KeyCode::Char('r'));
    assert!(app.error.is_none());
}

#[test]
fn blank_expressions_are_not_submitted() {
    let mut app = grid();
    press(&mut app, KeyCode::Char('+'));
    app.paste("  \u{3000} ");
    press(&mut app, KeyCode::Enter);
    assert!(!app.loading && app.input.is_none());
    app.paste("nowhere");
    assert!(app.input.is_none());
}

#[test]
fn the_selected_column_is_followed() {
    let mut app = grid();
    app.col = 2;
    press(&mut app, KeyCode::Char('r'));
    let mut next = page(app.query.as_ref().unwrap().clone());
    next.columns = vec!["c".into(), "a".into()];
    next.rows = vec![vec![Value::Null, Value::Null]];
    answer(&mut app, Ok(next));
    assert_eq!(app.column().as_deref(), Some("c"));
    assert_eq!((app.row, app.col), (0, 0));
}

#[test]
fn detail_scrolls_and_moves() {
    let mut app = grid();
    press(&mut app, KeyCode::Enter);
    assert!(app.detail);
    press(&mut app, KeyCode::Down);
    press(&mut app, KeyCode::PageDown);
    press(&mut app, KeyCode::Right);
    assert_eq!(app.detail_scroll, (16, 4));
    press(&mut app, KeyCode::Up);
    press(&mut app, KeyCode::PageUp);
    press(&mut app, KeyCode::Left);
    press(&mut app, KeyCode::Left);
    assert_eq!(app.detail_scroll, (0, 0));
    app.detail_scroll = (u16::MAX, u16::MAX);
    press(&mut app, KeyCode::PageDown);
    press(&mut app, KeyCode::Right);
    assert_eq!(app.detail_scroll, (u16::MAX, u16::MAX));
    press(&mut app, KeyCode::Home);
    assert_eq!(app.detail_scroll, (0, 0));
    app.key(ctrl(KeyCode::Right), 0);
    app.key(ctrl(KeyCode::Down), 0);
    assert_eq!((app.row, app.col), (1, 1));
    app.key(ctrl(KeyCode::Left), 0);
    app.key(ctrl(KeyCode::Up), 0);
    app.key(ctrl(KeyCode::Left), 0);
    assert_eq!((app.row, app.col), (0, 0));
    assert!(app.detail);
    assert_eq!(app.key(key(KeyCode::Char('c')), 0), Some("1".into()));
    press(&mut app, KeyCode::Backspace);
    assert!(!app.detail);
}

#[test]
fn copying_gives_the_raw_text() {
    let mut app = grid();
    for (row, col, text) in [
        (0, 0, "1"),
        (0, 1, "one"),
        (0, 2, "X'01'"),
        (1, 1, "NULL"),
        (1, 2, "2.5"),
    ] {
        app.row = row;
        app.col = col;
        assert_eq!(app.key(key(KeyCode::Char('c')), 0), Some(text.into()));
    }
    assert_eq!(app.worker.generation, 1);
}

#[test]
fn help_comes_and_goes() {
    let mut app = grid();
    press(&mut app, KeyCode::Char('?'));
    assert!(app.help);
    press(&mut app, KeyCode::Char('s'));
    assert!(app.help && !app.loading);
    press(&mut app, KeyCode::Char('?'));
    assert!(!app.help);
}

#[test]
fn quitting_works_from_every_screen() {
    let screens: [fn(&mut App); 5] = [
        |_| (),
        |app| app.help = true,
        |app| app.detail = true,
        |app| app.chooser = Some(0),
        |app| {
            app.key(key(KeyCode::Char('f')), 0);
        },
    ];
    for c in ['c', 'q'] {
        for open in screens {
            let mut app = grid();
            open(&mut app);
            let before = app.worker.generation;
            assert_eq!(app.key(ctrl(KeyCode::Char(c)), 0), None);
            assert!(app.quit);
            assert_ne!(app.worker.generation, before);
        }
    }
}

#[test]
fn notices_stay_for_three_seconds() {
    let mut app = app();
    app.notify("hello", 1000);
    assert!(!app.poll(vec![], 3999));
    assert!(app.notice.is_some());
    assert!(app.poll(vec![], 4000));
    assert!(app.notice.is_none());
}

#[test]
fn clicks_select_within_the_page() {
    let mut app = app();
    app.click_cell(1, 2);
    assert!(app.focus == Focus::Grid);
    assert_eq!((app.row, app.col), (1, 2));
    app.click_heading(0);
    assert_eq!((app.row, app.col), (1, 0));
    app.click_cell(70, 70);
    assert_eq!((app.row, app.col), (1, 2));
}

#[test]
fn the_selected_column_is_scrolled_into_view() {
    let mut app = grid();
    app.col = 2;
    app.bring_into_view(3);
    assert_eq!(app.first_col, 0);
    app.bring_into_view(2);
    assert_eq!(app.first_col, 1);
    app.bring_into_view(1);
    assert_eq!(app.first_col, 2);
    app.col = 0;
    app.bring_into_view(2);
    assert_eq!(app.first_col, 0);
}

#[test]
fn a_page_brought_by_a_reply_keeps_a_base_column_visible() {
    let mut app = grid();
    app.toggle_column(0, 0);
    let query = app.query.as_ref().unwrap().clone();
    let brought = page(query);
    let copy = brought.clone();
    answer(&mut app, Ok(brought));
    let shown = app.page.as_ref().unwrap();
    assert_eq!(shown.query, copy.query);
    assert_eq!(shown.rows, copy.rows);
    assert_eq!(shown.schema, copy.schema);
    assert_eq!((shown.total, &shown.sql), (copy.total, &copy.sql));
    app.toggle_column(1, 0);
    app.toggle_column(2, 0);
    let hidden = &app.query.as_ref().unwrap().hidden;
    assert_eq!(hidden.len(), 2);
    assert!(!hidden.contains(&"c".to_string()));
}

#[test]
fn replies_are_taken_in_whatever_state_the_input_is() {
    let mut app = grid();
    app.toggle_column(0, 0);
    app.input = Some(Input {
        kind: InputKind::Expression,
        text: "x".into(),
        cursor: 9,
    });
    let query = app.query.as_ref().unwrap().clone();
    answer(&mut app, Ok(page(query)));
    assert!(!app.loading);
}
