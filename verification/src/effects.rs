//! What each operation of the explorer changes, and that it changes nothing else.
use vstd::prelude::*;

use crate::app::{
    any_awaited, awaited, cell_clicked, clamped, expired, expression_removed, heading_clicked,
    in_view, moved, notified, opened_table, pasted, polled, received, received_all, selected_cell,
    selected_column, sorted, started, submitted, toggled, without_expression, AppModel, Focus,
    ListState, TableState, NOTICE_MILLIS,
};
use crate::db::{fresh_query, value_text, ExpressionModel, PageModel, QueryModel, PAGE_SIZE};
use crate::input::{
    cleaned, edited, opened, typed, InputKindModel, InputModel, KeyCode, KeyEvent,
};
use crate::keys::{
    cleared, copy_of, entered, page_turned, panes, pressed, quits, reloaded,
};
use crate::load::{error_message, LoadErrorModel};
use crate::text::{control, trimmed};
use crate::worker::{cancelled, chosen, ReplyModel, RequestModel, WorkerModel};

verus! {

/// Asking for a query puts one request, with that query and that expression, behind
/// all others in the outbox, under the number after the last; its reply is awaited;
/// the last error and the input to reopen are forgotten; the rest stays.
pub proof fn law_asking_puts_one_request(s: AppModel, query: QueryModel, add: Option<Seq<char>>)
    ensures
        ({
            let t = submitted(s, query, add);
            let id = t.worker.generation;
            &&& t.worker.outbox == s.worker.outbox.push(RequestModel { id, query, add })
            &&& s.worker.generation < u64::MAX ==> id == s.worker.generation + 1
            &&& s.worker.generation == u64::MAX ==> id == 0
            &&& t == (AppModel {
                worker: t.worker,
                pending: Some(id),
                query: Some(query),
                loading: true,
                error: None,
                retry_input: None,
                ..s
            })
        }),
{
}

/// A cancellation moves the number on and keeps the outbox.
pub proof fn law_cancelling_moves_the_number_on(w: WorkerModel)
    ensures
        cancelled(w).outbox == w.outbox,
        w.generation < u64::MAX ==> cancelled(w).generation == w.generation + 1,
        w.generation == u64::MAX ==> cancelled(w).generation == 0,
{
}

/// Of the requests that wait the last one is taken up, just where it still has the
/// newest number; else none is.
pub proof fn law_last_waiting_request_is_chosen(
    first: RequestModel,
    newer: Seq<RequestModel>,
    generation: u64,
)
    ensures
        ({
            let waiting = seq![first] + newer;
            &&& waiting.last().id == generation ==> chosen(first, newer, generation) == Some(
                waiting.last(),
            )
            &&& waiting.last().id != generation ==> chosen(first, newer, generation) is None
        }),
{
}

/// A notice says its text for three seconds from now; the rest stays.
pub proof fn law_notices_change_nothing_else(s: AppModel, text: Seq<char>, now: u64)
    requires
        now + 3000 <= u64::MAX,
    ensures
        notified(s, text, now) == (AppModel { notice: Some((text, (now + 3000) as u64)), ..s }),
        NOTICE_MILLIS == 3000,
{
}

/// At the start no dialog is open, and the first table, if there is one, is selected
/// and asked for; the focus is on the table list.
pub proof fn law_start_asks_for_the_first_table(tables: Seq<Seq<char>>, worker: WorkerModel)
    ensures
        ({
            let t = started(tables, worker);
            let blank = AppModel {
                tables,
                list: ListState { offset: 0, selected: None },
                grid: TableState { offset: 0, selected: None, selected_column: None },
                focus: Focus::Tables,
                query: None,
                page: None,
                row: 0,
                col: 0,
                first_col: 0,
                input: None,
                detail: false,
                detail_scroll: (0, 0),
                help: false,
                chooser: None,
                schema_list: ListState { offset: 0, selected: None },
                loading: false,
                error: None,
                notice: None,
                quit: false,
                worker,
                pending: None,
                retry_input: None,
            };
            &&& tables.len() == 0 ==> t == blank
            &&& tables.len() > 0 ==> t == submitted(
                AppModel { list: ListState { offset: 0, selected: Some(0) }, ..blank },
                fresh_query(tables[0]),
                None,
            )
        }),
{
}

/// Opening another table asks for it afresh, drops the page and starts at the top;
/// opening the selected one, or none, does nothing.
pub proof fn law_opening_a_table(s: AppModel, index: usize)
    ensures
        index >= s.tables.len() || s.list.selected == Some(index) ==> opened_table(s, index) == s,
        index < s.tables.len() && s.list.selected != Some(index) ==> opened_table(s, index)
            == submitted(
            AppModel {
                list: ListState { selected: Some(index), ..s.list },
                page: None,
                row: 0,
                col: 0,
                first_col: 0,
                grid: TableState { offset: 0, selected: None, selected_column: None },
                ..s
            },
            fresh_query(s.tables[index as int]),
            None,
        ),
{
}

/// The selected column is the one at the selected place of the page, and the selected
/// cell the one at the selected row and place, unless something loads.
pub proof fn law_selection_is_at_its_place(s: AppModel)
    ensures
        selected_column(s) is Some <==> (s.page is Some && s.col < s.page->0.columns.len()),
        selected_column(s) matches Some(name) ==> name == s.page->0.columns[s.col as int],
        selected_cell(s) is Some <==> !s.loading && s.page is Some && s.row < s.page->0.rows.len()
            && s.col < s.page->0.rows[s.row as int].len(),
        selected_cell(s) matches Some(v) ==> v == s.page->0.rows[s.row as int][s.col as int],
{
}

/// `n`, brought between 0 and the last of `len` places.
pub open spec fn within_places(n: int, len: nat) -> int {
    if n < 0 || len == 0 {
        0
    } else if n >= len {
        len - 1
    } else {
        n
    }
}

/// Moving shifts the row and the column and stops at the edges of the page; the
/// detail is back at its top, and nothing is scrolled past the column. The rest
/// stays, the query above all.
pub proof fn law_moving_stops_at_the_edges(s: AppModel, rows: int, cols: int)
    requires
        s.page matches Some(page) ==> page.rows.len() <= usize::MAX && page.columns.len()
            <= usize::MAX,
    ensures
        s.page is None ==> moved(s, rows, cols) == (AppModel {
            row: within_places(s.row + rows, usize::MAX as nat + 1) as usize,
            col: within_places(s.col + cols, usize::MAX as nat + 1) as usize,
            detail_scroll: (0, 0),
            ..s
        }),
        s.page matches Some(page) ==> ({
            let t = moved(s, rows, cols);
            &&& t.row == within_places(s.row + rows, page.rows.len())
            &&& t.col == within_places(s.col + cols, page.columns.len())
            &&& t.first_col == if s.first_col < t.col {
                s.first_col
            } else {
                t.col
            }
            &&& t == (AppModel {
                row: t.row,
                col: t.col,
                first_col: t.first_col,
                detail_scroll: (0, 0),
                ..s
            })
        }),
{
}

/// Bringing the selection into the page moves it as little as need be.
pub proof fn law_clamping_moves_only_what_is_outside(s: AppModel)
    requires
        s.page matches Some(page) ==> page.rows.len() <= usize::MAX && page.columns.len()
            <= usize::MAX,
    ensures
        s.page is None ==> clamped(s) == s,
        s.page matches Some(page) ==> ({
            let t = clamped(s);
            &&& t.row == within_places(s.row as int, page.rows.len())
            &&& t.col == within_places(s.col as int, page.columns.len())
            &&& t.first_col == if s.first_col < t.col {
                s.first_col
            } else {
                t.col
            }
            &&& t == (AppModel { row: t.row, col: t.col, first_col: t.first_col, ..s })
        }),
{
}

/// A click on a cell or on a heading selects it, as far as the page goes, and gives
/// the grid the focus.
pub proof fn law_clicks_select(s: AppModel, row: usize, col: usize)
    ensures
        cell_clicked(s, row, col) == clamped(AppModel { focus: Focus::Grid, row, col, ..s }),
        heading_clicked(s, col) == clamped(AppModel { focus: Focus::Grid, col, ..s }),
{
    assert(heading_clicked(s, col) =~= clamped(AppModel { focus: Focus::Grid, col, ..s }));
}

/// Scrolling sideways changes the first column on screen alone, and only where the
/// selected one is off screen.
pub proof fn law_scrolling_keeps_what_is_on_screen(s: AppModel, fit: usize)
    requires
        fit > 0,
    ensures
        in_view(s, fit) == (AppModel { first_col: in_view(s, fit).first_col, ..s }),
        s.first_col <= s.col < s.first_col + fit ==> in_view(s, fit) == s,
        s.col < s.first_col ==> in_view(s, fit).first_col == s.col,
        s.col >= s.first_col + fit ==> in_view(s, fit).first_col + fit == s.col + 1,
{
}

/// Sorting changes nothing of the query but its sort and its page: table, hidden
/// columns, expressions and filters are those of before. The first page is asked for
/// from the first row, sorted by the selected column, or unsorted where that very sort
/// was there.
pub proof fn law_sorting_changes_only_sort_and_page(s: AppModel, descending: bool)
    ensures
        s.query is None || selected_column(s) is None ==> sorted(s, descending) == s,
        s.query matches Some(q) ==> selected_column(s) matches Some(name) ==> ({
            let r = sorted(s, descending).query->0;
            &&& r == (QueryModel { sort: r.sort, page: 0, ..q })
            &&& r.sort == if q.sort == Some((name, descending)) {
                None
            } else {
                Some((name, descending))
            }
            &&& sorted(s, descending) == submitted(AppModel { row: 0, ..s }, r, None)
        }),
{
}

/// A toggle changes nothing of the query but whether the one column is hidden. It is
/// refused, with a notice and nothing else, just where it would hide the last of the
/// base columns.
pub proof fn law_toggling_changes_only_the_one_column(s: AppModel, index: usize, now: u64)
    ensures
        s.query is None || s.page is None ==> toggled(s, index, now) == s,
        s.page matches Some(page) ==> index >= page.schema.len() ==> toggled(s, index, now) == s,
        s.page matches Some(page) ==> s.query matches Some(q) ==> index < page.schema.len() ==> ({
            let name = page.schema[index as int].name;
            let t = toggled(s, index, now);
            let r = t.query->0;
            let refused = !q.hidden.contains(name) && page.schema.len() <= q.hidden.len() + 1;
            &&& refused ==> t == notified(s, "Keep at least one base column visible"@, now)
            &&& !refused ==> t == submitted(s, r, None)
            &&& !refused ==> r == (QueryModel { hidden: r.hidden, ..q })
            &&& !refused ==> forall|other: Seq<char>|
                (#[trigger] r.hidden.contains(other)) == if other == name {
                    !q.hidden.contains(other)
                } else {
                    q.hidden.contains(other)
                }
        }),
{
}

/// Turning a page changes nothing of the query but its page, by one, within the pages
/// that there are; the first row is selected. At either end nothing happens, and from
/// past the end `PgDn` leads to the last page.
pub proof fn law_turning_changes_only_the_page(s: AppModel, forward: bool)
    requires
        s.query is Some,
        s.page is Some,
    ensures
        ({
            let q = s.query->0;
            let total = s.page->0.total;
            let t = page_turned(s, forward);
            let r = t.query->0;
            &&& r == (QueryModel { page: r.page, ..q })
            &&& r.page == q.page ==> t == s
            &&& r.page != q.page ==> t == submitted(AppModel { row: 0, ..s }, r, None)
            &&& !forward && q.page > 0 ==> r.page == q.page - 1
            &&& !forward && q.page == 0 ==> r.page == 0
            &&& forward && (q.page + 1) * 50 < total ==> r.page == q.page + 1
            &&& forward && (q.page + 1) * 50 >= total ==> r.page <= q.page && (r.page * 50 < total
                || r.page == 0) && (r.page + 1) * 50 >= total
        }),
{
    assert(PAGE_SIZE == 50);
}

/// Without a query or a page there is nothing to turn.
pub proof fn law_turning_needs_a_page(s: AppModel, forward: bool)
    requires
        s.query is None || s.page is None,
    ensures
        page_turned(s, forward) == s,
{
}

/// Removing an expression keeps the table, the hidden columns, and the other
/// expressions in their order, and the sort where it is by another column; the first
/// page is asked for. Where no expression is selected, a notice says so and nothing
/// else happens.
pub proof fn law_removing_keeps_the_rest(s: AppModel, now: u64)
    ensures
        s.query is None || selected_column(s) is None ==> expression_removed(s, now) == s,
        s.query matches Some(q) ==> selected_column(s) matches Some(name) ==> ({
            let t = expression_removed(s, now);
            let there = exists|i: int|
                0 <= i < q.expressions.len() && (#[trigger] q.expressions[i]).label == name;
            &&& !there ==> t == notified(s, "Select an expression column to remove it"@, now)
            &&& there ==> t == submitted(s, without_expression(q, name), None)
        }),
{
    if let Some(q) = s.query {
        if let Some(name) = selected_column(s) {
            let all = crate::db::labels(q.expressions);
            if all.contains(name) {
                let i = choose|i: int| 0 <= i < all.len() && all[i] == name;
                assert(q.expressions[i].label == name);
            }
            if exists|i: int|
                0 <= i < q.expressions.len() && (#[trigger] q.expressions[i]).label == name {
                let i = choose|i: int|
                    0 <= i < q.expressions.len() && (#[trigger] q.expressions[i]).label == name;
                assert(all[i] == name);
            }
        }
    }
}

/// What is left of a query without an expression: the table, the hidden columns, every
/// other filter with its text, the sort by another column, and of the expressions, one
/// by one, those with another label.
pub proof fn law_query_without_an_expression(
    q: QueryModel,
    name: Seq<char>,
    more: ExpressionModel,
)
    ensures
        ({
            let r = without_expression(q, name);
            &&& r == (QueryModel {
                expressions: r.expressions,
                filters: q.filters.remove(name),
                sort: r.sort,
                page: 0,
                ..q
            })
            &&& r.sort == match q.sort {
                Some((column, _)) if column == name => None,
                _ => q.sort,
            }
            &&& q.expressions.len() == 0 ==> r.expressions.len() == 0
            &&& without_expression(
                QueryModel { expressions: q.expressions.push(more), ..q },
                name,
            ).expressions == if more.label == name {
                r.expressions
            } else {
                r.expressions.push(more)
            }
        }),
{
    let keep = |e: ExpressionModel| e.label != name;
    let all = q.expressions;
    reveal(Seq::filter);
    assert(all.push(more).drop_last() =~= all);
    assert(all.push(more).filter(keep) =~= if keep(more) {
        all.filter(keep).push(more)
    } else {
        all.filter(keep)
    });
}

/// Clearing asks for the query without its filters and its sort, from the first page;
/// the rest of the query and of the explorer stays.
pub proof fn law_clearing_changes_only_filters_sort_and_page(s: AppModel)
    ensures
        s.query is None ==> cleared(s) == s,
        s.query matches Some(q) ==> ({
            let r = cleared(s).query->0;
            &&& cleared(s) == submitted(s, r, None)
            &&& r == (QueryModel { filters: r.filters, sort: None, page: 0, ..q })
            &&& forall|name: Seq<char>| !#[trigger] r.filters.contains_key(name)
        }),
{
}

/// Reloading asks for the same query again.
pub proof fn law_reloading_asks_for_the_same_query(s: AppModel)
    ensures
        s.query is None ==> reloaded(s) == s,
        s.query matches Some(q) ==> reloaded(s) == submitted(s, q, None),
{
}

/// A submitted filter asks for the query with that filter alone changed; the input
/// closes and is kept for a failure.
pub proof fn law_submitting_a_filter(s: AppModel, input: InputModel, name: Seq<char>)
    requires
        input.kind == InputKindModel::Filter(name),
    ensures
        s.query is None ==> entered(s, input) == (AppModel { input: None, ..s }),
        s.query matches Some(q) ==> ({
            let t = entered(s, input);
            let r = t.query->0;
            &&& t == (AppModel {
                retry_input: Some(input),
                ..submitted(AppModel { input: None, row: 0, ..s }, r, None)
            })
            &&& r == (QueryModel { filters: r.filters, page: 0, ..q })
            &&& forall|other: Seq<char>|
                (#[trigger] r.filters.contains_key(other)) == if other == name {
                    input.text.len() > 0
                } else {
                    q.filters.contains_key(other)
                }
            &&& forall|other: Seq<char>| #[trigger]
                r.filters.contains_key(other) ==> r.filters[other] == if other == name {
                    input.text
                } else {
                    q.filters[other]
                }
        }),
{
}

/// A submitted expression is asked for as it was typed, with the query as it is; where
/// it is blank the input only closes.
pub proof fn law_submitting_an_expression(s: AppModel, input: InputModel)
    requires
        input.kind is Expression,
    ensures
        s.query is None || (trimmed(input.text).len() == 0 && !s.loading) ==> entered(s, input) == (
        AppModel { input: None, ..s }),
        s.query is Some && trimmed(input.text).len() == 0 && s.loading ==> entered(s, input) == (
        AppModel { input: None, retry_input: Some(input), ..s }),
        s.query matches Some(q) ==> trimmed(input.text).len() > 0 ==> entered(s, input) == (
        AppModel {
            retry_input: Some(input),
            ..submitted(AppModel { input: None, ..s }, q, Some(input.text))
        }),
{
}

/// The page that was awaited is shown with its own query; the selected column is
/// followed by its name, and the selection brought into the page; the rest stays.
pub proof fn law_page_is_taken_in(s: AppModel, id: u64, page: PageModel)
    requires
        s.pending == Some(id),
        page.columns.len() <= usize::MAX,
    ensures
        ({
            let t = received(s, ReplyModel { id, result: Ok(page) });
            let shown = AppModel {
                pending: None,
                loading: false,
                retry_input: None,
                query: Some(page.query),
                page: Some(page),
                ..s
            };
            &&& selected_column(s) is None ==> t == clamped(shown)
            &&& selected_column(s) matches Some(name) ==> !page.columns.contains(name) ==> t
                == clamped(shown)
            &&& selected_column(s) matches Some(name) ==> forall|i: int|
                0 <= i < page.columns.len() && page.columns[i] == name && (forall|j: int|
                    0 <= j < i ==> page.columns[j] != name) ==> t == clamped(
                    #[trigger] with_col(shown, i),
                )
        }),
{
    if let Some(name) = selected_column(s) {
        page.columns.index_of_first_ensures(name);
    }
}

/// `s` with column `i` selected.
pub open spec fn with_col(s: AppModel, i: int) -> AppModel {
    AppModel { col: i as usize, ..s }
}

/// A failure is shown by its message; the page and its query are kept, the input is
/// opened again, and the rest stays.
pub proof fn law_failure_is_taken_in(s: AppModel, id: u64, e: LoadErrorModel)
    requires
        s.pending == Some(id),
    ensures
        received(s, ReplyModel { id, result: Err(e) }) == (AppModel {
            pending: None,
            loading: false,
            error: Some(error_message(e)),
            input: s.retry_input,
            retry_input: None,
            query: match s.page {
                Some(page) => Some(page.query),
                None => s.query,
            },
            ..s
        }),
{
}

/// What each failure is called.
pub proof fn law_failures_have_their_messages(text: Seq<char>)
    ensures
        error_message(LoadErrorModel::Database(text)) == text,
        error_message(LoadErrorModel::NoVisibleColumns(text)) == "No visible columns in "@ + text,
        error_message(LoadErrorModel::EmptyExpression) == "Enter a SELECT expression"@,
        error_message(LoadErrorModel::NotOneColumn)
            == "An expression must return exactly one column"@,
        error_message(LoadErrorModel::NotScalar) == "Enter one read-only scalar expression"@,
        error_message(LoadErrorModel::DuplicateLabel(text)) == "Duplicate column label: "@ + text,
        error_message(LoadErrorModel::NothingVisible) == "Keep at least one column visible"@,
        error_message(LoadErrorModel::ColumnCountChanged)
            == "Query column count changed unexpectedly"@,
{
}

/// Replies are taken in one after another, in the order in which they arrive, and then
/// a notice that has had its time goes. Something changed just where one of them was
/// awaited or a notice went.
pub proof fn law_polling_takes_replies_in_order(
    s: AppModel,
    replies: Seq<ReplyModel>,
    reply: ReplyModel,
    now: u64,
)
    ensures
        received_all(s, Seq::empty()) == s,
        received_all(s, replies.push(reply)) == received(received_all(s, replies), reply),
        any_awaited(s, replies) <==> exists|i: int|
            0 <= i < replies.len() && s.pending == Some((#[trigger] replies[i]).id),
        polled(s, replies, now).notice == match received_all(s, replies).notice {
            Some((text, until)) if now < until => Some((text, until)),
            _ => None,
        },
        polled(s, replies, now) == (AppModel {
            notice: polled(s, replies, now).notice,
            ..received_all(s, replies)
        }),
        expired(s, now) <==> (s.notice is Some && (s.notice->0).1 <= now),
{
    assert(replies.push(reply).drop_last() =~= replies);
    lemma_awaited_once(s, replies);
}

proof fn lemma_awaited_once(s: AppModel, replies: Seq<ReplyModel>)
    ensures
        any_awaited(s, replies) <==> exists|i: int|
            0 <= i < replies.len() && s.pending == Some((#[trigger] replies[i]).id),
        any_awaited(s, replies) ==> received_all(s, replies).pending is None,
        !any_awaited(s, replies) ==> received_all(s, replies) == s,
    decreases replies.len(),
{
    if replies.len() > 0 {
        let rest = replies.drop_last();
        lemma_awaited_once(s, rest);
        if any_awaited(s, rest) {
            let i = choose|i: int|
                0 <= i < rest.len() && s.pending == Some((#[trigger] rest[i]).id);
            assert(replies[i] == rest[i]);
        } else if awaited(s, replies.last()) {
            assert(s.pending == Some(replies[replies.len() - 1].id));
        } else if exists|i: int|
            0 <= i < replies.len() && s.pending == Some((#[trigger] replies[i]).id) {
            let i = choose|i: int|
                0 <= i < replies.len() && s.pending == Some((#[trigger] replies[i]).id);
            assert(i < rest.len() ==> rest[i] == replies[i]);
        }
    }
}

/// A key without modifiers.
pub open spec fn plain(code: KeyCode) -> KeyEvent {
    KeyEvent { code, control: false, alt: false }
}

/// The keys that quit only quit and supersede what was asked.
pub proof fn law_quitting_changes_nothing_else(s: AppModel, key: KeyEvent, now: u64)
    ensures
        quits(key) <==> key.control && (key.code == KeyCode::Char('c') || key.code
            == KeyCode::Char('q')),
        quits(key) ==> pressed(s, key, now) == (AppModel {
            quit: true,
            worker: cancelled(s.worker),
            ..s
        }),
{
}

/// The help takes all keys and goes with `Esc`, `?` and `Enter`.
pub proof fn law_help_takes_all_keys(s: AppModel, key: KeyEvent, now: u64)
    requires
        s.help,
        !quits(key),
    ensures
        pressed(s, key, now) == if key.code == KeyCode::Esc || key.code == KeyCode::Char('?')
            || key.code == KeyCode::Enter {
            AppModel { help: false, ..s }
        } else {
            s
        },
{
}

/// An open input takes all keys: `Esc` closes it, `Enter` submits it, the others edit
/// it.
pub proof fn law_input_takes_all_keys(s: AppModel, input: InputModel, key: KeyEvent, now: u64)
    requires
        !s.help,
        s.input == Some(input),
        !quits(key),
    ensures
        key.code == KeyCode::Esc ==> pressed(s, key, now) == (AppModel { input: None, ..s }),
        key.code == KeyCode::Enter ==> pressed(s, key, now) == entered(s, input),
        key.code != KeyCode::Esc && key.code != KeyCode::Enter ==> pressed(s, key, now) == (
        AppModel { input: Some(edited(input, key)), ..s }),
{
}

/// The chooser moves by one and stops at the ends, toggles the column that it stands
/// at, unless something loads, and goes with `Esc` and `v`. Other keys do nothing.
pub proof fn law_chooser_takes_all_keys(s: AppModel, at: usize, key: KeyEvent, now: u64)
    requires
        !s.help,
        s.input is None,
        s.chooser == Some(at),
        !quits(key),
        s.page matches Some(page) ==> page.schema.len() <= usize::MAX,
    ensures
        ({
            let t = pressed(s, key, now);
            let len = match s.page {
                Some(page) => page.schema.len(),
                None => 0,
            };
            &&& key.code == KeyCode::Esc || key.code == KeyCode::Char('v') ==> t == (AppModel {
                chooser: None,
                ..s
            })
            &&& key.code == KeyCode::Up ==> t == (AppModel {
                chooser: Some(
                    if at == 0 {
                        0
                    } else {
                        (at - 1) as usize
                    },
                ),
                ..s
            })
            &&& key.code == KeyCode::Down ==> t == (AppModel {
                chooser: Some(within_places(at + 1, len) as usize),
                ..s
            })
            &&& key.code == KeyCode::Enter || key.code == KeyCode::Char(' ') ==> t
                == if s.loading {
                s
            } else {
                toggled(s, at, now)
            }
            &&& (key.code is Char && key.code != KeyCode::Char('v') && key.code
                != KeyCode::Char(' ')) || key.code is Left || key.code is Right || key.code is Tab
                || key.code is Home || key.code is End || key.code is PageUp
                || key.code is PageDown || key.code is Delete || key.code is Backspace
                || key.code is Other ==> t == s
        }),
{
}

/// The detail, scrolled to these lines and columns.
pub open spec fn at_scroll(s: AppModel, down: int, right: int) -> AppModel {
    AppModel {
        detail_scroll: (
            within_places(down, 65536) as u16,
            within_places(right, 65536) as u16,
        ),
        ..s
    }
}

/// The detail scrolls by lines, by fifteen lines and by four columns, stops at its
/// edges, moves to the neighbouring cell with `Ctrl`, and goes with `Esc` and
/// `Backspace`. Other keys do nothing to the explorer.
pub proof fn law_detail_takes_all_keys(s: AppModel, key: KeyEvent, now: u64)
    requires
        !s.help,
        s.input is None,
        s.chooser is None,
        s.detail,
        !quits(key),
    ensures
        ({
            let t = pressed(s, key, now);
            let (down, right) = s.detail_scroll;
            &&& key.code == KeyCode::Esc || key.code == KeyCode::Backspace ==> t == (AppModel {
                detail: false,
                ..s
            })
            &&& key.control ==> {
                &&& key.code == KeyCode::Left ==> t == moved(s, 0, -1)
                &&& key.code == KeyCode::Right ==> t == moved(s, 0, 1)
                &&& key.code == KeyCode::Up ==> t == moved(s, -1, 0)
                &&& key.code == KeyCode::Down ==> t == moved(s, 1, 0)
            }
            &&& !key.control ==> {
                &&& key.code == KeyCode::Left ==> t == at_scroll(s, down as int, right - 4)
                &&& key.code == KeyCode::Right ==> t == at_scroll(s, down as int, right + 4)
                &&& key.code == KeyCode::Up ==> t == at_scroll(s, down - 1, right as int)
                &&& key.code == KeyCode::Down ==> t == at_scroll(s, down + 1, right as int)
            }
            &&& key.code == KeyCode::PageUp ==> t == at_scroll(s, down - 15, right as int)
            &&& key.code == KeyCode::PageDown ==> t == at_scroll(s, down + 15, right as int)
            &&& key.code == KeyCode::Home ==> t == at_scroll(s, 0, 0)
            &&& key.code is Char || key.code is Enter || key.code is Tab || key.code is End
                || key.code is Delete || key.code is Other ==> t == s
        }),
{
}

/// In both panes `?` opens the help and `Tab` changes the focus, and nothing else.
pub proof fn law_both_panes_take_help_and_tab(s: AppModel, now: u64)
    requires
        panes(s),
    ensures
        panes(s) <==> !s.help && s.input is None && s.chooser is None && !s.detail,
        pressed(s, plain(KeyCode::Char('?')), now) == (AppModel { help: true, ..s }),
        pressed(s, plain(KeyCode::Tab), now) == (AppModel {
            focus: match s.focus {
                Focus::Tables => Focus::Grid,
                Focus::Grid => Focus::Tables,
            },
            ..s
        }),
{
}

/// In the table list `Up` and `Down` open the neighbour, `Home` and `End` the first and
/// the last table, and `Enter` and `Right` go to the grid. Other keys do nothing.
pub proof fn law_table_list_keys(s: AppModel, key: KeyEvent, at: usize, now: u64)
    requires
        panes(s),
        s.focus == Focus::Tables,
        !quits(key),
        key.code != KeyCode::Char('?'),
        key.code != KeyCode::Tab,
        s.list.selected == Some(at) || (s.list.selected is None && at == 0),
        s.tables.len() <= usize::MAX,
    ensures
        ({
            let t = pressed(s, key, now);
            let len = s.tables.len();
            &&& key.code == KeyCode::Up ==> t == opened_table(
                s,
                if at == 0 {
                    0
                } else {
                    (at - 1) as usize
                },
            )
            &&& key.code == KeyCode::Down ==> t == opened_table(
                s,
                within_places(at + 1, len) as usize,
            )
            &&& key.code == KeyCode::Home ==> t == opened_table(s, 0)
            &&& key.code == KeyCode::End ==> t == opened_table(
                s,
                within_places(usize::MAX as int, len) as usize,
            )
            &&& key.code == KeyCode::Enter || key.code == KeyCode::Right ==> t == (AppModel {
                focus: Focus::Grid,
                ..s
            })
            &&& key.code is Char || key.code is Left || key.code is Esc || key.code is Backspace
                || key.code is Delete || key.code is PageUp || key.code is PageDown
                || key.code is Other ==> t == s
        }),
{
}

/// `Esc` and `Backspace` lead from the grid to the table list. Where something loads it
/// is cancelled: no reply is awaited, the query is that of the page, a notice says so,
/// and the rest stays.
pub proof fn law_leaving_the_grid(s: AppModel, key: KeyEvent, now: u64)
    requires
        panes(s),
        s.focus == Focus::Grid,
        key.code == KeyCode::Esc || key.code == KeyCode::Backspace,
    ensures
        !s.loading ==> pressed(s, key, now) == (AppModel { focus: Focus::Tables, ..s }),
        s.loading ==> pressed(s, key, now) == notified(
            AppModel {
                focus: Focus::Tables,
                worker: cancelled(s.worker),
                pending: None,
                loading: false,
                query: match s.page {
                    Some(page) => Some(page.query),
                    None => s.query,
                },
                ..s
            },
            "Query cancelled"@,
            now,
        ),
{
}

/// The grid, with the focus, no dialog open and nothing loading.
pub open spec fn in_grid(s: AppModel) -> bool {
    !s.help && s.input is None && s.chooser is None && !s.detail && s.focus == Focus::Grid
        && !s.loading
}

/// What the moving keys of the grid do.
pub proof fn law_grid_moves(s: AppModel, now: u64)
    requires
        in_grid(s),
        s.page matches Some(page) ==> page.rows.len() <= usize::MAX,
    ensures
        pressed(s, plain(KeyCode::Up), now) == moved(s, -1, 0),
        pressed(s, plain(KeyCode::Down), now) == moved(s, 1, 0),
        pressed(s, plain(KeyCode::Right), now) == moved(s, 0, 1),
        pressed(s, plain(KeyCode::Left), now) == if s.col == 0 {
            AppModel { focus: Focus::Tables, ..s }
        } else {
            moved(s, 0, -1)
        },
        pressed(s, plain(KeyCode::Home), now) == (AppModel { row: 0, ..s }),
        pressed(s, plain(KeyCode::End), now) == (AppModel {
            row: match s.page {
                Some(page) => within_places(usize::MAX as int, page.rows.len()) as usize,
                None => 0,
            },
            ..s
        }),
        pressed(s, plain(KeyCode::PageDown), now) == page_turned(s, true),
        pressed(s, plain(KeyCode::PageUp), now) == page_turned(s, false),
{
}

/// What the commands of the grid do.
pub proof fn law_grid_commands(s: AppModel, now: u64)
    requires
        in_grid(s),
    ensures
        pressed(s, plain(KeyCode::Char('s')), now) == sorted(s, false),
        pressed(s, plain(KeyCode::Char('S')), now) == sorted(s, true),
        pressed(s, plain(KeyCode::Char('C')), now) == cleared(s),
        pressed(s, plain(KeyCode::Char('r')), now) == reloaded(s),
        pressed(s, plain(KeyCode::Delete), now) == expression_removed(s, now),
        pressed(s, plain(KeyCode::Enter), now) == if selected_cell(s) is Some {
            AppModel { detail: true, detail_scroll: (0, 0), ..s }
        } else {
            s
        },
        pressed(s, plain(KeyCode::Char('v')), now) == if s.page is Some {
            AppModel { chooser: Some(0), ..s }
        } else {
            s
        },
        pressed(s, plain(KeyCode::Char('+')), now) == if s.query is Some {
            AppModel {
                input: Some(
                    InputModel { kind: InputKindModel::Expression, text: Seq::empty(), cursor: 0 },
                ),
                ..s
            }
        } else {
            s
        },
{
}

/// The digits toggle the first ten base columns: `1` the first, `9` the ninth, `0` the
/// tenth.
pub proof fn law_digits_toggle_columns(s: AppModel, c: char, now: u64)
    requires
        in_grid(s),
        '0' <= c <= '9',
    ensures
        c == '0' ==> pressed(s, plain(KeyCode::Char(c)), now) == toggled(s, 9, now),
        c != '0' ==> pressed(s, plain(KeyCode::Char(c)), now) == toggled(
            s,
            (c as u32 - 49) as usize,
            now,
        ),
{
}

/// Every other key in the grid does nothing to the explorer.
pub proof fn law_other_keys_do_nothing_in_the_grid(s: AppModel, key: KeyEvent, now: u64)
    requires
        in_grid(s),
        !quits(key),
        key.code == KeyCode::Other || (key.code matches KeyCode::Char(c) && !('0' <= c <= '9') && c
            != 's' && c != 'S' && c != 'C' && c != 'r' && c != 'v' && c != '+' && c != 'f' && c
            != '?'),
    ensures
        pressed(s, key, now) == s,
{
}

/// `f` opens the filter of the selected column on the text that it has, with the
/// cursor at its end.
pub proof fn law_filter_opens_for_the_selected_column(s: AppModel, now: u64)
    requires
        in_grid(s),
    ensures
        s.query is None || selected_column(s) is None ==> pressed(
            s,
            plain(KeyCode::Char('f')),
            now,
        ) == s,
        s.query matches Some(q) ==> selected_column(s) matches Some(name) ==> ({
            let t = pressed(s, plain(KeyCode::Char('f')), now);
            let text = t.input->0.text;
            &&& t == (AppModel {
                input: Some(
                    InputModel { kind: InputKindModel::Filter(name), text, cursor: text.len() },
                ),
                ..s
            })
            &&& q.filters.contains_key(name) ==> text == q.filters[name]
            &&& !q.filters.contains_key(name) ==> text.len() == 0
        }),
{
}

/// Modifiers other than those that quit change nothing in the grid, the table list or
/// the help.
pub proof fn law_modifiers_do_not_matter_in_the_panes(s: AppModel, key: KeyEvent, now: u64)
    requires
        s.input is None,
        !s.detail,
        !quits(key),
    ensures
        pressed(s, key, now) == pressed(s, plain(key.code), now),
{
}

/// `c` copies the text of the selected cell, in the grid and in the detail, and no
/// other key copies anything.
pub proof fn law_only_c_copies(s: AppModel, key: KeyEvent)
    ensures
        key.code != KeyCode::Char('c') || key.control ==> copy_of(s, key) is None,
        s.help || s.input is Some || s.chooser is Some ==> copy_of(s, key) is None,
        !s.detail && s.focus == Focus::Tables ==> copy_of(s, key) is None,
        selected_cell(s) is None ==> copy_of(s, key) is None,
        key.code == KeyCode::Char('c') && !key.control && !s.help && s.input is None
            && s.chooser is None && (s.detail || s.focus == Focus::Grid) ==> (selected_cell(
            s,
        ) matches Some(v) ==> copy_of(s, key) == Some(value_text(v))),
{
}

/// Pasting types the text into the open input and nothing else.
pub proof fn law_pasting_types_into_the_input(s: AppModel, text: Seq<char>)
    ensures
        s.input is None ==> pasted(s, text) == s,
        s.input matches Some(input) ==> pasted(s, text) == (AppModel {
            input: Some(typed(input, text)),
            ..s
        }),
{
}

/// A line opens with the text given and the cursor at its end.
pub proof fn law_lines_open_at_the_end(kind: InputKindModel, text: Seq<char>)
    ensures
        opened(kind, text) == (InputModel { kind, text, cursor: text.len() }),
{
}

/// What is left of a text without its control characters: all others, in order.
pub proof fn law_cleaning_drops_control_characters_only(s: Seq<char>, c: char)
    ensures
        cleaned(Seq::empty()) == Seq::<char>::empty(),
        cleaned(s.push(c)) == if control(c) {
            cleaned(s)
        } else {
            cleaned(s).push(c)
        },
{
    reveal(Seq::filter);
    assert(s.push(c).drop_last() =~= s);
}

/// Typing puts the text, without control characters, between what stands before the
/// cursor and what stands after it, and leaves the cursor behind it.
pub proof fn law_typing_goes_in_at_the_cursor(
    kind: InputKindModel,
    before: Seq<char>,
    after: Seq<char>,
    s: Seq<char>,
)
    ensures
        typed(InputModel { kind, text: before + after, cursor: before.len() }, s) == (InputModel {
            kind,
            text: before + cleaned(s) + after,
            cursor: before.len() + cleaned(s).len(),
        }),
{
    let m = InputModel { kind, text: before + after, cursor: before.len() };
    assert(m.text.take(before.len() as int) =~= before);
    assert(m.text.skip(before.len() as int) =~= after);
}

/// What the editing keys do to a line that is cut in two by the cursor.
pub proof fn law_editing_keys(
    kind: InputKindModel,
    before: Seq<char>,
    after: Seq<char>,
    c: char,
    key: KeyEvent,
)
    ensures
        ({
            let m = InputModel { kind, text: before + after, cursor: before.len() };
            let t = edited(m, key);
            let n = before.len();
            &&& t.kind == kind
            &&& key.code == KeyCode::Char(c) && !key.control && !key.alt ==> t == typed(m, seq![c])
            &&& key.code == KeyCode::Char(c) && key.control && c == 'u' ==> t.text.len() == 0
                && t.cursor == 0
            &&& key.code == KeyCode::Char(c) && key.control && c == 'a' ==> t.text == m.text
                && t.cursor == 0
            &&& key.code == KeyCode::Char(c) && key.control && c == 'e' ==> t.text == m.text
                && t.cursor == m.text.len()
            &&& key.code == KeyCode::Char(c) && (key.control || key.alt) && !(key.control && (c
                == 'u' || c == 'a' || c == 'e')) ==> t == m
            &&& key.code == KeyCode::Left ==> t.text == m.text && t.cursor == if n > 0 {
                n - 1
            } else {
                0
            }
            &&& key.code == KeyCode::Right ==> t.text == m.text && t.cursor == if after.len() > 0 {
                n + 1
            } else {
                n
            }
            &&& key.code == KeyCode::Home ==> t.text == m.text && t.cursor == 0
            &&& key.code == KeyCode::End ==> t.text == m.text && t.cursor == m.text.len()
            &&& key.code == KeyCode::Backspace ==> if n > 0 {
                t.text == before.drop_last() + after && t.cursor == n - 1
            } else {
                t == m
            }
            &&& key.code == KeyCode::Delete ==> if after.len() > 0 {
                t.text == before + after.drop_first() && t.cursor == n
            } else {
                t == m
            }
            &&& key.code is Up || key.code is Down || key.code is PageUp || key.code is PageDown
                || key.code is Tab || key.code is Esc || key.code is Enter || key.code is Other
                ==> t == m
        }),
{
    let m = InputModel { kind, text: before + after, cursor: before.len() };
    if before.len() > 0 {
        assert(m.text.remove(before.len() - 1) =~= before.drop_last() + after);
    }
    if after.len() > 0 {
        assert(m.text.remove(before.len() as int) =~= before + after.drop_first());
    }
}

} // verus!
