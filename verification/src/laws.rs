//! What holds of the explorer as a whole, whatever is typed and whatever the
//! database answers.
use vstd::prelude::*;

use crate::app::{
    cell_clicked, expression_removed, heading_clicked, in_view, last_place, notified, opened_table,
    pasted, polled, received, received_all, selected_column, shown_query, sorted, started, toggled,
    without_expression, AppModel, Focus, ListState, TableState, NOTICE_MILLIS,
};
use crate::db::{
    column_names, fresh_query, hex, hex_digit, labels, schema_of, schema_statement, value_text,
    ColumnModel, ExpressionModel, PageModel, QueryModel, ValueModel,
};
use crate::input::{
    cleaned, edited, opened, typed, InputKindModel, InputModel, KeyCode, KeyEvent,
};
use crate::keys::{
    cleared, copied, copy_of, entered, filter_opened, filtered, page_turned, panes, pressed, quits,
    returned, turned,
};
use crate::load::{error_message, LoadErrorModel};
use crate::outcome::{law_loaded_page_answers_the_query, outcome, Database};
use crate::sql::last_page;
use crate::text::{control, decimal, digit, signed_decimal, trimmed};
use crate::worker::{cancelled, chosen, requested, ReplyModel, RequestModel, WorkerModel};

verus! {

/// Something is loading just while a reply is awaited, and, until the explorer is
/// left, the reply that is awaited is the one to the worker's newest request.
pub open spec fn coherent(s: AppModel) -> bool {
    &&& s.loading <==> s.pending is Some
    &&& !s.quit ==> (s.pending matches Some(id) ==> id == s.worker.generation)
}

/// The explorer starts coherent.
pub proof fn law_start_is_coherent(tables: Seq<Seq<char>>, worker: WorkerModel)
    ensures
        coherent(started(tables, worker)),
{
}

/// Every key keeps the explorer coherent.
pub proof fn law_keys_keep_coherence(s: AppModel, key: KeyEvent, now: u64)
    requires
        coherent(s),
    ensures
        coherent(pressed(s, key, now)),
{
}

/// Every reply keeps the explorer coherent.
pub proof fn law_replies_keep_coherence(s: AppModel, reply: ReplyModel)
    requires
        coherent(s),
    ensures
        coherent(received(s, reply)),
{
}

/// Polling keeps the explorer coherent, however many replies have arrived.
pub proof fn law_polling_keeps_coherence(s: AppModel, replies: Seq<ReplyModel>, now: u64)
    requires
        coherent(s),
    ensures
        coherent(polled(s, replies, now)),
    decreases replies.len(),
{
    if replies.len() > 0 {
        law_polling_keeps_coherence(s, replies.drop_last(), now);
        law_replies_keep_coherence(received_all(s, replies.drop_last()), replies.last());
    }
}

/// `Ctrl+Q` and `Ctrl+C` leave the explorer from any screen or input, and supersede
/// the request that the database is at.
pub proof fn law_quit_works_everywhere(s: AppModel, key: KeyEvent, now: u64)
    requires
        quits(key),
    ensures
        pressed(s, key, now).quit,
        pressed(s, key, now).worker.generation != s.worker.generation,
        copy_of(s, key) is None,
{
}

/// A key other than those never leaves the explorer.
pub proof fn law_only_quit_quits(s: AppModel, key: KeyEvent, now: u64)
    requires
        !quits(key),
    ensures
        pressed(s, key, now).quit == s.quit,
{
}

/// A reply that is not awaited changes nothing.
pub proof fn law_stale_replies_are_ignored(s: AppModel, reply: ReplyModel)
    requires
        s.pending != Some(reply.id),
    ensures
        received(s, reply) == s,
{
}

/// Opening another table supersedes what was asked before: the reply to it, which
/// carried the worker's number until then, is ignored.
pub proof fn law_switching_tables_supersedes(s: AppModel, index: usize, reply: ReplyModel)
    requires
        index < s.tables.len(),
        s.list.selected != Some(index),
        reply.id == s.worker.generation,
    ensures
        received(opened_table(s, index), reply) == opened_table(s, index),
{
}

/// A page that was asked for shows up: its query becomes the query, and nothing is
/// loading any more.
pub proof fn law_awaited_page_is_shown(s: AppModel, id: u64, page: PageModel)
    requires
        s.pending == Some(id),
    ensures
        ({
            let t = received(s, ReplyModel { id, result: Ok(page) });
            &&& t.page == Some(page)
            &&& t.query == Some(page.query)
            &&& !t.loading
            &&& t.pending is None
            &&& t.retry_input is None
        }),
{
}

/// A failure keeps the page that is shown, goes back to its query, shows what went
/// wrong and opens the input that caused it again.
pub proof fn law_failure_keeps_the_page(s: AppModel, id: u64, e: LoadErrorModel)
    requires
        s.pending == Some(id),
    ensures
        ({
            let t = received(s, ReplyModel { id, result: Err(e) });
            &&& t.page == s.page
            &&& t.error == Some(error_message(e))
            &&& t.input == s.retry_input
            &&& s.page matches Some(page) ==> t.query == Some(page.query)
            &&& s.page is None ==> t.query == s.query
            &&& !t.loading
            &&& t.row == s.row && t.col == s.col
        }),
{
}

/// A filter or an expression that fails to load is open again as it was typed, and
/// the query and the page are what they were.
pub proof fn law_failed_input_comes_back(s: AppModel, input: InputModel, e: LoadErrorModel)
    requires
        s.input == Some(input),
        input.kind is Filter || trimmed(input.text).len() > 0,
        s.page matches Some(page) && s.query == Some(page.query),
    ensures
        ({
            let asked = entered(s, input);
            let reply = ReplyModel { id: asked.worker.generation, result: Err(e) };
            let t = received(asked, reply);
            &&& asked.loading && asked.input is None
            &&& t.input == Some(input) && t.query == s.query && t.page == s.page
            &&& t.error == Some(error_message(e))
        }),
{
}

/// `Esc` in the grid cancels what is loading: what is shown stays, its query comes
/// back, no reply is awaited any more, and the worker's number moves on.
pub proof fn law_cancelling_keeps_the_page(s: AppModel, now: u64, reply: ReplyModel)
    requires
        s.loading,
    ensures
        ({
            let t = returned(s, now);
            &&& t.page == s.page
            &&& t.query == shown_query(s)
            &&& t.focus == Focus::Tables
            &&& !t.loading
            &&& t.worker.generation != s.worker.generation
            &&& received(t, reply) == t
        }),
{
}

/// Sorting asks for the first page in the new order; the same sort again is taken
/// back.
pub proof fn law_sorting_again_clears(s: AppModel, descending: bool)
    requires
        s.query is Some,
        selected_column(s) is Some,
        s.query->0.sort != Some((selected_column(s)->0, descending)),
    ensures
        ({
            let once = sorted(s, descending);
            let twice = sorted(once, descending);
            &&& once.query->0.sort == Some((selected_column(s)->0, descending))
            &&& once.query->0.page == 0
            &&& once.row == 0
            &&& twice.query->0.sort is None
        }),
{
}

/// Sorting the other way round turns the order.
pub proof fn law_sorting_reversed(s: AppModel, descending: bool)
    requires
        s.query is Some,
        selected_column(s) is Some,
        s.query->0.sort == Some((selected_column(s)->0, descending)),
    ensures
        sorted(s, !descending).query->0.sort == Some((selected_column(s)->0, !descending)),
{
}

/// Toggling a base column twice leaves the query as it was, where one is visible at
/// the start and the first toggle is not refused.
pub proof fn law_toggling_twice_restores(s: AppModel, index: usize, now: u64)
    requires
        s.page matches Some(page) && index < page.schema.len(),
        s.query is Some,
        s.query->0.hidden.finite(),
        s.query->0.hidden.len() < s.page->0.schema.len(),
        s.query->0.hidden.contains(s.page->0.schema[index as int].name)
            || s.query->0.hidden.len() + 1 < s.page->0.schema.len(),
    ensures
        ({
            let name = s.page->0.schema[index as int].name;
            let once = toggled(s, index, now);
            let twice = toggled(once, index, now);
            &&& once.query->0.hidden.contains(name) != s.query->0.hidden.contains(name)
            &&& twice.query == s.query
        }),
{
    let name = s.page->0.schema[index as int].name;
    let hidden = s.query->0.hidden;
    if hidden.contains(name) {
        assert(hidden.remove(name).insert(name) =~= hidden);
    } else {
        assert(hidden.insert(name).remove(name) =~= hidden);
    }
}

/// A base column that is not hidden.
pub open spec fn shows_base(schema: Seq<ColumnModel>, hidden: Set<Seq<char>>) -> bool {
    exists|i: int| 0 <= i < schema.len() && !hidden.contains(#[trigger] schema[i].name)
}

/// A page shows a base column. The names of its base columns differ, as SQLite has it.
pub open spec fn page_shows_base(page: PageModel) -> bool {
    &&& column_names(page.schema).no_duplicates()
    &&& page.query.hidden.finite()
    &&& shows_base(page.schema, page.query.hidden)
}

/// Of the page, if there is one, a base column is visible, both as it is shown and as
/// it is asked for.
pub open spec fn base_visible(s: AppModel) -> bool {
    s.page matches Some(page) ==> {
        &&& page_shows_base(page)
        &&& s.query matches Some(q) ==> q.hidden.finite() && shows_base(page.schema, q.hidden)
    }
}

proof fn lemma_outside_smaller_set(names: Seq<Seq<char>>, hidden: Set<Seq<char>>)
    requires
        names.no_duplicates(),
        hidden.finite(),
        hidden.len() < names.len(),
    ensures
        exists|i: int| 0 <= i < names.len() && !hidden.contains(#[trigger] names[i]),
{
    if forall|i: int| 0 <= i < names.len() ==> hidden.contains(#[trigger] names[i]) {
        names.unique_seq_to_set();
        assert(names.to_set().subset_of(hidden));
        vstd::set_lib::lemma_len_subset(names.to_set(), hidden);
    }
}

/// No toggle hides the last visible base column.
pub proof fn law_toggling_keeps_a_base_column(s: AppModel, index: usize, now: u64)
    requires
        base_visible(s),
    ensures
        base_visible(toggled(s, index, now)),
{
    let t = toggled(s, index, now);
    if s.page is Some && s.query is Some && index < s.page->0.schema.len() {
        let schema = s.page->0.schema;
        let names = column_names(schema);
        let hidden = s.query->0.hidden;
        let name = schema[index as int].name;
        if hidden.contains(name) {
            assert(!hidden.remove(name).contains(schema[index as int].name));
        } else if schema.len() - hidden.len() > 1 {
            lemma_outside_smaller_set(names, hidden.insert(name));
            let i = choose|i: int|
                0 <= i < names.len() && !hidden.insert(name).contains(#[trigger] names[i]);
            assert(!hidden.insert(name).contains(schema[i].name));
        }
    }
}

/// Whatever is pressed, at least one base column remains visible.
pub proof fn law_keys_keep_a_base_column(s: AppModel, key: KeyEvent, now: u64)
    requires
        base_visible(s),
    ensures
        base_visible(pressed(s, key, now)),
{
    if let Some(index) = s.chooser {
        law_toggling_keeps_a_base_column(s, index, now);
    }
    law_toggling_keeps_a_base_column(s, 9, now);
    if let KeyCode::Char(c) = key.code {
        law_toggling_keeps_a_base_column(s, (c as u32 - '1' as u32) as usize, now);
    }
}

/// A page that is asked for with a base column visible is loaded with one.
pub proof fn law_loaded_pages_show_a_base_column(
    query: QueryModel,
    add: Option<Seq<char>>,
    db: Database,
    page: PageModel,
)
    requires
        outcome(query, add, db) == Ok::<PageModel, LoadErrorModel>(page),
        query.hidden.finite(),
        column_names(page.schema).no_duplicates(),
        shows_base(page.schema, query.hidden),
    ensures
        page_shows_base(page),
{
    law_loaded_page_answers_the_query(query, add, db, page);
    let hidden = page.query.hidden;
    assert(hidden.subset_of(query.hidden));
    vstd::set_lib::lemma_set_subset_finite(query.hidden, hidden);
    let i = choose|i: int|
        0 <= i < page.schema.len() && !query.hidden.contains(#[trigger] page.schema[i].name);
    assert(!hidden.contains(page.schema[i].name));
}

/// A reply keeps a base column visible, where the page that it brings shows one.
pub proof fn law_replies_keep_a_base_column(s: AppModel, reply: ReplyModel)
    requires
        base_visible(s),
        reply.result matches Ok(page) ==> page_shows_base(page),
    ensures
        base_visible(received(s, reply)),
{
}

/// Removing an expression leaves no trace of it in the query: neither the
/// expression, nor its filter, nor its sort. The other expressions and filters stay.
pub proof fn law_removed_expression_leaves_no_trace(s: AppModel, now: u64)
    requires
        s.query is Some,
        selected_column(s) is Some,
        labels(s.query->0.expressions).contains(selected_column(s)->0),
    ensures
        ({
            let name = selected_column(s)->0;
            let q = s.query->0;
            let r = expression_removed(s, now).query->0;
            &&& !labels(r.expressions).contains(name)
            &&& !r.filters.contains_key(name)
            &&& r.sort matches Some((column, _)) ==> column != name
            &&& r.page == 0
            &&& forall|e: ExpressionModel|
                e.label != name ==> (#[trigger] r.expressions.contains(e)
                    <==> q.expressions.contains(e))
            &&& forall|other: Seq<char>|
                other != name ==> (#[trigger] r.filters.contains_key(other)
                    <==> q.filters.contains_key(other)) && (q.filters.contains_key(other)
                    ==> r.filters[other] == q.filters[other])
        }),
{
    let name = selected_column(s)->0;
    let q = s.query->0;
    let r = expression_removed(s, now).query->0;
    let keep = |e: ExpressionModel| e.label != name;
    assert(r == without_expression(q, name));
    broadcast use vstd::seq_lib::group_filter_ensures;

    if labels(r.expressions).contains(name) {
        let i = choose|i: int| 0 <= i < r.expressions.len() && labels(r.expressions)[i] == name;
        assert(keep(r.expressions[i]));
    }
    assert forall|e: ExpressionModel| e.label != name implies (#[trigger] r.expressions.contains(e)
        <==> q.expressions.contains(e)) by {
        if q.expressions.contains(e) {
            let i = choose|i: int| 0 <= i < q.expressions.len() && q.expressions[i] == e;
            assert(keep(q.expressions[i]));
            assert(q.expressions.filter(keep).contains(q.expressions[i]));
        }
        if r.expressions.contains(e) {
            q.expressions.lemma_filter_contains_rev(keep, e);
        }
    }
}

/// `C` clears all filters and the sort and keeps the rest of the query.
pub proof fn law_clearing_keeps_the_rest(s: AppModel)
    requires
        s.query is Some,
    ensures
        ({
            let q = s.query->0;
            let r = cleared(s).query->0;
            &&& forall|name: Seq<char>| !#[trigger] r.filters.contains_key(name)
            &&& r.sort is None
            &&& r.page == 0
            &&& r.table == q.table && r.hidden == q.hidden && r.expressions == q.expressions
        }),
{
}

/// The selection lies within the page: a row and a column of it, or the first where
/// it has none, and no column is scrolled past.
pub open spec fn within(s: AppModel) -> bool {
    s.page matches Some(page) ==> {
        &&& s.row <= last_place(page.rows.len())
        &&& s.col <= last_place(page.columns.len())
        &&& s.first_col <= s.col
    }
}

/// Every key keeps the selection within the page.
pub proof fn law_keys_keep_the_selection_within(s: AppModel, key: KeyEvent, now: u64)
    requires
        within(s),
    ensures
        within(pressed(s, key, now)),
{
}

/// Every reply keeps the selection within the page.
pub proof fn law_replies_keep_the_selection_within(s: AppModel, reply: ReplyModel)
    requires
        within(s),
    ensures
        within(received(s, reply)),
{
}

/// Where the new page still has the column that was selected, it stays selected,
/// though columns before it have come or gone.
pub proof fn law_selected_column_is_followed(s: AppModel, id: u64, page: PageModel)
    requires
        s.pending == Some(id),
        page.columns.len() <= usize::MAX,
        selected_column(s) is Some,
        page.columns.contains(selected_column(s)->0),
    ensures
        selected_column(received(s, ReplyModel { id, result: Ok(page) })) == selected_column(s),
{
    page.columns.index_of_first_ensures(selected_column(s)->0);
}

/// The commands of the grid need its focus: in the table list a character other
/// than `?` does nothing, and `Delete`, `PgUp`, `PgDn`, `Left` and `Esc` do nothing
/// either.
pub proof fn law_grid_commands_need_its_focus(s: AppModel, key: KeyEvent, now: u64)
    requires
        panes(s),
        s.focus == Focus::Tables,
        !quits(key),
        (key.code is Char && key.code != KeyCode::Char('?')) || key.code is Delete
            || key.code is PageUp || key.code is PageDown || key.code is Left || key.code is Esc,
    ensures
        pressed(s, key, now) == s,
        copy_of(s, key) is None,
{
}

/// While a query loads, the grid takes no command but leaving it.
pub proof fn law_loading_grid_waits(s: AppModel, key: KeyEvent, now: u64)
    requires
        panes(s),
        s.focus == Focus::Grid,
        s.loading,
        !quits(key),
        key.code != KeyCode::Esc,
        key.code != KeyCode::Backspace,
        key.code != KeyCode::Tab,
        key.code != KeyCode::Char('?'),
    ensures
        pressed(s, key, now) == s,
        copy_of(s, key) is None,
{
}

/// `c` copies the selected cell, in the grid and in its detail, and changes nothing.
pub proof fn law_copying_changes_nothing(s: AppModel, now: u64)
    requires
        !s.help,
        s.input is None,
        s.chooser is None,
        s.detail || s.focus == Focus::Grid,
    ensures
        ({
            let key = KeyEvent { code: KeyCode::Char('c'), control: false, alt: false };
            &&& pressed(s, key, now) == s
            &&& copy_of(s, key) == copied(s)
        }),
{
}

/// While an input is open, every key but those that quit, submit or cancel only
/// edits it.
pub proof fn law_typing_reaches_only_the_input(s: AppModel, key: KeyEvent, now: u64)
    requires
        !s.help,
        s.input is Some,
        !quits(key),
        key.code != KeyCode::Enter,
        key.code != KeyCode::Esc,
    ensures
        pressed(s, key, now) == (AppModel { input: Some(edited(s.input->0, key)), ..s }),
{
}

/// `Esc` cancels an input: the query stays and nothing is asked of the database.
pub proof fn law_cancelled_input_asks_nothing(s: AppModel, now: u64)
    requires
        !s.help,
        s.input is Some,
    ensures
        ({
            let key = KeyEvent { code: KeyCode::Esc, control: false, alt: false };
            pressed(s, key, now) == (AppModel { input: None, ..s })
        }),
{
}

/// A submitted filter is kept as it was typed, spaces included; empty text takes the
/// filter away. Either way the first page is asked for, and no other filter changes.
pub proof fn law_filter_is_kept_as_typed(s: AppModel, input: InputModel, name: Seq<char>)
    requires
        s.query is Some,
        input.kind == InputKindModel::Filter(name),
    ensures
        ({
            let q = s.query->0;
            let r = entered(s, input).query->0;
            &&& input.text.len() > 0 ==> r.filters.contains_key(name) && r.filters[name]
                == input.text
            &&& input.text.len() == 0 ==> !r.filters.contains_key(name)
            &&& r.page == 0
            &&& r == (QueryModel { filters: r.filters, page: 0, ..q })
            &&& forall|other: Seq<char>|
                other != name ==> (#[trigger] r.filters.contains_key(other)
                    <==> q.filters.contains_key(other)) && (q.filters.contains_key(other)
                    ==> r.filters[other] == q.filters[other])
        }),
{
}

/// Opening the filter of a column again shows the text that was submitted for it.
pub proof fn law_filter_opens_on_its_text(
    s: AppModel,
    q: QueryModel,
    name: Seq<char>,
    text: Seq<char>,
)
    requires
        s.query == Some(filtered(q, name, text)),
        selected_column(s) == Some(name),
    ensures
        filter_opened(s).input == Some(opened(InputKindModel::Filter(name), text)),
{
    assert(text.len() == 0 ==> text =~= Seq::empty());
}

/// `PgDn` and `PgUp` move by one page and stop at the last and the first; `PgUp`
/// takes `PgDn` back.
pub proof fn law_pages_turn_one_by_one(page: usize, total: usize)
    requires
        page <= last_page(total),
    ensures
        page < last_page(total) ==> turned(page, total, true) == page + 1,
        page == last_page(total) ==> turned(page, total, true) == page,
        page > 0 ==> turned(page, total, false) == page - 1,
        turned(0, total, false) == 0,
        page < last_page(total) ==> turned(turned(page, total, true), total, false) == page,
{
}

/// No request goes out for a page that is already shown.
pub proof fn law_turning_past_the_ends_asks_nothing(s: AppModel, forward: bool)
    requires
        s.query is Some,
        s.page is Some,
        turned(s.query->0.page, s.page->0.total, forward) == s.query->0.page,
    ensures
        page_turned(s, forward) == s,
{
}

/// `Left` from the first column returns to the table list.
pub proof fn law_left_from_the_first_column_returns(s: AppModel, key: KeyEvent, now: u64)
    requires
        panes(s),
        s.focus == Focus::Grid,
        !s.loading,
        s.col == 0,
        key.code == KeyCode::Left,
    ensures
        pressed(s, key, now) == (AppModel { focus: Focus::Tables, ..s }),
{
}

/// `Tab` twice returns to the same pane.
pub proof fn law_tab_twice_returns(s: AppModel, key: KeyEvent, now: u64)
    requires
        panes(s),
        key.code == KeyCode::Tab,
    ensures
        pressed(s, key, now).focus != s.focus,
        pressed(pressed(s, key, now), key, now) == s,
{
}

/// `?` opens the help from the panes, and once more closes it; nothing else has
/// changed.
pub proof fn law_help_comes_and_goes(s: AppModel, key: KeyEvent, now: u64)
    requires
        panes(s),
        key.code == KeyCode::Char('?'),
    ensures
        pressed(s, key, now).help,
        pressed(pressed(s, key, now), key, now) == s,
{
}

/// A notice stays for its time and goes at the first poll after it.
pub proof fn law_notices_expire(s: AppModel, text: Seq<char>, now: u64, later: u64)
    requires
        now + NOTICE_MILLIS <= u64::MAX,
    ensures
        later < now + NOTICE_MILLIS ==> polled(
            notified(s, text, now),
            Seq::empty(),
            later,
        ).notice is Some,
        later >= now + NOTICE_MILLIS ==> polled(
            notified(s, text, now),
            Seq::empty(),
            later,
        ).notice is None,
{
}

/// Every request carries a new number, and the one asked for last is the one that
/// the worker takes up, whatever waits before it.
pub proof fn law_newest_request_is_taken_up(
    w: WorkerModel,
    query: QueryModel,
    add: Option<Seq<char>>,
)
    ensures
        ({
            let after = requested(w, query, add);
            let newest = RequestModel { id: after.generation, query, add };
            &&& after.generation != w.generation
            &&& after.outbox == w.outbox.push(newest)
            &&& chosen(after.outbox[0], after.outbox.drop_first(), after.generation) == Some(
                newest,
            )
        }),
{
    let after = requested(w, query, add);
    let newer = after.outbox.drop_first();
    if newer.len() > 0 {
        assert(newer.last() == after.outbox.last());
    }
}

/// After a cancellation the request that it cancels is not taken up any more.
pub proof fn law_cancelled_request_is_not_taken_up(
    w: WorkerModel,
    query: QueryModel,
    add: Option<Seq<char>>,
)
    ensures
        ({
            let after = cancelled(requested(w, query, add));
            chosen(after.outbox[0], after.outbox.drop_first(), after.generation) is None
        }),
{
    let after = cancelled(requested(w, query, add));
    let newer = after.outbox.drop_first();
    if newer.len() > 0 {
        assert(newer.last() == after.outbox.last());
    }
}

/// A line without control characters.
pub open spec fn clean(text: Seq<char>) -> bool {
    forall|i: int| 0 <= i < text.len() ==> !control(#[trigger] text[i])
}

/// Neither typing nor pasting puts a control character into a line, so that it
/// stays one line.
pub proof fn law_typed_text_is_clean(m: InputModel, s: Seq<char>)
    requires
        m.wf(),
        clean(m.text),
    ensures
        clean(typed(m, s).text),
        typed(m, s).wf(),
{
    let t = typed(m, s);
    let c = cleaned(s);
    broadcast use vstd::seq_lib::group_filter_ensures;

    assert forall|i: int| 0 <= i < t.text.len() implies !control(#[trigger] t.text[i]) by {
        if i < m.cursor {
            assert(t.text[i] == m.text[i]);
        } else if i < m.cursor + c.len() {
            assert(t.text[i] == c[i - m.cursor]);
        } else {
            assert(t.text[i] == m.text[i - c.len()]);
        }
    }
}

/// Every key keeps a line clean.
pub proof fn law_edited_text_is_clean(m: InputModel, key: KeyEvent)
    requires
        m.wf(),
        clean(m.text),
    ensures
        clean(edited(m, key).text),
        edited(m, key).wf(),
{
    if let KeyCode::Char(c) = key.code {
        law_typed_text_is_clean(m, seq![c]);
    }
}

/// `Backspace` takes back what was just typed.
pub proof fn law_backspace_undoes_typing(m: InputModel, c: char)
    requires
        m.wf(),
        !control(c),
    ensures
        ({
            let key = KeyEvent { code: KeyCode::Char(c), control: false, alt: false };
            let back = KeyEvent { code: KeyCode::Backspace, control: false, alt: false };
            edited(edited(m, key), back) == m
        }),
{
    let one = seq![c];
    reveal_with_fuel(Seq::filter, 2);
    assert(one.drop_last() =~= Seq::empty());
    assert(cleaned(one) =~= one);
    let t = typed(m, one);
    assert(t.text.remove(m.cursor as int) =~= m.text);
}

/// The cursor moves by characters: `Left` and then `Delete` removes the one before
/// it, just as `Backspace` does.
pub proof fn law_left_and_delete_is_backspace(m: InputModel)
    requires
        m.wf(),
        m.cursor > 0,
    ensures
        ({
            let left = KeyEvent { code: KeyCode::Left, control: false, alt: false };
            let delete = KeyEvent { code: KeyCode::Delete, control: false, alt: false };
            let back = KeyEvent { code: KeyCode::Backspace, control: false, alt: false };
            edited(edited(m, left), delete) == edited(m, back)
        }),
{
}

/// What reaches the explorer from outside.
pub enum Event {
    Key(KeyEvent, u64),
    Replies(Seq<ReplyModel>, u64),
    Paste(Seq<char>),
    /// A table is clicked.
    Table(usize),
    /// A cell is clicked.
    Cell(usize, usize),
    /// The heading of a column is clicked.
    Heading(usize),
    /// The requests are handed to the database thread.
    Handed,
    /// The screen is drawn, with so many columns in the grid; the lists and the grid
    /// may have scrolled.
    Drawn { fit: usize, list: ListState, grid: TableState, schema_list: ListState },
}

/// What an event does.
#[verifier::opaque]
pub open spec fn happened(s: AppModel, event: Event) -> AppModel {
    match event {
        Event::Key(key, now) => pressed(s, key, now),
        Event::Replies(replies, now) => polled(s, replies, now),
        Event::Paste(text) => pasted(s, text),
        Event::Table(index) => opened_table(AppModel { focus: Focus::Tables, ..s }, index),
        Event::Cell(row, col) => cell_clicked(s, row, col),
        Event::Heading(col) => heading_clicked(s, col),
        Event::Handed => AppModel {
            worker: WorkerModel { outbox: Seq::empty(), ..s.worker },
            ..s
        },
        Event::Drawn { fit, list, grid, schema_list } => in_view(
            AppModel { list, grid, schema_list, ..s },
            fit,
        ),
    }
}

/// The explorer after a series of events.
pub open spec fn history(
    tables: Seq<Seq<char>>,
    worker: WorkerModel,
    events: Seq<Event>,
) -> AppModel
    decreases events.len(),
{
    if events.len() == 0 {
        started(tables, worker)
    } else {
        happened(history(tables, worker, events.drop_last()), events.last())
    }
}

/// A screen has room for one column at least.
pub open spec fn possible(event: Event) -> bool {
    event matches Event::Drawn { fit, .. } ==> fit > 0
}

/// What holds at all times: the explorer is coherent, its selection lies within the
/// page, and the cursors of its inputs lie within their texts.
pub open spec fn sound(s: AppModel) -> bool {
    coherent(s) && within(s) && s.wf()
}

proof fn lemma_replies_keep_soundness(s: AppModel, replies: Seq<ReplyModel>)
    requires
        sound(s),
    ensures
        sound(received_all(s, replies)),
    decreases replies.len(),
{
    if replies.len() > 0 {
        lemma_replies_keep_soundness(s, replies.drop_last());
    }
}

proof fn lemma_keys_keep_cursors(s: AppModel, key: KeyEvent, now: u64)
    requires
        s.wf(),
    ensures
        pressed(s, key, now).wf(),
{
}

proof fn lemma_key_keeps_soundness(s: AppModel, key: KeyEvent, now: u64)
    requires
        sound(s),
    ensures
        sound(pressed(s, key, now)),
{
    law_keys_keep_coherence(s, key, now);
    law_keys_keep_the_selection_within(s, key, now);
    lemma_keys_keep_cursors(s, key, now);
}

proof fn lemma_poll_keeps_soundness(s: AppModel, replies: Seq<ReplyModel>, now: u64)
    requires
        sound(s),
    ensures
        sound(polled(s, replies, now)),
{
    lemma_replies_keep_soundness(s, replies);
}

proof fn lemma_key_happened(s: AppModel, key: KeyEvent, now: u64)
    ensures
        happened(s, Event::Key(key, now)) == pressed(s, key, now),
{
    reveal(happened);
}

proof fn lemma_replies_happened(s: AppModel, replies: Seq<ReplyModel>, now: u64)
    ensures
        happened(s, Event::Replies(replies, now)) == polled(s, replies, now),
{
    reveal(happened);
}

/// What happens that is neither a key nor a reply.
proof fn lemma_other_happened(s: AppModel, event: Event)
    requires
        !(event is Key),
        !(event is Replies),
    ensures
        event matches Event::Paste(text) ==> happened(s, event) == pasted(s, text),
        event matches Event::Table(index) ==> happened(s, event) == opened_table(
            AppModel { focus: Focus::Tables, ..s },
            index,
        ),
        event matches Event::Cell(row, col) ==> happened(s, event) == cell_clicked(s, row, col),
        event matches Event::Heading(col) ==> happened(s, event) == heading_clicked(s, col),
        event is Handed ==> happened(s, event) == (AppModel {
            worker: WorkerModel { outbox: Seq::empty(), ..s.worker },
            ..s
        }),
        event matches Event::Drawn { fit, list, grid, schema_list } ==> happened(s, event)
            == in_view(AppModel { list, grid, schema_list, ..s }, fit),
{
    reveal(happened);
}

proof fn lemma_event_keeps_soundness(s: AppModel, event: Event)
    requires
        sound(s),
        possible(event),
    ensures
        sound(happened(s, event)),
{
    match event {
        Event::Key(key, now) => {
            lemma_key_happened(s, key, now);
            lemma_key_keeps_soundness(s, key, now);
        },
        Event::Replies(replies, now) => {
            lemma_replies_happened(s, replies, now);
            lemma_poll_keeps_soundness(s, replies, now);
        },
        _ => {
            lemma_other_happened(s, event);
        },
    }
}

/// Whatever happens, and in whatever order, the explorer stays sound.
pub proof fn law_every_state_is_sound(
    tables: Seq<Seq<char>>,
    worker: WorkerModel,
    events: Seq<Event>,
)
    requires
        forall|i: int| 0 <= i < events.len() ==> possible(#[trigger] events[i]),
    ensures
        sound(history(tables, worker, events)),
    decreases events.len(),
{
    if events.len() == 0 {
        law_start_is_coherent(tables, worker);
    } else {
        law_every_state_is_sound(tables, worker, events.drop_last());
        lemma_event_keeps_soundness(history(tables, worker, events.drop_last()), events.last());
    }
}

/// The pages that an event brings show a base column.
pub open spec fn brings_base(event: Event) -> bool {
    event matches Event::Replies(replies, _) ==> forall|i: int|
        0 <= i < replies.len() ==> ((#[trigger] replies[i]).result matches Ok(page)
            ==> page_shows_base(page))
}

proof fn lemma_replies_keep_a_base_column(s: AppModel, replies: Seq<ReplyModel>, now: u64)
    requires
        base_visible(s),
        brings_base(Event::Replies(replies, now)),
    ensures
        base_visible(received_all(s, replies)),
    decreases replies.len(),
{
    if replies.len() > 0 {
        let rest = replies.drop_last();
        assert forall|i: int| 0 <= i < rest.len() implies ((#[trigger] rest[i]).result matches Ok(
            page,
        ) ==> page_shows_base(page)) by {
            assert(rest[i] == replies[i]);
        }
        lemma_replies_keep_a_base_column(s, rest, now);
        assert(replies.last() == replies[replies.len() - 1]);
        law_replies_keep_a_base_column(received_all(s, rest), replies.last());
    }
}

/// Whatever happens, and in whatever order, at least one base column remains visible,
/// as long as every page that arrives shows one.
pub proof fn law_every_state_shows_a_base_column(
    tables: Seq<Seq<char>>,
    worker: WorkerModel,
    events: Seq<Event>,
)
    requires
        forall|i: int| 0 <= i < events.len() ==> brings_base(#[trigger] events[i]),
    ensures
        base_visible(history(tables, worker, events)),
    decreases events.len(),
{
    if events.len() > 0 {
        let rest = events.drop_last();
        let s = history(tables, worker, rest);
        assert forall|i: int| 0 <= i < rest.len() implies brings_base(#[trigger] rest[i]) by {
            assert(rest[i] == events[i]);
        }
        law_every_state_shows_a_base_column(tables, worker, rest);
        assert(brings_base(events[events.len() - 1]));
        match events.last() {
            Event::Key(key, now) => {
                lemma_key_happened(s, key, now);
                law_keys_keep_a_base_column(s, key, now);
            },
            Event::Replies(replies, now) => {
                lemma_replies_happened(s, replies, now);
                lemma_replies_keep_a_base_column(s, replies, now);
            },
            _ => {
                lemma_other_happened(s, events.last());
            },
        }
    }
}

/// The request that was put in the outbox last, in a history.
pub open spec fn last_put(
    tables: Seq<Seq<char>>,
    worker: WorkerModel,
    events: Seq<Event>,
) -> Option<RequestModel>
    decreases events.len(),
{
    let now = history(tables, worker, events).worker.outbox;
    if events.len() == 0 {
        if now.len() > worker.outbox.len() {
            Some(now.last())
        } else {
            None
        }
    } else {
        let rest = events.drop_last();
        if now.len() > history(tables, worker, rest).worker.outbox.len() {
            Some(now.last())
        } else {
            last_put(tables, worker, rest)
        }
    }
}

/// The database lists the columns of each table as `schemas` has them, where it lists
/// them at all.
pub open spec fn keeps_schemas(
    db: Database,
    schemas: spec_fn(Seq<char>) -> Seq<ColumnModel>,
) -> bool {
    forall|table: Seq<char>|
        (#[trigger] (db.columns)(schema_statement(table))) matches Ok(infos) ==> schema_of(infos)
            == schemas(table)
}

/// A page that comes back under the number of `request` is what loading it comes to,
/// over a database whose tables keep their columns.
pub open spec fn answers_truly(
    reply: ReplyModel,
    request: RequestModel,
    schemas: spec_fn(Seq<char>) -> Seq<ColumnModel>,
) -> bool {
    reply.id == request.id ==> (reply.result matches Ok(page) ==> exists|db: Database|
        keeps_schemas(db, schemas) && #[trigger] outcome(request.query, request.add, db) == Ok::<
            PageModel,
            LoadErrorModel,
        >(page))
}

/// In a history, every page that answers the request put in the outbox last is what
/// loading that request comes to.
pub open spec fn truthful(
    tables: Seq<Seq<char>>,
    worker: WorkerModel,
    events: Seq<Event>,
    schemas: spec_fn(Seq<char>) -> Seq<ColumnModel>,
) -> bool
    decreases events.len(),
{
    events.len() == 0 || {
        let rest = events.drop_last();
        &&& truthful(tables, worker, rest, schemas)
        &&& events.last() matches Event::Replies(replies, _) ==> last_put(
            tables,
            worker,
            rest,
        ) matches Some(request) ==> forall|i: int|
            0 <= i < replies.len() ==> answers_truly(#[trigger] replies[i], request, schemas)
    }
}

/// The reply that is awaited is the one to `put`, and the query is the one that it
/// asks.
spec fn awaits(s: AppModel, put: Option<RequestModel>) -> bool {
    s.pending matches Some(id) ==> put matches Some(request) && request.id == id && s.query
        == Some(request.query)
}

/// From one state to the next at most one request is put in the outbox, and then it
/// is awaited; else what was awaited, and the query with it, stays or is given up.
spec fn puts_one_at_most(s: AppModel, t: AppModel) -> bool {
    ||| t.worker.outbox.len() == s.worker.outbox.len() + 1 && awaits(
        t,
        Some(t.worker.outbox.last()),
    )
    ||| t.worker.outbox.len() <= s.worker.outbox.len() && (t.pending is None || (t.pending
        == s.pending && t.query == s.query))
}

proof fn lemma_keys_put_one_at_most(s: AppModel, key: KeyEvent, now: u64)
    ensures
        puts_one_at_most(s, pressed(s, key, now)),
{
}

proof fn lemma_replies_put_nothing(s: AppModel, replies: Seq<ReplyModel>)
    ensures
        received_all(s, replies).worker == s.worker,
        puts_one_at_most(s, received_all(s, replies)),
    decreases replies.len(),
{
    if replies.len() > 0 {
        lemma_replies_put_nothing(s, replies.drop_last());
    }
}

proof fn lemma_history_awaits(tables: Seq<Seq<char>>, worker: WorkerModel, events: Seq<Event>)
    ensures
        awaits(history(tables, worker, events), last_put(tables, worker, events)),
    decreases events.len(),
{
    if events.len() > 0 {
        let s = history(tables, worker, events.drop_last());
        lemma_history_awaits(tables, worker, events.drop_last());
        match events.last() {
            Event::Key(key, now) => {
                lemma_key_happened(s, key, now);
                lemma_keys_put_one_at_most(s, key, now);
            },
            Event::Replies(replies, now) => {
                lemma_replies_happened(s, replies, now);
                lemma_replies_put_nothing(s, replies);
            },
            _ => {
                lemma_other_happened(s, events.last());
            },
        }
        assert(puts_one_at_most(s, happened(s, events.last())));
    }
}

/// A query that leaves a base column of its table visible, where the table has one.
spec fn asks_base(q: QueryModel, schemas: spec_fn(Seq<char>) -> Seq<ColumnModel>) -> bool {
    &&& q.hidden.finite()
    &&& schemas(q.table).len() > 0 ==> shows_base(schemas(q.table), q.hidden)
}

/// The query and the page are of one table, have its columns, and leave a base column
/// visible.
spec fn on_base(s: AppModel, schemas: spec_fn(Seq<char>) -> Seq<ColumnModel>) -> bool {
    &&& s.query matches Some(q) ==> asks_base(q, schemas)
    &&& s.page matches Some(page) ==> {
        &&& page.schema == schemas(page.query.table)
        &&& page_shows_base(page)
        &&& s.query matches Some(q) && q.table == page.query.table
    }
}

proof fn lemma_on_base_is_visible(s: AppModel, schemas: spec_fn(Seq<char>) -> Seq<ColumnModel>)
    requires
        on_base(s, schemas),
    ensures
        base_visible(s),
{
}

proof fn lemma_fresh_query_asks_base(
    table: Seq<char>,
    schemas: spec_fn(Seq<char>) -> Seq<ColumnModel>,
)
    ensures
        asks_base(fresh_query(table), schemas),
{
    let hidden = fresh_query(table).hidden;
    if schemas(table).len() > 0 {
        assert(!hidden.contains(schemas(table)[0].name));
    }
}

/// A table is opened, or the table and the page stay; without a page, so does what is
/// hidden.
spec fn stays_or_opens(s: AppModel, t: AppModel) -> bool {
    ||| t.page is None && (t.query matches Some(q) && q == fresh_query(q.table))
    ||| t.page == s.page && (t.query is Some == s.query is Some) && (s.query matches Some(q) ==> {
        &&& s.page is None ==> t.query->0.table == q.table && t.query->0.hidden == q.hidden
        &&& s.page matches Some(page) ==> page.query.table == q.table ==> t.query->0.table
            == q.table
    })
}

proof fn lemma_keys_stay_or_open(s: AppModel, key: KeyEvent, now: u64)
    requires
        s.page is Some ==> s.query is Some,
    ensures
        stays_or_opens(s, pressed(s, key, now)),
{
}

proof fn lemma_keys_stay_on_base(
    s: AppModel,
    key: KeyEvent,
    now: u64,
    schemas: spec_fn(Seq<char>) -> Seq<ColumnModel>,
)
    requires
        on_base(s, schemas),
    ensures
        on_base(pressed(s, key, now), schemas),
{
    let t = pressed(s, key, now);
    lemma_on_base_is_visible(s, schemas);
    law_keys_keep_a_base_column(s, key, now);
    lemma_keys_stay_or_open(s, key, now);
    if let Some(q) = t.query {
        lemma_fresh_query_asks_base(q.table, schemas);
    }
}

proof fn lemma_reply_stays_on_base(
    s: AppModel,
    reply: ReplyModel,
    put: Option<RequestModel>,
    schemas: spec_fn(Seq<char>) -> Seq<ColumnModel>,
)
    requires
        on_base(s, schemas),
        awaits(s, put),
        put matches Some(request) ==> answers_truly(reply, request, schemas),
        forall|table: Seq<char>| column_names(#[trigger] schemas(table)).no_duplicates(),
    ensures
        on_base(received(s, reply), schemas),
{
    if s.pending == Some(reply.id) {
        if let Ok(page) = reply.result {
            let request = put->0;
            let q = request.query;
            let db = choose|db: Database|
                keeps_schemas(db, schemas) && #[trigger] outcome(request.query, request.add, db)
                    == Ok::<PageModel, LoadErrorModel>(page);
            law_loaded_page_answers_the_query(q, request.add, db, page);
            assert((db.columns)(schema_statement(q.table)) is Ok);
            assert(page.schema == schemas(q.table));
            assert(column_names(schemas(q.table)).no_duplicates());
            law_loaded_pages_show_a_base_column(q, request.add, db, page);
            assert(page.query.table == q.table);
        }
    }
}

proof fn lemma_replies_stay_on_base(
    s: AppModel,
    replies: Seq<ReplyModel>,
    put: Option<RequestModel>,
    schemas: spec_fn(Seq<char>) -> Seq<ColumnModel>,
)
    requires
        on_base(s, schemas),
        awaits(s, put),
        put matches Some(request) ==> forall|i: int|
            0 <= i < replies.len() ==> answers_truly(#[trigger] replies[i], request, schemas),
        forall|table: Seq<char>| column_names(#[trigger] schemas(table)).no_duplicates(),
    ensures
        on_base(received_all(s, replies), schemas),
    decreases replies.len(),
{
    if replies.len() > 0 {
        let rest = replies.drop_last();
        if let Some(request) = put {
            assert forall|i: int| 0 <= i < rest.len() implies answers_truly(
                #[trigger] rest[i],
                request,
                schemas,
            ) by {
                assert(rest[i] == replies[i]);
            }
            assert(answers_truly(replies[replies.len() - 1], request, schemas));
        }
        lemma_replies_stay_on_base(s, rest, put, schemas);
        lemma_replies_put_nothing(s, rest);
        lemma_reply_stays_on_base(received_all(s, rest), replies.last(), put, schemas);
    }
}

proof fn lemma_history_stays_on_base(
    tables: Seq<Seq<char>>,
    worker: WorkerModel,
    events: Seq<Event>,
    schemas: spec_fn(Seq<char>) -> Seq<ColumnModel>,
)
    requires
        truthful(tables, worker, events, schemas),
        forall|table: Seq<char>| column_names(#[trigger] schemas(table)).no_duplicates(),
    ensures
        on_base(history(tables, worker, events), schemas),
    decreases events.len(),
{
    if events.len() == 0 {
        if tables.len() > 0 {
            lemma_fresh_query_asks_base(tables[0], schemas);
        }
    } else {
        let rest = events.drop_last();
        let s = history(tables, worker, rest);
        lemma_history_stays_on_base(tables, worker, rest, schemas);
        match events.last() {
            Event::Key(key, now) => {
                lemma_key_happened(s, key, now);
                lemma_keys_stay_on_base(s, key, now, schemas);
            },
            Event::Replies(replies, now) => {
                lemma_replies_happened(s, replies, now);
                lemma_history_awaits(tables, worker, rest);
                lemma_replies_stay_on_base(s, replies, last_put(tables, worker, rest), schemas);
            },
            Event::Table(index) => {
                lemma_other_happened(s, events.last());
                if index < s.tables.len() {
                    lemma_fresh_query_asks_base(s.tables[index as int], schemas);
                }
            },
            _ => {
                lemma_other_happened(s, events.last());
            },
        }
    }
}

/// At least one base column remains visible, whatever happens and in whatever order:
/// the pages that arrive are what loading the requests comes to, and each table keeps
/// its columns, whose names differ.
pub proof fn law_a_base_column_remains_visible(
    tables: Seq<Seq<char>>,
    worker: WorkerModel,
    events: Seq<Event>,
    schemas: spec_fn(Seq<char>) -> Seq<ColumnModel>,
)
    requires
        truthful(tables, worker, events, schemas),
        forall|table: Seq<char>| column_names(#[trigger] schemas(table)).no_duplicates(),
    ensures
        base_visible(history(tables, worker, events)),
{
    lemma_history_stays_on_base(tables, worker, events, schemas);
    lemma_on_base_is_visible(history(tables, worker, events), schemas);
}

/// A draw leaves the selected column on screen.
pub proof fn law_selected_column_comes_into_view(s: AppModel, fit: usize)
    requires
        fit > 0,
    ensures
        in_view(s, fit).first_col <= s.col < in_view(s, fit).first_col + fit,
        in_view(s, fit).col == s.col,
        in_view(in_view(s, fit), fit) == in_view(s, fit),
{
}

proof fn lemma_hex_len(b: Seq<u8>)
    ensures
        hex(b).len() == 2 * b.len(),
    decreases b.len(),
{
    if b.len() > 0 {
        lemma_hex_len(b.drop_last());
    }
}

proof fn lemma_hex_tells(a: Seq<u8>, b: Seq<u8>)
    requires
        hex(a) == hex(b),
    ensures
        a == b,
    decreases a.len(),
{
    lemma_hex_len(a);
    lemma_hex_len(b);
    if a.len() > 0 {
        let (x, y) = (a.last() as int, b.last() as int);
        let n = hex(a).len() as int;
        assert(hex(a)[n - 1] == hex_digit(x % 16) && hex(b)[n - 1] == hex_digit(y % 16));
        assert(hex(a)[n - 2] == hex_digit(x / 16) && hex(b)[n - 2] == hex_digit(y / 16));
        assert(hex(a.drop_last()) =~= hex(a).take(n - 2));
        assert(hex(b.drop_last()) =~= hex(b).take(n - 2));
        lemma_hex_tells(a.drop_last(), b.drop_last());
        assert(a =~= a.drop_last().push(a.last()));
        assert(b =~= b.drop_last().push(b.last()));
    } else {
        assert(a =~= b);
    }
}

proof fn lemma_decimal_tells(m: nat, n: nat)
    requires
        decimal(m) == decimal(n),
    ensures
        m == n,
    decreases m,
{
    let (x, y) = (decimal(m), decimal(n));
    assert(x.last() == digit(m % 10) && y.last() == digit(n % 10));
    lemma_decimal_nonempty(m / 10);
    lemma_decimal_nonempty(n / 10);
    if m >= 10 && n >= 10 {
        assert(x.drop_last() =~= decimal(m / 10));
        assert(y.drop_last() =~= decimal(n / 10));
        lemma_decimal_tells(m / 10, n / 10);
    }
}

proof fn lemma_decimal_nonempty(n: nat)
    ensures
        decimal(n).len() > 0,
        decimal(n)[0] != '-',
    decreases n,
{
    if n >= 10 {
        lemma_decimal_nonempty(n / 10);
    }
}

/// The text of a cell tells its value among cells of its kind: what is copied
/// determines what was in the database.
pub proof fn law_cell_text_tells_the_value(v: ValueModel, w: ValueModel)
    requires
        value_text(v) == value_text(w),
        v is Null == w is Null,
        v is Integer == w is Integer,
        v is Real == w is Real,
        v is Text == w is Text,
    ensures
        v == w,
{
    reveal_strlit("X'");
    reveal_strlit("'");
    reveal_strlit("-");
    match (v, w) {
        (ValueModel::Blob(a), ValueModel::Blob(b)) => {
            let n = value_text(v).len() as int;
            assert(hex(a) =~= value_text(v).subrange(2, n - 1));
            assert(hex(b) =~= value_text(w).subrange(2, n - 1));
            lemma_hex_tells(a, b);
        },
        (ValueModel::Integer(a), ValueModel::Integer(b)) => {
            let (m, n) = (
                if a < 0 {
                    -a as int
                } else {
                    a as int
                },
                if b < 0 {
                    -b as int
                } else {
                    b as int
                },
            );
            lemma_decimal_nonempty(m as nat);
            lemma_decimal_nonempty(n as nat);
            assert(a < 0 ==> signed_decimal(a as int).skip(1) =~= decimal(m as nat));
            assert(b < 0 ==> signed_decimal(b as int).skip(1) =~= decimal(n as nat));
            assert((a < 0) == (b < 0)) by {
                assert((a < 0) == (value_text(v)[0] == '-'));
                assert((b < 0) == (value_text(w)[0] == '-'));
            }
            lemma_decimal_tells(m as nat, n as nat);
        },
        _ => {},
    }
}

} // verus!
