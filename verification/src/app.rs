//! The state of the explorer and what each key, reply and tick does to it. Nothing
//! here reads a terminal, a clock or a database: keys, times and replies come in as
//! values, and requests and copied text go out as values.
use vstd::prelude::*;
use vstd::string::*;

use crate::db::{
    expressions_of, fresh_query, labels, Expression, ExpressionModel, Page, PageModel, Query,
    QueryModel, Value, ValueModel,
};
use crate::input::{typed, Input, InputModel};
use crate::load::{error_message, text_of};
use crate::text::texts;
use crate::worker::{replies_of, requested, Reply, ReplyModel, Worker, WorkerModel};

verus! {

/// Milliseconds that a notice stays.
pub const NOTICE_MILLIS: u64 = 3000;

/// Which pane the keys go to.
#[derive(Clone, Copy, Debug, PartialEq, Eq, Structural)]
pub enum Focus {
    Tables,
    Grid,
}

/// Where a list stands: its first item on screen and the selected one.
#[derive(Clone, Copy, Debug, PartialEq, Eq)]
pub struct ListState {
    pub offset: usize,
    pub selected: Option<usize>,
}

impl ListState {
    /// At the top, with nothing selected.
    pub open spec fn top() -> ListState {
        ListState { offset: 0, selected: None }
    }

    pub fn new() -> (s: Self)
        ensures
            s == ListState::top(),
    {
        ListState { offset: 0, selected: None }
    }
}

/// Where the grid stands: its first row on screen, the selected row and column.
#[derive(Clone, Copy, Debug, PartialEq, Eq)]
pub struct TableState {
    pub offset: usize,
    pub selected: Option<usize>,
    pub selected_column: Option<usize>,
}

impl TableState {
    /// At the top, with nothing selected.
    pub open spec fn top() -> TableState {
        TableState { offset: 0, selected: None, selected_column: None }
    }

    pub fn new() -> (s: Self)
        ensures
            s == TableState::top(),
    {
        TableState { offset: 0, selected: None, selected_column: None }
    }
}

/// The explorer.
pub struct App {
    pub tables: Vec<String>,
    pub list: ListState,
    pub grid: TableState,
    pub focus: Focus,
    pub query: Option<Query>,
    pub page: Option<Page>,
    pub row: usize,
    pub col: usize,
    pub first_col: usize,
    pub input: Option<Input>,
    pub detail: bool,
    pub detail_scroll: (u16, u16),
    pub help: bool,
    pub chooser: Option<usize>,
    pub schema_list: ListState,
    pub loading: bool,
    pub error: Option<String>,
    /// A text, and the time in milliseconds until which it is shown.
    pub notice: Option<(String, u64)>,
    pub quit: bool,
    pub worker: Worker,
    /// The request whose reply is awaited.
    pub pending: Option<u64>,
    /// The input to open again where its request fails.
    pub retry_input: Option<Input>,
}

#[verifier::ext_equal]
pub struct AppModel {
    pub tables: Seq<Seq<char>>,
    pub list: ListState,
    pub grid: TableState,
    pub focus: Focus,
    pub query: Option<QueryModel>,
    pub page: Option<PageModel>,
    pub row: usize,
    pub col: usize,
    pub first_col: usize,
    pub input: Option<InputModel>,
    pub detail: bool,
    pub detail_scroll: (u16, u16),
    pub help: bool,
    pub chooser: Option<usize>,
    pub schema_list: ListState,
    pub loading: bool,
    pub error: Option<Seq<char>>,
    pub notice: Option<(Seq<char>, u64)>,
    pub quit: bool,
    pub worker: WorkerModel,
    pub pending: Option<u64>,
    pub retry_input: Option<InputModel>,
}

pub open spec fn query_of(q: Option<Query>) -> Option<QueryModel> {
    match q {
        Some(q) => Some(q@),
        None => None,
    }
}

pub open spec fn page_of(p: Option<Page>) -> Option<PageModel> {
    match p {
        Some(p) => Some(p@),
        None => None,
    }
}

pub open spec fn input_of(i: Option<Input>) -> Option<InputModel> {
    match i {
        Some(i) => Some(i@),
        None => None,
    }
}

pub open spec fn notice_of(n: Option<(String, u64)>) -> Option<(Seq<char>, u64)> {
    match n {
        Some((text, until)) => Some((text@, until)),
        None => None,
    }
}

impl View for App {
    type V = AppModel;

    open spec fn view(&self) -> AppModel {
        AppModel {
            tables: texts(self.tables@),
            list: self.list,
            grid: self.grid,
            focus: self.focus,
            query: query_of(self.query),
            page: page_of(self.page),
            row: self.row,
            col: self.col,
            first_col: self.first_col,
            input: input_of(self.input),
            detail: self.detail,
            detail_scroll: self.detail_scroll,
            help: self.help,
            chooser: self.chooser,
            schema_list: self.schema_list,
            loading: self.loading,
            error: text_of(self.error),
            notice: notice_of(self.notice),
            quit: self.quit,
            worker: self.worker@,
            pending: self.pending,
            retry_input: input_of(self.retry_input),
        }
    }
}

impl AppModel {
    /// The cursors of the inputs stand within their texts.
    pub open spec fn wf(self) -> bool {
        &&& self.input matches Some(i) ==> i.wf()
        &&& self.retry_input matches Some(i) ==> i.wf()
    }
}

/// `a`, but not above `b`.
pub open spec fn at_most(a: usize, b: int) -> usize {
    if a <= b {
        a
    } else {
        b as usize
    }
}

/// The last place among `len`, 0 where there is none.
pub open spec fn last_place(len: nat) -> int {
    if len == 0 {
        0
    } else {
        len - 1
    }
}

/// `n` moved by `by`, within what a `usize` holds.
pub open spec fn shifted(n: usize, by: int) -> usize {
    if n + by < 0 {
        0
    } else if n + by > usize::MAX {
        usize::MAX
    } else {
        (n + by) as usize
    }
}

/// The explorer before its first table is opened.
pub open spec fn blank(tables: Seq<Seq<char>>, worker: WorkerModel) -> AppModel {
    AppModel {
        tables,
        list: ListState::top(),
        grid: TableState::top(),
        focus: Focus::Tables,
        query: None,
        page: None,
        row: 0,
        col: 0,
        first_col: 0,
        input: None,
        detail: false,
        detail_scroll: (0, 0),
        help: false,
        chooser: None,
        schema_list: ListState::top(),
        loading: false,
        error: None,
        notice: None,
        quit: false,
        worker,
        pending: None,
        retry_input: None,
    }
}

/// The explorer at start: the first table, if there is one, is being loaded.
pub open spec fn started(tables: Seq<Seq<char>>, worker: WorkerModel) -> AppModel {
    let s = blank(tables, worker);
    if tables.len() == 0 {
        s
    } else {
        opened_table(s, 0)
    }
}

/// A query is sent to the worker and awaited.
pub open spec fn submitted(s: AppModel, query: QueryModel, add: Option<Seq<char>>) -> AppModel {
    let worker = requested(s.worker, query, add);
    AppModel {
        worker,
        pending: Some(worker.generation),
        query: Some(query),
        loading: true,
        error: None,
        retry_input: None,
        ..s
    }
}

/// Table `index` is opened from its first page, unless it is the selected one or
/// does not exist.
pub open spec fn opened_table(s: AppModel, index: usize) -> AppModel {
    if index >= s.tables.len() || s.list.selected == Some(index) {
        s
    } else {
        submitted(
            AppModel {
                list: ListState { selected: Some(index), ..s.list },
                page: None,
                row: 0,
                col: 0,
                first_col: 0,
                grid: TableState::top(),
                ..s
            },
            fresh_query(s.tables[index as int]),
            None,
        )
    }
}

/// A notice is shown from `now` on.
pub open spec fn notified(s: AppModel, text: Seq<char>, now: u64) -> AppModel {
    AppModel { notice: Some((text, (now + NOTICE_MILLIS) as u64)), ..s }
}

/// The selection is brought back into the page.
pub open spec fn clamped(s: AppModel) -> AppModel {
    match s.page {
        Some(page) => {
            let row = at_most(s.row, last_place(page.rows.len()));
            let col = at_most(s.col, last_place(page.columns.len()));
            AppModel { row, col, first_col: at_most(s.first_col, col as int), ..s }
        },
        None => s,
    }
}

/// The selected cell, where nothing is being loaded and it exists.
pub open spec fn selected_cell(s: AppModel) -> Option<ValueModel> {
    if s.loading {
        None
    } else {
        match s.page {
            Some(page) => if s.row < page.rows.len() && s.col < page.rows[s.row as int].len() {
                Some(page.rows[s.row as int][s.col as int])
            } else {
                None
            },
            None => None,
        }
    }
}

/// The name of the selected column.
pub open spec fn selected_column(s: AppModel) -> Option<Seq<char>> {
    match s.page {
        Some(page) => if s.col < page.columns.len() {
            Some(page.columns[s.col as int])
        } else {
            None
        },
        None => None,
    }
}

/// The selection moves by rows and columns.
pub open spec fn moved(s: AppModel, rows: int, cols: int) -> AppModel {
    AppModel {
        detail_scroll: (0, 0),
        ..clamped(AppModel { row: shifted(s.row, rows), col: shifted(s.col, cols), ..s })
    }
}

/// A cell is clicked: the grid has the focus and the cell, brought into the page, is
/// selected.
pub open spec fn cell_clicked(s: AppModel, row: usize, col: usize) -> AppModel {
    clamped(AppModel { focus: Focus::Grid, row, col, ..s })
}

/// The heading of a column is clicked: the grid has the focus and the column is
/// selected, in the same row.
pub open spec fn heading_clicked(s: AppModel, col: usize) -> AppModel {
    cell_clicked(s, s.row, col)
}

/// The grid is scrolled sideways, as far as need be, so that the selected column is
/// among the `fit` that are on screen.
pub open spec fn in_view(s: AppModel, fit: usize) -> AppModel {
    AppModel {
        first_col: if s.first_col > s.col {
            s.col
        } else if s.col - s.first_col >= fit {
            (s.col - fit + 1) as usize
        } else {
            s.first_col
        },
        ..s
    }
}

/// The selected column is sorted by; the same sort again is taken back.
pub open spec fn sorted(s: AppModel, descending: bool) -> AppModel {
    match (s.query, selected_column(s)) {
        (Some(q), Some(name)) => {
            let sort = Some((name, descending));
            submitted(
                AppModel { row: 0, ..s },
                QueryModel {
                    sort: if q.sort == sort {
                        None
                    } else {
                        sort
                    },
                    page: 0,
                    ..q
                },
                None,
            )
        },
        _ => s,
    }
}

/// Base column `index` is hidden, or shown again. The last one that is visible is
/// not hidden.
pub open spec fn toggled(s: AppModel, index: usize, now: u64) -> AppModel {
    match (s.page, s.query) {
        (Some(page), Some(q)) => if index >= page.schema.len() {
            s
        } else {
            let name = page.schema[index as int].name;
            if q.hidden.contains(name) {
                submitted(s, QueryModel { hidden: q.hidden.remove(name), ..q }, None)
            } else if page.schema.len() - q.hidden.len() <= 1 {
                notified(s, "Keep at least one base column visible"@, now)
            } else {
                submitted(s, QueryModel { hidden: q.hidden.insert(name), ..q }, None)
            }
        },
        _ => s,
    }
}

/// `q` without the expression `name`, its filter and its sort, from the first page.
pub open spec fn without_expression(q: QueryModel, name: Seq<char>) -> QueryModel {
    QueryModel {
        expressions: q.expressions.filter(|e: ExpressionModel| e.label != name),
        filters: q.filters.remove(name),
        sort: match q.sort {
            Some((column, _)) => if column == name {
                None
            } else {
                q.sort
            },
            None => None,
        },
        page: 0,
        ..q
    }
}

/// The selected expression is removed.
pub open spec fn expression_removed(s: AppModel, now: u64) -> AppModel {
    match (s.query, selected_column(s)) {
        (Some(q), Some(name)) => if !labels(q.expressions).contains(name) {
            notified(s, "Select an expression column to remove it"@, now)
        } else {
            submitted(s, without_expression(q, name), None)
        },
        _ => s,
    }
}

/// The query of the page that is shown, where there is one.
pub open spec fn shown_query(s: AppModel) -> Option<QueryModel> {
    match s.page {
        Some(page) => Some(page.query),
        None => s.query,
    }
}

/// Whether a reply answers the request that is awaited.
pub open spec fn awaited(s: AppModel, reply: ReplyModel) -> bool {
    s.pending == Some(reply.id)
}

/// Where the page puts the column that was selected: at its name, where it has one.
pub open spec fn followed(s: AppModel, page: PageModel) -> usize {
    match selected_column(s) {
        Some(name) => match page.columns.index_of_first(name) {
            Some(i) => i as usize,
            None => s.col,
        },
        None => s.col,
    }
}

/// A reply arrives. Only the awaited one counts: a page is shown, with the same
/// column selected; a failure is shown, with the last page and its query kept and
/// the input that caused it open again.
pub open spec fn received(s: AppModel, reply: ReplyModel) -> AppModel {
    if !awaited(s, reply) {
        s
    } else {
        let s1 = AppModel { pending: None, loading: false, ..s };
        match reply.result {
            Ok(page) => clamped(
                AppModel {
                    retry_input: None,
                    col: followed(s1, page),
                    query: Some(page.query),
                    page: Some(page),
                    ..s1
                },
            ),
            Err(e) => AppModel {
                error: Some(error_message(e)),
                input: s1.retry_input,
                retry_input: None,
                query: shown_query(s1),
                ..s1
            },
        }
    }
}

/// Replies arrive one after another.
pub open spec fn received_all(s: AppModel, replies: Seq<ReplyModel>) -> AppModel
    decreases replies.len(),
{
    if replies.len() == 0 {
        s
    } else {
        received(received_all(s, replies.drop_last()), replies.last())
    }
}

/// Whether one of the replies was awaited when it arrived.
pub open spec fn any_awaited(s: AppModel, replies: Seq<ReplyModel>) -> bool
    decreases replies.len(),
{
    replies.len() > 0 && (any_awaited(s, replies.drop_last()) || awaited(
        received_all(s, replies.drop_last()),
        replies.last(),
    ))
}

/// Whether the notice has had its time.
pub open spec fn expired(s: AppModel, now: u64) -> bool {
    s.notice matches Some((_, until)) && now >= until
}

/// Replies arrive, and a notice that has had its time goes.
pub open spec fn polled(s: AppModel, replies: Seq<ReplyModel>, now: u64) -> AppModel {
    let s1 = received_all(s, replies);
    if expired(s1, now) {
        AppModel { notice: None, ..s1 }
    } else {
        s1
    }
}

/// Text is pasted into the open input.
pub open spec fn pasted(s: AppModel, text: Seq<char>) -> AppModel {
    match s.input {
        Some(i) => AppModel { input: Some(typed(i, text)), ..s },
        None => s,
    }
}

impl App {
    /// An explorer of `tables`, which opens the first one.
    pub fn new(tables: Vec<String>, worker: Worker) -> (app: Self)
        ensures
            app@ == started(texts(tables@), worker@),
            app@.wf(),
    {
        let mut app = App {
            tables,
            list: ListState::new(),
            grid: TableState::new(),
            focus: Focus::Tables,
            query: None,
            page: None,
            row: 0,
            col: 0,
            first_col: 0,
            input: None,
            detail: false,
            detail_scroll: (0, 0),
            help: false,
            chooser: None,
            schema_list: ListState::new(),
            loading: false,
            error: None,
            notice: None,
            quit: false,
            worker,
            pending: None,
            retry_input: None,
        };
        assert(app@ =~= blank(texts(tables@), worker@));
        if app.tables.len() > 0 {
            app.select_table(0);
        }
        app
    }

    pub(crate) fn submit(&mut self, query: Query, add: Option<String>)
        ensures
            final(self)@ == submitted(old(self)@, query@, text_of(add)),
    {
        let id = self.worker.request(query.clone(), add);
        self.pending = Some(id);
        self.query = Some(query);
        self.loading = true;
        self.error = None;
        self.retry_input = None;
    }

    /// Opens a table, unless it is already selected.
    pub fn select_table(&mut self, index: usize)
        ensures
            final(self)@ == opened_table(old(self)@, index),
            old(self)@.wf() ==> final(self)@.wf(),
    {
        if index >= self.tables.len() {
            return;
        }
        if let Some(selected) = self.list.selected {
            if selected == index {
                return;
            }
        }
        self.list.selected = Some(index);
        self.page = None;
        self.row = 0;
        self.col = 0;
        self.first_col = 0;
        self.grid = TableState::new();
        let table = self.tables[index].clone();
        self.submit(Query::new(table), None);
    }

    /// Shows a notice for a while.
    pub fn notify(&mut self, text: &str, now: u64)
        requires
            now + NOTICE_MILLIS <= u64::MAX,
        ensures
            final(self)@ == notified(old(self)@, text@, now),
    {
        self.notice = Some((text.to_owned(), now + NOTICE_MILLIS));
    }

    /// Brings the selection back into the page.
    pub fn clamp_selection(&mut self)
        ensures
            final(self)@ == clamped(old(self)@),
    {
        if let Some(page) = &self.page {
            let last_row: usize = page.rows.len().saturating_sub(1);
            let last_col: usize = page.columns.len().saturating_sub(1);
            assert(page@.rows.len() == page.rows@.len());
            assert(page@.columns.len() == page.columns@.len());
            if self.row > last_row {
                self.row = last_row;
            }
            if self.col > last_col {
                self.col = last_col;
            }
            if self.first_col > self.col {
                self.first_col = self.col;
            }
        }
    }

    /// The selected cell.
    pub fn cell(&self) -> (v: Option<&Value>)
        ensures
            match v {
                Some(v) => selected_cell(self@) == Some(v@),
                None => selected_cell(self@) is None,
            },
    {
        if self.loading {
            return None;
        }
        match &self.page {
            Some(page) => {
                assert(page@.rows.len() == page.rows@.len());
                if self.row < page.rows.len() {
                    let row = &page.rows[self.row];
                    assert(page@.rows[self.row as int].len() == row@.len());
                    if self.col < row.len() {
                        return Some(&row[self.col]);
                    }
                }
                None
            },
            None => None,
        }
    }

    /// The name of the selected column.
    pub fn column(&self) -> (name: Option<String>)
        ensures
            text_of(name) == selected_column(self@),
    {
        match &self.page {
            Some(page) => {
                assert(page@.columns.len() == page.columns@.len());
                if self.col < page.columns.len() {
                    Some(page.columns[self.col].clone())
                } else {
                    None
                }
            },
            None => None,
        }
    }

    /// Moves the selection.
    pub fn move_cell(&mut self, rows: isize, cols: isize)
        ensures
            final(self)@ == moved(old(self)@, rows as int, cols as int),
    {
        self.row = shift(self.row, rows);
        self.col = shift(self.col, cols);
        self.clamp_selection();
        self.detail_scroll = (0, 0);
    }

    /// Selects a clicked cell.
    pub fn click_cell(&mut self, row: usize, col: usize)
        ensures
            final(self)@ == cell_clicked(old(self)@, row, col),
    {
        self.focus = Focus::Grid;
        self.row = row;
        self.col = col;
        self.clamp_selection();
    }

    /// Selects the column of a clicked heading.
    pub fn click_heading(&mut self, col: usize)
        ensures
            final(self)@ == heading_clicked(old(self)@, col),
    {
        self.click_cell(self.row, col);
    }

    /// Scrolls the grid sideways to the selected column, where `fit` columns are on
    /// screen.
    pub fn bring_into_view(&mut self, fit: usize)
        requires
            fit > 0,
        ensures
            final(self)@ == in_view(old(self)@, fit),
    {
        if self.first_col > self.col {
            self.first_col = self.col;
        } else if self.col - self.first_col >= fit {
            self.first_col = self.col - fit + 1;
        }
    }

    /// Sorts by the selected column; the same sort again takes it back.
    pub fn sort(&mut self, descending: bool)
        ensures
            final(self)@ == sorted(old(self)@, descending),
            old(self)@.wf() ==> final(self)@.wf(),
    {
        let query = self.query.clone();
        let column = self.column();
        if let (Some(mut q), Some(name)) = (query, column) {
            let same = match &q.sort {
                Some((by, direction)) => *by == name && *direction == descending,
                None => false,
            };
            q.sort = if same {
                None
            } else {
                Some((name, descending))
            };
            q.page = 0;
            self.row = 0;
            self.submit(q, None);
        }
    }

    /// Hides a base column, or shows it again; the last visible one stays.
    pub fn toggle_column(&mut self, index: usize, now: u64)
        requires
            now + NOTICE_MILLIS <= u64::MAX,
        ensures
            final(self)@ == toggled(old(self)@, index, now),
            old(self)@.wf() ==> final(self)@.wf(),
    {
        let query = self.query.clone();
        let mut q = match query {
            Some(q) => q,
            None => {
                return;
            },
        };
        let (name, columns): (String, usize) = match &self.page {
            Some(page) => {
                assert(page@.schema.len() == page.schema@.len());
                if index >= page.schema.len() {
                    return;
                }
                (page.schema[index].name.clone(), page.schema.len())
            },
            None => {
                return;
            },
        };
        let ghost before = q@;
        if !q.hidden.remove(&name) {
            assert(before.hidden.remove(name@) =~= before.hidden);
            if columns.saturating_sub(q.hidden.len()) <= 1 {
                self.notify("Keep at least one base column visible", now);
                return;
            }
            q.hidden.insert(name);
        }
        self.submit(q, None);
    }

    /// Removes the selected expression, its filter and its sort.
    pub fn remove_expression(&mut self, now: u64)
        requires
            now + NOTICE_MILLIS <= u64::MAX,
        ensures
            final(self)@ == expression_removed(old(self)@, now),
            old(self)@.wf() ==> final(self)@.wf(),
    {
        let query = self.query.clone();
        let column = self.column();
        if let (Some(mut q), Some(name)) = (query, column) {
            let ghost before = q@;
            let kept = other_expressions(&q.expressions, &name);
            proof {
                lemma_all_kept(before.expressions, name@);
                assert(expressions_of(kept@).len() == kept@.len());
                assert(expressions_of(q.expressions@).len() == q.expressions@.len());
            }
            if kept.len() == q.expressions.len() {
                self.notify("Select an expression column to remove it", now);
                return;
            }
            q.expressions = kept;
            q.filters.remove(&name);
            let gone = match &q.sort {
                Some((by, _)) => *by == name,
                None => false,
            };
            if gone {
                q.sort = None;
            }
            q.page = 0;
            assert(q@ =~= without_expression(before, name@));
            self.submit(q, None);
        }
    }

    /// Takes in a reply; tells whether it was awaited.
    fn receive(&mut self, reply: Reply) -> (changed: bool)
        ensures
            final(self)@ == received(old(self)@, reply@),
            changed == awaited(old(self)@, reply@),
            old(self)@.wf() ==> final(self)@.wf(),
    {
        match self.pending {
            Some(id) => {
                if id != reply.id {
                    return false;
                }
            },
            None => {
                return false;
            },
        }
        self.pending = None;
        self.loading = false;
        match reply.result {
            Ok(page) => {
                self.retry_input = None;
                if let Some(name) = self.column() {
                    if let Some(index) = position(&page.columns, &name) {
                        self.col = index;
                    }
                }
                self.query = Some(page.query.clone());
                self.page = Some(page);
                self.clamp_selection();
            },
            Err(e) => {
                self.error = Some(e.message());
                self.input = self.retry_input.take();
                let shown = match &self.page {
                    Some(page) => Some(page.query.clone()),
                    None => None,
                };
                if let Some(query) = shown {
                    self.query = Some(query);
                }
            },
        }
        true
    }

    /// Takes in the replies that have arrived, and lets a notice go that has had its
    /// time; tells whether anything changed.
    pub fn poll(&mut self, replies: Vec<Reply>, now: u64) -> (changed: bool)
        ensures
            final(self)@ == polled(old(self)@, replies_of(replies@), now),
            changed == (any_awaited(old(self)@, replies_of(replies@)) || expired(
                received_all(old(self)@, replies_of(replies@)),
                now,
            )),
            old(self)@.wf() ==> final(self)@.wf(),
    {
        let ghost all = replies_of(replies@);
        let ghost s0 = self@;
        let mut changed: bool = false;
        for reply in it: replies
            invariant
                replies_of(it.seq()) == all,
                self@ == received_all(s0, all.take(it.index())),
                changed == any_awaited(s0, all.take(it.index())),
                s0.wf() ==> self@.wf(),
        {
            proof {
                let i = it.index();
                assert(reply@ == all[i]);
                assert(all.take(i + 1).drop_last() =~= all.take(i));
                assert(all.take(i + 1).last() == reply@);
            }
            if self.receive(reply) {
                changed = true;
            }
        }
        assert(all.take(all.len() as int) =~= all);
        let over = match &self.notice {
            Some((_, until)) => now >= *until,
            None => false,
        };
        if over {
            self.notice = None;
            changed = true;
        }
        changed
    }

    /// Types pasted text into the open input, if there is one.
    pub fn paste(&mut self, text: &str)
        requires
            old(self)@.wf(),
        ensures
            final(self)@ == pasted(old(self)@, text@),
            final(self)@.wf(),
    {
        if let Some(input) = self.input.take() {
            let mut input = input;
            input.insert(text);
            self.input = Some(input);
        }
    }
}

/// The first place of `name` among `names`.
fn position(names: &Vec<String>, name: &String) -> (p: Option<usize>)
    ensures
        match p {
            Some(i) => texts(names@).index_of_first(name@) == Some(i as int),
            None => texts(names@).index_of_first(name@) is None,
        },
{
    let mut i: usize = 0;
    proof {
        texts(names@).index_of_first_ensures(name@);
    }
    while i < names.len()
        invariant
            i <= names@.len(),
            forall|j: int| 0 <= j < i ==> texts(names@)[j] != name@,
            match texts(names@).index_of_first(name@) {
                Some(k) => 0 <= k < names@.len() && texts(names@)[k] == name@ && (forall|j: int|
                    0 <= j < k ==> texts(names@)[j] != name@),
                None => !texts(names@).contains(name@),
            },
        decreases names@.len() - i,
    {
        if names[i] == *name {
            assert(texts(names@)[i as int] == name@);
            return Some(i);
        }
        i += 1;
    }
    None
}

/// The expressions but those labelled `name`.
fn other_expressions(expressions: &Vec<Expression>, name: &String) -> (kept: Vec<Expression>)
    ensures
        expressions_of(kept@) == expressions_of(expressions@).filter(
            |e: ExpressionModel| e.label != name@,
        ),
{
    let ghost all = expressions_of(expressions@);
    let ghost keep = |e: ExpressionModel| e.label != name@;
    let mut kept: Vec<Expression> = Vec::new();
    let mut i: usize = 0;
    proof {
        reveal(Seq::filter);
        assert(expressions_of(kept@) =~= all.take(0).filter(keep));
    }
    while i < expressions.len()
        invariant
            all == expressions_of(expressions@),
            keep == (|e: ExpressionModel| e.label != name@),
            i <= expressions@.len(),
            expressions_of(kept@) == all.take(i as int).filter(keep),
        decreases expressions@.len() - i,
    {
        let ghost kept0 = kept@;
        proof {
            broadcast use Seq::lemma_filter_push;

            assert(all.take(i + 1) =~= all.take(i as int).push(all[i as int]));
        }
        if expressions[i].label != *name {
            kept.push(expressions[i].clone());
            assert(expressions_of(kept@) =~= expressions_of(kept0).push(all[i as int]));
        }
        i += 1;
    }
    assert(all.take(i as int) =~= all);
    kept
}

/// Leaving out a label takes something away just where the label is there.
proof fn lemma_all_kept(expressions: Seq<ExpressionModel>, name: Seq<char>)
    ensures
        ({
            let kept = expressions.filter(|e: ExpressionModel| e.label != name);
            kept.len() == expressions.len() <==> !labels(expressions).contains(name)
        }),
    decreases expressions.len(),
{
    reveal(Seq::filter);
    let keep = |e: ExpressionModel| e.label != name;
    if expressions.len() > 0 {
        let rest = expressions.drop_last();
        lemma_all_kept(rest, name);
        rest.lemma_filter_len(keep);
        assert(labels(expressions) =~= labels(rest).push(expressions.last().label));
        crate::names::lemma_push_contains(labels(rest), expressions.last().label);
    }
}

/// `n` moved by `by`, within what a `usize` holds.
fn shift(n: usize, by: isize) -> (m: usize)
    ensures
        m == shifted(n, by as int),
{
    match n.checked_add_signed(by) {
        Some(m) => m,
        None => if by < 0 {
            0
        } else {
            usize::MAX
        },
    }
}

} // verus!
