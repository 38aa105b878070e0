//! What each key does. A key goes to the help screen, the input, the column
//! chooser or the cell detail while one of them is open, and else to the pane that
//! has the focus.
use vstd::prelude::*;
use vstd::string::*;

use crate::app::{
    expression_removed, last_place, moved, notified, opened_table, selected_cell, selected_column,
    shown_query, sorted, submitted, toggled, App, AppModel, Focus, NOTICE_MILLIS,
};
use crate::db::{value_text, QueryModel, PAGE_SIZE};
use crate::input::{
    edited, opened, Input, InputKind, InputKindModel, InputModel, KeyCode, KeyEvent,
};
use crate::load::text_of;
use crate::sql::last_page;
use crate::text::{trim, trimmed};
use crate::worker::cancelled;

verus! {

/// `Ctrl+C` and `Ctrl+Q`.
pub open spec fn quits(key: KeyEvent) -> bool {
    key.control && (key.code == KeyCode::Char('c') || key.code == KeyCode::Char('q'))
}

/// The explorer is left; what the database is at is superseded.
pub open spec fn left(s: AppModel) -> AppModel {
    AppModel { quit: true, worker: cancelled(s.worker), ..s }
}

/// A key on the help screen.
pub open spec fn help_key(s: AppModel, key: KeyEvent) -> AppModel {
    if key.code == KeyCode::Esc || key.code == KeyCode::Char('?') || key.code == KeyCode::Enter {
        AppModel { help: false, ..s }
    } else {
        s
    }
}

/// The query with the filter on `name` set to `text`; empty text takes it away.
pub open spec fn filtered(q: QueryModel, name: Seq<char>, text: Seq<char>) -> QueryModel {
    QueryModel {
        filters: if text.len() == 0 {
            q.filters.remove(name)
        } else {
            q.filters.insert(name, text)
        },
        page: 0,
        ..q
    }
}

/// The input is submitted: a filter as it stands, an expression unless it is blank.
/// It is kept for the case that its request fails.
pub open spec fn entered(s: AppModel, input: InputModel) -> AppModel {
    let s1 = AppModel { input: None, ..s };
    match s.query {
        None => s1,
        Some(q) => {
            let s2 = match input.kind {
                InputKindModel::Filter(name) => submitted(
                    AppModel { row: 0, ..s1 },
                    filtered(q, name, input.text),
                    None,
                ),
                InputKindModel::Expression => if trimmed(input.text).len() == 0 {
                    s1
                } else {
                    submitted(s1, q, Some(input.text))
                },
            };
            if s2.loading {
                AppModel { retry_input: Some(input), ..s2 }
            } else {
                s2
            }
        },
    }
}

/// A key while an input is open.
pub open spec fn input_key(s: AppModel, input: InputModel, key: KeyEvent) -> AppModel {
    if key.code == KeyCode::Esc {
        AppModel { input: None, ..s }
    } else if key.code == KeyCode::Enter {
        entered(s, input)
    } else {
        AppModel { input: Some(edited(input, key)), ..s }
    }
}

/// How many base columns the chooser lists.
pub open spec fn choices(s: AppModel) -> nat {
    match s.page {
        Some(page) => page.schema.len(),
        None => 0,
    }
}

/// A key in the column chooser, which stands at `index`.
pub open spec fn chooser_key(s: AppModel, index: usize, key: KeyEvent, now: u64) -> AppModel {
    match key.code {
        KeyCode::Esc => AppModel { chooser: None, ..s },
        KeyCode::Up => AppModel {
            chooser: Some(
                if index == 0 {
                    0
                } else {
                    (index - 1) as usize
                },
            ),
            ..s
        },
        KeyCode::Down => AppModel {
            chooser: Some(
                if index < last_place(choices(s)) {
                    (index + 1) as usize
                } else {
                    last_place(choices(s)) as usize
                },
            ),
            ..s
        },
        KeyCode::Enter => if s.loading {
            s
        } else {
            toggled(s, index, now)
        },
        KeyCode::Char(c) => if c == 'v' {
            AppModel { chooser: None, ..s }
        } else if c == ' ' && !s.loading {
            toggled(s, index, now)
        } else {
            s
        },
        _ => s,
    }
}

/// `n` less `by`, not below 0.
pub open spec fn less(n: u16, by: u16) -> u16 {
    if n < by {
        0
    } else {
        (n - by) as u16
    }
}

/// `n` and `by`, within what a `u16` holds.
pub open spec fn more(n: u16, by: u16) -> u16 {
    if n + by > u16::MAX {
        u16::MAX
    } else {
        (n + by) as u16
    }
}

/// The detail scrolled to `down` and `right`.
pub open spec fn scrolled(s: AppModel, down: u16, right: u16) -> AppModel {
    AppModel { detail_scroll: (down, right), ..s }
}

/// The text of the selected cell.
pub open spec fn copied(s: AppModel) -> Option<Seq<char>> {
    match selected_cell(s) {
        Some(v) => Some(value_text(v)),
        None => None,
    }
}

/// A key in the cell detail.
pub open spec fn detail_key(s: AppModel, key: KeyEvent) -> AppModel {
    let (down, right) = s.detail_scroll;
    match key.code {
        KeyCode::Esc | KeyCode::Backspace => AppModel { detail: false, ..s },
        KeyCode::Left => if key.control {
            moved(s, 0, -1)
        } else {
            scrolled(s, down, less(right, 4))
        },
        KeyCode::Right => if key.control {
            moved(s, 0, 1)
        } else {
            scrolled(s, down, more(right, 4))
        },
        KeyCode::Up => if key.control {
            moved(s, -1, 0)
        } else {
            scrolled(s, less(down, 1), right)
        },
        KeyCode::Down => if key.control {
            moved(s, 1, 0)
        } else {
            scrolled(s, more(down, 1), right)
        },
        KeyCode::PageUp => scrolled(s, less(down, 15), right),
        KeyCode::PageDown => scrolled(s, more(down, 15), right),
        KeyCode::Home => scrolled(s, 0, 0),
        _ => s,
    }
}

/// The place of the selected table, the first where none is.
pub open spec fn table_place(s: AppModel) -> usize {
    match s.list.selected {
        Some(i) => i,
        None => 0,
    }
}

/// A key in the table list.
pub open spec fn table_key(s: AppModel, key: KeyEvent) -> AppModel {
    let at = table_place(s);
    let last = last_place(s.tables.len());
    match key.code {
        KeyCode::Up => opened_table(
            s,
            if at == 0 {
                0
            } else {
                (at - 1) as usize
            },
        ),
        KeyCode::Down => opened_table(
            s,
            if at < last {
                (at + 1) as usize
            } else {
                last as usize
            },
        ),
        KeyCode::Home => opened_table(s, 0),
        KeyCode::End => opened_table(s, last as usize),
        KeyCode::Enter | KeyCode::Right => AppModel { focus: Focus::Grid, ..s },
        _ => s,
    }
}

/// The grid is left for the table list; a query that is being loaded is cancelled,
/// and what is shown stays.
pub open spec fn returned(s: AppModel, now: u64) -> AppModel {
    let s1 = AppModel { focus: Focus::Tables, ..s };
    if s.loading {
        notified(
            AppModel {
                worker: cancelled(s1.worker),
                pending: None,
                loading: false,
                query: shown_query(s1),
                ..s1
            },
            "Query cancelled"@,
            now,
        )
    } else {
        s1
    }
}

/// The page that `PgDn` or `PgUp` asks for.
pub open spec fn turned(page: usize, total: usize, forward: bool) -> usize {
    if !forward {
        if page == 0 {
            0
        } else {
            (page - 1) as usize
        }
    } else if page < last_page(total) {
        (page + 1) as usize
    } else {
        last_page(total)
    }
}

/// The next or the previous page is loaded, unless there is none.
pub open spec fn page_turned(s: AppModel, forward: bool) -> AppModel {
    match (s.query, s.page) {
        (Some(q), Some(page)) => {
            let next = turned(q.page, page.total, forward);
            if next == q.page {
                s
            } else {
                submitted(AppModel { row: 0, ..s }, QueryModel { page: next, ..q }, None)
            }
        },
        _ => s,
    }
}

/// The input for the filter of the selected column opens on its present text.
pub open spec fn filter_opened(s: AppModel) -> AppModel {
    match (s.query, selected_column(s)) {
        (Some(q), Some(name)) => AppModel {
            input: Some(
                opened(
                    InputKindModel::Filter(name),
                    if q.filters.contains_key(name) {
                        q.filters[name]
                    } else {
                        Seq::empty()
                    },
                ),
            ),
            ..s
        },
        _ => s,
    }
}

/// The input for a new expression opens.
pub open spec fn expression_opened(s: AppModel) -> AppModel {
    if s.query is Some {
        AppModel { input: Some(opened(InputKindModel::Expression, Seq::empty())), ..s }
    } else {
        s
    }
}

/// All filters and the sort are cleared.
pub open spec fn cleared(s: AppModel) -> AppModel {
    match s.query {
        Some(q) => submitted(
            s,
            QueryModel { filters: Map::empty(), sort: None, page: 0, ..q },
            None,
        ),
        None => s,
    }
}

/// The query is loaded again.
pub open spec fn reloaded(s: AppModel) -> AppModel {
    match s.query {
        Some(q) => submitted(s, q, None),
        None => s,
    }
}

/// A character in the grid.
pub open spec fn grid_char(s: AppModel, c: char, now: u64) -> AppModel {
    if c == 's' {
        sorted(s, false)
    } else if c == 'S' {
        sorted(s, true)
    } else if c == 'f' {
        filter_opened(s)
    } else if c == '+' {
        expression_opened(s)
    } else if c == 'v' {
        if s.page is Some {
            AppModel { chooser: Some(0), ..s }
        } else {
            s
        }
    } else if c == '0' {
        toggled(s, 9, now)
    } else if '1' as u32 <= c as u32 <= '9' as u32 {
        toggled(s, (c as u32 - '1' as u32) as usize, now)
    } else if c == 'C' {
        cleared(s)
    } else if c == 'r' {
        reloaded(s)
    } else {
        s
    }
}

/// A key in the grid while nothing is being loaded. `Left` in the first column
/// returns to the table list.
pub open spec fn grid_action(s: AppModel, key: KeyEvent, now: u64) -> AppModel {
    match key.code {
        KeyCode::Up => moved(s, -1, 0),
        KeyCode::Down => moved(s, 1, 0),
        KeyCode::Left => if s.col == 0 {
            AppModel { focus: Focus::Tables, ..s }
        } else {
            moved(s, 0, -1)
        },
        KeyCode::Right => moved(s, 0, 1),
        KeyCode::Home => AppModel { row: 0, ..s },
        KeyCode::End => AppModel {
            row: match s.page {
                Some(page) => last_place(page.rows.len()) as usize,
                None => 0,
            },
            ..s
        },
        KeyCode::Enter => if selected_cell(s) is Some {
            AppModel { detail: true, detail_scroll: (0, 0), ..s }
        } else {
            s
        },
        KeyCode::Delete => expression_removed(s, now),
        KeyCode::PageDown => page_turned(s, true),
        KeyCode::PageUp => page_turned(s, false),
        KeyCode::Char(c) => grid_char(s, c, now),
        _ => s,
    }
}

/// A key in the grid.
pub open spec fn grid_key(s: AppModel, key: KeyEvent, now: u64) -> AppModel {
    if key.code == KeyCode::Esc || key.code == KeyCode::Backspace {
        returned(s, now)
    } else if s.loading {
        s
    } else {
        grid_action(s, key, now)
    }
}

/// No dialog is open: keys go to the pane with the focus.
pub open spec fn panes(s: AppModel) -> bool {
    !s.help && s.input is None && s.chooser is None && !s.detail
}

/// What a key does.
pub open spec fn pressed(s: AppModel, key: KeyEvent, now: u64) -> AppModel {
    if quits(key) {
        left(s)
    } else if s.help {
        help_key(s, key)
    } else if s.input is Some {
        input_key(s, s.input->0, key)
    } else if s.chooser is Some {
        chooser_key(s, s.chooser->0, key, now)
    } else if s.detail {
        detail_key(s, key)
    } else if key.code == KeyCode::Char('?') {
        AppModel { help: true, ..s }
    } else if key.code == KeyCode::Tab {
        AppModel {
            focus: if s.focus == Focus::Tables {
                Focus::Grid
            } else {
                Focus::Tables
            },
            ..s
        }
    } else if s.focus == Focus::Tables {
        table_key(s, key)
    } else {
        grid_key(s, key, now)
    }
}

/// The text that a key copies: `c` copies the selected cell, in the grid and in its
/// detail.
pub open spec fn copy_of(s: AppModel, key: KeyEvent) -> Option<Seq<char>> {
    if key.code == KeyCode::Char('c') && !key.control && !s.help && s.input is None
        && s.chooser is None && (s.detail || s.focus == Focus::Grid) {
        copied(s)
    } else {
        None
    }
}

impl App {
    fn press_help(&mut self, key: KeyEvent)
        ensures
            final(self)@ == help_key(old(self)@, key),
    {
        if key.code == KeyCode::Esc || key.code == KeyCode::Char('?') || key.code
            == KeyCode::Enter {
            self.help = false;
        }
    }

    fn enter(&mut self, input: Input)
        requires
            old(self)@.input == Some(input@),
            old(self)@.wf(),
        ensures
            final(self)@ == entered(old(self)@, input@),
            final(self)@.wf(),
    {
        self.input = None;
        let retry = input.clone();
        if let Some(query) = self.query.clone() {
            let mut q = query;
            match input.kind {
                InputKind::Filter(name) => {
                    let ghost before = q@;
                    if input.text.as_str().is_empty() {
                        q.filters.remove(&name);
                    } else {
                        q.filters.insert(name, input.text);
                    }
                    q.page = 0;
                    assert(q@ =~= filtered(before, name@, input.text@));
                    self.row = 0;
                    self.submit(q, None);
                },
                InputKind::Expression => {
                    if !trim(input.text.as_str()).as_str().is_empty() {
                        self.submit(q, Some(input.text));
                    }
                },
            }
            if self.loading {
                self.retry_input = Some(retry);
            }
        }
    }

    fn press_input(&mut self, input: Input, key: KeyEvent)
        requires
            old(self)@.input == Some(input@),
            old(self)@.wf(),
        ensures
            final(self)@ == input_key(old(self)@, input@, key),
            final(self)@.wf(),
    {
        if key.code == KeyCode::Esc {
            self.input = None;
        } else if key.code == KeyCode::Enter {
            self.enter(input);
        } else {
            let mut input = input;
            input.key(key);
            self.input = Some(input);
        }
    }

    fn press_chooser(&mut self, index: usize, key: KeyEvent, now: u64)
        requires
            now + NOTICE_MILLIS <= u64::MAX,
        ensures
            final(self)@ == chooser_key(old(self)@, index, key, now),
            old(self)@.wf() ==> final(self)@.wf(),
    {
        let last: usize = match &self.page {
            Some(page) => {
                assert(page@.schema.len() == page.schema@.len());
                page.schema.len().saturating_sub(1)
            },
            None => 0,
        };
        match key.code {
            KeyCode::Esc => {
                self.chooser = None;
            },
            KeyCode::Up => {
                self.chooser = Some(index.saturating_sub(1));
            },
            KeyCode::Down => {
                self.chooser = Some(
                    if index < last {
                        index + 1
                    } else {
                        last
                    },
                );
            },
            KeyCode::Enter => {
                if !self.loading {
                    self.toggle_column(index, now);
                }
            },
            KeyCode::Char(c) => {
                if c == 'v' {
                    self.chooser = None;
                } else if c == ' ' && !self.loading {
                    self.toggle_column(index, now);
                }
            },
            _ => {},
        }
    }

    /// The text of the selected cell.
    fn copy(&self) -> (s: Option<String>)
        ensures
            text_of(s) == copied(self@),
    {
        match self.cell() {
            Some(v) => Some(v.text()),
            None => None,
        }
    }

    fn press_detail(&mut self, key: KeyEvent)
        ensures
            final(self)@ == detail_key(old(self)@, key),
    {
        let (down, right): (u16, u16) = self.detail_scroll;
        match key.code {
            KeyCode::Esc | KeyCode::Backspace => {
                self.detail = false;
            },
            KeyCode::Left => {
                if key.control {
                    self.move_cell(0, -1);
                } else {
                    self.detail_scroll = (down, right.saturating_sub(4));
                }
            },
            KeyCode::Right => {
                if key.control {
                    self.move_cell(0, 1);
                } else {
                    self.detail_scroll = (down, right.saturating_add(4));
                }
            },
            KeyCode::Up => {
                if key.control {
                    self.move_cell(-1, 0);
                } else {
                    self.detail_scroll = (down.saturating_sub(1), right);
                }
            },
            KeyCode::Down => {
                if key.control {
                    self.move_cell(1, 0);
                } else {
                    self.detail_scroll = (down.saturating_add(1), right);
                }
            },
            KeyCode::PageUp => {
                self.detail_scroll = (down.saturating_sub(15), right);
            },
            KeyCode::PageDown => {
                self.detail_scroll = (down.saturating_add(15), right);
            },
            KeyCode::Home => {
                self.detail_scroll = (0, 0);
            },
            _ => {},
        }
    }

    fn press_table(&mut self, key: KeyEvent)
        ensures
            final(self)@ == table_key(old(self)@, key),
            old(self)@.wf() ==> final(self)@.wf(),
    {
        let at: usize = match self.list.selected {
            Some(i) => i,
            None => 0,
        };
        let last: usize = self.tables.len().saturating_sub(1);
        match key.code {
            KeyCode::Up => {
                self.select_table(at.saturating_sub(1));
            },
            KeyCode::Down => {
                self.select_table(
                    if at < last {
                        at + 1
                    } else {
                        last
                    },
                );
            },
            KeyCode::Home => {
                self.select_table(0);
            },
            KeyCode::End => {
                self.select_table(last);
            },
            KeyCode::Enter | KeyCode::Right => {
                self.focus = Focus::Grid;
            },
            _ => {},
        }
    }

    fn leave_grid(&mut self, now: u64)
        requires
            now + NOTICE_MILLIS <= u64::MAX,
        ensures
            final(self)@ == returned(old(self)@, now),
            old(self)@.wf() ==> final(self)@.wf(),
    {
        self.focus = Focus::Tables;
        if self.loading {
            self.worker.cancel();
            self.pending = None;
            self.loading = false;
            let shown = match &self.page {
                Some(page) => Some(page.query.clone()),
                None => None,
            };
            if let Some(query) = shown {
                self.query = Some(query);
            }
            self.notify("Query cancelled", now);
        }
    }

    fn turn_page(&mut self, forward: bool)
        ensures
            final(self)@ == page_turned(old(self)@, forward),
            old(self)@.wf() ==> final(self)@.wf(),
    {
        let query = self.query.clone();
        let total: usize = match &self.page {
            Some(page) => page.total,
            None => {
                return;
            },
        };
        if let Some(query) = query {
            let mut q = query;
            let last: usize = total.saturating_sub(1) / PAGE_SIZE;
            let next: usize = if !forward {
                q.page.saturating_sub(1)
            } else if q.page < last {
                q.page + 1
            } else {
                last
            };
            if next != q.page {
                q.page = next;
                self.row = 0;
                self.submit(q, None);
            }
        }
    }

    fn open_filter(&mut self)
        ensures
            final(self)@ == filter_opened(old(self)@),
            old(self)@.wf() ==> final(self)@.wf(),
    {
        let column = self.column();
        if let (Some(q), Some(name)) = (&self.query, column) {
            let text = match q.filters.get(&name) {
                Some(text) => text.clone(),
                None => String::new(),
            };
            self.input = Some(Input::new(InputKind::Filter(name), text));
        }
    }

    fn press_grid_char(&mut self, c: char, now: u64)
        requires
            now + NOTICE_MILLIS <= u64::MAX,
        ensures
            final(self)@ == grid_char(old(self)@, c, now),
            old(self)@.wf() ==> final(self)@.wf(),
    {
        if c == 's' {
            self.sort(false);
        } else if c == 'S' {
            self.sort(true);
        } else if c == 'f' {
            self.open_filter();
        } else if c == '+' {
            if self.query.is_some() {
                self.input = Some(Input::new(InputKind::Expression, String::new()));
            }
        } else if c == 'v' {
            if self.page.is_some() {
                self.chooser = Some(0);
            }
        } else if c == '0' {
            self.toggle_column(9, now);
        } else if '1' as u32 <= c as u32 && c as u32 <= '9' as u32 {
            self.toggle_column((c as u32 - '1' as u32) as usize, now);
        } else if c == 'C' {
            if let Some(query) = self.query.clone() {
                let mut q = query;
                q.filters.clear();
                q.sort = None;
                q.page = 0;
                self.submit(q, None);
            }
        } else if c == 'r' {
            if let Some(query) = self.query.clone() {
                self.submit(query, None);
            }
        }
    }

    fn press_grid(&mut self, key: KeyEvent, now: u64)
        requires
            now + NOTICE_MILLIS <= u64::MAX,
        ensures
            final(self)@ == grid_key(old(self)@, key, now),
            old(self)@.wf() ==> final(self)@.wf(),
    {
        if key.code == KeyCode::Esc || key.code == KeyCode::Backspace {
            self.leave_grid(now);
            return;
        }
        if self.loading {
            return;
        }
        match key.code {
            KeyCode::Up => {
                self.move_cell(-1, 0);
            },
            KeyCode::Down => {
                self.move_cell(1, 0);
            },
            KeyCode::Left => {
                if self.col == 0 {
                    self.focus = Focus::Tables;
                } else {
                    self.move_cell(0, -1);
                }
            },
            KeyCode::Right => {
                self.move_cell(0, 1);
            },
            KeyCode::Home => {
                self.row = 0;
            },
            KeyCode::End => {
                self.row = match &self.page {
                    Some(page) => {
                        assert(page@.rows.len() == page.rows@.len());
                        page.rows.len().saturating_sub(1)
                    },
                    None => 0,
                };
            },
            KeyCode::Enter => {
                if self.cell().is_some() {
                    self.detail = true;
                    self.detail_scroll = (0, 0);
                }
            },
            KeyCode::Delete => {
                self.remove_expression(now);
            },
            KeyCode::PageDown => {
                self.turn_page(true);
            },
            KeyCode::PageUp => {
                self.turn_page(false);
            },
            KeyCode::Char(c) => {
                self.press_grid_char(c, now);
            },
            _ => {},
        }
    }

    /// Handles a key; returns the text to copy to the clipboard, if any.
    pub fn key(&mut self, key: KeyEvent, now: u64) -> (copy: Option<String>)
        requires
            old(self)@.wf(),
            now + NOTICE_MILLIS <= u64::MAX,
        ensures
            final(self)@ == pressed(old(self)@, key, now),
            text_of(copy) == copy_of(old(self)@, key),
            final(self)@.wf(),
    {
        if key.control && (key.code == KeyCode::Char('c') || key.code == KeyCode::Char('q')) {
            self.quit = true;
            self.worker.cancel();
            return None;
        }
        if self.help {
            self.press_help(key);
            return None;
        }
        if let Some(input) = &self.input {
            let input = input.clone();
            self.press_input(input, key);
            return None;
        }
        if let Some(index) = self.chooser {
            self.press_chooser(index, key, now);
            return None;
        }
        if self.detail {
            if key.code == KeyCode::Char('c') {
                return self.copy();
            }
            self.press_detail(key);
            return None;
        }
        if key.code == KeyCode::Char('?') {
            self.help = true;
            return None;
        }
        if key.code == KeyCode::Tab {
            self.focus = if self.focus == Focus::Tables {
                Focus::Grid
            } else {
                Focus::Tables
            };
            return None;
        }
        if self.focus == Focus::Tables {
            self.press_table(key);
            return None;
        }
        if key.code == KeyCode::Char('c') {
            return self.copy();
        }
        self.press_grid(key, now);
        None
    }
}

} // verus!
