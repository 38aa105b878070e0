//! What the models show of the values that they stand for: all of it, as it is.
use vstd::prelude::*;

use crate::app::App;
use crate::db::{
    columns_of, expressions_of, infos_of, row_of, rows_of, Column, ColumnInfo, Expression, Page,
    Query, Value, ValueModel,
};
use crate::input::{Input, InputKind, InputKindModel};
use crate::load::{
    count_answer, infos_answer, raw_row_of, raw_rows_of, rows_answer, statement_answer, text_of,
    version_answer, CountCache, LoadError, LoadErrorModel, Plan, RawValue, RawValueModel,
    Statement, Step, StepModel,
};
use crate::text::texts;
use crate::worker::{replies_of, requests_of, Reply, Request, Worker};

verus! {

/// A list is shown item by item.
pub proof fn law_lists_are_shown_item_by_item(
    names: Seq<String>,
    columns: Seq<Column>,
    infos: Seq<ColumnInfo>,
    expressions: Seq<Expression>,
    row: Seq<Value>,
    raw: Seq<RawValue>,
    requests: Seq<Request>,
    replies: Seq<Reply>,
)
    ensures
        texts(names) == names.map_values(|s: String| s@),
        columns_of(columns) == columns.map_values(|c: Column| c@),
        infos_of(infos) == infos.map_values(|c: ColumnInfo| c@),
        expressions_of(expressions) == expressions.map_values(|e: Expression| e@),
        row_of(row) == row.map_values(|v: Value| v@),
        raw_row_of(raw) == raw.map_values(|v: RawValue| v@),
        requests_of(requests) == requests.map_values(|r: Request| r@),
        replies_of(replies) == replies.map_values(|r: Reply| r@),
{
    assert(texts(names) =~= names.map_values(|s: String| s@));
    assert(columns_of(columns) =~= columns.map_values(|c: Column| c@));
    assert(infos_of(infos) =~= infos.map_values(|c: ColumnInfo| c@));
    assert(expressions_of(expressions) =~= expressions.map_values(|e: Expression| e@));
    assert(row_of(row) =~= row.map_values(|v: Value| v@));
    assert(raw_row_of(raw) =~= raw.map_values(|v: RawValue| v@));
    assert(requests_of(requests) =~= requests.map_values(|r: Request| r@));
    assert(replies_of(replies) =~= replies.map_values(|r: Reply| r@));
}

/// Rows are shown row by row.
pub proof fn law_rows_are_shown_row_by_row(rows: Seq<Vec<Value>>, raw: Seq<Vec<RawValue>>)
    ensures
        rows_of(rows) == rows.map_values(|r: Vec<Value>| row_of(r@)),
        raw_rows_of(raw) == raw.map_values(|r: Vec<RawValue>| raw_row_of(r@)),
{
    assert(rows_of(rows) =~= rows.map_values(|r: Vec<Value>| row_of(r@)));
    assert(raw_rows_of(raw) =~= raw.map_values(|r: Vec<RawValue>| raw_row_of(r@)));
}

/// A cell is shown with its kind and its value.
pub proof fn law_cells_are_shown(v: Value, w: RawValue)
    ensures
        v is Null <==> v@ is Null,
        v is Integer <==> v@ is Integer,
        v is Real <==> v@ is Real,
        v is Text <==> v@ is Text,
        v is Blob <==> v@ is Blob,
        v matches Value::Integer(n) ==> v@ == ValueModel::Integer(n),
        v matches Value::Real(s) ==> v@ == ValueModel::Real(s@),
        v matches Value::Text(s) ==> v@ == ValueModel::Text(s@),
        v matches Value::Blob(b) ==> v@ == ValueModel::Blob(b@),
        w is Null <==> w@ is Null,
        w is Integer <==> w@ is Integer,
        w is Real <==> w@ is Real,
        w is Text <==> w@ is Text,
        w is Blob <==> w@ is Blob,
        w matches RawValue::Integer(n) ==> w@ == RawValueModel::Integer(n),
        w matches RawValue::Real(s) ==> w@ == RawValueModel::Real(s@),
        w matches RawValue::Text(b) ==> w@ == RawValueModel::Text(b@),
        w matches RawValue::Blob(b) ==> w@ == RawValueModel::Blob(b@),
{
}

/// A column, what SQLite says of it, and an expression are shown with all their parts.
pub proof fn law_columns_are_shown(c: Column, i: ColumnInfo, e: Expression)
    ensures
        c@.name == c.name@ && c@.kind == c.kind@ && c@.primary_key == c.primary_key && c@.generated
            == c.generated,
        i@.name == i.name@ && i@.kind == i.kind@ && i@.hidden == i.hidden && i@.key == i.key,
        e@.body == e.body@ && e@.label == e.label@,
{
}

/// A query is shown with all its parts.
pub proof fn law_queries_are_shown(q: Query)
    ensures
        q@.table == q.table@,
        q@.hidden == q.hidden@,
        q@.expressions == expressions_of(q.expressions@),
        q@.filters == q.filters@,
        q@.page == q.page,
        q.sort is Some <==> q@.sort is Some,
        q.sort matches Some((name, descending)) ==> q@.sort == Some((name@, descending)),
{
}

/// A page is shown with all its parts.
pub proof fn law_pages_are_shown(p: Page)
    ensures
        p@.query == p.query@,
        p@.schema == columns_of(p.schema@),
        p@.columns == texts(p.columns@),
        p@.rows == rows_of(p.rows@),
        p@.total == p.total,
        p@.sql == p.sql@,
        p@.params == texts(p.params@),
{
}

/// A line is shown with its kind, its text and its cursor.
pub proof fn law_lines_are_shown(i: Input)
    ensures
        i@.text == i.text@,
        i@.cursor == i.cursor,
        i@.kind == i.kind@,
        i.kind is Expression <==> i@.kind is Expression,
        i.kind matches InputKind::Filter(name) ==> i@.kind == InputKindModel::Filter(name@),
{
}

/// The worker, its requests and their replies are shown with all their parts.
pub proof fn law_requests_are_shown(w: Worker, r: Request, reply: Reply)
    ensures
        w@.generation == w.generation && w@.outbox == requests_of(w.outbox@),
        r@.id == r.id && r@.query == r.query@,
        r.add is Some <==> r@.add is Some,
        r.add matches Some(text) ==> r@.add == Some(text@),
        reply@.id == reply.id,
        reply.result is Ok <==> reply@.result is Ok,
        reply.result matches Ok(page) ==> reply@.result matches Ok(model) && model == page@,
        reply.result matches Err(e) ==> reply@.result matches Err(model) && model == e@,
{
}

/// An error is shown with its kind and its text.
pub proof fn law_errors_are_shown(e: LoadError)
    ensures
        e matches LoadError::Database(s) ==> e@ == LoadErrorModel::Database(s@),
        e matches LoadError::NoVisibleColumns(s) ==> e@ == LoadErrorModel::NoVisibleColumns(s@),
        e matches LoadError::DuplicateLabel(s) ==> e@ == LoadErrorModel::DuplicateLabel(s@),
        e is EmptyExpression ==> e@ is EmptyExpression,
        e is NotOneColumn ==> e@ is NotOneColumn,
        e is NotScalar ==> e@ is NotScalar,
        e is NothingVisible ==> e@ is NothingVisible,
        e is ColumnCountChanged ==> e@ is ColumnCountChanged,
{
}

/// What loading keeps from step to step is shown with all its parts.
pub proof fn law_plans_are_shown(p: Plan, c: CountCache, s: Statement)
    ensures
        p@.query == p.query@ && p@.schema == columns_of(p.schema@) && p@.columns == texts(
            p.columns@,
        ) && p@.source == p.source@ && p@.params == texts(p.params@),
        c@.key == c.key@ && c@.params == texts(c.params@) && c@.version == c.version && c@.count
            == c.count,
        s@.columns == texts(s.columns@) && s@.readonly == s.readonly,
{
}

/// A step is shown with its statement and all that it holds.
pub proof fn law_steps_are_shown(step: Step)
    ensures
        step matches Step::Schema(s) ==> step@ == (StepModel::Schema {
            sql: s.sql@,
            query: s.query@,
            add: text_of(s.add),
        }),
        step matches Step::Alias(s) ==> step@ == (StepModel::Alias {
            sql: s.sql@,
            query: s.query@,
            schema: columns_of(s.schema@),
            body: s.body@,
        }),
        step matches Step::Body(s) ==> step@ == (StepModel::Body {
            sql: s.sql@,
            query: s.query@,
            schema: columns_of(s.schema@),
            body: s.body@,
            label: s.label@,
        }),
        step matches Step::Version(s) ==> step@ == (StepModel::Version {
            sql: s.sql@,
            plan: s.plan@,
        }),
        step matches Step::Count(s) ==> step@ == (StepModel::Count {
            sql: s.sql@,
            plan: s.plan@,
            version: s.version,
        }),
        step matches Step::Shape(s) ==> step@ == (StepModel::Shape { page: s.page@ }),
        step matches Step::Rows(s) ==> step@ == (StepModel::Rows { page: s.page@ }),
        step matches Step::Loaded(page) ==> step@ == StepModel::Loaded(page@),
        step matches Step::Failed(e) ==> step@ == StepModel::Failed(e@),
{
}

/// An answer is shown as it came.
pub proof fn law_answers_are_shown(
    infos: Result<Vec<ColumnInfo>, String>,
    statement: Result<Statement, String>,
    version: Result<i64, String>,
    count: Result<usize, String>,
    rows: Result<Vec<Vec<RawValue>>, String>,
)
    ensures
        infos matches Ok(v) ==> infos_answer(infos) == Ok::<_, Seq<char>>(infos_of(v@)),
        infos matches Err(e) ==> infos_answer(infos) is Err && infos_answer(infos)->Err_0 == e@,
        statement matches Ok(v) ==> statement_answer(statement) == Ok::<_, Seq<char>>(v@),
        statement matches Err(e) ==> statement_answer(statement) is Err && statement_answer(
            statement,
        )->Err_0 == e@,
        version matches Ok(v) ==> version_answer(version) == Ok::<_, Seq<char>>(v),
        version matches Err(e) ==> version_answer(version) is Err && version_answer(version)->Err_0
            == e@,
        count matches Ok(v) ==> count_answer(count) == Ok::<_, Seq<char>>(v),
        count matches Err(e) ==> count_answer(count) is Err && count_answer(count)->Err_0 == e@,
        rows matches Ok(v) ==> rows_answer(rows) == Ok::<_, Seq<char>>(raw_rows_of(v@)),
        rows matches Err(e) ==> rows_answer(rows) is Err && rows_answer(rows)->Err_0 == e@,
{
}

/// The explorer is shown with all its parts.
pub proof fn law_explorer_is_shown(a: App)
    ensures
        ({
            let m = a@;
            &&& m.tables == texts(a.tables@) && m.list == a.list && m.grid == a.grid
            &&& m.focus == a.focus && m.row == a.row && m.col == a.col
            &&& m.first_col == a.first_col && m.detail == a.detail
            &&& m.detail_scroll == a.detail_scroll && m.help == a.help
            &&& m.chooser == a.chooser && m.schema_list == a.schema_list
            &&& m.loading == a.loading && m.quit == a.quit && m.pending == a.pending
            &&& m.worker == a.worker@
            &&& a.query is Some <==> m.query is Some
            &&& a.query matches Some(q) ==> m.query == Some(q@)
            &&& a.page is Some <==> m.page is Some
            &&& a.page matches Some(p) ==> m.page == Some(p@)
            &&& a.input is Some <==> m.input is Some
            &&& a.input matches Some(i) ==> m.input == Some(i@)
            &&& a.retry_input is Some <==> m.retry_input is Some
            &&& a.retry_input matches Some(i) ==> m.retry_input == Some(i@)
            &&& a.error is Some <==> m.error is Some
            &&& a.error matches Some(e) ==> m.error == Some(e@)
            &&& a.notice is Some <==> m.notice is Some
            &&& a.notice matches Some((text, until)) ==> m.notice == Some((text@, until))
        }),
{
}

} // verus!
