//! When loading succeeds and with what page, and what each failure comes from.
use vstd::prelude::*;
use vstd::utf8::*;

use crate::db::{
    schema_of, schema_statement, ColumnInfoModel, ColumnModel, ExpressionModel, PageModel,
    QueryModel,
};
use crate::load::{
    alias_statement, before_alias, body_statement, cooked_rows, recounted, CountCacheModel,
    LoadErrorModel, PlanModel, RawValueModel, StatementModel,
};
use crate::outcome::{outcome, Database};
use crate::scan::{alias_at, lemma_alias_boundary};
use crate::sql::{
    all_names, bound, count_statement, normalized, page_statement, source, visible,
};
use crate::text::{same_ignoring_case, trimmed};

verus! {

/// The page that is loaded where `asked` is asked for and the result has `total` rows:
/// the one asked for, or the last that the result reaches.
pub open spec fn reached(asked: usize, total: usize, page: usize) -> bool {
    if asked * 50 < total || asked == 0 {
        page == asked
    } else {
        page <= asked && (page * 50 < total || page == 0) && (page + 1) * 50 >= total
    }
}

/// A table that has columns, of which some are shown, whose rows can be counted and
/// whose page can be prepared and read, is loaded; and the page is made of these
/// answers.
pub proof fn law_readable_tables_load(
    query: QueryModel,
    db: Database,
    infos: Seq<ColumnInfoModel>,
    version: i64,
    total: usize,
    page: usize,
    statement: StatementModel,
    rows: Seq<Seq<RawValueModel>>,
)
    requires
        (db.columns)(schema_statement(query.table)) == Ok::<Seq<ColumnInfoModel>, Seq<char>>(infos),
        db.version == Ok::<i64, Seq<char>>(version),
        reached(query.page, total, page),
        ({
            let schema = schema_of(infos);
            let q = normalized(schema, query);
            let columns = visible(schema, q.hidden, q.expressions);
            let sql = page_statement(columns, source(schema, q), q.sort, page);
            &&& schema.len() > 0
            &&& columns.len() > 0
            &&& (db.count)(count_statement(source(schema, q)), bound(q.filters)) == Ok::<
                usize,
                Seq<char>,
            >(total)
            &&& (db.prepare)(sql) == Ok::<StatementModel, Seq<char>>(statement)
            &&& statement.columns.len() == columns.len()
            &&& (db.rows)(sql, bound(q.filters)) == Ok::<Seq<Seq<RawValueModel>>, Seq<char>>(rows)
        }),
    ensures
        ({
            let schema = schema_of(infos);
            let q = normalized(schema, query);
            let columns = visible(schema, q.hidden, q.expressions);
            outcome(query, None, db) == Ok::<PageModel, LoadErrorModel>(
                PageModel {
                    query: QueryModel { page, ..q },
                    schema,
                    columns,
                    rows: cooked_rows(rows),
                    total,
                    sql: page_statement(columns, source(schema, q), q.sort, page),
                    params: bound(q.filters),
                },
            )
        }),
{
    assert(crate::db::PAGE_SIZE == 50);
}

/// A page that loads shows just the base columns that the query does not hide, whatever
/// its sort and its filters are, and then every expression; its query hides what the
/// query asked to hide, as far as it exists.
pub proof fn law_loaded_page_hides_what_was_asked(
    query: QueryModel,
    add: Option<Seq<char>>,
    db: Database,
    page: PageModel,
    name: Seq<char>,
)
    requires
        outcome(query, add, db) == Ok::<PageModel, LoadErrorModel>(page),
    ensures
        page.query.hidden.contains(name) <==> query.hidden.contains(name)
            && crate::statements::has_column(page.schema, name),
        page.columns.len() >= page.query.expressions.len(),
        ({
            let n = page.columns.len() - page.query.expressions.len();
            &&& page.columns.take(n).contains(name) <==> crate::statements::has_column(
                page.schema,
                name,
            ) && !query.hidden.contains(name)
            &&& forall|k: int|
                0 <= k < page.query.expressions.len() ==> page.columns[n + k] == (
                #[trigger] page.query.expressions[k]).label
        }),
{
    crate::outcome::law_loaded_page_answers_the_query(query, add, db, page);
    let asked = QueryModel { expressions: page.query.expressions, ..query };
    let schema = page.schema;
    let ex = page.query.expressions;
    crate::statements::law_query_keeps_what_exists(schema, asked);
    let q = normalized(schema, asked);
    let base = visible(schema, q.hidden, Seq::<ExpressionModel>::empty());
    let column = ColumnModel { name, kind: name, primary_key: false, generated: false };
    crate::statements::law_columns_shown_are_those_not_hidden(schema, column, q.hidden, ex);
    crate::statements::law_hidden_columns_are_not_shown(schema, q.hidden, name);
    let n = page.columns.len() - ex.len();
    assert(page.columns.take(n) =~= base);
}

/// What goes wrong with the table itself is said, whatever is added.
pub proof fn law_unreadable_tables_fail(query: QueryModel, add: Option<Seq<char>>, db: Database)
    ensures
        (db.columns)(schema_statement(query.table)) matches Err(message) ==> outcome(query, add, db)
            == Err::<PageModel, LoadErrorModel>(LoadErrorModel::Database(message)),
        (db.columns)(schema_statement(query.table)) matches Ok(infos) ==> schema_of(infos).len()
            == 0 ==> outcome(query, add, db) == Err::<PageModel, LoadErrorModel>(
            LoadErrorModel::NoVisibleColumns(query.table),
        ),
{
}

/// Where a table with columns is not loaded, the first of these that went wrong is
/// said: nothing is shown, the version cannot be read, the rows cannot be counted, the
/// page cannot be prepared, it has another number of columns, or its rows cannot be
/// read.
pub proof fn law_first_failure_is_said(
    query: QueryModel,
    db: Database,
    infos: Seq<ColumnInfoModel>,
    page: usize,
)
    requires
        (db.columns)(schema_statement(query.table)) == Ok::<Seq<ColumnInfoModel>, Seq<char>>(infos),
        schema_of(infos).len() > 0,
    ensures
        ({
            let schema = schema_of(infos);
            let q = normalized(schema, query);
            let columns = visible(schema, q.hidden, q.expressions);
            let counted = (db.count)(count_statement(source(schema, q)), bound(q.filters));
            let sql = page_statement(columns, source(schema, q), q.sort, page);
            let result = outcome(query, None, db);
            &&& columns.len() == 0 ==> result == Err::<PageModel, LoadErrorModel>(
                LoadErrorModel::NothingVisible,
            )
            &&& columns.len() > 0 ==> {
                &&& db.version matches Err(message) ==> result == Err::<PageModel, LoadErrorModel>(
                    LoadErrorModel::Database(message),
                )
                &&& db.version is Ok ==> {
                    &&& counted matches Err(message) ==> result == Err::<
                        PageModel,
                        LoadErrorModel,
                    >(LoadErrorModel::Database(message))
                    &&& counted matches Ok(total) ==> reached(query.page, total, page) ==> {
                        &&& (db.prepare)(sql) matches Err(message) ==> result == Err::<
                            PageModel,
                            LoadErrorModel,
                        >(LoadErrorModel::Database(message))
                        &&& (db.prepare)(sql) matches Ok(statement) ==> {
                            &&& statement.columns.len() != columns.len() ==> result == Err::<
                                PageModel,
                                LoadErrorModel,
                            >(LoadErrorModel::ColumnCountChanged)
                            &&& statement.columns.len() == columns.len() ==> ((db.rows)(
                                sql,
                                bound(q.filters),
                            ) matches Err(message) ==> result == Err::<PageModel, LoadErrorModel>(
                                LoadErrorModel::Database(message),
                            ))
                        }
                    }
                }
            }
        }),
{
    assert(crate::db::PAGE_SIZE == 50);
}

/// A name, of a base column or of an expression, that equals `label` but for the case
/// of ASCII letters.
pub open spec fn is_named_like(
    schema: Seq<ColumnModel>,
    expressions: Seq<ExpressionModel>,
    label: Seq<char>,
) -> bool {
    ||| exists|i: int|
        0 <= i < schema.len() && same_ignoring_case((#[trigger] schema[i]).name, label)
    ||| exists|i: int|
        0 <= i < expressions.len() && same_ignoring_case((#[trigger] expressions[i]).label, label)
}

proof fn lemma_taken(
    schema: Seq<ColumnModel>,
    expressions: Seq<ExpressionModel>,
    label: Seq<char>,
)
    ensures
        crate::load::taken(all_names(schema, expressions), label) <==> is_named_like(
            schema,
            expressions,
            label,
        ),
{
    let all = all_names(schema, expressions);
    if crate::load::taken(all, label) {
        let i = choose|i: int|
            0 <= i < all.len() && same_ignoring_case(#[trigger] all[i], label);
        if i < schema.len() {
            assert(same_ignoring_case(schema[i].name, label));
        } else {
            assert(same_ignoring_case(expressions[i - schema.len()].label, label));
        }
    }
    if exists|i: int|
        0 <= i < schema.len() && same_ignoring_case((#[trigger] schema[i]).name, label) {
        let i = choose|i: int|
            0 <= i < schema.len() && same_ignoring_case((#[trigger] schema[i]).name, label);
        assert(same_ignoring_case(all[i], label));
    }
    if exists|i: int|
        0 <= i < expressions.len() && same_ignoring_case((#[trigger] expressions[i]).label, label) {
        let i = choose|i: int|
            0 <= i < expressions.len() && same_ignoring_case(
                (#[trigger] expressions[i]).label,
                label,
            );
        assert(same_ignoring_case(all[schema.len() + i], label));
    }
}

/// Adding an expression of this body and this label: it is refused where the database
/// does not take the body, alone, for one read-only value, or where the label is there
/// already; else the page is that of the query with the expression behind the others.
pub open spec fn adds(
    query: QueryModel,
    schema: Seq<ColumnModel>,
    body: Seq<char>,
    label: Seq<char>,
    db: Database,
    result: Result<PageModel, LoadErrorModel>,
) -> bool {
    match (db.prepare)(body_statement(body, query.table)) {
        Err(message) => result == Err::<PageModel, LoadErrorModel>(
            LoadErrorModel::Database(message),
        ),
        Ok(statement) => if !statement.readonly || statement.columns.len() != 1 {
            result == Err::<PageModel, LoadErrorModel>(LoadErrorModel::NotScalar)
        } else if is_named_like(schema, query.expressions, label) {
            result == Err::<PageModel, LoadErrorModel>(LoadErrorModel::DuplicateLabel(label))
        } else {
            result == outcome(
                QueryModel {
                    expressions: query.expressions.push(ExpressionModel { body, label }),
                    ..query
                },
                None,
                db,
            )
        },
    }
}

/// A blank expression is refused. One without an alias is added under its own text,
/// trimmed.
pub proof fn law_expression_without_alias_is_its_own_label(
    query: QueryModel,
    raw: Seq<char>,
    db: Database,
    infos: Seq<ColumnInfoModel>,
)
    requires
        (db.columns)(schema_statement(query.table)) == Ok::<Seq<ColumnInfoModel>, Seq<char>>(infos),
        schema_of(infos).len() > 0,
        alias_at(encode_utf8(trimmed(raw))) is None,
    ensures
        trimmed(raw).len() == 0 ==> outcome(query, Some(raw), db) == Err::<
            PageModel,
            LoadErrorModel,
        >(LoadErrorModel::EmptyExpression),
        trimmed(raw).len() > 0 ==> adds(
            query,
            schema_of(infos),
            trimmed(raw),
            trimmed(raw),
            db,
            outcome(query, Some(raw), db),
        ),
{
    lemma_taken(schema_of(infos), query.expressions, trimmed(raw));
}

/// One with an alias is added under the name that the database gives the whole of it,
/// with what stands before the alias, trimmed, as its body; where the database gives
/// it another number of columns than one, it is refused.
pub proof fn law_expression_with_alias_is_labelled_by_the_database(
    query: QueryModel,
    raw: Seq<char>,
    db: Database,
    infos: Seq<ColumnInfoModel>,
    at: int,
)
    requires
        (db.columns)(schema_statement(query.table)) == Ok::<Seq<ColumnInfoModel>, Seq<char>>(infos),
        schema_of(infos).len() > 0,
        trimmed(raw).len() > 0,
        alias_at(encode_utf8(trimmed(raw))) == Some(at),
    ensures
        ({
            let result = outcome(query, Some(raw), db);
            match (db.prepare)(alias_statement(trimmed(raw), query.table)) {
                Err(message) => result == Err::<PageModel, LoadErrorModel>(
                    LoadErrorModel::Database(message),
                ),
                Ok(statement) => if statement.columns.len() != 1 {
                    result == Err::<PageModel, LoadErrorModel>(LoadErrorModel::NotOneColumn)
                } else {
                    adds(
                        query,
                        schema_of(infos),
                        trimmed(before_alias(trimmed(raw), at)),
                        statement.columns[0],
                        db,
                        result,
                    )
                },
            }
        }),
{
    if let Ok(statement) = (db.prepare)(alias_statement(trimmed(raw), query.table)) {
        if statement.columns.len() == 1 {
            lemma_taken(schema_of(infos), query.expressions, statement.columns[0]);
        }
    }
}

/// What stands before the alias is the text up to it: its bytes are those before the
/// place where the alias begins.
pub proof fn law_body_is_the_text_before_the_alias(raw: Seq<char>, at: int)
    requires
        alias_at(encode_utf8(raw)) == Some(at),
    ensures
        0 <= at < encode_utf8(raw).len(),
        encode_utf8(before_alias(raw, at)) == encode_utf8(raw).take(at),
        before_alias(raw, at) == raw.take(before_alias(raw, at).len() as int),
{
    let b = encode_utf8(raw);
    lemma_alias_boundary(raw);
    encode_utf8_valid_utf8(raw);
    valid_utf8_split(b, at);
    assert(b.subrange(0, at) =~= b.take(at));
    decode_utf8_encode_utf8(b.take(at));
    decode_utf8_split(b, at);
    encode_utf8_decode_utf8(raw);
    assert(raw =~= before_alias(raw, at) + decode_utf8(b.subrange(at, b.len() as int)));
    assert(raw.take(before_alias(raw, at).len() as int) =~= before_alias(raw, at));
}

/// A count that fails leaves what was cached; one that succeeds is cached with the
/// statement, the parameters and the version that it belongs to.
pub proof fn law_counts_are_remembered(
    cache: CountCacheModel,
    sql: Seq<char>,
    plan: PlanModel,
    version: i64,
    count: usize,
    message: Seq<char>,
)
    ensures
        recounted(cache, sql, plan, version, Err(message)) == cache,
        recounted(cache, sql, plan, version, Ok(count)) == (CountCacheModel {
            key: sql,
            params: plan.params,
            version,
            count,
        }),
{
}

} // verus!
