//! What loading a page comes to over a whole database. A database is taken here as
//! what it answers to each statement; the steps of loading, each resumed with that
//! answer, end in the outcome stated here, and the cached count never shows in it.
use vstd::prelude::*;

use crate::db::{
    described, listed, schema_of, schema_statement, ColumnInfoModel, ColumnModel, PageModel,
    QueryModel, PAGE_SIZE,
};
use crate::load::{
    after_alias, after_body, after_count, after_rows, after_schema, after_shape, after_version,
    body_statement, body_step, cache_hit, cooked_rows, expression_step, first_step, planned,
    raw_rows_wide, recounted, rows_wide, settled, shaped, taken, with_expression, CountCacheModel,
    LoadErrorModel, PlanModel, RawValueModel, StatementModel, StepModel,
};
use crate::names::listing;
use crate::quoting::law_conditions_and_parameters_tell_the_filters;
use crate::sql::{
    all_names, base_statement, bound, count_statement, last_page, normalized, page_statement,
    source, visible, where_clause,
};
use crate::text::same_ignoring_case;

verus! {

/// A database, as it answers at one version of its data. Parameters are bound in
/// order.
pub struct Database {
    /// The columns that a schema statement lists.
    pub columns: spec_fn(Seq<char>) -> Result<Seq<ColumnInfoModel>, Seq<char>>,
    /// What preparing a statement tells of it.
    pub prepare: spec_fn(Seq<char>) -> Result<StatementModel, Seq<char>>,
    pub version: Result<i64, Seq<char>>,
    pub count: spec_fn(Seq<char>, Seq<Seq<char>>) -> Result<usize, Seq<char>>,
    pub rows: spec_fn(Seq<char>, Seq<Seq<char>>) -> Result<Seq<Seq<RawValueModel>>, Seq<char>>,
}

/// The next step, after the database has answered this one.
pub open spec fn answered(step: StepModel, db: Database, cache: CountCacheModel) -> StepModel {
    match step {
        StepModel::Schema { sql, query, add } => after_schema(query, add, (db.columns)(sql)),
        StepModel::Alias { sql, query, schema, body } => after_alias(
            query,
            schema,
            body,
            (db.prepare)(sql),
        ),
        StepModel::Body { sql, query, schema, body, label } => after_body(
            query,
            schema,
            body,
            label,
            (db.prepare)(sql),
        ),
        StepModel::Version { sql, plan } => after_version(plan, cache, db.version),
        StepModel::Count { sql, plan, version } => after_count(plan, (db.count)(sql, plan.params)),
        StepModel::Shape { page } => after_shape(page, (db.prepare)(page.sql)),
        StepModel::Rows { page } => after_rows(page, (db.rows)(page.sql, page.params)),
        _ => step,
    }
}

/// The cache, after the database has answered a step.
pub open spec fn remembered(
    step: StepModel,
    db: Database,
    cache: CountCacheModel,
) -> CountCacheModel {
    match step {
        StepModel::Count { sql, plan, version } => recounted(
            cache,
            sql,
            plan,
            version,
            (db.count)(sql, plan.params),
        ),
        _ => cache,
    }
}

/// The steps and the cache after `n` answers.
pub open spec fn run(step: StepModel, db: Database, cache: CountCacheModel, n: nat) -> (
    StepModel,
    CountCacheModel,
)
    decreases n,
{
    if n == 0 {
        (step, cache)
    } else {
        run(answered(step, db, cache), db, remembered(step, db, cache), (n - 1) as nat)
    }
}

/// The expression that `query` gains from what was typed, or why it is refused: the
/// database prepares it twice at most, once for its label where it has an alias,
/// once as a single value.
pub open spec fn extended(
    query: QueryModel,
    schema: Seq<ColumnModel>,
    step: StepModel,
    db: Database,
) -> Result<QueryModel, LoadErrorModel> {
    match step {
        StepModel::Alias { sql, body, .. } => match (db.prepare)(sql) {
            Err(message) => Err(LoadErrorModel::Database(message)),
            Ok(statement) => if statement.columns.len() != 1 {
                Err(LoadErrorModel::NotOneColumn)
            } else {
                accepted(query, schema, body, statement.columns[0], db)
            },
        },
        StepModel::Body { body, label, .. } => accepted(query, schema, body, label, db),
        StepModel::Failed(e) => Err(e),
        _ => Ok(query),
    }
}

/// The query with the expression, where the database takes it for one read-only
/// value and its label is new.
pub open spec fn accepted(
    query: QueryModel,
    schema: Seq<ColumnModel>,
    body: Seq<char>,
    label: Seq<char>,
    db: Database,
) -> Result<QueryModel, LoadErrorModel> {
    match (db.prepare)(body_statement(body, query.table)) {
        Err(message) => Err(LoadErrorModel::Database(message)),
        Ok(statement) => if !statement.readonly || statement.columns.len() != 1 {
            Err(LoadErrorModel::NotScalar)
        } else if taken(all_names(schema, query.expressions), label) {
            Err(LoadErrorModel::DuplicateLabel(label))
        } else {
            Ok(with_expression(query, body, label))
        },
    }
}

/// The page of a plan, given its number of rows.
pub open spec fn fetched(plan: PlanModel, total: usize, db: Database) -> Result<
    PageModel,
    LoadErrorModel,
> {
    let page = shaped(plan, total);
    match (db.prepare)(page.sql) {
        Err(message) => Err(LoadErrorModel::Database(message)),
        Ok(statement) => if statement.columns.len() != page.columns.len() {
            Err(LoadErrorModel::ColumnCountChanged)
        } else {
            match (db.rows)(page.sql, page.params) {
                Err(message) => Err(LoadErrorModel::Database(message)),
                Ok(rows) => Ok(PageModel { rows: cooked_rows(rows), ..page }),
            }
        },
    }
}

/// The page of a query over `schema`, with its rows counted afresh.
pub open spec fn answer(query: QueryModel, schema: Seq<ColumnModel>, db: Database) -> Result<
    PageModel,
    LoadErrorModel,
> {
    let plan = planned(query, schema);
    if plan.columns.len() == 0 {
        Err(LoadErrorModel::NothingVisible)
    } else {
        match (db.version, (db.count)(count_statement(plan.source), plan.params)) {
            (Err(message), _) => Err(LoadErrorModel::Database(message)),
            (Ok(_), Err(message)) => Err(LoadErrorModel::Database(message)),
            (Ok(_), Ok(total)) => fetched(plan, total, db),
        }
    }
}

/// What loading a page comes to: the page, or why there is none.
pub open spec fn outcome(query: QueryModel, add: Option<Seq<char>>, db: Database) -> Result<
    PageModel,
    LoadErrorModel,
> {
    match (db.columns)(schema_statement(query.table)) {
        Err(message) => Err(LoadErrorModel::Database(message)),
        Ok(infos) => {
            let schema = schema_of(infos);
            if schema.len() == 0 {
                Err(LoadErrorModel::NoVisibleColumns(query.table))
            } else {
                match add {
                    None => answer(query, schema, db),
                    Some(raw) => match extended(
                        query,
                        schema,
                        expression_step(query, schema, raw),
                        db,
                    ) {
                        Err(e) => Err(e),
                        Ok(q) => answer(q, schema, db),
                    },
                }
            }
        },
    }
}

/// An outcome as the last step.
pub open spec fn final_step(outcome: Result<PageModel, LoadErrorModel>) -> StepModel {
    match outcome {
        Ok(page) => StepModel::Loaded(page),
        Err(e) => StepModel::Failed(e),
    }
}

/// The cached count is what counting would give, at the version that it was taken.
pub open spec fn faithful(cache: CountCacheModel, db: Database) -> bool {
    db.version == Ok::<i64, Seq<char>>(cache.version) && cache.key.len() > 0 ==> (db.count)(
        cache.key,
        cache.params,
    ) == Ok::<usize, Seq<char>>(cache.count)
}

proof fn lemma_ended(step: StepModel, db: Database, cache: CountCacheModel, n: nat)
    requires
        step is Loaded || step is Failed,
    ensures
        run(step, db, cache, n) == (step, cache),
    decreases n,
{
    if n > 0 {
        lemma_ended(step, db, cache, (n - 1) as nat);
    }
}

proof fn lemma_shape_run(plan: PlanModel, total: usize, db: Database, cache: CountCacheModel)
    ensures
        run(StepModel::Shape { page: shaped(plan, total) }, db, cache, 2) == (
            final_step(fetched(plan, total, db)),
            cache,
        ),
{
    reveal_with_fuel(run, 3);
}

proof fn lemma_settled_run(
    query: QueryModel,
    schema: Seq<ColumnModel>,
    db: Database,
    cache: CountCacheModel,
)
    requires
        faithful(cache, db),
    ensures
        run(settled(query, schema), db, cache, 4).0 == final_step(answer(query, schema, db)),
        faithful(run(settled(query, schema), db, cache, 4).1, db),
{
    let plan = planned(query, schema);
    let key = count_statement(plan.source);
    let step = settled(query, schema);
    reveal_with_fuel(run, 3);
    assert(key.len() > 0) by {
        reveal_strlit("SELECT COUNT(*) FROM ");
    }
    if step is Failed {
        lemma_ended(step, db, cache, 4);
    } else {
        let next = answered(step, db, cache);
        match db.version {
            Err(_) => {
                lemma_ended(next, db, cache, 3);
            },
            Ok(version) => {
                if cache_hit(cache, plan, version) {
                    lemma_shape_run(plan, cache.count, db, cache);
                    let done = final_step(fetched(plan, cache.count, db));
                    lemma_ended(done, db, cache, 1);
                    lemma_run_split(next, db, cache, 2, 1);
                } else {
                    let after = answered(next, db, cache);
                    let cache1 = remembered(next, db, cache);
                    match (db.count)(key, plan.params) {
                        Err(_) => {
                            lemma_ended(after, db, cache1, 2);
                        },
                        Ok(count) => {
                            lemma_shape_run(plan, count, db, cache1);
                        },
                    }
                }
            },
        }
    }
}

proof fn lemma_run_split(step: StepModel, db: Database, cache: CountCacheModel, m: nat, n: nat)
    ensures
        ({
            let (step1, cache1) = run(step, db, cache, m);
            run(step, db, cache, m + n) == run(step1, db, cache1, n)
        }),
    decreases m,
{
    if m > 0 {
        lemma_run_split(
            answered(step, db, cache),
            db,
            remembered(step, db, cache),
            (m - 1) as nat,
            n,
        );
    }
}

/// Loading takes seven answers at most and ends in the outcome, whatever count is
/// cached, as long as that count is true of the data at its version; and then the
/// count that is cached afterwards is true too.
pub proof fn law_loading_ends_in_the_outcome(
    query: QueryModel,
    add: Option<Seq<char>>,
    db: Database,
    cache: CountCacheModel,
)
    requires
        faithful(cache, db),
    ensures
        run(first_step(query, add), db, cache, 7).0 == final_step(outcome(query, add, db)),
        faithful(run(first_step(query, add), db, cache, 7).1, db),
{
    let first = first_step(query, add);
    let step = answered(first, db, cache);
    reveal_with_fuel(run, 2);
    assert(run(first, db, cache, 7) == run(step, db, cache, 6));
    match (db.columns)(schema_statement(query.table)) {
        Err(_) => {
            lemma_ended(step, db, cache, 6);
        },
        Ok(infos) => {
            let schema = schema_of(infos);
            if schema.len() == 0 {
                lemma_ended(step, db, cache, 6);
            } else {
                match add {
                    None => {
                        lemma_answer_run(query, schema, db, cache, 2);
                    },
                    Some(raw) => {
                        lemma_extended_run(query, schema, raw, db, cache);
                    },
                }
            }
        },
    }
}

/// How many answers a step may still take.
spec fn rank(step: StepModel) -> nat {
    match step {
        StepModel::Schema { .. } => 7,
        StepModel::Alias { .. } => 6,
        StepModel::Body { .. } => 5,
        StepModel::Version { .. } => 4,
        StepModel::Count { .. } => 3,
        StepModel::Shape { .. } => 2,
        StepModel::Rows { .. } => 1,
        _ => 0,
    }
}

proof fn lemma_rank_falls(step: StepModel, db: Database, cache: CountCacheModel, n: nat)
    requires
        rank(step) <= n,
    ensures
        rank(run(step, db, cache, n).0) == 0,
    decreases n,
{
    if n > 0 {
        lemma_rank_falls(
            answered(step, db, cache),
            db,
            remembered(step, db, cache),
            (n - 1) as nat,
        );
    }
}

/// Whatever the database answers and whatever is cached, loading ends after seven
/// answers at most.
pub proof fn law_loading_ends(
    query: QueryModel,
    add: Option<Seq<char>>,
    db: Database,
    cache: CountCacheModel,
)
    ensures
        ({
            let last = run(first_step(query, add), db, cache, 7).0;
            last is Loaded || last is Failed
        }),
{
    lemma_rank_falls(first_step(query, add), db, cache, 7);
}

/// The cached count, if there is one, was taken from this database.
pub open spec fn counted_by(cache: CountCacheModel, db: Database) -> bool {
    cache.key.len() > 0 ==> db.version == Ok::<i64, Seq<char>>(cache.version) && (db.count)(
        cache.key,
        cache.params,
    ) == Ok::<usize, Seq<char>>(cache.count)
}

/// Loading leaves the cached count alone or takes it from the database.
pub proof fn lemma_cache_after_run(step: StepModel, db: Database, cache: CountCacheModel, n: nat)
    requires
        step matches StepModel::Count { version, .. } ==> db.version == Ok::<i64, Seq<char>>(
            version,
        ),
    ensures
        run(step, db, cache, n).1 == cache || counted_by(run(step, db, cache, n).1, db),
    decreases n,
{
    if n > 0 {
        lemma_cache_after_run(
            answered(step, db, cache),
            db,
            remembered(step, db, cache),
            (n - 1) as nat,
        );
    }
}

proof fn lemma_answer_run(
    query: QueryModel,
    schema: Seq<ColumnModel>,
    db: Database,
    cache: CountCacheModel,
    spare: nat,
)
    requires
        faithful(cache, db),
    ensures
        run(settled(query, schema), db, cache, 4 + spare).0 == final_step(
            answer(query, schema, db),
        ),
        faithful(run(settled(query, schema), db, cache, 4 + spare).1, db),
{
    let step = settled(query, schema);
    lemma_settled_run(query, schema, db, cache);
    lemma_run_split(step, db, cache, 4, spare);
    let (done, cache1) = run(step, db, cache, 4);
    lemma_ended(done, db, cache1, spare);
}

proof fn lemma_accepted_run(
    query: QueryModel,
    schema: Seq<ColumnModel>,
    body: Seq<char>,
    label: Seq<char>,
    db: Database,
    cache: CountCacheModel,
    spare: nat,
)
    requires
        faithful(cache, db),
    ensures
        ({
            let r = run(body_step(query, schema, body, label), db, cache, 5 + spare);
            &&& r.0 == final_step(
                match accepted(query, schema, body, label, db) {
                    Err(e) => Err(e),
                    Ok(q) => answer(q, schema, db),
                },
            )
            &&& faithful(r.1, db)
        }),
{
    let step = body_step(query, schema, body, label);
    let next = answered(step, db, cache);
    assert(run(step, db, cache, 5 + spare) == run(next, db, cache, (4 + spare) as nat));
    if let Ok(q) = accepted(query, schema, body, label, db) {
        lemma_answer_run(q, schema, db, cache, spare);
    } else {
        lemma_ended(next, db, cache, (4 + spare) as nat);
    }
}

proof fn lemma_extended_run(
    query: QueryModel,
    schema: Seq<ColumnModel>,
    raw: Seq<char>,
    db: Database,
    cache: CountCacheModel,
)
    requires
        faithful(cache, db),
    ensures
        ({
            let step = expression_step(query, schema, raw);
            let r = run(step, db, cache, 6);
            &&& r.0 == final_step(
                match extended(query, schema, step, db) {
                    Err(e) => Err(e),
                    Ok(q) => answer(q, schema, db),
                },
            )
            &&& faithful(r.1, db)
        }),
{
    let step = expression_step(query, schema, raw);
    match step {
        StepModel::Alias { sql, body, .. } => {
            let next = answered(step, db, cache);
            assert(run(step, db, cache, 6) == run(next, db, cache, 5));
            if next is Failed {
                lemma_ended(next, db, cache, 5);
            } else {
                let statement = (db.prepare)(sql)->Ok_0;
                lemma_accepted_run(query, schema, body, statement.columns[0], db, cache, 0);
            }
        },
        StepModel::Body { body, label, .. } => {
            lemma_accepted_run(query, schema, body, label, db, cache, 1);
        },
        _ => {
            lemma_ended(step, db, cache, 6);
        },
    }
}

/// `normalized` drops all that it drops at once.
proof fn lemma_normalized_twice(schema: Seq<ColumnModel>, q: QueryModel)
    ensures
        normalized(schema, normalized(schema, q)) == normalized(schema, q),
{
    let once = normalized(schema, q);
    let twice = normalized(schema, once);
    assert(twice.hidden =~= once.hidden);
    assert(twice.filters =~= once.filters);
    assert(twice =~= once);
}

/// What a loaded page is: the query is the one asked for, less what refers to
/// columns that do not exist, at a page that its rows reach; the columns are those
/// that are visible, one at least; the rows are those of the page's own statement,
/// with a cell for every column where the database gives one; and the total is what counting the same source gives.
pub open spec fn answers(
    page: PageModel,
    query: QueryModel,
    schema: Seq<ColumnModel>,
    db: Database,
) -> bool {
    let q = normalized(schema, query);
    &&& page.schema == schema
    &&& page.query == (QueryModel { page: page.query.page, ..q })
    &&& page.query.page <= last_page(page.total)
    &&& q.page <= last_page(page.total) ==> page.query.page == q.page
    &&& page.columns == visible(schema, q.hidden, q.expressions)
    &&& page.columns.len() > 0
    &&& page.params == bound(q.filters)
    &&& (db.count)(count_statement(source(schema, q)), page.params) == Ok::<usize, Seq<char>>(
        page.total,
    )
    &&& page.sql == page_statement(page.columns, source(schema, q), q.sort, page.query.page)
    &&& (db.rows)(page.sql, page.params) matches Ok(rows) && page.rows == cooked_rows(rows) && (
    raw_rows_wide(rows, page.columns.len()) ==> rows_wide(page.rows, page.columns.len()))
}

/// A page that loads answers the query, or the query with the expression that was
/// added last.
pub proof fn law_loaded_page_answers_the_query(
    query: QueryModel,
    add: Option<Seq<char>>,
    db: Database,
    page: PageModel,
)
    requires
        outcome(query, add, db) == Ok::<PageModel, LoadErrorModel>(page),
    ensures
        ({
            let q = QueryModel { expressions: page.query.expressions, ..query };
            &&& answers(page, q, page.schema, db)
            &&& add is None ==> page.query.expressions == query.expressions
            &&& add is Some ==> page.query.expressions.len() == query.expressions.len() + 1
                && page.query.expressions.drop_last() == query.expressions
        }),
{
    let infos = (db.columns)(schema_statement(query.table))->Ok_0;
    let schema = schema_of(infos);
    match add {
        None => {
            assert(query =~= (QueryModel { expressions: page.query.expressions, ..query }));
        },
        Some(raw) => {
            let q = extended(query, schema, expression_step(query, schema, raw), db)->Ok_0;
            assert(q =~= (QueryModel { expressions: page.query.expressions, ..query }));
            assert(q.expressions.drop_last() =~= query.expressions);
        },
    }
}

/// Where the database gives every row a cell for each column of the statement, every
/// row of the page has one.
pub proof fn law_rows_are_as_wide_as_the_page(
    query: QueryModel,
    add: Option<Seq<char>>,
    db: Database,
    page: PageModel,
)
    requires
        outcome(query, add, db) == Ok::<PageModel, LoadErrorModel>(page),
        (db.rows)(page.sql, page.params) matches Ok(rows) ==> raw_rows_wide(
            rows,
            page.columns.len(),
        ),
    ensures
        rows_wide(page.rows, page.columns.len()),
{
    law_loaded_page_answers_the_query(query, add, db, page);
}

/// Loading the query of a loaded page again gives the same page, as long as the
/// database answers the same.
pub proof fn law_reloading_gives_the_same_page(
    query: QueryModel,
    add: Option<Seq<char>>,
    db: Database,
    page: PageModel,
)
    requires
        outcome(query, add, db) == Ok::<PageModel, LoadErrorModel>(page),
    ensures
        outcome(page.query, None, db) == Ok::<PageModel, LoadErrorModel>(page),
{
    let infos = (db.columns)(schema_statement(query.table))->Ok_0;
    let schema = schema_of(infos);
    let asked = match add {
        None => query,
        Some(raw) => extended(query, schema, expression_step(query, schema, raw), db)->Ok_0,
    };
    let q = normalized(schema, asked);
    lemma_normalized_twice(schema, asked);
    assert(page.query =~= (QueryModel { page: page.query.page, ..q }));
    assert(normalized(schema, page.query) =~= page.query) by {
        assert(normalized(schema, q) == q);
        assert(normalized(schema, page.query) =~= (QueryModel {
            page: page.query.page,
            ..normalized(schema, q)
        }));
    }
    let plan = planned(asked, schema);
    let again = planned(page.query, schema);
    assert(again.source == plan.source);
    assert(shaped(again, page.total) =~= shaped(plan, page.total));
}

/// A page of a result that has rows starts at one of them.
pub proof fn law_page_starts_within_the_result(page: usize, total: usize)
    requires
        page <= last_page(total),
    ensures
        total > 0 ==> page * PAGE_SIZE < total,
        total == 0 ==> page == 0,
{
}

/// The page after the last one would start past the result.
pub proof fn law_last_page_is_the_last(total: usize)
    ensures
        last_page(total) * PAGE_SIZE <= total,
        (last_page(total) + 1) * PAGE_SIZE >= total,
{
}

/// What is counted depends on the table, the expressions and the filters alone. So
/// a count that was just taken answers for every page, order and choice of visible
/// columns of the same query, and the rows are not counted again.
pub proof fn law_paging_sorting_and_hiding_reuse_the_count(
    schema: Seq<ColumnModel>,
    counted: QueryModel,
    next: QueryModel,
    cache: CountCacheModel,
    version: i64,
    count: usize,
)
    requires
        next == (QueryModel {
            page: next.page,
            sort: next.sort,
            hidden: next.hidden,
            ..counted
        }),
    ensures
        ({
            let plan = planned(counted, schema);
            let kept = recounted(
                cache,
                count_statement(plan.source),
                plan,
                version,
                Ok::<usize, Seq<char>>(count),
            );
            after_version(planned(next, schema), kept, Ok(version)) == (StepModel::Shape {
                page: shaped(planned(next, schema), count),
            })
        }),
{
    let p = planned(counted, schema);
    let n = planned(next, schema);
    assert(p.query.filters == n.query.filters);
    assert(p.source == n.source);
}

/// A count is not reused at another version of the data, for another source or for
/// other parameters: the rows are counted again.
pub proof fn law_changes_are_counted_again(
    plan: PlanModel,
    counted: PlanModel,
    cache: CountCacheModel,
    earlier: i64,
    version: i64,
    count: usize,
)
    requires
        version != earlier || plan.source != counted.source || plan.params != counted.params,
    ensures
        ({
            let kept = recounted(
                cache,
                count_statement(counted.source),
                counted,
                earlier,
                Ok::<usize, Seq<char>>(count),
            );
            after_version(plan, kept, Ok(version)) == (StepModel::Count {
                sql: count_statement(plan.source),
                plan,
                version,
            })
        }),
{
    let head = "SELECT COUNT(*) FROM "@;
    let a = count_statement(plan.source);
    let b = count_statement(counted.source);
    if a == b {
        assert(plan.source =~= a.skip(head.len() as int));
        assert(counted.source =~= b.skip(head.len() as int));
    }
}

/// A change of the filters alone is counted again too.
pub proof fn law_changed_filters_are_counted_again(
    schema: Seq<ColumnModel>,
    counted: QueryModel,
    next: QueryModel,
    cache: CountCacheModel,
    version: i64,
    count: usize,
)
    requires
        next.table == counted.table,
        next.expressions == counted.expressions,
        counted.filters.dom().finite(),
        next.filters.dom().finite(),
        planned(next, schema).query.filters != planned(counted, schema).query.filters,
    ensures
        ({
            let plan = planned(counted, schema);
            let kept = recounted(
                cache,
                count_statement(plan.source),
                plan,
                version,
                Ok::<usize, Seq<char>>(count),
            );
            after_version(planned(next, schema), kept, Ok(version)) is Count
        }),
{
    let a = planned(counted, schema);
    let b = planned(next, schema);
    let (f, g) = (a.query.filters, b.query.filters);
    assert(f.dom().finite()) by {
        assert(f.dom().subset_of(counted.filters.dom()));
        vstd::set_lib::lemma_set_subset_finite(counted.filters.dom(), f.dom());
    }
    assert(g.dom().finite()) by {
        assert(g.dom().subset_of(next.filters.dom()));
        vstd::set_lib::lemma_set_subset_finite(next.filters.dom(), g.dom());
    }
    if a.source == b.source && a.params == b.params {
        let base = "("@ + base_statement(schema, a.query.expressions, a.query.table) + ")"@;
        let n = base.len() as int;
        assert(a.source == base + where_clause(listing(f.dom())));
        assert(b.source == base + where_clause(listing(g.dom())));
        assert(a.source.skip(n) =~= where_clause(listing(f.dom())));
        assert(b.source.skip(n) =~= where_clause(listing(g.dom())));
        law_conditions_and_parameters_tell_the_filters(f, g);
    }
    law_changes_are_counted_again(b, a, cache, version, version, count);
}

/// The texts of filters are only ever bound: queries that filter the same columns
/// have the same statements, whatever the texts are, and one parameter for each
/// filter.
pub proof fn law_filter_texts_are_only_bound(
    schema: Seq<ColumnModel>,
    a: QueryModel,
    b: QueryModel,
    total: usize,
)
    requires
        a == (QueryModel { filters: a.filters, ..b }),
        a.filters.dom() == b.filters.dom(),
    ensures
        planned(a, schema).source == planned(b, schema).source,
        shaped(planned(a, schema), total).sql == shaped(planned(b, schema), total).sql,
        planned(a, schema).params.len() == listing(planned(a, schema).query.filters.dom()).len(),
{
    let p = planned(a, schema);
    let q = planned(b, schema);
    assert(p.query.filters.dom() =~= q.query.filters.dom());
}

/// Hiding a column drops no filter: a filter stays as long as its column exists,
/// hidden or not.
pub proof fn law_hidden_columns_keep_filters(
    schema: Seq<ColumnModel>,
    q: QueryModel,
    name: Seq<char>,
)
    requires
        q.filters.contains_key(name),
        all_names(schema, q.expressions).contains(name),
    ensures
        planned(q, schema).query.filters.contains_key(name),
        planned(q, schema).query.filters[name] == q.filters[name],
{
}

/// No two names are equal but for the case of ASCII letters.
pub open spec fn unambiguous(names: Seq<Seq<char>>) -> bool {
    forall|i: int, j: int|
        0 <= i < j < names.len() ==> !same_ignoring_case(#[trigger] names[i], #[trigger] names[j])
}

/// An expression is only added under a label that differs from every column and
/// every other label in more than case: names that could be told apart still can.
pub proof fn law_labels_stay_unambiguous(
    query: QueryModel,
    add: Option<Seq<char>>,
    db: Database,
    page: PageModel,
)
    requires
        outcome(query, add, db) == Ok::<PageModel, LoadErrorModel>(page),
        unambiguous(all_names(page.schema, query.expressions)),
    ensures
        unambiguous(all_names(page.schema, page.query.expressions)),
{
    let schema = page.schema;
    let before = all_names(schema, query.expressions);
    let after = all_names(schema, page.query.expressions);
    if let Some(raw) = add {
        let q = extended(query, schema, expression_step(query, schema, raw), db)->Ok_0;
        let label = q.expressions.last().label;
        assert(!taken(before, label));
        assert(after =~= before.push(label));
        assert forall|i: int, j: int| 0 <= i < j < after.len() implies !same_ignoring_case(
            #[trigger] after[i],
            #[trigger] after[j],
        ) by {
            assert(after[i] == before[i]);
            if j < before.len() {
                assert(after[j] == before[j]);
            }
        }
    } else {
        assert(after =~= before);
    }
}

/// An expression is only added once the database has taken it, on its own, for one
/// read-only value.
pub proof fn law_added_expression_is_one_read_only_value(
    query: QueryModel,
    raw: Seq<char>,
    db: Database,
    page: PageModel,
)
    requires
        outcome(query, Some(raw), db) == Ok::<PageModel, LoadErrorModel>(page),
    ensures
        ({
            let added = page.query.expressions.last();
            &&& (db.prepare)(body_statement(added.body, query.table)) matches Ok(statement)
                && statement.readonly && statement.columns.len() == 1
        }),
{
}

/// `column` is one that SQLite describes and lists.
pub open spec fn among(infos: Seq<ColumnInfoModel>, column: ColumnModel) -> bool {
    exists|i: int|
        0 <= i < infos.len() && listed(#[trigger] infos[i]) && described(infos[i]) == column
}

/// All that SQLite describes becomes a base column, except the internal columns of
/// virtual tables, and nothing else does.
pub proof fn law_schema_omits_internal_columns_only(infos: Seq<ColumnInfoModel>)
    ensures
        forall|i: int|
            0 <= i < infos.len() && listed(#[trigger] infos[i]) ==> schema_of(infos).contains(
                described(infos[i]),
            ),
        forall|k: int|
            0 <= k < schema_of(infos).len() ==> among(infos, #[trigger] schema_of(infos)[k]),
    decreases infos.len(),
{
    reveal(Seq::filter);
    let schema = schema_of(infos);
    if infos.len() > 0 {
        let rest = infos.drop_last();
        let last = infos.last();
        law_schema_omits_internal_columns_only(rest);
        if listed(last) {
            assert(schema =~= schema_of(rest).push(described(last)));
        } else {
            assert(schema =~= schema_of(rest));
        }
        assert forall|i: int| 0 <= i < infos.len() && listed(
            #[trigger] infos[i],
        ) implies schema.contains(described(infos[i])) by {
            if i < rest.len() {
                assert(rest[i] == infos[i]);
                assert(schema_of(rest).contains(described(rest[i])));
                let k = choose|k: int|
                    0 <= k < schema_of(rest).len() && schema_of(rest)[k] == described(rest[i]);
                assert(schema[k] == described(infos[i]));
            } else {
                assert(schema[schema.len() - 1] == described(infos[i]));
            }
        }
        assert forall|k: int| 0 <= k < schema.len() implies among(infos, #[trigger] schema[k]) by {
            if k < schema_of(rest).len() {
                assert(schema[k] == schema_of(rest)[k]);
                assert(among(rest, schema_of(rest)[k]));
                let i = choose|i: int|
                    0 <= i < rest.len() && listed(#[trigger] rest[i]) && described(rest[i])
                        == schema_of(rest)[k];
                assert(infos[i] == rest[i]);
            } else {
                assert(infos[infos.len() - 1] == last);
            }
        }
    }
}

} // verus!
