//! Loading one page of results. The work alternates between decisions, which are
//! made here, and database calls, which the caller makes: each step names the
//! statement to run, and is resumed with what came back.
use vstd::prelude::*;
use vstd::string::*;
use vstd::utf8::*;

use crate::db::{
    columns_of, expressions_of, infos_of, quote_ident, quoted, row_of, rows_of, schema, schema_of,
    schema_sql, schema_statement, Column, ColumnInfo, ColumnInfoModel, ColumnModel, Expression,
    ExpressionModel, Page, PageModel, Query, QueryModel, Value, ValueModel, PAGE_SIZE,
};
use crate::scan::{alias_at, alias_start, lemma_alias_boundary};
use crate::sql::{
    all_names, bound, count_sql, count_statement, every_name, filter_params, last_page, normalize,
    normalized, page_sql, page_statement, source, source_sql, visible, visible_columns,
};
use crate::text::{eq_ignore_case, lemma_trimmed_twice, same_ignoring_case, texts, trim, trimmed};

verus! {

/// Why a page could not be loaded.
#[derive(Debug, PartialEq, Eq)]
pub enum LoadError {
    /// What the database said.
    Database(String),
    NoVisibleColumns(String),
    EmptyExpression,
    NotOneColumn,
    NotScalar,
    DuplicateLabel(String),
    NothingVisible,
    ColumnCountChanged,
}

#[verifier::ext_equal]
pub enum LoadErrorModel {
    Database(Seq<char>),
    NoVisibleColumns(Seq<char>),
    EmptyExpression,
    NotOneColumn,
    NotScalar,
    DuplicateLabel(Seq<char>),
    NothingVisible,
    ColumnCountChanged,
}

impl View for LoadError {
    type V = LoadErrorModel;

    open spec fn view(&self) -> LoadErrorModel {
        match self {
            LoadError::Database(message) => LoadErrorModel::Database(message@),
            LoadError::NoVisibleColumns(table) => LoadErrorModel::NoVisibleColumns(table@),
            LoadError::EmptyExpression => LoadErrorModel::EmptyExpression,
            LoadError::NotOneColumn => LoadErrorModel::NotOneColumn,
            LoadError::NotScalar => LoadErrorModel::NotScalar,
            LoadError::DuplicateLabel(label) => LoadErrorModel::DuplicateLabel(label@),
            LoadError::NothingVisible => LoadErrorModel::NothingVisible,
            LoadError::ColumnCountChanged => LoadErrorModel::ColumnCountChanged,
        }
    }
}

/// The message that an error is shown with.
pub open spec fn error_message(e: LoadErrorModel) -> Seq<char> {
    match e {
        LoadErrorModel::Database(message) => message,
        LoadErrorModel::NoVisibleColumns(table) => "No visible columns in "@ + table,
        LoadErrorModel::EmptyExpression => "Enter a SELECT expression"@,
        LoadErrorModel::NotOneColumn => "An expression must return exactly one column"@,
        LoadErrorModel::NotScalar => "Enter one read-only scalar expression"@,
        LoadErrorModel::DuplicateLabel(label) => "Duplicate column label: "@ + label,
        LoadErrorModel::NothingVisible => "Keep at least one column visible"@,
        LoadErrorModel::ColumnCountChanged => "Query column count changed unexpectedly"@,
    }
}

impl LoadError {
    pub fn message(&self) -> (s: String)
        ensures
            s@ == error_message(self@),
    {
        match self {
            LoadError::Database(message) => message.clone(),
            LoadError::NoVisibleColumns(table) => {
                let mut s = "No visible columns in ".to_owned();
                s.append(table.as_str());
                s
            },
            LoadError::EmptyExpression => "Enter a SELECT expression".to_owned(),
            LoadError::NotOneColumn => "An expression must return exactly one column".to_owned(),
            LoadError::NotScalar => "Enter one read-only scalar expression".to_owned(),
            LoadError::DuplicateLabel(label) => {
                let mut s = "Duplicate column label: ".to_owned();
                s.append(label.as_str());
                s
            },
            LoadError::NothingVisible => "Keep at least one column visible".to_owned(),
            LoadError::ColumnCountChanged => "Query column count changed unexpectedly".to_owned(),
        }
    }
}

/// The last count, with all that it depends on.
pub struct CountCache {
    pub key: String,
    pub params: Vec<String>,
    pub version: i64,
    pub count: usize,
}

#[verifier::ext_equal]
pub struct CountCacheModel {
    pub key: Seq<char>,
    pub params: Seq<Seq<char>>,
    pub version: i64,
    pub count: usize,
}

impl View for CountCache {
    type V = CountCacheModel;

    open spec fn view(&self) -> CountCacheModel {
        CountCacheModel {
            key: self.key@,
            params: texts(self.params@),
            version: self.version,
            count: self.count,
        }
    }
}

impl Default for CountCache {
    fn default() -> (c: Self)
        ensures
            c@ == (CountCacheModel {
                key: Seq::empty(),
                params: Seq::empty(),
                version: 0,
                count: 0,
            }),
    {
        CountCache { key: String::new(), params: Vec::new(), version: 0, count: 0 }
    }
}

/// What SQLite says of a prepared statement.
pub struct Statement {
    pub columns: Vec<String>,
    pub readonly: bool,
}

#[verifier::ext_equal]
pub struct StatementModel {
    pub columns: Seq<Seq<char>>,
    pub readonly: bool,
}

impl View for Statement {
    type V = StatementModel;

    open spec fn view(&self) -> StatementModel {
        StatementModel { columns: texts(self.columns@), readonly: self.readonly }
    }
}

/// A cell as SQLite hands it out. A real number comes as its decimal text.
pub enum RawValue {
    Null,
    Integer(i64),
    Real(String),
    Text(Vec<u8>),
    Blob(Vec<u8>),
}

#[verifier::ext_equal]
pub enum RawValueModel {
    Null,
    Integer(i64),
    Real(Seq<char>),
    Text(Seq<u8>),
    Blob(Seq<u8>),
}

impl View for RawValue {
    type V = RawValueModel;

    open spec fn view(&self) -> RawValueModel {
        match self {
            RawValue::Null => RawValueModel::Null,
            RawValue::Integer(n) => RawValueModel::Integer(*n),
            RawValue::Real(s) => RawValueModel::Real(s@),
            RawValue::Text(b) => RawValueModel::Text(b@),
            RawValue::Blob(b) => RawValueModel::Blob(b@),
        }
    }
}

/// What `String::from_utf8_lossy` makes of bytes.
pub uninterp spec fn lossy_text(bytes: Seq<u8>) -> Seq<char>;

/// `String::from_utf8_lossy`: a function of the bytes alone, which decodes valid
/// UTF-8 as it stands and puts U+FFFD in place of what is not. How many of those
/// stand for a run of invalid bytes is left to its name.
#[verifier::external_body]
fn decode_lossy(bytes: &Vec<u8>) -> (s: String)
    ensures
        s@ == lossy_text(bytes@),
        valid_utf8(bytes@) ==> s@ == decode_utf8(bytes@),
{
    String::from_utf8_lossy(bytes).into_owned()
}

/// A cell as it is kept: text is decoded, the rest stays.
pub open spec fn cooked(raw: RawValueModel) -> ValueModel {
    match raw {
        RawValueModel::Null => ValueModel::Null,
        RawValueModel::Integer(n) => ValueModel::Integer(n),
        RawValueModel::Real(s) => ValueModel::Real(s),
        RawValueModel::Text(b) => ValueModel::Text(lossy_text(b)),
        RawValueModel::Blob(b) => ValueModel::Blob(b),
    }
}

/// Decodes a cell. Text that is valid UTF-8 is kept as it is.
pub fn cook(raw: RawValue) -> (v: Value)
    ensures
        v@ == cooked(raw@),
        raw@ matches RawValueModel::Text(b) ==> valid_utf8(b) ==> v@ == ValueModel::Text(
            decode_utf8(b),
        ),
{
    match raw {
        RawValue::Null => Value::Null,
        RawValue::Integer(n) => Value::Integer(n),
        RawValue::Real(s) => Value::Real(s),
        RawValue::Text(b) => Value::Text(decode_lossy(&b)),
        RawValue::Blob(b) => Value::Blob(b),
    }
}

pub open spec fn raw_row_of(row: Seq<RawValue>) -> Seq<RawValueModel> {
    Seq::new(row.len(), |i: int| row[i]@)
}

pub open spec fn raw_rows_of(rows: Seq<Vec<RawValue>>) -> Seq<Seq<RawValueModel>> {
    Seq::new(rows.len(), |i: int| raw_row_of(rows[i]@))
}

pub open spec fn cooked_row(row: Seq<RawValueModel>) -> Seq<ValueModel> {
    Seq::new(row.len(), |i: int| cooked(row[i]))
}

pub open spec fn cooked_rows(rows: Seq<Seq<RawValueModel>>) -> Seq<Seq<ValueModel>> {
    Seq::new(rows.len(), |i: int| cooked_row(rows[i]))
}

fn cook_row(raw: Vec<RawValue>) -> (row: Vec<Value>)
    ensures
        row_of(row@) == cooked_row(raw_row_of(raw@)),
{
    let ghost given = raw_row_of(raw@);
    let mut row: Vec<Value> = Vec::new();
    for cell in it: raw
        invariant
            raw_row_of(it.seq()) == given,
            row_of(row@) == cooked_row(given.take(it.index())),
    {
        let ghost row0 = row@;
        assert(cell@ == given[it.index()]);
        row.push(cook(cell));
        assert(row_of(row@) =~= row_of(row0).push(cooked(given[it.index()])));
        assert(row_of(row@) =~= cooked_row(given.take(it.index() + 1)));
    }
    assert(row_of(row@) =~= cooked_row(given));
    row
}

fn cook_rows(raw: Vec<Vec<RawValue>>) -> (rows: Vec<Vec<Value>>)
    ensures
        rows_of(rows@) == cooked_rows(raw_rows_of(raw@)),
{
    let ghost given = raw_rows_of(raw@);
    let mut rows: Vec<Vec<Value>> = Vec::new();
    for row in it: raw
        invariant
            raw_rows_of(it.seq()) == given,
            rows_of(rows@) == cooked_rows(given.take(it.index())),
    {
        let ghost rows0 = rows@;
        assert(raw_row_of(row@) == given[it.index()]);
        rows.push(cook_row(row));
        assert(rows_of(rows@) =~= rows_of(rows0).push(cooked_row(given[it.index()])));
        assert(rows_of(rows@) =~= cooked_rows(given.take(it.index() + 1)));
    }
    assert(rows_of(rows@) =~= cooked_rows(given));
    rows
}

/// All that a page needs from the database but its count and its rows.
pub struct Plan {
    pub query: Query,
    pub schema: Vec<Column>,
    pub columns: Vec<String>,
    pub source: String,
    pub params: Vec<String>,
}

#[verifier::ext_equal]
pub struct PlanModel {
    pub query: QueryModel,
    pub schema: Seq<ColumnModel>,
    pub columns: Seq<Seq<char>>,
    pub source: Seq<char>,
    pub params: Seq<Seq<char>>,
}

impl View for Plan {
    type V = PlanModel;

    open spec fn view(&self) -> PlanModel {
        PlanModel {
            query: self.query@,
            schema: columns_of(self.schema@),
            columns: texts(self.columns@),
            source: self.source@,
            params: texts(self.params@),
        }
    }
}

/// Asks for the columns of the table.
pub struct SchemaStep {
    pub sql: String,
    pub query: Query,
    pub add: Option<String>,
}

/// Asks what the projection with an alias returns, which decodes a quoted alias.
pub struct AliasStep {
    pub sql: String,
    pub query: Query,
    pub schema: Vec<Column>,
    pub body: String,
}

/// Asks whether an expression is one read-only value.
pub struct BodyStep {
    pub sql: String,
    pub query: Query,
    pub schema: Vec<Column>,
    pub body: String,
    pub label: String,
}

/// Asks for the version of the data.
pub struct VersionStep {
    pub sql: String,
    pub plan: Plan,
}

/// Asks for the number of rows, with the plan's parameters bound.
pub struct CountStep {
    pub sql: String,
    pub plan: Plan,
    pub version: i64,
}

/// Asks what the page's statement returns.
pub struct ShapeStep {
    pub page: Page,
}

/// Asks for the rows of the page, with its parameters bound.
pub struct RowsStep {
    pub page: Page,
}

/// Where loading a page has got to.
pub enum Step {
    Schema(SchemaStep),
    Alias(AliasStep),
    Body(BodyStep),
    Version(VersionStep),
    Count(CountStep),
    Shape(ShapeStep),
    Rows(RowsStep),
    Loaded(Page),
    Failed(LoadError),
}

#[verifier::ext_equal]
pub enum StepModel {
    Schema { sql: Seq<char>, query: QueryModel, add: Option<Seq<char>> },
    Alias { sql: Seq<char>, query: QueryModel, schema: Seq<ColumnModel>, body: Seq<char> },
    Body {
        sql: Seq<char>,
        query: QueryModel,
        schema: Seq<ColumnModel>,
        body: Seq<char>,
        label: Seq<char>,
    },
    Version { sql: Seq<char>, plan: PlanModel },
    Count { sql: Seq<char>, plan: PlanModel, version: i64 },
    Shape { page: PageModel },
    Rows { page: PageModel },
    Loaded(PageModel),
    Failed(LoadErrorModel),
}

pub open spec fn text_of(s: Option<String>) -> Option<Seq<char>> {
    match s {
        Some(s) => Some(s@),
        None => None,
    }
}

impl View for Step {
    type V = StepModel;

    open spec fn view(&self) -> StepModel {
        match self {
            Step::Schema(s) => StepModel::Schema {
                sql: s.sql@,
                query: s.query@,
                add: text_of(s.add),
            },
            Step::Alias(s) => StepModel::Alias {
                sql: s.sql@,
                query: s.query@,
                schema: columns_of(s.schema@),
                body: s.body@,
            },
            Step::Body(s) => StepModel::Body {
                sql: s.sql@,
                query: s.query@,
                schema: columns_of(s.schema@),
                body: s.body@,
                label: s.label@,
            },
            Step::Version(s) => StepModel::Version { sql: s.sql@, plan: s.plan@ },
            Step::Count(s) => StepModel::Count { sql: s.sql@, plan: s.plan@, version: s.version },
            Step::Shape(s) => StepModel::Shape { page: s.page@ },
            Step::Rows(s) => StepModel::Rows { page: s.page@ },
            Step::Loaded(page) => StepModel::Loaded(page@),
            Step::Failed(e) => StepModel::Failed(e@),
        }
    }
}

pub open spec fn infos_answer(a: Result<Vec<ColumnInfo>, String>) -> Result<
    Seq<ColumnInfoModel>,
    Seq<char>,
> {
    match a {
        Ok(infos) => Ok(infos_of(infos@)),
        Err(message) => Err(message@),
    }
}

pub open spec fn statement_answer(a: Result<Statement, String>) -> Result<
    StatementModel,
    Seq<char>,
> {
    match a {
        Ok(statement) => Ok(statement@),
        Err(message) => Err(message@),
    }
}

pub open spec fn version_answer(a: Result<i64, String>) -> Result<i64, Seq<char>> {
    match a {
        Ok(version) => Ok(version),
        Err(message) => Err(message@),
    }
}

pub open spec fn count_answer(a: Result<usize, String>) -> Result<usize, Seq<char>> {
    match a {
        Ok(count) => Ok(count),
        Err(message) => Err(message@),
    }
}

pub open spec fn rows_answer(a: Result<Vec<Vec<RawValue>>, String>) -> Result<
    Seq<Seq<RawValueModel>>,
    Seq<char>,
> {
    match a {
        Ok(rows) => Ok(raw_rows_of(rows@)),
        Err(message) => Err(message@),
    }
}

/// The first step of loading a page.
pub open spec fn first_step(query: QueryModel, add: Option<Seq<char>>) -> StepModel {
    StepModel::Schema { sql: schema_statement(query.table), query, add }
}

/// Starts loading a page, with an expression to add where there is one.
pub fn load(query: Query, add: Option<String>) -> (step: Step)
    ensures
        step@ == first_step(query@, text_of(add)),
{
    let sql = schema_sql(query.table.as_str());
    Step::Schema(SchemaStep { sql, query, add })
}

/// The plan for a query over `schema`.
pub open spec fn planned(query: QueryModel, schema: Seq<ColumnModel>) -> PlanModel {
    let q = normalized(schema, query);
    PlanModel {
        query: q,
        schema,
        columns: visible(schema, q.hidden, q.expressions),
        source: source(schema, q),
        params: bound(q.filters),
    }
}

/// The step once the query is settled: the version of the data is asked for, unless
/// nothing at all is visible.
pub open spec fn settled(query: QueryModel, schema: Seq<ColumnModel>) -> StepModel {
    let plan = planned(query, schema);
    if plan.columns.len() == 0 {
        StepModel::Failed(LoadErrorModel::NothingVisible)
    } else {
        StepModel::Version { sql: "PRAGMA data_version"@, plan }
    }
}

fn settle(query: Query, schema: Vec<Column>) -> (step: Step)
    ensures
        step@ == settled(query@, columns_of(schema@)),
{
    let mut query = query;
    normalize(&mut query, &schema);
    let columns = visible_columns(&schema, &query.hidden, &query.expressions);
    if columns.len() == 0 {
        assert(texts(columns@).len() == 0);
        return Step::Failed(LoadError::NothingVisible);
    }
    let source = source_sql(&schema, &query);
    let params = filter_params(&query.filters);
    let plan = Plan { query, schema, columns, source, params };
    Step::Version(VersionStep { sql: "PRAGMA data_version".to_owned(), plan })
}

/// The projection of `raw` alone, with its alias.
pub open spec fn alias_statement(raw: Seq<char>, table: Seq<char>) -> Seq<char> {
    "SELECT "@ + raw + "\nFROM "@ + quoted(table) + " LIMIT 0"@
}

/// The projection of `body` alone, as one value.
pub open spec fn body_statement(body: Seq<char>, table: Seq<char>) -> Seq<char> {
    "SELECT ("@ + body + "\n) FROM "@ + quoted(table) + " LIMIT 0"@
}

pub open spec fn body_step(
    query: QueryModel,
    schema: Seq<ColumnModel>,
    body: Seq<char>,
    label: Seq<char>,
) -> StepModel {
    StepModel::Body { sql: body_statement(body, query.table), query, schema, body, label }
}

/// What stands before the alias.
pub open spec fn before_alias(raw: Seq<char>, at: int) -> Seq<char> {
    decode_utf8(encode_utf8(raw).subrange(0, at))
}

/// The step that an expression to add begins with: with an alias, SQLite is asked
/// for the label; without one the text is its own label.
pub open spec fn expression_step(
    query: QueryModel,
    schema: Seq<ColumnModel>,
    raw: Seq<char>,
) -> StepModel {
    let raw = trimmed(raw);
    if raw.len() == 0 {
        StepModel::Failed(LoadErrorModel::EmptyExpression)
    } else {
        match alias_at(encode_utf8(raw)) {
            Some(at) => StepModel::Alias {
                sql: alias_statement(raw, query.table),
                query,
                schema,
                body: trimmed(before_alias(raw, at)),
            },
            None => body_step(query, schema, raw, raw),
        }
    }
}

fn ask_body(query: Query, schema: Vec<Column>, body: String, label: String) -> (step: Step)
    ensures
        step@ == body_step(query@, columns_of(schema@), body@, label@),
{
    let mut sql = "SELECT (".to_owned();
    sql.append(body.as_str());
    sql.append("\n) FROM ");
    sql.append(quote_ident(query.table.as_str()).as_str());
    sql.append(" LIMIT 0");
    assert(sql@ =~= body_statement(body@, query@.table));
    Step::Body(BodyStep { sql, query, schema, body, label })
}

/// Begins adding the expression `raw` to the query.
pub fn expression(query: Query, schema: Vec<Column>, raw: &str) -> (step: Step)
    ensures
        step@ == expression_step(query@, columns_of(schema@), raw@),
{
    let ghost given = raw@;
    let raw = trim(raw);
    if raw.as_str().is_empty() {
        return Step::Failed(LoadError::EmptyExpression);
    }
    match alias_start(raw.as_str()) {
        Some(at) => {
            proof {
                lemma_alias_boundary(raw@);
            }
            let (head, _) = raw.as_str().split_at(at);
            proof {
                encode_utf8_decode_utf8(head@);
            }
            let body = trim(head);
            let mut sql = "SELECT ".to_owned();
            sql.append(raw.as_str());
            sql.append("\nFROM ");
            sql.append(quote_ident(query.table.as_str()).as_str());
            sql.append(" LIMIT 0");
            assert(sql@ =~= alias_statement(raw@, query@.table));
            Step::Alias(AliasStep { sql, query, schema, body })
        },
        None => {
            let body = trim(raw.as_str());
            proof {
                lemma_trimmed_twice(given);
            }
            ask_body(query, schema, body, raw)
        },
    }
}

/// What follows the columns of the table.
pub open spec fn after_schema(
    query: QueryModel,
    add: Option<Seq<char>>,
    answer: Result<Seq<ColumnInfoModel>, Seq<char>>,
) -> StepModel {
    match answer {
        Err(message) => StepModel::Failed(LoadErrorModel::Database(message)),
        Ok(infos) => {
            let schema = schema_of(infos);
            if schema.len() == 0 {
                StepModel::Failed(LoadErrorModel::NoVisibleColumns(query.table))
            } else {
                match add {
                    None => settled(query, schema),
                    Some(raw) => expression_step(query, schema, raw),
                }
            }
        },
    }
}

impl SchemaStep {
    pub fn resume(self, answer: Result<Vec<ColumnInfo>, String>) -> (step: Step)
        ensures
            step@ == after_schema(self.query@, text_of(self.add), infos_answer(answer)),
    {
        match answer {
            Err(message) => Step::Failed(LoadError::Database(message)),
            Ok(infos) => {
                let columns = schema(&infos);
                assert(columns_of(columns@).len() == columns@.len());
                if columns.len() == 0 {
                    return Step::Failed(LoadError::NoVisibleColumns(self.query.table));
                }
                match self.add {
                    None => settle(self.query, columns),
                    Some(raw) => expression(self.query, columns, raw.as_str()),
                }
            },
        }
    }
}

/// What follows the projection with the alias.
pub open spec fn after_alias(
    query: QueryModel,
    schema: Seq<ColumnModel>,
    body: Seq<char>,
    answer: Result<StatementModel, Seq<char>>,
) -> StepModel {
    match answer {
        Err(message) => StepModel::Failed(LoadErrorModel::Database(message)),
        Ok(statement) => if statement.columns.len() != 1 {
            StepModel::Failed(LoadErrorModel::NotOneColumn)
        } else {
            body_step(query, schema, body, statement.columns[0])
        },
    }
}

impl AliasStep {
    pub fn resume(self, answer: Result<Statement, String>) -> (step: Step)
        ensures
            step@ == after_alias(
                self.query@,
                columns_of(self.schema@),
                self.body@,
                statement_answer(answer),
            ),
    {
        match answer {
            Err(message) => Step::Failed(LoadError::Database(message)),
            Ok(statement) => {
                assert(statement@.columns.len() == statement.columns@.len());
                if statement.columns.len() != 1 {
                    return Step::Failed(LoadError::NotOneColumn);
                }
                let label = statement.columns[0].clone();
                ask_body(self.query, self.schema, self.body, label)
            },
        }
    }
}

/// Whether a name equal to `label`, but for case, is already there.
pub open spec fn taken(names: Seq<Seq<char>>, label: Seq<char>) -> bool {
    exists|i: int| 0 <= i < names.len() && same_ignoring_case(#[trigger] names[i], label)
}

fn is_taken(names: &Vec<String>, label: &String) -> (r: bool)
    ensures
        r == taken(texts(names@), label@),
{
    let mut i: usize = 0;
    while i < names.len()
        invariant
            i <= names@.len(),
            forall|j: int|
                0 <= j < i ==> !same_ignoring_case(#[trigger] texts(names@)[j], label@),
        decreases names@.len() - i,
    {
        if eq_ignore_case(names[i].as_str(), label.as_str()) {
            assert(same_ignoring_case(texts(names@)[i as int], label@));
            return true;
        }
        i += 1;
    }
    false
}

/// The query with one more expression.
pub open spec fn with_expression(query: QueryModel, body: Seq<char>, label: Seq<char>) -> QueryModel {
    QueryModel { expressions: query.expressions.push(ExpressionModel { body, label }), ..query }
}

/// What follows the expression as one value.
pub open spec fn after_body(
    query: QueryModel,
    schema: Seq<ColumnModel>,
    body: Seq<char>,
    label: Seq<char>,
    answer: Result<StatementModel, Seq<char>>,
) -> StepModel {
    match answer {
        Err(message) => StepModel::Failed(LoadErrorModel::Database(message)),
        Ok(statement) => if !statement.readonly || statement.columns.len() != 1 {
            StepModel::Failed(LoadErrorModel::NotScalar)
        } else if taken(all_names(schema, query.expressions), label) {
            StepModel::Failed(LoadErrorModel::DuplicateLabel(label))
        } else {
            settled(with_expression(query, body, label), schema)
        },
    }
}

impl BodyStep {
    pub fn resume(self, answer: Result<Statement, String>) -> (step: Step)
        ensures
            step@ == after_body(
                self.query@,
                columns_of(self.schema@),
                self.body@,
                self.label@,
                statement_answer(answer),
            ),
    {
        match answer {
            Err(message) => Step::Failed(LoadError::Database(message)),
            Ok(statement) => {
                assert(statement@.columns.len() == statement.columns@.len());
                if !statement.readonly || statement.columns.len() != 1 {
                    return Step::Failed(LoadError::NotScalar);
                }
                let names = every_name(&self.schema, &self.query.expressions);
                if is_taken(&names, &self.label) {
                    return Step::Failed(LoadError::DuplicateLabel(self.label));
                }
                let ghost before = self.query@;
                let mut query = self.query;
                let ghost expressions0 = query.expressions@;
                query.expressions.push(Expression { body: self.body, label: self.label });
                proof {
                    let added = ExpressionModel { body: self.body@, label: self.label@ };
                    assert(expressions_of(query.expressions@) =~= expressions_of(
                        expressions0,
                    ).push(added));
                    assert(query@ =~= with_expression(before, self.body@, self.label@));
                }
                settle(query, self.schema)
            },
        }
    }
}

/// The cached count answers for this plan at this version of the data.
pub open spec fn cache_hit(cache: CountCacheModel, plan: PlanModel, version: i64) -> bool {
    &&& cache.key == count_statement(plan.source)
    &&& cache.params == plan.params
    &&& cache.version == version
}

/// The page of a plan once the number of rows is known; its rows are still missing.
pub open spec fn shaped(plan: PlanModel, total: usize) -> PageModel {
    let page = if plan.query.page <= last_page(total) {
        plan.query.page
    } else {
        last_page(total)
    };
    PageModel {
        query: QueryModel { page, ..plan.query },
        schema: plan.schema,
        columns: plan.columns,
        rows: Seq::empty(),
        total,
        sql: page_statement(plan.columns, plan.source, plan.query.sort, page),
        params: plan.params,
    }
}

fn shape(plan: Plan, total: usize) -> (page: Page)
    ensures
        page@ == shaped(plan@, total),
{
    let last: usize = total.saturating_sub(1) / PAGE_SIZE;
    let mut query = plan.query;
    if query.page > last {
        query.page = last;
    }
    assert(query.page <= last && last * PAGE_SIZE <= total);
    let sql = page_sql(&plan.columns, &plan.source, &query.sort, query.page);
    let rows: Vec<Vec<Value>> = Vec::new();
    assert(rows_of(rows@) =~= Seq::empty());
    Page {
        query,
        schema: plan.schema,
        columns: plan.columns,
        rows,
        total,
        sql,
        params: plan.params,
    }
}

fn same_texts(a: &Vec<String>, b: &Vec<String>) -> (r: bool)
    ensures
        r == (texts(a@) == texts(b@)),
{
    if a.len() != b.len() {
        assert(texts(a@).len() != texts(b@).len());
        return false;
    }
    let mut i: usize = 0;
    while i < a.len()
        invariant
            a@.len() == b@.len(),
            i <= a@.len(),
            forall|j: int| 0 <= j < i ==> texts(a@)[j] == texts(b@)[j],
        decreases a@.len() - i,
    {
        if a[i] != b[i] {
            assert(texts(a@)[i as int] != texts(b@)[i as int]);
            return false;
        }
        i += 1;
    }
    assert(texts(a@) =~= texts(b@));
    true
}

/// What follows the version of the data: the rows are counted, unless the cached
/// count still answers.
pub open spec fn after_version(
    plan: PlanModel,
    cache: CountCacheModel,
    answer: Result<i64, Seq<char>>,
) -> StepModel {
    match answer {
        Err(message) => StepModel::Failed(LoadErrorModel::Database(message)),
        Ok(version) => if cache_hit(cache, plan, version) {
            StepModel::Shape { page: shaped(plan, cache.count) }
        } else {
            StepModel::Count { sql: count_statement(plan.source), plan, version }
        },
    }
}

impl VersionStep {
    pub fn resume(self, answer: Result<i64, String>, cache: &CountCache) -> (step: Step)
        ensures
            step@ == after_version(self.plan@, cache@, version_answer(answer)),
    {
        match answer {
            Err(message) => Step::Failed(LoadError::Database(message)),
            Ok(version) => {
                let sql = count_sql(&self.plan.source);
                if cache.key == sql && same_texts(&cache.params, &self.plan.params)
                    && cache.version == version {
                    Step::Shape(ShapeStep { page: shape(self.plan, cache.count) })
                } else {
                    Step::Count(CountStep { sql, plan: self.plan, version })
                }
            },
        }
    }
}

/// What follows the count.
pub open spec fn after_count(plan: PlanModel, answer: Result<usize, Seq<char>>) -> StepModel {
    match answer {
        Err(message) => StepModel::Failed(LoadErrorModel::Database(message)),
        Ok(count) => StepModel::Shape { page: shaped(plan, count) },
    }
}

/// The cache after a count.
pub open spec fn recounted(
    cache: CountCacheModel,
    sql: Seq<char>,
    plan: PlanModel,
    version: i64,
    answer: Result<usize, Seq<char>>,
) -> CountCacheModel {
    match answer {
        Err(_) => cache,
        Ok(count) => CountCacheModel { key: sql, params: plan.params, version, count },
    }
}

impl CountStep {
    pub fn resume(self, answer: Result<usize, String>, cache: &mut CountCache) -> (step: Step)
        ensures
            step@ == after_count(self.plan@, count_answer(answer)),
            final(cache)@ == recounted(
                old(cache)@,
                self.sql@,
                self.plan@,
                self.version,
                count_answer(answer),
            ),
    {
        match answer {
            Err(message) => Step::Failed(LoadError::Database(message)),
            Ok(count) => {
                let params = self.plan.params.clone();
                assert(texts(params@) =~= texts(self.plan.params@));
                *cache = CountCache { key: self.sql, params, version: self.version, count };
                Step::Shape(ShapeStep { page: shape(self.plan, count) })
            },
        }
    }
}

/// What follows the shape of the page's statement.
pub open spec fn after_shape(
    page: PageModel,
    answer: Result<StatementModel, Seq<char>>,
) -> StepModel {
    match answer {
        Err(message) => StepModel::Failed(LoadErrorModel::Database(message)),
        Ok(statement) => if statement.columns.len() != page.columns.len() {
            StepModel::Failed(LoadErrorModel::ColumnCountChanged)
        } else {
            StepModel::Rows { page }
        },
    }
}

impl ShapeStep {
    pub fn resume(self, answer: Result<Statement, String>) -> (step: Step)
        ensures
            step@ == after_shape(self.page@, statement_answer(answer)),
    {
        match answer {
            Err(message) => Step::Failed(LoadError::Database(message)),
            Ok(statement) => {
                assert(statement@.columns.len() == statement.columns@.len());
                assert(self.page@.columns.len() == self.page.columns@.len());
                if statement.columns.len() != self.page.columns.len() {
                    return Step::Failed(LoadError::ColumnCountChanged);
                }
                Step::Rows(RowsStep { page: self.page })
            },
        }
    }
}

/// Every row of raw cells has `width` of them.
pub open spec fn raw_rows_wide(rows: Seq<Seq<RawValueModel>>, width: nat) -> bool {
    forall|i: int| 0 <= i < rows.len() ==> (#[trigger] rows[i]).len() == width
}

/// Every row of cells has `width` of them.
pub open spec fn rows_wide(rows: Seq<Seq<ValueModel>>, width: nat) -> bool {
    forall|i: int| 0 <= i < rows.len() ==> (#[trigger] rows[i]).len() == width
}

/// What follows the rows: the page is there.
pub open spec fn after_rows(
    page: PageModel,
    answer: Result<Seq<Seq<RawValueModel>>, Seq<char>>,
) -> StepModel {
    match answer {
        Err(message) => StepModel::Failed(LoadErrorModel::Database(message)),
        Ok(rows) => StepModel::Loaded(PageModel { rows: cooked_rows(rows), ..page }),
    }
}

impl RowsStep {
    /// Where each row that came back has a cell for every column, so has each row of
    /// the page.
    pub fn resume(self, answer: Result<Vec<Vec<RawValue>>, String>) -> (step: Step)
        ensures
            step@ == after_rows(self.page@, rows_answer(answer)),
            rows_answer(answer) matches Ok(rows) ==> step@ matches StepModel::Loaded(page)
                && page.rows.len() == rows.len() && (raw_rows_wide(rows, page.columns.len())
                ==> rows_wide(page.rows, page.columns.len())),
    {
        match answer {
            Err(message) => Step::Failed(LoadError::Database(message)),
            Ok(rows) => {
                let mut page = self.page;
                page.rows = cook_rows(rows);
                Step::Loaded(page)
            },
        }
    }
}

} // verus!
