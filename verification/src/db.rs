//! What is read from the database and what is asked of it: columns, queries, cell
//! values, result pages, and the SQL text they turn into.
use vstd::prelude::*;
use vstd::string::*;

use crate::names::{NameMap, NameSet};
use crate::text::{chars_of, integer_text, signed_decimal, texts};

verus! {

/// Rows on one page of results.
pub const PAGE_SIZE: usize = 50;

/// A base column of a table or view.
#[derive(Debug, PartialEq, Eq)]
pub struct Column {
    pub name: String,
    pub kind: String,
    pub primary_key: bool,
    pub generated: bool,
}

#[verifier::ext_equal]
pub struct ColumnModel {
    pub name: Seq<char>,
    pub kind: Seq<char>,
    pub primary_key: bool,
    pub generated: bool,
}

impl View for Column {
    type V = ColumnModel;

    open spec fn view(&self) -> ColumnModel {
        ColumnModel {
            name: self.name@,
            kind: self.kind@,
            primary_key: self.primary_key,
            generated: self.generated,
        }
    }
}

impl Clone for Column {
    fn clone(&self) -> (c: Self)
        ensures
            c@ == self@,
    {
        Column {
            name: self.name.clone(),
            kind: self.kind.clone(),
            primary_key: self.primary_key,
            generated: self.generated,
        }
    }
}

pub open spec fn columns_of(v: Seq<Column>) -> Seq<ColumnModel> {
    Seq::new(v.len(), |i: int| v[i]@)
}

/// The names of a list of columns.
pub open spec fn column_names(schema: Seq<ColumnModel>) -> Seq<Seq<char>> {
    Seq::new(schema.len(), |i: int| schema[i].name)
}

/// A computed column: the SQL expression and the label that it is shown under.
#[derive(Debug, PartialEq, Eq)]
pub struct Expression {
    pub body: String,
    pub label: String,
}

#[verifier::ext_equal]
pub struct ExpressionModel {
    pub body: Seq<char>,
    pub label: Seq<char>,
}

impl View for Expression {
    type V = ExpressionModel;

    open spec fn view(&self) -> ExpressionModel {
        ExpressionModel { body: self.body@, label: self.label@ }
    }
}

impl Clone for Expression {
    fn clone(&self) -> (e: Self)
        ensures
            e@ == self@,
    {
        Expression { body: self.body.clone(), label: self.label.clone() }
    }
}

pub open spec fn expressions_of(v: Seq<Expression>) -> Seq<ExpressionModel> {
    Seq::new(v.len(), |i: int| v[i]@)
}

/// The labels of a list of expressions.
pub open spec fn labels(expressions: Seq<ExpressionModel>) -> Seq<Seq<char>> {
    Seq::new(expressions.len(), |i: int| expressions[i].label)
}

/// What is shown of a table: which columns, filtered and sorted how, and which page.
#[derive(Debug, PartialEq, Eq)]
pub struct Query {
    pub table: String,
    pub hidden: NameSet,
    pub expressions: Vec<Expression>,
    pub filters: NameMap,
    /// Column and direction; `true` is descending.
    pub sort: Option<(String, bool)>,
    pub page: usize,
}

#[verifier::ext_equal]
pub struct QueryModel {
    pub table: Seq<char>,
    pub hidden: Set<Seq<char>>,
    pub expressions: Seq<ExpressionModel>,
    pub filters: Map<Seq<char>, Seq<char>>,
    pub sort: Option<(Seq<char>, bool)>,
    pub page: usize,
}

pub open spec fn sort_of(sort: Option<(String, bool)>) -> Option<(Seq<char>, bool)> {
    match sort {
        Some((name, descending)) => Some((name@, descending)),
        None => None,
    }
}

impl View for Query {
    type V = QueryModel;

    open spec fn view(&self) -> QueryModel {
        QueryModel {
            table: self.table@,
            hidden: self.hidden@,
            expressions: expressions_of(self.expressions@),
            filters: self.filters@,
            sort: sort_of(self.sort),
            page: self.page,
        }
    }
}

/// The query that a table opens with.
pub open spec fn fresh_query(table: Seq<char>) -> QueryModel {
    QueryModel {
        table,
        hidden: Set::empty(),
        expressions: Seq::empty(),
        filters: Map::empty(),
        sort: None,
        page: 0,
    }
}

impl Query {
    /// All columns of `table`, unfiltered and unsorted, from the first page.
    pub fn new(table: String) -> (q: Self)
        ensures
            q@ == fresh_query(table@),
    {
        Query {
            table,
            hidden: NameSet::new(),
            expressions: Vec::new(),
            filters: NameMap::new(),
            sort: None,
            page: 0,
        }
    }
}

impl Clone for Query {
    fn clone(&self) -> (q: Self)
        ensures
            q@ == self@,
    {
        let expressions = self.expressions.clone();
        assert(expressions_of(expressions@) =~= expressions_of(self.expressions@));
        let sort = match &self.sort {
            Some((name, descending)) => Some((name.clone(), *descending)),
            None => None,
        };
        Query {
            table: self.table.clone(),
            hidden: self.hidden.clone(),
            expressions,
            filters: self.filters.clone(),
            sort,
            page: self.page,
        }
    }
}

/// A cell. A real number is held as its decimal text.
#[derive(Debug, PartialEq, Eq)]
pub enum Value {
    Null,
    Integer(i64),
    Real(String),
    Text(String),
    Blob(Vec<u8>),
}

#[verifier::ext_equal]
pub enum ValueModel {
    Null,
    Integer(i64),
    Real(Seq<char>),
    Text(Seq<char>),
    Blob(Seq<u8>),
}

impl View for Value {
    type V = ValueModel;

    open spec fn view(&self) -> ValueModel {
        match self {
            Value::Null => ValueModel::Null,
            Value::Integer(n) => ValueModel::Integer(*n),
            Value::Real(s) => ValueModel::Real(s@),
            Value::Text(s) => ValueModel::Text(s@),
            Value::Blob(b) => ValueModel::Blob(b@),
        }
    }
}

impl Clone for Value {
    fn clone(&self) -> (v: Self)
        ensures
            v@ == self@,
    {
        match self {
            Value::Null => Value::Null,
            Value::Integer(n) => Value::Integer(*n),
            Value::Real(s) => Value::Real(s.clone()),
            Value::Text(s) => Value::Text(s.clone()),
            Value::Blob(b) => {
                let copy = b.clone();
                assert(copy@ =~= b@);
                Value::Blob(copy)
            },
        }
    }
}

/// The character for the hexadecimal digit `d`.
pub open spec fn hex_digit(d: int) -> char {
    if d < 10 {
        ('0' as u32 + d) as char
    } else {
        ('A' as u32 + (d - 10)) as char
    }
}

/// The bytes in hexadecimal, two capital digits each.
pub open spec fn hex(b: Seq<u8>) -> Seq<char>
    decreases b.len(),
{
    if b.len() == 0 {
        Seq::empty()
    } else {
        hex(b.drop_last()).push(hex_digit(b.last() as int / 16)).push(
            hex_digit(b.last() as int % 16),
        )
    }
}

/// A cell as plain text: the text itself, a number in decimal, a blob as a SQL
/// literal, and `NULL`.
pub open spec fn value_text(v: ValueModel) -> Seq<char> {
    match v {
        ValueModel::Null => "NULL"@,
        ValueModel::Integer(n) => signed_decimal(n as int),
        ValueModel::Real(s) => s,
        ValueModel::Text(s) => s,
        ValueModel::Blob(b) => "X'"@ + hex(b) + "'"@,
    }
}

fn hex_char(d: u8) -> (c: char)
    requires
        d < 16,
    ensures
        c == hex_digit(d as int),
{
    if d < 10 {
        (0x30 + d) as char
    } else {
        (0x41 + (d - 10)) as char
    }
}

impl Value {
    /// The raw text of the cell, as it is copied.
    pub fn text(&self) -> (s: String)
        ensures
            s@ == value_text(self@),
    {
        match self {
            Value::Null => "NULL".to_owned(),
            Value::Integer(n) => integer_text(*n),
            Value::Real(s) => s.clone(),
            Value::Text(s) => s.clone(),
            Value::Blob(bytes) => {
                let mut s = String::new();
                s.append("X'");
                let mut i: usize = 0;
                while i < bytes.len()
                    invariant
                        i <= bytes@.len(),
                        s@ == "X'"@ + hex(bytes@.take(i as int)),
                    decreases bytes@.len() - i,
                {
                    proof {
                        assert(bytes@.take(i + 1).drop_last() =~= bytes@.take(i as int));
                    }
                    s.push(hex_char(bytes[i] / 16));
                    s.push(hex_char(bytes[i] % 16));
                    assert(s@ =~= "X'"@ + hex(bytes@.take(i + 1)));
                    i += 1;
                }
                assert(bytes@.take(i as int) =~= bytes@);
                s.append("'");
                s
            },
        }
    }
}

pub open spec fn row_of(row: Seq<Value>) -> Seq<ValueModel> {
    Seq::new(row.len(), |i: int| row[i]@)
}

pub open spec fn rows_of(rows: Seq<Vec<Value>>) -> Seq<Seq<ValueModel>> {
    Seq::new(rows.len(), |i: int| row_of(rows[i]@))
}

/// One page of results, with the query that it answers and the SQL behind it.
#[derive(Debug)]
pub struct Page {
    pub query: Query,
    pub schema: Vec<Column>,
    pub columns: Vec<String>,
    pub rows: Vec<Vec<Value>>,
    pub total: usize,
    pub sql: String,
    pub params: Vec<String>,
}

#[verifier::ext_equal]
pub struct PageModel {
    pub query: QueryModel,
    pub schema: Seq<ColumnModel>,
    pub columns: Seq<Seq<char>>,
    pub rows: Seq<Seq<ValueModel>>,
    pub total: usize,
    pub sql: Seq<char>,
    pub params: Seq<Seq<char>>,
}

impl View for Page {
    type V = PageModel;

    open spec fn view(&self) -> PageModel {
        PageModel {
            query: self.query@,
            schema: columns_of(self.schema@),
            columns: texts(self.columns@),
            rows: rows_of(self.rows@),
            total: self.total,
            sql: self.sql@,
            params: texts(self.params@),
        }
    }
}

fn clone_rows(rows: &Vec<Vec<Value>>) -> (copy: Vec<Vec<Value>>)
    ensures
        rows_of(copy@) == rows_of(rows@),
{
    let mut copy: Vec<Vec<Value>> = Vec::new();
    let mut i: usize = 0;
    while i < rows.len()
        invariant
            i <= rows@.len(),
            rows_of(copy@) == rows_of(rows@).take(i as int),
        decreases rows@.len() - i,
    {
        let ghost copy0 = copy@;
        let row = rows[i].clone();
        assert(row_of(row@) =~= row_of(rows@[i as int]@));
        copy.push(row);
        assert(rows_of(copy@) =~= rows_of(copy0).push(row_of(row@)));
        assert(rows_of(copy@) =~= rows_of(rows@).take(i + 1));
        i += 1;
    }
    assert(rows_of(copy@) =~= rows_of(rows@));
    copy
}

impl Clone for Page {
    fn clone(&self) -> (p: Self)
        ensures
            p@ == self@,
    {
        let schema = self.schema.clone();
        assert(columns_of(schema@) =~= columns_of(self.schema@));
        let columns = self.columns.clone();
        assert(texts(columns@) =~= texts(self.columns@));
        let params = self.params.clone();
        assert(texts(params@) =~= texts(self.params@));
        Page {
            query: self.query.clone(),
            schema,
            columns,
            rows: clone_rows(&self.rows),
            total: self.total,
            sql: self.sql.clone(),
            params,
        }
    }
}

/// `s` with each double quote written twice.
pub open spec fn doubled(s: Seq<char>) -> Seq<char>
    decreases s.len(),
{
    if s.len() == 0 {
        Seq::empty()
    } else if s.last() == '"' {
        doubled(s.drop_last()).push('"').push('"')
    } else {
        doubled(s.drop_last()).push(s.last())
    }
}

/// `name` as a quoted SQL identifier.
pub open spec fn quoted(name: Seq<char>) -> Seq<char> {
    seq!['"'] + doubled(name) + seq!['"']
}

/// Quotes an identifier so that SQL reads it back as `name`, whatever it holds.
pub fn quote_ident(name: &str) -> (q: String)
    ensures
        q@ == quoted(name@),
{
    let chars = chars_of(name);
    let mut q = String::new();
    q.push('"');
    let mut i: usize = 0;
    assert(q@ =~= seq!['"'] + doubled(name@.take(0)));
    while i < chars.len()
        invariant
            chars@ == name@,
            i <= chars@.len(),
            q@ == seq!['"'] + doubled(name@.take(i as int)),
        decreases chars@.len() - i,
    {
        proof {
            assert(name@.take(i + 1).drop_last() =~= name@.take(i as int));
        }
        if chars[i] == '"' {
            q.push('"');
        }
        q.push(chars[i]);
        assert(q@ =~= seq!['"'] + doubled(name@.take(i + 1)));
        i += 1;
    }
    assert(name@.take(i as int) =~= name@);
    q.push('"');
    assert(q@ =~= quoted(name@));
    q
}

/// One row of `PRAGMA table_xinfo`: what SQLite says of a column.
pub struct ColumnInfo {
    pub hidden: i32,
    pub name: String,
    pub kind: String,
    pub key: i32,
}

#[verifier::ext_equal]
pub struct ColumnInfoModel {
    pub hidden: i32,
    pub name: Seq<char>,
    pub kind: Seq<char>,
    pub key: i32,
}

impl View for ColumnInfo {
    type V = ColumnInfoModel;

    open spec fn view(&self) -> ColumnInfoModel {
        ColumnInfoModel { hidden: self.hidden, name: self.name@, kind: self.kind@, key: self.key }
    }
}

pub open spec fn infos_of(v: Seq<ColumnInfo>) -> Seq<ColumnInfoModel> {
    Seq::new(v.len(), |i: int| v[i]@)
}

/// The statement that asks for the columns of a table.
pub open spec fn schema_statement(table: Seq<char>) -> Seq<char> {
    "PRAGMA table_xinfo("@ + quoted(table) + ")"@
}

pub fn schema_sql(table: &str) -> (sql: String)
    ensures
        sql@ == schema_statement(table@),
{
    let mut sql = String::new();
    sql.append("PRAGMA table_xinfo(");
    sql.append(quote_ident(table).as_str());
    sql.append(")");
    assert(sql@ =~= schema_statement(table@));
    sql
}

/// SQLite marks the internal columns of virtual tables with 1.
pub open spec fn listed(info: ColumnInfoModel) -> bool {
    info.hidden != 1
}

/// A column as SQLite describes it; 2 and 3 mark generated columns.
pub open spec fn described(info: ColumnInfoModel) -> ColumnModel {
    ColumnModel {
        name: info.name,
        kind: info.kind,
        primary_key: info.key != 0,
        generated: info.hidden == 2 || info.hidden == 3,
    }
}

/// The base columns among what SQLite describes, in its order.
pub open spec fn schema_of(infos: Seq<ColumnInfoModel>) -> Seq<ColumnModel> {
    infos.filter(|info: ColumnInfoModel| listed(info)).map_values(
        |info: ColumnInfoModel| described(info),
    )
}

/// The base columns of a table: all that SQLite describes, generated ones among
/// them, except the internal columns of virtual tables.
pub fn schema(infos: &Vec<ColumnInfo>) -> (columns: Vec<Column>)
    ensures
        columns_of(columns@) == schema_of(infos_of(infos@)),
{
    let ghost all = infos_of(infos@);
    let ghost keep = |info: ColumnInfoModel| listed(info);
    let mut columns: Vec<Column> = Vec::new();
    let mut i: usize = 0;
    proof {
        reveal(Seq::filter);
        assert(columns_of(columns@) =~= schema_of(all.take(0)));
    }
    while i < infos.len()
        invariant
            all == infos_of(infos@),
            keep == (|info: ColumnInfoModel| listed(info)),
            i <= infos@.len(),
            columns_of(columns@) == schema_of(all.take(i as int)),
        decreases infos@.len() - i,
    {
        let info = &infos[i];
        let ghost columns0 = columns@;
        proof {
            broadcast use Seq::lemma_filter_push;

            assert(all.take(i + 1) =~= all.take(i as int).push(info@));
            assert(all.take(i as int).push(info@).filter(keep) == if keep(info@) {
                all.take(i as int).filter(keep).push(info@)
            } else {
                all.take(i as int).filter(keep)
            });
        }
        if info.hidden != 1 {
            columns.push(
                Column {
                    name: info.name.clone(),
                    kind: info.kind.clone(),
                    primary_key: info.key != 0,
                    generated: info.hidden == 2 || info.hidden == 3,
                },
            );
            assert(columns_of(columns@) =~= columns_of(columns0).push(described(info@)));
        }
        assert(columns_of(columns@) =~= schema_of(all.take(i + 1)));
        i += 1;
    }
    assert(all.take(i as int) =~= all);
    columns
}

} // verus!
