//! The SQL of a query: the projected source that is filtered, the count over it,
//! and the page selected from it.
use vstd::prelude::*;
use vstd::string::*;

use crate::db::{
    column_names, columns_of, expressions_of, labels, quote_ident, quoted, sort_of, Column,
    ColumnModel, Expression, ExpressionModel, Query, QueryModel, PAGE_SIZE,
};
use crate::names::{contains_name, kept_of, listing, NameMap, NameSet};
use crate::text::{decimal, join, joined, push_decimal, texts};

verus! {

/// Every name that a filter or the sort may refer to, hidden columns included.
pub open spec fn all_names(
    schema: Seq<ColumnModel>,
    expressions: Seq<ExpressionModel>,
) -> Seq<Seq<char>> {
    column_names(schema) + labels(expressions)
}

/// The columns that are shown: base columns that are not hidden, then expressions.
pub open spec fn visible(
    schema: Seq<ColumnModel>,
    hidden: Set<Seq<char>>,
    expressions: Seq<ExpressionModel>,
) -> Seq<Seq<char>> {
    column_names(schema).filter(|name: Seq<char>| !hidden.contains(name)) + labels(expressions)
}

/// `q` without what refers to columns that do not exist.
pub open spec fn normalized(schema: Seq<ColumnModel>, q: QueryModel) -> QueryModel {
    let all = all_names(schema, q.expressions);
    QueryModel {
        hidden: q.hidden.filter(|name: Seq<char>| column_names(schema).contains(name)),
        filters: kept_of(q.filters, all),
        sort: match q.sort {
            Some((name, descending)) => if all.contains(name) {
                q.sort
            } else {
                None
            },
            None => None,
        },
        ..q
    }
}

/// An expression in the projection.
pub open spec fn computed(e: ExpressionModel) -> Seq<char> {
    "("@ + e.body + "\n) AS "@ + quoted(e.label)
}

/// All base columns, hidden ones too, and all expressions.
pub open spec fn projection(
    schema: Seq<ColumnModel>,
    expressions: Seq<ExpressionModel>,
) -> Seq<Seq<char>> {
    Seq::new(schema.len(), |i: int| quoted(schema[i].name)) + Seq::new(
        expressions.len(),
        |i: int| computed(expressions[i]),
    )
}

/// The projection of the whole table.
pub open spec fn base_statement(
    schema: Seq<ColumnModel>,
    expressions: Seq<ExpressionModel>,
    table: Seq<char>,
) -> Seq<char> {
    "SELECT "@ + joined(projection(schema, expressions), ", "@) + " FROM "@ + quoted(table)
}

/// The conditions of the filters on `names`, each with a placeholder.
pub open spec fn conditions(names: Seq<Seq<char>>) -> Seq<Seq<char>> {
    Seq::new(names.len(), |i: int| quoted(names[i]) + " LIKE ?"@)
}

pub open spec fn where_clause(names: Seq<Seq<char>>) -> Seq<char> {
    if names.len() == 0 {
        Seq::empty()
    } else {
        " WHERE "@ + joined(conditions(names), " AND "@)
    }
}

/// What rows are counted and selected from. Filters stand outside the projection,
/// so that they see the values of expressions.
pub open spec fn source(schema: Seq<ColumnModel>, q: QueryModel) -> Seq<char> {
    "("@ + base_statement(schema, q.expressions, q.table) + ")"@ + where_clause(
        listing(q.filters.dom()),
    )
}

pub open spec fn count_statement(source: Seq<char>) -> Seq<char> {
    "SELECT COUNT(*) FROM "@ + source
}

/// What is bound for the filters, in the order of their placeholders: each text
/// between wildcards.
pub open spec fn bound(filters: Map<Seq<char>, Seq<char>>) -> Seq<Seq<char>> {
    Seq::new(
        listing(filters.dom()).len(),
        |i: int| "%"@ + filters[listing(filters.dom())[i]] + "%"@,
    )
}

pub open spec fn order_clause(sort: Option<(Seq<char>, bool)>) -> Seq<char> {
    match sort {
        Some((name, descending)) => " ORDER BY "@ + quoted(name) + if descending {
            " DESC"@
        } else {
            " ASC"@
        },
        None => Seq::empty(),
    }
}

pub open spec fn quoted_all(names: Seq<Seq<char>>) -> Seq<Seq<char>> {
    Seq::new(names.len(), |i: int| quoted(names[i]))
}

/// The statement that selects one page of `columns`.
pub open spec fn page_statement(
    columns: Seq<Seq<char>>,
    source: Seq<char>,
    sort: Option<(Seq<char>, bool)>,
    page: usize,
) -> Seq<char> {
    "SELECT "@ + joined(quoted_all(columns), ", "@) + " FROM "@ + source + order_clause(sort)
        + " LIMIT "@ + decimal(PAGE_SIZE as nat) + " OFFSET "@ + decimal(
        (page * PAGE_SIZE) as nat,
    )
}

/// The last page that `total` rows reach.
pub open spec fn last_page(total: usize) -> usize {
    if total == 0 {
        0
    } else {
        ((total - 1) / PAGE_SIZE as int) as usize
    }
}

/// The names of the columns.
pub fn names_of_columns(schema: &Vec<Column>) -> (names: Vec<String>)
    ensures
        texts(names@) == column_names(columns_of(schema@)),
{
    let mut names: Vec<String> = Vec::new();
    let mut i: usize = 0;
    while i < schema.len()
        invariant
            i <= schema@.len(),
            texts(names@) == column_names(columns_of(schema@)).take(i as int),
        decreases schema@.len() - i,
    {
        let ghost names0 = names@;
        names.push(schema[i].name.clone());
        assert(texts(names@) =~= texts(names0).push(schema@[i as int].name@));
        assert(texts(names@) =~= column_names(columns_of(schema@)).take(i + 1));
        i += 1;
    }
    assert(texts(names@) =~= column_names(columns_of(schema@)));
    names
}

/// Appends the labels of the expressions to `names`.
fn push_labels(names: &mut Vec<String>, expressions: &Vec<Expression>)
    ensures
        texts(final(names)@) == texts(old(names)@) + labels(expressions_of(expressions@)),
{
    let ghost given = texts(names@);
    let ghost all = labels(expressions_of(expressions@));
    let mut i: usize = 0;
    assert(texts(names@) =~= given + all.take(0));
    while i < expressions.len()
        invariant
            i <= expressions@.len(),
            all == labels(expressions_of(expressions@)),
            texts(names@) == given + all.take(i as int),
        decreases expressions@.len() - i,
    {
        let ghost names0 = names@;
        names.push(expressions[i].label.clone());
        assert(texts(names@) =~= texts(names0).push(all[i as int]));
        assert(texts(names@) =~= given + all.take(i + 1));
        i += 1;
    }
    assert(all.take(i as int) =~= all);
}

/// Every name that a filter or the sort may refer to.
pub fn every_name(schema: &Vec<Column>, expressions: &Vec<Expression>) -> (names: Vec<String>)
    ensures
        texts(names@) == all_names(columns_of(schema@), expressions_of(expressions@)),
{
    let mut names = names_of_columns(schema);
    push_labels(&mut names, expressions);
    names
}

/// The columns to show.
pub fn visible_columns(schema: &Vec<Column>, hidden: &NameSet, expressions: &Vec<Expression>) -> (
    columns: Vec<String>)
    ensures
        texts(columns@) == visible(
            columns_of(schema@),
            hidden@,
            expressions_of(expressions@),
        ),
{
    let ghost names = column_names(columns_of(schema@));
    let ghost shown = |name: Seq<char>| !hidden@.contains(name);
    let mut columns: Vec<String> = Vec::new();
    let mut i: usize = 0;
    proof {
        reveal(Seq::filter);
        assert(texts(columns@) =~= names.take(0).filter(shown));
    }
    while i < schema.len()
        invariant
            names == column_names(columns_of(schema@)),
            shown == (|name: Seq<char>| !hidden@.contains(name)),
            i <= schema@.len(),
            texts(columns@) == names.take(i as int).filter(shown),
        decreases schema@.len() - i,
    {
        let ghost columns0 = columns@;
        proof {
            broadcast use Seq::lemma_filter_push;

            assert(names.take(i + 1) =~= names.take(i as int).push(names[i as int]));
            assert(names.take(i as int).push(names[i as int]).filter(shown) == if shown(
                names[i as int],
            ) {
                names.take(i as int).filter(shown).push(names[i as int])
            } else {
                names.take(i as int).filter(shown)
            });
        }
        if !hidden.contains(&schema[i].name) {
            columns.push(schema[i].name.clone());
            assert(texts(columns@) =~= texts(columns0).push(names[i as int]));
        }
        i += 1;
    }
    assert(names.take(i as int) =~= names);
    push_labels(&mut columns, expressions);
    columns
}

/// Drops from the query what refers to columns that do not exist.
pub fn normalize(query: &mut Query, schema: &Vec<Column>)
    ensures
        final(query)@ == normalized(columns_of(schema@), old(query)@),
{
    let base = names_of_columns(schema);
    query.hidden.retain(&base);
    let all = every_name(schema, &query.expressions);
    query.filters.retain(&all);
    let gone = match &query.sort {
        Some((name, _)) => !contains_name(&all, name),
        None => false,
    };
    if gone {
        query.sort = None;
    }
    assert(query@ =~= normalized(columns_of(schema@), old(query)@));
}

fn quote_names(names: &Vec<String>) -> (out: Vec<String>)
    ensures
        texts(out@) == quoted_all(texts(names@)),
{
    let mut out: Vec<String> = Vec::new();
    let mut i: usize = 0;
    while i < names.len()
        invariant
            i <= names@.len(),
            texts(out@) == quoted_all(texts(names@)).take(i as int),
        decreases names@.len() - i,
    {
        let ghost out0 = out@;
        out.push(quote_ident(names[i].as_str()));
        assert(texts(out@) =~= texts(out0).push(quoted(names@[i as int]@)));
        assert(texts(out@) =~= quoted_all(texts(names@)).take(i + 1));
        i += 1;
    }
    assert(texts(out@) =~= quoted_all(texts(names@)));
    out
}

fn base_sql(schema: &Vec<Column>, expressions: &Vec<Expression>, table: &String) -> (sql: String)
    ensures
        sql@ == base_statement(columns_of(schema@), expressions_of(expressions@), table@),
{
    let ghost wanted = projection(columns_of(schema@), expressions_of(expressions@));
    let names = names_of_columns(schema);
    let mut parts = quote_names(&names);
    let ghost given = texts(parts@);
    let mut i: usize = 0;
    assert(texts(parts@) =~= wanted.take(schema@.len() as int));
    while i < expressions.len()
        invariant
            i <= expressions@.len(),
            wanted == projection(columns_of(schema@), expressions_of(expressions@)),
            texts(parts@) == wanted.take(schema@.len() + i),
        decreases expressions@.len() - i,
    {
        let e = &expressions[i];
        let ghost parts0 = parts@;
        let mut part = String::new();
        part.append("(");
        part.append(e.body.as_str());
        part.append("\n) AS ");
        part.append(quote_ident(e.label.as_str()).as_str());
        assert(part@ =~= computed(e@));
        parts.push(part);
        assert(texts(parts@) =~= texts(parts0).push(computed(e@)));
        assert(texts(parts@) =~= wanted.take(schema@.len() + i + 1));
        i += 1;
    }
    assert(texts(parts@) =~= wanted);
    let mut sql = String::new();
    sql.append("SELECT ");
    sql.append(join(&parts, ", ").as_str());
    sql.append(" FROM ");
    sql.append(quote_ident(table.as_str()).as_str());
    assert(sql@ =~= base_statement(columns_of(schema@), expressions_of(expressions@), table@));
    sql
}

fn where_sql(filters: &NameMap) -> (sql: String)
    ensures
        sql@ == where_clause(listing(filters@.dom())),
{
    let ghost names = listing(filters@.dom());
    let len: usize = filters.len();
    if len == 0 {
        return String::new();
    }
    let mut parts: Vec<String> = Vec::new();
    let mut i: usize = 0;
    while i < len
        invariant
            names == listing(filters@.dom()),
            i <= len == names.len(),
            texts(parts@) == conditions(names).take(i as int),
        decreases len - i,
    {
        let ghost parts0 = parts@;
        let mut part = quote_ident(filters.entry(i).0.as_str());
        part.append(" LIKE ?");
        assert(part@ == conditions(names)[i as int]);
        parts.push(part);
        assert(texts(parts@) =~= texts(parts0).push(conditions(names)[i as int]));
        assert(texts(parts@) =~= conditions(names).take(i + 1));
        i += 1;
    }
    assert(texts(parts@) =~= conditions(names));
    let mut sql = String::new();
    sql.append(" WHERE ");
    sql.append(join(&parts, " AND ").as_str());
    assert(sql@ =~= where_clause(names));
    sql
}

/// What rows are counted and selected from.
pub fn source_sql(schema: &Vec<Column>, query: &Query) -> (sql: String)
    ensures
        sql@ == source(columns_of(schema@), query@),
{
    let mut sql = String::new();
    sql.append("(");
    sql.append(base_sql(schema, &query.expressions, &query.table).as_str());
    sql.append(")");
    sql.append(where_sql(&query.filters).as_str());
    assert(sql@ =~= source(columns_of(schema@), query@));
    sql
}

/// What is bound for the filters.
pub fn filter_params(filters: &NameMap) -> (params: Vec<String>)
    ensures
        texts(params@) == bound(filters@),
{
    let ghost wanted = bound(filters@);
    let len: usize = filters.len();
    let mut params: Vec<String> = Vec::new();
    let mut i: usize = 0;
    while i < len
        invariant
            wanted == bound(filters@),
            i <= len == listing(filters@.dom()).len(),
            texts(params@) == wanted.take(i as int),
        decreases len - i,
    {
        let ghost params0 = params@;
        let mut param = String::new();
        param.append("%");
        param.append(filters.entry(i).1.as_str());
        param.append("%");
        assert(param@ =~= wanted[i as int]);
        params.push(param);
        assert(texts(params@) =~= texts(params0).push(wanted[i as int]));
        assert(texts(params@) =~= wanted.take(i + 1));
        i += 1;
    }
    assert(texts(params@) =~= wanted);
    params
}

pub fn count_sql(source: &String) -> (sql: String)
    ensures
        sql@ == count_statement(source@),
{
    let mut sql = String::new();
    sql.append("SELECT COUNT(*) FROM ");
    sql.append(source.as_str());
    assert(sql@ =~= count_statement(source@));
    sql
}

/// The statement that selects one page of `columns`.
pub fn page_sql(
    columns: &Vec<String>,
    source: &String,
    sort: &Option<(String, bool)>,
    page: usize,
) -> (sql: String)
    requires
        page * PAGE_SIZE <= usize::MAX,
    ensures
        sql@ == page_statement(texts(columns@), source@, sort_of(*sort), page),
{
    let quoted_columns = quote_names(columns);
    let mut sql = String::new();
    sql.append("SELECT ");
    sql.append(join(&quoted_columns, ", ").as_str());
    sql.append(" FROM ");
    sql.append(source.as_str());
    let ghost head = sql@;
    if let Some((name, descending)) = sort {
        sql.append(" ORDER BY ");
        sql.append(quote_ident(name.as_str()).as_str());
        if *descending {
            sql.append(" DESC");
        } else {
            sql.append(" ASC");
        }
    }
    assert(sql@ =~= head + order_clause(sort_of(*sort)));
    sql.append(" LIMIT ");
    push_decimal(&mut sql, PAGE_SIZE as u64);
    sql.append(" OFFSET ");
    push_decimal(&mut sql, (page * PAGE_SIZE) as u64);
    assert(sql@ =~= page_statement(texts(columns@), source@, sort_of(*sort), page));
    sql
}

} // verus!
