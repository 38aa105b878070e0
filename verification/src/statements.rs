//! What the statements say: how each part of a query shows in the SQL that it turns
//! into, and how each answer shows in the page.
use vstd::prelude::*;

use crate::db::{
    described, fresh_query, listed, quoted, schema_of, schema_statement, ColumnInfoModel,
    ColumnModel, ExpressionModel, QueryModel, ValueModel, PAGE_SIZE,
};
use crate::load::{alias_statement, body_statement, cooked, cooked_rows, RawValueModel};
use crate::names::listing;
use crate::sql::{
    all_names, bound, conditions, count_statement, normalized, order_clause, page_statement,
    projection, source, visible, where_clause,
};
use crate::text::{decimal, joined};

verus! {

/// The text before part `k` of a joined text.
spec fn head_of(parts: Seq<Seq<char>>, separator: Seq<char>, k: int) -> Seq<char> {
    if k == 0 {
        Seq::empty()
    } else {
        joined(parts.take(k), separator) + separator
    }
}

/// The text after part `k` of a joined text.
spec fn tail_of(parts: Seq<Seq<char>>, separator: Seq<char>, k: int) -> Seq<char>
    decreases parts.len() - k,
{
    if k + 1 >= parts.len() {
        Seq::empty()
    } else {
        separator + parts[k + 1] + tail_of(parts, separator, k + 1)
    }
}

proof fn lemma_joined_from(parts: Seq<Seq<char>>, separator: Seq<char>, k: int)
    requires
        0 <= k < parts.len(),
    ensures
        joined(parts, separator) == joined(parts.take(k + 1), separator) + tail_of(
            parts,
            separator,
            k,
        ),
    decreases parts.len() - k,
{
    if k + 1 == parts.len() {
        assert(parts.take(k + 1) =~= parts);
        assert(joined(parts, separator) =~= joined(parts, separator) + Seq::empty());
    } else {
        lemma_joined_from(parts, separator, k + 1);
        let more = parts.take(k + 2);
        assert(more.drop_last() =~= parts.take(k + 1));
        assert(joined(more, separator) == joined(parts.take(k + 1), separator) + separator
            + parts[k + 1]);
        assert(joined(parts, separator) =~= joined(parts.take(k + 1), separator) + tail_of(
            parts,
            separator,
            k,
        ));
    }
}

proof fn lemma_joined_around(parts: Seq<Seq<char>>, separator: Seq<char>, k: int)
    requires
        0 <= k < parts.len(),
    ensures
        joined(parts, separator) == head_of(parts, separator, k) + parts[k] + tail_of(
            parts,
            separator,
            k,
        ),
{
    lemma_joined_from(parts, separator, k);
    let upto = parts.take(k + 1);
    assert(upto.drop_last() =~= parts.take(k));
    assert(joined(upto, separator) =~= head_of(parts, separator, k) + parts[k]);
}

proof fn lemma_tail_depends_on_later(
    a: Seq<Seq<char>>,
    b: Seq<Seq<char>>,
    separator: Seq<char>,
    k: int,
)
    requires
        0 <= k < a.len() == b.len(),
        forall|i: int| k < i < a.len() ==> a[i] == b[i],
    ensures
        tail_of(a, separator, k) == tail_of(b, separator, k),
    decreases a.len() - k,
{
    if k + 1 < a.len() {
        lemma_tail_depends_on_later(a, b, separator, k + 1);
    }
}

/// Lists that differ in one part alone are joined to different texts.
proof fn lemma_joined_tells_one_part(
    a: Seq<Seq<char>>,
    b: Seq<Seq<char>>,
    separator: Seq<char>,
    k: int,
)
    requires
        0 <= k < a.len() == b.len(),
        forall|i: int| 0 <= i < a.len() && i != k ==> a[i] == b[i],
        joined(a, separator) == joined(b, separator),
    ensures
        a[k] == b[k],
{
    lemma_joined_around(a, separator, k);
    lemma_joined_around(b, separator, k);
    lemma_tail_depends_on_later(a, b, separator, k);
    assert(a.take(k) =~= b.take(k));
    let n = head_of(a, separator, k).len() as int;
    let whole = joined(a, separator);
    let end = whole.len() - tail_of(a, separator, k).len();
    assert(a[k] =~= whole.subrange(n, end));
    assert(b[k] =~= whole.subrange(n, end));
}

/// Joining nothing gives nothing, one part gives itself, and two lists joined are the
/// two texts with the separator between them.
pub proof fn law_joining_separates_every_two_parts(
    a: Seq<Seq<char>>,
    b: Seq<Seq<char>>,
    part: Seq<char>,
    separator: Seq<char>,
)
    ensures
        joined(Seq::empty(), separator) == Seq::<char>::empty(),
        joined(seq![part], separator) == part,
        a.len() > 0 && b.len() > 0 ==> joined(a + b, separator) == joined(a, separator) + separator
            + joined(b, separator),
    decreases b.len(),
{
    if a.len() > 0 && b.len() > 0 {
        assert((a + b).drop_last() =~= a + b.drop_last());
        if b.len() == 1 {
            assert(a + b.drop_last() =~= a);
        } else {
            law_joining_separates_every_two_parts(a, b.drop_last(), part, separator);
        }
        assert(joined(a + b, separator) =~= joined(a, separator) + separator + joined(
            b,
            separator,
        ));
    }
}

/// The projection has one item for every base column, hidden or not, by its quoted
/// name, and then one for every expression: its own body in parentheses, under its own
/// label.
pub proof fn law_projection_has_every_expression(
    schema: Seq<ColumnModel>,
    expressions: Seq<ExpressionModel>,
)
    ensures
        projection(schema, expressions).len() == schema.len() + expressions.len(),
        forall|i: int|
            0 <= i < schema.len() ==> #[trigger] projection(schema, expressions)[i] == quoted(
                schema[i].name,
            ),
        forall|k: int|
            0 <= k < expressions.len() ==> projection(schema, expressions)[schema.len() + k] == "("@
                + (#[trigger] expressions[k]).body + "\n) AS "@ + quoted(expressions[k].label),
{
}

/// What rows are selected from is the projection of the table, in parentheses, and
/// then the condition of the filters.
pub proof fn law_source_projects_the_table(schema: Seq<ColumnModel>, q: QueryModel)
    ensures
        source(schema, q) == "(SELECT "@ + joined(projection(schema, q.expressions), ", "@)
            + " FROM "@ + quoted(q.table) + ")"@ + where_clause(listing(q.filters.dom())),
        count_statement(source(schema, q)) == "SELECT COUNT(*) FROM "@ + source(schema, q),
{
    reveal_strlit("(");
    reveal_strlit("SELECT ");
    reveal_strlit("(SELECT ");
    assert("("@ + "SELECT "@ =~= "(SELECT "@);
    assert(source(schema, q) =~= "(SELECT "@ + joined(projection(schema, q.expressions), ", "@)
        + " FROM "@ + quoted(q.table) + ")"@ + where_clause(listing(q.filters.dom())));
}

/// The source tells the body and the label of every expression: where two queries
/// differ in one expression alone, they have different sources.
pub proof fn law_source_tells_every_expression(
    schema: Seq<ColumnModel>,
    a: QueryModel,
    b: QueryModel,
    k: int,
)
    requires
        a == (QueryModel { expressions: a.expressions, ..b }),
        0 <= k < a.expressions.len() == b.expressions.len(),
        forall|i: int|
            0 <= i < a.expressions.len() && i != k ==> a.expressions[i] == b.expressions[i],
        source(schema, a) == source(schema, b),
    ensures
        a.expressions[k].label == b.expressions[k].label ==> a.expressions[k] == b.expressions[k],
        a.expressions[k].body == b.expressions[k].body ==> a.expressions[k] == b.expressions[k],
{
    let (x, y) = (projection(schema, a.expressions), projection(schema, b.expressions));
    let (p, r) = (a.expressions[k], b.expressions[k]);
    law_projection_has_every_expression(schema, a.expressions);
    law_projection_has_every_expression(schema, b.expressions);
    law_source_projects_the_table(schema, a);
    law_source_projects_the_table(schema, b);
    let head = "(SELECT "@;
    let tail = " FROM "@ + quoted(a.table) + ")"@ + where_clause(listing(a.filters.dom()));
    let s = source(schema, a);
    assert(s =~= head + joined(x, ", "@) + tail);
    assert(s =~= head + joined(y, ", "@) + tail);
    assert(joined(x, ", "@) =~= s.subrange(head.len() as int, s.len() - tail.len()));
    assert(joined(y, ", "@) =~= s.subrange(head.len() as int, s.len() - tail.len()));
    let at = schema.len() + k;
    assert forall|i: int| 0 <= i < x.len() && i != at implies x[i] == y[i] by {
        if i >= schema.len() {
            let j = i - schema.len();
            assert(a.expressions[j] == b.expressions[j]);
            assert(x[schema.len() + j] == y[schema.len() + j]);
        }
    }
    lemma_joined_tells_one_part(x, y, ", "@, at);
    let item = x[at];
    assert(item == "("@ + p.body + "\n) AS "@ + quoted(p.label));
    assert(item == "("@ + r.body + "\n) AS "@ + quoted(r.label));
    reveal_strlit("(");
    reveal_strlit("\n) AS ");
    if p.label == r.label {
        let end = item.len() - quoted(p.label).len() - 6;
        assert(p.body =~= item.subrange(1, end));
        assert(r.body =~= item.subrange(1, end));
    }
    if p.body == r.body {
        let from = 1 + p.body.len() + 6;
        assert(quoted(p.label) =~= item.skip(from as int));
        assert(quoted(r.label) =~= item.skip(from as int));
        crate::quoting::law_quoting_keeps_names_apart(p.label, r.label);
    }
}

/// The condition names every filtered column once, in the order of the names, each
/// with a placeholder, joined by `AND`; without filters there is none.
pub proof fn law_condition_joins_every_filter(names: Seq<Seq<char>>, name: Seq<char>)
    ensures
        where_clause(Seq::empty()) == Seq::<char>::empty(),
        where_clause(seq![name]) == " WHERE "@ + quoted(name) + " LIKE ?"@,
        names.len() > 0 ==> where_clause(names.push(name)) == where_clause(names) + " AND "@
            + quoted(name) + " LIKE ?"@,
{
    assert(conditions(seq![name]) =~= seq![quoted(name) + " LIKE ?"@]);
    assert(where_clause(seq![name]) =~= " WHERE "@ + quoted(name) + " LIKE ?"@);
    if names.len() > 0 {
        let more = conditions(names.push(name));
        assert(more.drop_last() =~= conditions(names));
        assert(more.last() == quoted(name) + " LIKE ?"@);
        assert(where_clause(names.push(name)) =~= where_clause(names) + " AND "@ + quoted(name)
            + " LIKE ?"@);
    }
}

/// What is bound for each placeholder is the text of that column's filter, between
/// wildcards.
pub proof fn law_parameters_hold_the_filter_texts(filters: Map<Seq<char>, Seq<char>>)
    requires
        filters.dom().finite(),
    ensures
        bound(filters).len() == filters.dom().len(),
        bound(filters).len() == listing(filters.dom()).len(),
        forall|i: int|
            0 <= i < bound(filters).len() ==> filters.contains_key(
                #[trigger] listing(filters.dom())[i],
            ),
        forall|i: int|
            0 <= i < bound(filters).len() ==> #[trigger] bound(filters)[i] == "%"@
                + filters[listing(filters.dom())[i]] + "%"@,
        forall|name: Seq<char>| #[trigger]
            filters.contains_key(name) ==> listing(filters.dom()).contains(name),
{
    let names = listing(filters.dom());
    crate::names::lemma_finite_set_is_listed(filters.dom());
    crate::names::lemma_listed_len(names, filters.dom());
    assert forall|i: int| 0 <= i < bound(filters).len() implies filters.contains_key(
        #[trigger] names[i],
    ) by {
        assert(names.contains(names[i]));
    }
    assert forall|name: Seq<char>| #[trigger] filters.contains_key(name) implies names.contains(
        name,
    ) by {
        assert(filters.dom().contains(name));
    }
}

/// A sort orders by its column, downwards or upwards as it says; without one there is
/// no order.
pub proof fn law_order_follows_the_sort(name: Seq<char>)
    ensures
        order_clause(None) == Seq::<char>::empty(),
        order_clause(Some((name, true))) == " ORDER BY "@ + quoted(name) + " DESC"@,
        order_clause(Some((name, false))) == " ORDER BY "@ + quoted(name) + " ASC"@,
{
}


/// The number that decimal digits write.
pub open spec fn number_written(s: Seq<char>) -> int
    decreases s.len(),
{
    if s.len() == 0 {
        0
    } else {
        number_written(s.drop_last()) * 10 + (s.last() as u32 - '0' as u32)
    }
}

proof fn lemma_decimal_is_longer(n: nat)
    requires
        n >= 10,
    ensures
        decimal(n).len() > 1,
    decreases n,
{
    if n / 10 >= 10 {
        lemma_decimal_is_longer(n / 10);
    } else {
        assert(decimal(n / 10).len() == 1);
    }
}

/// A number in decimal is digits that write it, without leading zeros.
pub proof fn law_decimal_writes_the_number(n: nat)
    ensures
        number_written(decimal(n)) == n,
        decimal(n).len() > 0,
        forall|i: int| 0 <= i < decimal(n).len() ==> '0' <= #[trigger] decimal(n)[i] <= '9',
        decimal(n).len() > 1 ==> decimal(n)[0] != '0',
    decreases n,
{
    let s = decimal(n);
    if n >= 10 {
        law_decimal_writes_the_number(n / 10);
        assert(s.drop_last() =~= decimal(n / 10));
        assert(s[0] == decimal(n / 10)[0]);
        if n / 10 < 10 {
            assert(decimal(n / 10)[0] == ('0' as u32 + n / 10) as char);
        } else {
            lemma_decimal_is_longer(n / 10);
        }
    } else {
        assert(s.drop_last() =~= Seq::empty());
        assert(number_written(s.drop_last()) == 0);
    }
}

/// A page selects the columns that are shown, by their quoted names and in their
/// order, from the source, in the order of the sort, and of the result the fifty rows
/// from fifty times its number on.
pub proof fn law_page_selects_its_columns_and_rows(
    columns: Seq<Seq<char>>,
    from: Seq<char>,
    sort: Option<(Seq<char>, bool)>,
    page: usize,
)
    ensures
        PAGE_SIZE == 50,
        page_statement(columns, from, sort, page) == "SELECT "@ + joined(
            Seq::new(columns.len(), |i: int| quoted(columns[i])),
            ", "@,
        ) + " FROM "@ + from + order_clause(sort) + " LIMIT "@ + decimal(50) + " OFFSET "@
            + decimal((50 * page) as nat),
{
    assert(crate::sql::quoted_all(columns) =~= Seq::new(
        columns.len(),
        |i: int| quoted(columns[i]),
    ));
}

/// What is asked of the database about a table, an expression with its alias and an
/// expression alone.
pub proof fn law_questions_name_the_table(table: Seq<char>, text: Seq<char>)
    ensures
        schema_statement(table) == "PRAGMA table_xinfo("@ + quoted(table) + ")"@,
        alias_statement(text, table) == "SELECT "@ + text + "\nFROM "@ + quoted(table)
            + " LIMIT 0"@,
        body_statement(text, table) == "SELECT ("@ + text + "\n) FROM "@ + quoted(table)
            + " LIMIT 0"@,
{
}

/// A base column of this name.
pub open spec fn has_column(schema: Seq<ColumnModel>, name: Seq<char>) -> bool {
    exists|i: int| 0 <= i < schema.len() && (#[trigger] schema[i]).name == name
}

/// An expression with this label.
pub open spec fn has_label(expressions: Seq<ExpressionModel>, name: Seq<char>) -> bool {
    exists|i: int| 0 <= i < expressions.len() && (#[trigger] expressions[i]).label == name
}

/// A filter or the sort may refer to every base column, hidden or not, and to every
/// expression, and to nothing else.
pub proof fn law_names_are_columns_and_labels(
    schema: Seq<ColumnModel>,
    expressions: Seq<ExpressionModel>,
    name: Seq<char>,
)
    ensures
        all_names(schema, expressions).contains(name) <==> has_column(schema, name) || has_label(
            expressions,
            name,
        ),
        all_names(schema, expressions).len() == schema.len() + expressions.len(),
{
    let all = all_names(schema, expressions);
    if all.contains(name) {
        let i = choose|i: int| 0 <= i < all.len() && all[i] == name;
        if i < schema.len() {
            assert(schema[i].name == name);
        } else {
            assert(expressions[i - schema.len()].label == name);
        }
    }
    if has_column(schema, name) {
        let i = choose|i: int| 0 <= i < schema.len() && (#[trigger] schema[i]).name == name;
        assert(all[i] == name);
    }
    if has_label(expressions, name) {
        let i = choose|i: int|
            0 <= i < expressions.len() && (#[trigger] expressions[i]).label == name;
        assert(all[schema.len() + i] == name);
    }
}

proof fn lemma_column_name(schema: Seq<ColumnModel>, name: Seq<char>)
    ensures
        crate::db::column_names(schema).contains(name) <==> has_column(schema, name),
{
    let names = crate::db::column_names(schema);
    if names.contains(name) {
        let i = choose|i: int| 0 <= i < names.len() && names[i] == name;
        assert(schema[i].name == name);
    }
    if has_column(schema, name) {
        let i = choose|i: int| 0 <= i < schema.len() && (#[trigger] schema[i]).name == name;
        assert(names[i] == name);
    }
}

/// What a query keeps when it meets the table: every column that it hides and that
/// exists, whatever the sort and the filters are; every filter on something that
/// exists, with its text; the sort, where its column exists; and all else as it is.
pub proof fn law_query_keeps_what_exists(schema: Seq<ColumnModel>, q: QueryModel)
    ensures
        ({
            let r = normalized(schema, q);
            &&& r.table == q.table && r.expressions == q.expressions && r.page == q.page
            &&& forall|name: Seq<char>| #[trigger]
                r.hidden.contains(name) <==> q.hidden.contains(name) && has_column(schema, name)
            &&& forall|name: Seq<char>| #[trigger]
                r.filters.contains_key(name) <==> q.filters.contains_key(name) && (has_column(
                    schema,
                    name,
                ) || has_label(q.expressions, name))
            &&& forall|name: Seq<char>| #[trigger]
                r.filters.contains_key(name) ==> r.filters[name] == q.filters[name]
            &&& match q.sort {
                None => r.sort is None,
                Some((name, _)) => if has_column(schema, name) || has_label(q.expressions, name) {
                    r.sort == q.sort
                } else {
                    r.sort is None
                },
            }
        }),
{
    let r = normalized(schema, q);
    assert forall|name: Seq<char>| #[trigger] r.hidden.contains(name) <==> q.hidden.contains(name)
        && has_column(schema, name) by {
        lemma_column_name(schema, name);
    }
    assert forall|name: Seq<char>| #[trigger]
        r.filters.contains_key(name) <==> q.filters.contains_key(name) && (has_column(schema, name)
            || has_label(q.expressions, name)) by {
        law_names_are_columns_and_labels(schema, q.expressions, name);
    }
    if let Some((name, _)) = q.sort {
        law_names_are_columns_and_labels(schema, q.expressions, name);
    }
}

/// Without expressions, the columns that are shown grow by each base column that is
/// not hidden, and by no other; the expressions follow them, all of them.
pub proof fn law_columns_shown_are_those_not_hidden(
    schema: Seq<ColumnModel>,
    column: ColumnModel,
    hidden: Set<Seq<char>>,
    expressions: Seq<ExpressionModel>,
)
    ensures
        visible(Seq::empty(), hidden, Seq::empty()) == Seq::<Seq<char>>::empty(),
        visible(schema.push(column), hidden, Seq::empty()) == if hidden.contains(column.name) {
            visible(schema, hidden, Seq::empty())
        } else {
            visible(schema, hidden, Seq::empty()).push(column.name)
        },
        visible(schema, hidden, expressions) == visible(schema, hidden, Seq::empty()) + Seq::new(
            expressions.len(),
            |k: int| expressions[k].label,
        ),
{
    let none = Seq::<ExpressionModel>::empty();
    let shown = |name: Seq<char>| !hidden.contains(name);
    let names = crate::db::column_names(schema);
    reveal(Seq::filter);
    assert(crate::db::column_names(Seq::<ColumnModel>::empty()) =~= Seq::empty());
    assert(visible(Seq::empty(), hidden, none) =~= Seq::<Seq<char>>::empty());
    assert(crate::db::column_names(schema.push(column)) =~= names.push(column.name));
    assert(names.push(column.name).drop_last() =~= names);
    assert(visible(schema, hidden, none) =~= names.filter(shown));
    assert(visible(schema.push(column), hidden, none) =~= names.push(column.name).filter(shown));
    assert(visible(schema, hidden, expressions) =~= visible(schema, hidden, none) + Seq::new(
        expressions.len(),
        |k: int| expressions[k].label,
    ));
}

/// A base column that is hidden is not among the base columns shown, and one that is
/// not hidden is.
pub proof fn law_hidden_columns_are_not_shown(
    schema: Seq<ColumnModel>,
    hidden: Set<Seq<char>>,
    name: Seq<char>,
)
    ensures
        visible(schema, hidden, Seq::empty()).contains(name) <==> has_column(schema, name)
            && !hidden.contains(name),
    decreases schema.len(),
{
    let none = Seq::<ExpressionModel>::empty();
    if schema.len() == 0 {
        assert(schema =~= Seq::empty());
        law_columns_shown_are_those_not_hidden(
            schema,
            ColumnModel { name, kind: name, primary_key: false, generated: false },
            hidden,
            none,
        );
    } else {
        let rest = schema.drop_last();
        let last = schema.last();
        law_hidden_columns_are_not_shown(rest, hidden, name);
        law_columns_shown_are_those_not_hidden(rest, last, hidden, none);
        assert(rest.push(last) =~= schema);
        let shown = visible(rest, hidden, none);
        crate::names::lemma_push_contains(shown, last.name);
        if has_column(rest, name) {
            let i = choose|i: int| 0 <= i < rest.len() && (#[trigger] rest[i]).name == name;
            assert(schema[i].name == name);
        }
        if last.name == name {
            assert(schema[schema.len() - 1].name == name);
        }
        if has_column(schema, name) && last.name != name {
            let i = choose|i: int| 0 <= i < schema.len() && (#[trigger] schema[i]).name == name;
            assert(rest[i].name == name);
        }
    }
}

/// The base columns are what SQLite lists, in its order, except what it marks with 1:
/// with their names and types, as keys where SQLite numbers them, and as generated
/// where it marks them with 2 or 3.
pub proof fn law_schema_follows_the_list(infos: Seq<ColumnInfoModel>, info: ColumnInfoModel)
    ensures
        schema_of(Seq::empty()) == Seq::<ColumnModel>::empty(),
        schema_of(infos.push(info)) == if info.hidden == 1 {
            schema_of(infos)
        } else {
            schema_of(infos).push(
                ColumnModel {
                    name: info.name,
                    kind: info.kind,
                    primary_key: info.key != 0,
                    generated: info.hidden == 2 || info.hidden == 3,
                },
            )
        },
{
    reveal(Seq::filter);
    let keep = |i: ColumnInfoModel| listed(i);
    assert(infos.push(info).drop_last() =~= infos);
    assert(schema_of(Seq::empty()) =~= Seq::<ColumnModel>::empty());
    if listed(info) {
        assert(schema_of(infos.push(info)) =~= schema_of(infos).push(described(info)));
    } else {
        assert(schema_of(infos.push(info)) =~= schema_of(infos));
    }
}

/// A table opens with all its columns, unfiltered, unsorted, from the first page.
pub proof fn law_tables_open_plain(table: Seq<char>)
    ensures
        ({
            let q = fresh_query(table);
            &&& q.table == table
            &&& q.sort is None && q.page == 0
            &&& q.expressions.len() == 0
            &&& forall|name: Seq<char>| !#[trigger] q.hidden.contains(name)
            &&& forall|name: Seq<char>| !#[trigger] q.filters.contains_key(name)
        }),
{
}

/// Decoding keeps every cell that is not text as it is: NULL, every integer, the text
/// of every real number, and all bytes of a blob. So cells that differ stay different,
/// and text stays text.
pub proof fn law_cells_keep_their_values(raw: RawValueModel, other: RawValueModel)
    ensures
        raw is Null <==> cooked(raw) is Null,
        raw is Text <==> cooked(raw) is Text,
        raw matches RawValueModel::Integer(n) ==> cooked(raw) == ValueModel::Integer(n),
        raw matches RawValueModel::Real(s) ==> cooked(raw) == ValueModel::Real(s),
        raw matches RawValueModel::Blob(b) ==> cooked(raw) == ValueModel::Blob(b),
        !(raw is Text) && cooked(raw) == cooked(other) ==> raw == other,
{
}

/// The cells of a page are those that came back, each decoded, in their rows and
/// columns.
pub proof fn law_cells_keep_their_places(rows: Seq<Seq<RawValueModel>>)
    ensures
        cooked_rows(rows).len() == rows.len(),
        forall|i: int|
            0 <= i < rows.len() ==> (#[trigger] cooked_rows(rows)[i]).len() == rows[i].len(),
        forall|i: int, j: int|
            0 <= i < rows.len() && 0 <= j < rows[i].len() ==> (#[trigger] cooked_rows(rows)[i][j])
                == cooked(rows[i][j]),
{
}

} // verus!
