//! What the statements of searches and statistics choose and count.
use vstd::prelude::*;

use crate::db::MatchMode;
use crate::number::dec;
use crate::query::{
    cond_params, cond_sql, expr_params, expr_sql, query_params, query_sql, where_sql, CondV, ExprV,
    QueryV,
};
use crate::query_eval::meets;
use crate::query_laws::fields_are_idents;
use crate::query_parser::sql_ident;
use crate::sql::{
    aggregate, all_or_none, both, bound_to, counted, either, group_of_event, is_about, is_statement,
    is_text_of, item_text, item_texts, like, negated, number_of, of_column, reads_as_written,
    same_numbers, shown, statement_text, statement_values, text_of, truth, Event, Item, Sql,
    Statement,
};
use crate::stats::{counts_sql, coverage_sql, filled_sql, trend_sql};
use crate::text::{has, is_prefix, is_suffix, joined, lower, lower_char, occurs_at};

verus! {

// ── Statistics ───────────────────────────────────────────────────────────────

/// Whether a field of an event is present and not the empty text.
pub open spec fn is_filled(row: Event, field: Seq<char>) -> bool {
    row.columns.dom().contains(field) && row.columns[field].len() > 0
}

/// Whether an event came from a source; any where none is given.
pub open spec fn comes_from(row: Event, source: Option<Seq<char>>) -> bool {
    source matches Some(s) ==> row.columns.dom().contains("_source_type"@)
        && row.columns["_source_type"@] == s
}

/// The values bound for a source.
pub open spec fn source_values(source: Option<Seq<char>>) -> Seq<Seq<char>> {
    match source {
        Some(s) => seq![s],
        None => seq![],
    }
}

spec fn filled_condition(f: Seq<char>) -> Sql {
    Sql::And(Box::new(Sql::NotNull(f)), Box::new(Sql::Filled(f)))
}

spec fn source_filter(source: Option<Seq<char>>) -> Option<Sql> {
    match source {
        Some(s) => Some(Sql::Equal("_source_type"@, s)),
        None => None,
    }
}

proof fn lemma_source_filter(source: Option<Seq<char>>, s: Statement)
    requires
        s.filter == source_filter(source),
    ensures
        forall|row: Event| #[trigger] is_about(s, row) == comes_from(row, source),
        s.filter matches Some(e) ==> reads_as_written(e) && text_of(e) == "_source_type = ?"@,
        statement_values(s) == source_values(source),
{
    reveal_strlit("_source_type");
    reveal_strlit(" = ?");
    reveal_strlit("_source_type = ?");
    assert("_source_type"@ + " = ?"@ =~= "_source_type = ?"@);
    assert(sql_ident("_source_type"@));
}

proof fn lemma_filled_text(f: Seq<char>)
    ensures
        item_text(Item::CountIf(filled_condition(f))) == filled_sql(f),
{
    reveal_with_fuel(text_of, 3);
    let a = "SUM(CASE WHEN "@;
    let n = " IS NOT NULL"@;
    let d = " != ''"@;
    let e = " THEN 1 ELSE 0 END)"@;
    let and = " AND "@;
    assert(n + and =~= " IS NOT NULL AND "@) by {
        reveal_strlit(" IS NOT NULL");
        reveal_strlit(" AND ");
        reveal_strlit(" IS NOT NULL AND ");
    }
    assert(d + e =~= " != '' THEN 1 ELSE 0 END)"@) by {
        reveal_strlit(" != ''");
        reveal_strlit(" THEN 1 ELSE 0 END)");
        reveal_strlit(" != '' THEN 1 ELSE 0 END)");
    }
    assert(text_of(filled_condition(f)) == (f + n) + and + (f + d));
    assert(a + ((f + n) + and + (f + d)) + e =~= a + f + (n + and) + f + (d + e));
}

spec fn coverage_items(fields: Seq<Seq<char>>) -> Seq<Item> {
    seq![Item::Count] + fields.map_values(|f: Seq<char>| Item::CountIf(filled_condition(f)))
}

/// The coverage statement counts the events of its source, and for each field
/// those of them whose value in that field is present and not the empty text.
pub proof fn coverage_counts_filled_events(
    fields: Seq<Seq<char>>,
    source: Option<Seq<char>>,
    rows: Seq<Event>,
) -> (s: Statement)
    requires
        forall|k: int| 0 <= k < fields.len() ==> sql_ident(#[trigger] fields[k]),
    ensures
        is_statement(coverage_sql(fields, source is Some), source_values(source), s),
        s.items.len() == fields.len() + 1,
        s.groups.len() == 0,
        s.limit is None,
        aggregate(s, s.items[0], rows) == number_of(
            rows,
            |row: Event| comes_from(row, source),
            rows.len() as int,
        ),
        forall|k: int|
            0 <= k < fields.len() ==> aggregate(s, #[trigger] s.items[k + 1], rows) == number_of(
                rows,
                |row: Event| comes_from(row, source) && is_filled(row, fields[k]),
                rows.len() as int,
            ),
{
    let s = Statement {
        items: coverage_items(fields),
        filter: source_filter(source),
        groups: seq![],
        by_count: false,
        limit: None,
    };
    lemma_source_filter(source, s);
    reveal_with_fuel(truth, 3);
    reveal_with_fuel(reads_as_written, 3);
    assert(item_texts(s.items) =~= seq!["COUNT(*)"@] + fields.map_values(
        |f: Seq<char>| filled_sql(f),
    )) by {
        assert forall|k: int| 0 <= k < s.items.len() implies #[trigger] item_texts(s.items)[k] == (
        seq!["COUNT(*)"@] + fields.map_values(|f: Seq<char>| filled_sql(f)))[k] by {
            if k > 0 {
                lemma_filled_text(fields[k - 1]);
            }
        }
    }
    reveal_strlit("");
    assert(" WHERE "@ + "_source_type = ?"@ =~= " WHERE _source_type = ?"@) by {
        reveal_strlit(" WHERE ");
        reveal_strlit("_source_type = ?");
        reveal_strlit(" WHERE _source_type = ?");
    }
    assert(statement_text(s) =~= coverage_sql(fields, source is Some));
    same_numbers(
        rows,
        |row: Event| is_about(s, row),
        |row: Event| comes_from(row, source),
        rows.len() as int,
    );
    assert forall|k: int| 0 <= k < fields.len() implies aggregate(
        s,
        #[trigger] s.items[k + 1],
        rows,
    ) == number_of(
        rows,
        |row: Event| comes_from(row, source) && is_filled(row, fields[k]),
        rows.len() as int,
    ) by {
        let e = filled_condition(fields[k]);
        assert(s.items[k + 1] == Item::CountIf(e));
        same_numbers(
            rows,
            |row: Event| is_about(s, row) && truth(e, row) == Some(true),
            |row: Event| comes_from(row, source) && is_filled(row, fields[k]),
            rows.len() as int,
        );
    }
    assert forall|k: int| 0 <= k < s.items.len() implies match #[trigger] s.items[k] {
        Item::Column(c) => sql_ident(c),
        Item::Front(c, n) => sql_ident(c),
        Item::CountIf(e) => reads_as_written(e),
        Item::Least(c) => sql_ident(c),
        Item::Greatest(c) => sql_ident(c),
        _ => true,
    } by {
        if k > 0 {
            assert(sql_ident(fields[k - 1]));
        }
    }
    s
}

/// A field that every event of the source fills is covered in all of them, and
/// one that none of them fills is covered in none.
pub proof fn coverage_is_full_or_empty(
    fields: Seq<Seq<char>>,
    source: Option<Seq<char>>,
    rows: Seq<Event>,
    k: int,
) -> (s: Statement)
    requires
        forall|i: int| 0 <= i < fields.len() ==> sql_ident(#[trigger] fields[i]),
        0 <= k < fields.len(),
    ensures
        is_statement(coverage_sql(fields, source is Some), source_values(source), s),
        s.items.len() == fields.len() + 1,
        (forall|i: int|
            0 <= i < rows.len() && comes_from(#[trigger] rows[i], source) ==> is_filled(
                rows[i],
                fields[k],
            )) ==> aggregate(s, s.items[k + 1], rows) == aggregate(s, s.items[0], rows),
        (forall|i: int|
            0 <= i < rows.len() && comes_from(#[trigger] rows[i], source) ==> !is_filled(
                rows[i],
                fields[k],
            )) ==> aggregate(s, s.items[k + 1], rows) == 0,
{
    let s = coverage_counts_filled_events(fields, source, rows);
    let n = rows.len() as int;
    let p = |row: Event| comes_from(row, source);
    let q = |row: Event| comes_from(row, source) && is_filled(row, fields[k]);
    all_or_none(rows, q, n);
    assert(aggregate(s, s.items[k + 1], rows) == number_of(rows, q, n));
    if forall|i: int|
        0 <= i < n && comes_from(#[trigger] rows[i], source) ==> is_filled(rows[i], fields[k]) {
        same_numbers(rows, p, q, n);
    }
    if forall|i: int|
        0 <= i < n && comes_from(#[trigger] rows[i], source) ==> !is_filled(rows[i], fields[k]) {
        assert forall|i: int| 0 <= i < n implies !q(#[trigger] rows[i]) by {}
    }
    s
}

/// What the counts of one source are told apart by, and those of all sources.
pub open spec fn kind_column(source: Option<Seq<char>>) -> Seq<char> {
    if source is Some {
        "event_type"@
    } else {
        "_source_type"@
    }
}

spec fn kind_statement(source: Option<Seq<char>>, by_count: bool) -> Statement {
    Statement {
        items: seq![Item::Column(kind_column(source)), Item::Count],
        filter: source_filter(source),
        groups: seq![Item::Column(kind_column(source))],
        by_count,
        limit: None,
    }
}

proof fn lemma_kind_statement(source: Option<Seq<char>>, by_count: bool, rows: Seq<Event>)
    ensures
        forall|kind: Seq<char>|
            #[trigger] counted(kind_statement(source, by_count), rows, seq![kind]) == number_of(
                rows,
                |row: Event|
                    comes_from(row, source) && shown(row, kind_column(source)) == kind,
                rows.len() as int,
            ),
        sql_ident(kind_column(source)),
        joined(item_texts(kind_statement(source, by_count).items), ", "@) == kind_column(source)
            + ", "@ + "COUNT(*)"@,
        joined(item_texts(kind_statement(source, by_count).groups), ", "@) == kind_column(source),
{
    let s = kind_statement(source, by_count);
    let c = kind_column(source);
    lemma_source_filter(source, s);
    assert forall|kind: Seq<char>| #[trigger] counted(s, rows, seq![kind]) == number_of(
        rows,
        |row: Event| comes_from(row, source) && shown(row, c) == kind,
        rows.len() as int,
    ) by {
        assert forall|i: int| 0 <= i < rows.len() implies (group_of_event(
            #[trigger] rows[i],
            s.groups,
        ) == seq![kind]) == (shown(rows[i], c) == kind) by {
            let g = group_of_event(rows[i], s.groups);
            assert(g.len() == 1 && g[0] == shown(rows[i], c));
            if shown(rows[i], c) == kind {
                assert(g =~= seq![kind]);
            }
            assert(seq![kind][0] == kind);
        }
        same_numbers(
            rows,
            |row: Event| is_about(s, row) && group_of_event(row, s.groups) == seq![kind],
            |row: Event| comes_from(row, source) && shown(row, c) == kind,
            rows.len() as int,
        );
    }
    reveal_strlit("event_type");
    reveal_strlit("_source_type");
    assert(sql_ident("event_type"@));
    assert(sql_ident("_source_type"@));
    let a = item_texts(s.items);
    assert(a =~= seq![c, "COUNT(*)"@]);
    assert(a.drop_last() =~= seq![c]);
    reveal_with_fuel(joined, 3);
    assert(item_texts(s.groups) =~= seq![c]);
}

/// The event counts give, for each source, or for each type of one source, the
/// number of its events.
pub proof fn counts_are_of_events(source: Option<Seq<char>>, rows: Seq<Event>) -> (s: Statement)
    ensures
        is_statement(counts_sql(source is Some), source_values(source), s),
        s.items == seq![Item::Column(kind_column(source)), Item::Count],
        s.groups == seq![Item::Column(kind_column(source))],
        s.limit is None,
        forall|kind: Seq<char>|
            #[trigger] counted(s, rows, seq![kind]) == number_of(
                rows,
                |row: Event| comes_from(row, source) && shown(row, kind_column(source)) == kind,
                rows.len() as int,
            ),
{
    let s = kind_statement(source, source is Some);
    lemma_source_filter(source, s);
    lemma_kind_statement(source, source is Some, rows);
    assert(statement_text(s) =~= counts_sql(source is Some)) by {
        reveal_strlit("");
        reveal_strlit("SELECT ");
        reveal_strlit(" FROM events");
        reveal_strlit(", ");
        reveal_strlit("COUNT(*)");
        reveal_strlit(" WHERE ");
        reveal_strlit(" GROUP BY ");
        reveal_strlit(" ORDER BY COUNT(*) DESC");
        reveal_strlit("_source_type = ?");
        reveal_strlit("event_type");
        reveal_strlit("_source_type");
        reveal_strlit(
            "SELECT event_type, COUNT(*) FROM events WHERE _source_type = ? GROUP BY event_type ORDER BY COUNT(*) DESC",
        );
        reveal_strlit("SELECT _source_type, COUNT(*) FROM events GROUP BY _source_type");
    }
    s
}

/// A trend counts the same groups as the event counts do.
pub proof fn trends_are_of_events(source: Option<Seq<char>>, rows: Seq<Event>) -> (s: Statement)
    ensures
        is_statement(trend_sql(source is Some), source_values(source), s),
        s.items == seq![Item::Column(kind_column(source)), Item::Count],
        s.groups == seq![Item::Column(kind_column(source))],
        s.limit is None,
        forall|kind: Seq<char>|
            #[trigger] counted(s, rows, seq![kind]) == number_of(
                rows,
                |row: Event| comes_from(row, source) && shown(row, kind_column(source)) == kind,
                rows.len() as int,
            ),
{
    let s = kind_statement(source, false);
    lemma_source_filter(source, s);
    lemma_kind_statement(source, false, rows);
    assert(statement_text(s) =~= trend_sql(source is Some)) by {
        reveal_strlit("");
        reveal_strlit("SELECT ");
        reveal_strlit(" FROM events");
        reveal_strlit(", ");
        reveal_strlit("COUNT(*)");
        reveal_strlit(" WHERE ");
        reveal_strlit(" GROUP BY ");
        reveal_strlit("_source_type = ?");
        reveal_strlit("event_type");
        reveal_strlit("_source_type");
        reveal_strlit(
            "SELECT event_type, COUNT(*) FROM events WHERE _source_type = ? GROUP BY event_type",
        );
        reveal_strlit("SELECT _source_type, COUNT(*) FROM events GROUP BY _source_type");
    }
    s
}

// ── Searches ─────────────────────────────────────────────────────────────────

/// Whether a text holds no wildcard of `LIKE`.
pub open spec fn is_literal(v: Seq<char>) -> bool {
    forall|i: int| 0 <= i < v.len() ==> #[trigger] v[i] != '%' && v[i] != '_'
}

proof fn lemma_like_any(s: Seq<char>)
    ensures
        like(seq!['%'], s),
    decreases s.len(),
{
    reveal_with_fuel(like, 2);
    assert(seq!['%'].skip(1) =~= Seq::<char>::empty());
    assert(seq!['%'][0] == '%');
    if s.len() > 0 {
        lemma_like_any(s.skip(1));
    }
}

proof fn lemma_skip_lower(s: Seq<char>)
    requires
        s.len() > 0,
    ensures
        lower(s).skip(1) == lower(s.skip(1)),
        lower(s)[0] == lower_char(s[0]),
        lower(s).len() == s.len(),
{
    assert(lower(s).skip(1) =~= lower(s.skip(1)));
}

proof fn lemma_prefix_step(v: Seq<char>, s: Seq<char>)
    requires
        v.len() > 0,
    ensures
        is_prefix(v, s) == (s.len() > 0 && s[0] == v[0] && is_prefix(v.skip(1), s.skip(1))),
{
    if s.len() > 0 && v.len() <= s.len() {
        assert(s.subrange(0, v.len() as int).skip(1) =~= s.skip(1).subrange(0, v.len() - 1));
        assert(v.skip(1).len() == v.len() - 1);
        if s[0] == v[0] && is_prefix(v.skip(1), s.skip(1)) {
            assert(s.subrange(0, v.len() as int) =~= v) by {
                assert forall|i: int| 0 <= i < v.len() implies s[i] == v[i] by {
                    if i > 0 {
                        assert(s.skip(1).subrange(0, v.len() - 1)[i - 1] == v.skip(1)[i - 1]);
                    }
                }
            }
        }
        if is_prefix(v, s) {
            assert(s.subrange(0, v.len() as int)[0] == v[0]);
        }
    }
}

proof fn lemma_like_front(v: Seq<char>, s: Seq<char>)
    requires
        is_literal(v),
    ensures
        like(v + seq!['%'], s) == is_prefix(lower(v), lower(s)),
    decreases v.len(),
{
    let p = v + seq!['%'];
    if v.len() == 0 {
        assert(p =~= seq!['%']);
        lemma_like_any(s);
        assert(lower(s).subrange(0, 0) =~= lower(v));
    } else {
        assert(p[0] == v[0]);
        assert(p.skip(1) =~= v.skip(1) + seq!['%']);
        assert(is_literal(v.skip(1))) by {
            assert forall|i: int| 0 <= i < v.len() - 1 implies #[trigger] v.skip(1)[i] != '%'
                && v.skip(1)[i] != '_' by {
                assert(v.skip(1)[i] == v[i + 1]);
            }
        }
        lemma_skip_lower(v);
        lemma_prefix_step(lower(v), lower(s));
        if s.len() > 0 {
            lemma_skip_lower(s);
            lemma_like_front(v.skip(1), s.skip(1));
        }
    }
}

proof fn lemma_like_whole(v: Seq<char>, s: Seq<char>)
    requires
        is_literal(v),
    ensures
        like(v, s) == (lower(v) == lower(s)),
    decreases v.len(),
{
    if v.len() == 0 {
        if s.len() == 0 {
            assert(lower(v) =~= lower(s));
        }
    } else {
        assert(is_literal(v.skip(1))) by {
            assert forall|i: int| 0 <= i < v.len() - 1 implies #[trigger] v.skip(1)[i] != '%'
                && v.skip(1)[i] != '_' by {
                assert(v.skip(1)[i] == v[i + 1]);
            }
        }
        lemma_skip_lower(v);
        if s.len() > 0 {
            lemma_skip_lower(s);
            lemma_like_whole(v.skip(1), s.skip(1));
            if lower(v)[0] == lower(s)[0] && lower(v).skip(1) == lower(s).skip(1) {
                assert(lower(v) =~= seq![lower(v)[0]] + lower(v).skip(1));
                assert(lower(s) =~= seq![lower(s)[0]] + lower(s).skip(1));
            }
        } else {
            assert(lower(v).len() == v.len());
        }
    }
}

proof fn lemma_like_back(v: Seq<char>, s: Seq<char>)
    requires
        is_literal(v),
    ensures
        like(seq!['%'] + v, s) == is_suffix(lower(v), lower(s)),
    decreases s.len(),
{
    let p = seq!['%'] + v;
    assert(p.skip(1) =~= v);
    lemma_like_whole(v, s);
    let a = lower(v);
    let b = lower(s);
    if a.len() == b.len() {
        assert(b.subrange(0, b.len() as int) =~= b);
    }
    if s.len() > 0 {
        lemma_skip_lower(s);
        lemma_like_back(v, s.skip(1));
        if a.len() < b.len() {
            assert(b.skip(1).subrange(b.len() - 1 - a.len(), b.len() - 1) =~= b.subrange(
                b.len() - a.len(),
                b.len() as int,
            ));
        }
    }
}

proof fn lemma_like_inside(v: Seq<char>, s: Seq<char>)
    requires
        is_literal(v),
    ensures
        like(seq!['%'] + v + seq!['%'], s) == has(lower(s), lower(v)),
    decreases s.len(),
{
    let p = seq!['%'] + v + seq!['%'];
    assert(p.skip(1) =~= v + seq!['%']);
    lemma_like_front(v, s);
    let a = lower(v);
    let b = lower(s);
    if s.len() > 0 {
        lemma_skip_lower(s);
        lemma_like_inside(v, s.skip(1));
        if has(b, a) {
            let i = choose|i: int| #[trigger] occurs_at(b, a, i);
            if i > 0 {
                assert(b.skip(1).subrange(i - 1, i - 1 + a.len()) =~= b.subrange(i, i + a.len()));
                assert(occurs_at(b.skip(1), a, i - 1));
            }
        }
        if has(b.skip(1), a) {
            let i = choose|i: int| #[trigger] occurs_at(b.skip(1), a, i);
            assert(b.skip(1).subrange(i, i + a.len()) =~= b.subrange(i + 1, i + 1 + a.len()));
            assert(occurs_at(b, a, i + 1));
        }
    }
    if is_prefix(a, b) {
        assert(occurs_at(b, a, 0));
    }
    if s.len() == 0 && has(b, a) {
        let i = choose|i: int| #[trigger] occurs_at(b, a, i);
        assert(i == 0);
    }
}

/// What a predicate says of an event: nothing where it reads a field that the
/// event has no value of.
pub open spec fn asked(e: ExprV, row: Event) -> Option<bool>
    decreases e,
{
    match e {
        ExprV::And(a, b) => both(asked(*a, row), asked(*b, row)),
        ExprV::Or(a, b) => either(asked(*a, row), asked(*b, row)),
        ExprV::Not(a) => negated(asked(*a, row)),
        ExprV::Cond(CondV::Field { field, value, mode }) => of_column(
            row,
            field,
            |s: Seq<char>| meets(s, value, mode),
        ),
        ExprV::Cond(CondV::Text { needle }) => Some(has(row.line, needle)),
    }
}

/// Whether the values that a predicate matches in part hold no wildcard.
pub open spec fn matches_literally(e: ExprV) -> bool
    decreases e,
{
    match e {
        ExprV::And(a, b) => matches_literally(*a) && matches_literally(*b),
        ExprV::Or(a, b) => matches_literally(*a) && matches_literally(*b),
        ExprV::Not(a) => matches_literally(*a),
        ExprV::Cond(CondV::Field { field, value, mode }) => mode is StartsWith || mode is EndsWith
            || mode is Contains ==> is_literal(value),
        ExprV::Cond(CondV::Text { needle }) => true,
    }
}

proof fn condition_means(field: Seq<char>, value: Seq<char>, mode: MatchMode) -> (s: Sql)
    requires
        sql_ident(field),
        mode is StartsWith || mode is EndsWith || mode is Contains ==> is_literal(value),
    ensures
        is_text_of(
            cond_sql(CondV::Field { field, value, mode }),
            cond_params(CondV::Field { field, value, mode }),
            s,
        ),
        !(s is And) && !(s is Or),
        forall|row: Event|
            #[trigger] truth(s, row) == of_column(
                row,
                field,
                |t: Seq<char>| meets(t, value, mode),
            ),
{
    reveal_strlit("%");
    assert("%"@ =~= seq!['%']);
    let s = match mode {
        MatchMode::Exact => Sql::Equal(field, value),
        MatchMode::NotExact => Sql::Differs(field, value),
        MatchMode::StartsWith => Sql::Like {
            column: field,
            pattern: value + "%"@,
            collate: false,
        },
        MatchMode::EndsWith => Sql::Like {
            column: field,
            pattern: "%"@ + value,
            collate: false,
        },
        MatchMode::Contains => Sql::Like {
            column: field,
            pattern: "%"@ + value + "%"@,
            collate: true,
        },
        MatchMode::Cidr => Sql::InNetwork(field, value),
        MatchMode::Any => Sql::Filled(field),
    };
    assert(bound_to(s) =~= cond_params(CondV::Field { field, value, mode }));
    assert forall|row: Event| #[trigger] truth(s, row) == of_column(
        row,
        field,
        |t: Seq<char>| meets(t, value, mode),
    ) by {
        let t = row.columns[field];
        if mode is StartsWith {
            lemma_like_front(value, t);
        } else if mode is EndsWith {
            lemma_like_back(value, t);
        } else if mode is Contains {
            lemma_like_inside(value, t);
        }
    }
    s
}

/// The `WHERE` clause of a predicate says of every event what the predicate
/// asks, with its values bound in the order of their placeholders.
pub proof fn search_asks_what_it_says(e: ExprV) -> (s: Sql)
    requires
        fields_are_idents(e),
        matches_literally(e),
    ensures
        is_text_of(expr_sql(e), expr_params(e), s),
        !(s is And) && !(s is Or),
        forall|row: Event| #[trigger] truth(s, row) == asked(e, row),
    decreases e,
{
    match e {
        ExprV::And(a, b) => {
            let x = search_asks_what_it_says(*a);
            let y = search_asks_what_it_says(*b);
            let inner = Sql::And(Box::new(x), Box::new(y));
            let s = Sql::Enclosed(Box::new(inner));
            assert(text_of(inner) == expr_sql(*a) + " AND "@ + expr_sql(*b));
            assert("("@ + (expr_sql(*a) + " AND "@ + expr_sql(*b)) + ")"@ =~= expr_sql(e));
            assert(bound_to(s) == bound_to(inner));
            assert(reads_as_written(inner));
            assert forall|row: Event| #[trigger] truth(s, row) == asked(e, row) by {
                assert(truth(s, row) == truth(inner, row));
                assert(truth(x, row) == asked(*a, row));
                assert(truth(y, row) == asked(*b, row));
            }
            s
        },
        ExprV::Or(a, b) => {
            let x = search_asks_what_it_says(*a);
            let y = search_asks_what_it_says(*b);
            let inner = Sql::Or(Box::new(x), Box::new(y));
            let s = Sql::Enclosed(Box::new(inner));
            assert(text_of(inner) == expr_sql(*a) + " OR "@ + expr_sql(*b));
            assert("("@ + (expr_sql(*a) + " OR "@ + expr_sql(*b)) + ")"@ =~= expr_sql(e));
            assert(bound_to(s) == bound_to(inner));
            assert(reads_as_written(inner));
            assert forall|row: Event| #[trigger] truth(s, row) == asked(e, row) by {
                assert(truth(s, row) == truth(inner, row));
                assert(truth(x, row) == asked(*a, row));
                assert(truth(y, row) == asked(*b, row));
            }
            s
        },
        ExprV::Not(a) => {
            let x = search_asks_what_it_says(*a);
            let inner = Sql::Not(Box::new(x));
            let s = Sql::Enclosed(Box::new(inner));
            assert(text_of(inner) == "NOT "@ + expr_sql(*a));
            assert("("@ + "NOT "@ =~= "(NOT "@) by {
                reveal_strlit("(");
                reveal_strlit("NOT ");
                reveal_strlit("(NOT ");
            }
            assert("("@ + ("NOT "@ + expr_sql(*a)) + ")"@ =~= ("("@ + "NOT "@) + expr_sql(*a)
                + ")"@);
            assert(bound_to(s) == bound_to(inner));
            assert(reads_as_written(inner));
            assert forall|row: Event| #[trigger] truth(s, row) == asked(e, row) by {
                assert(truth(s, row) == truth(inner, row));
                assert(truth(x, row) == asked(*a, row));
            }
            s
        },
        ExprV::Cond(CondV::Field { field, value, mode }) => condition_means(field, value, mode),
        ExprV::Cond(CondV::Text { needle }) => Sql::LineHolds(needle),
    }
}

/// Whether a search chooses an event.
pub open spec fn chooses(e: Option<ExprV>, row: Event) -> bool {
    e matches Some(x) ==> asked(x, row) == Some(true)
}

spec fn columns(fields: Seq<Seq<char>>) -> Seq<Item> {
    fields.map_values(|f: Seq<char>| Item::Column(f))
}

proof fn lemma_columns(fields: Seq<Seq<char>>)
    ensures
        item_texts(columns(fields)) == fields,
        fields.len() > 0 ==> joined(item_texts(columns(fields).push(Item::Count)), ", "@)
            == joined(fields, ", "@) + ", "@ + "COUNT(*)"@,
        forall|row: Event|
            #[trigger] group_of_event(row, columns(fields)) == fields.map_values(
                |f: Seq<char>| shown(row, f),
            ),
{
    assert(item_texts(columns(fields)) =~= fields);
    let a = item_texts(columns(fields).push(Item::Count));
    assert(a.drop_last() =~= fields);
    assert forall|row: Event| #[trigger] group_of_event(row, columns(fields)) == fields.map_values(
        |f: Seq<char>| shown(row, f),
    ) by {
        assert(group_of_event(row, columns(fields)) =~= fields.map_values(
            |f: Seq<char>| shown(row, f),
        ));
    }
}

/// A search without `GROUP BY` reads every column of the events that its
/// predicate chooses, at most as many as its `LIMIT` allows; one with it counts,
/// for each combination of values of the fields, the chosen events that have it.
pub proof fn search_reads_what_it_asks(q: QueryV, rows: Seq<Event>) -> (s: Statement)
    requires
        q.expr matches Some(e) ==> fields_are_idents(e) && matches_literally(e),
        q.group_by matches Some(v) ==> v.len() > 0 && forall|k: int|
            0 <= k < v.len() ==> sql_ident(#[trigger] v[k]),
        q.limit matches Some(n) ==> n >= 0,
    ensures
        is_statement(query_sql(q), query_params(q), s),
        forall|row: Event| #[trigger] is_about(s, row) == chooses(q.expr, row),
        q.group_by is None ==> s.items == seq![Item::All] && s.groups.len() == 0,
        q.group_by is None ==> match q.limit {
            Some(n) => s.limit == Some(n as nat),
            None => s.limit is None,
        },
        q.group_by is Some ==> s.limit is None,
        q.group_by matches Some(v) ==> s.groups.len() == v.len() && s.items.len() == v.len() + 1
            && s.items.last() == Item::Count && forall|k: int|
            0 <= k < v.len() ==> #[trigger] s.items[k] == Item::Column(v[k]) && s.groups[k]
                == Item::Column(v[k]),
        q.group_by matches Some(v) ==> forall|g: Seq<Seq<char>>|
            #[trigger] counted(s, rows, g) == number_of(
                rows,
                |row: Event|
                    chooses(q.expr, row) && g == v.map_values(|f: Seq<char>| shown(row, f)),
                rows.len() as int,
            ),
{
    let filter = match q.expr {
        Some(e) => Some(search_asks_what_it_says(e)),
        None => None,
    };
    let w = match filter {
        Some(e) => " WHERE "@ + text_of(e),
        None => ""@,
    };
    reveal_strlit("");
    assert(w =~= where_sql(q.expr));
    match q.group_by {
        Some(v) => {
            let s = Statement {
                items: columns(v).push(Item::Count),
                filter,
                groups: columns(v),
                by_count: false,
                limit: None,
            };
            lemma_columns(v);
            let j = joined(v, ", "@);
            assert(", "@ + "COUNT(*)"@ + " FROM events"@ =~= ", COUNT(*) FROM events"@) by {
                reveal_strlit(", ");
                reveal_strlit("COUNT(*)");
                reveal_strlit(" FROM events");
                reveal_strlit(", COUNT(*) FROM events");
            }
            assert("SELECT "@ + (j + ", "@ + "COUNT(*)"@) + " FROM events"@ + w + (" GROUP BY "@
                + j) + ""@ + ""@ =~= "SELECT "@ + j + (", "@ + "COUNT(*)"@ + " FROM events"@) + w
                + " GROUP BY "@ + j);
            assert(statement_text(s) == query_sql(q));
            assert(statement_values(s) =~= query_params(q));
            assert forall|g: Seq<Seq<char>>| #[trigger] counted(s, rows, g) == number_of(
                rows,
                |row: Event|
                    chooses(q.expr, row) && g == v.map_values(|f: Seq<char>| shown(row, f)),
                rows.len() as int,
            ) by {
                same_numbers(
                    rows,
                    |row: Event| is_about(s, row) && group_of_event(row, s.groups) == g,
                    |row: Event|
                        chooses(q.expr, row) && g == v.map_values(|f: Seq<char>| shown(row, f)),
                    rows.len() as int,
                );
            }
            s
        },
        None => {
            let s = Statement {
                items: seq![Item::All],
                filter,
                groups: seq![],
                by_count: false,
                limit: match q.limit {
                    Some(n) => Some(n as nat),
                    None => None,
                },
            };
            assert(item_texts(s.items) =~= seq!["*"@]);
            assert(joined(item_texts(s.items), ", "@) == "*"@);
            assert("SELECT "@ + "*"@ + " FROM events"@ =~= "SELECT * FROM events"@) by {
                reveal_strlit("SELECT ");
                reveal_strlit("*");
                reveal_strlit(" FROM events");
                reveal_strlit("SELECT * FROM events");
            }
            let head = "SELECT * FROM events"@ + w;
            assert(head + ""@ + ""@ =~= head);
            match q.limit {
                Some(n) => {
                    assert(head + (" LIMIT "@ + dec(n as nat)) =~= head + " LIMIT "@ + dec(
                        n as nat,
                    ));
                },
                None => {
                    assert(head + ""@ =~= head);
                },
            }
            assert(statement_values(s) =~= query_params(q));
            s
        },
    }
}

} // verus!
