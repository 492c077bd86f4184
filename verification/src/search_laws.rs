//! What a search finds and shows, told from its events.
use vstd::prelude::*;

use crate::alerts::{
    ack_in, group_of, hidden, hits, line_stays, lines_dropped, lines_kept, projected, shown_from,
    tally, watermark, Watermarks,
};
use crate::buckets::{
    cell_text, cell_val, column_at, is_pruned, is_raw_hit, means_absence, place_of, row_record,
    without_line_end, Cell,
};
use crate::db::{cidr_answer, ipv4_value, same_network, MatchMode};
use crate::groups::{group_record, Group};
use crate::json::{bool_member, entry, int_member, member, parsed_json, text_member, Json, JsonV};
use crate::number::{dec, read_dec};
use crate::query::{CondV, ExprV};
use crate::query_eval::{expr_holds, field_text, resolved};
use crate::render::{
    field_names, field_value, json_pair, json_pairs, row_cells, tsv_cell, RecordV, ValV,
};
use crate::sql::{counted, group_of_event, is_about, number_of, shown, Event, Item, Statement};
use crate::text::{
    char_from, char_from_is_first, is_digit, lower, occurs_at, split, split_front, split_whole,
};
use crate::time::{hour_in_filename, hours_in_order, HourBucket};
use vstd::arithmetic::power2::pow2;

verus! {

// ── Predicates over records ──────────────────────────────────────────────────

/// A condition on one field.
pub open spec fn on_field(field: Seq<char>, value: Seq<char>, mode: MatchMode) -> ExprV {
    ExprV::Cond(CondV::Field { field, value, mode })
}

/// Of a record that has a field as a scalar, `!=` holds exactly where `==` does
/// not, and `==` exactly where the value is the field's text; of one without it
/// neither holds.
pub proof fn unequal_is_not_equal(j: JsonV, field: Seq<char>, value: Seq<char>)
    ensures
        field_text(j, field) is Some ==> expr_holds(on_field(field, value, MatchMode::NotExact), j)
            == !expr_holds(on_field(field, value, MatchMode::Exact), j),
        field_text(j, field) is None ==> !expr_holds(
            on_field(field, value, MatchMode::NotExact),
            j,
        ) && !expr_holds(on_field(field, value, MatchMode::Exact), j),
        expr_holds(on_field(field, value, MatchMode::Exact), j) == (field_text(j, field) == Some(
            value,
        )),
{
}

/// `*` holds of a record exactly where some text other than the empty one
/// equals the field.
pub proof fn any_means_a_text(j: JsonV, field: Seq<char>, value: Seq<char>)
    ensures
        expr_holds(on_field(field, value, MatchMode::Any), j) == (exists|t: Seq<char>|
            t.len() > 0 && #[trigger] expr_holds(on_field(field, t, MatchMode::Exact), j)),
{
    if expr_holds(on_field(field, value, MatchMode::Any), j) {
        let t = field_text(j, field)->Some_0;
        assert(expr_holds(on_field(field, t, MatchMode::Exact), j));
    }
}

/// A value of which some part is left out at the end, at the front or at both.
pub proof fn parts_are_found(j: JsonV, field: Seq<char>, a: Seq<char>, b: Seq<char>, c: Seq<char>)
    requires
        field_text(j, field) == Some(a + b + c),
    ensures
        expr_holds(on_field(field, b, MatchMode::Contains), j),
        a.len() == 0 ==> expr_holds(on_field(field, b, MatchMode::StartsWith), j),
        c.len() == 0 ==> expr_holds(on_field(field, b, MatchMode::EndsWith), j),
{
    let s = lower(a + b + c);
    let p = lower(b);
    assert(s.subrange(a.len() as int, (a.len() + b.len()) as int) =~= p);
    assert(occurs_at(s, p, a.len() as int));
}

/// What a field begins with, ends with or contains, up to case, stands there.
pub proof fn found_parts_stand_there(j: JsonV, field: Seq<char>, value: Seq<char>, mode: MatchMode)
    requires
        mode is StartsWith || mode is EndsWith || mode is Contains,
        expr_holds(on_field(field, value, mode), j),
    ensures
        exists|a: Seq<char>, b: Seq<char>, c: Seq<char>|
            {
                &&& field_text(j, field) == Some(#[trigger] (a + b + c))
                &&& lower(b) == lower(value)
                &&& mode is StartsWith ==> a.len() == 0
                &&& mode is EndsWith ==> c.len() == 0
            },
{
    let t = field_text(j, field)->Some_0;
    let s = lower(t);
    let p = lower(value);
    let i = match mode {
        MatchMode::StartsWith => 0,
        MatchMode::EndsWith => s.len() - p.len(),
        _ => choose|i: int| #[trigger] occurs_at(s, p, i),
    };
    assert(occurs_at(s, p, i));
    let a = t.take(i);
    let b = t.subrange(i, i + p.len());
    let c = t.skip(i + p.len());
    assert(a + b + c =~= t);
    assert(lower(b) =~= s.subrange(i, i + p.len()));
}

/// The case of a value does not decide what begins with it, ends with it or
/// contains it.
pub proof fn case_is_ignored_in_parts(
    j: JsonV,
    field: Seq<char>,
    a: Seq<char>,
    b: Seq<char>,
    mode: MatchMode,
)
    requires
        mode is StartsWith || mode is EndsWith || mode is Contains,
        lower(a) == lower(b),
    ensures
        expr_holds(on_field(field, a, mode), j) == expr_holds(on_field(field, b, mode), j),
{
}

/// `AND` holds where both sides do, `OR` where either does, `NOT` where its
/// operand does not.
pub proof fn connectives_mean_what_they_say(a: ExprV, b: ExprV, j: JsonV)
    ensures
        expr_holds(ExprV::And(Box::new(a), Box::new(b)), j) == if expr_holds(a, j) {
            expr_holds(b, j)
        } else {
            false
        },
        expr_holds(ExprV::Or(Box::new(a), Box::new(b)), j) == if expr_holds(a, j) {
            true
        } else {
            expr_holds(b, j)
        },
        expr_holds(ExprV::Not(Box::new(a)), j) != expr_holds(a, j),
{
}

/// A field of the record itself comes before one of its event, and that before
/// one of its first sample; further samples are not read.
pub proof fn outer_fields_come_first(j: JsonV, field: Seq<char>, v: JsonV)
    ensures
        member(j, field) == Some(v) ==> resolved(j, field) == Some(v),
        member(j, field) is None ==> (member(j, "event"@) matches Some(e) ==> (member(e, field)
            == Some(v) ==> resolved(j, field) == Some(v))),
        member(j, field) is None && (member(j, "event"@) matches Some(e) ==> member(e, field)
            is None) ==> match member(j, "sample_events"@) {
            Some(JsonV::Array(items)) => if items.len() > 0 {
                resolved(j, field) == member(items[0], field)
            } else {
                resolved(j, field) is None
            },
            _ => resolved(j, field) is None,
        },
{
}

// ── Groups ───────────────────────────────────────────────────────────────────

/// In the record shown for a group every field has its own value of the group,
/// in the fields' order, and the count comes last.
pub proof fn values_stand_under_their_fields(fields: Seq<Seq<char>>, g: Group, count: int)
    requires
        fields.len() == g.len(),
    ensures
        group_record(fields, g, count).len() == g.len() + 1,
        forall|i: int|
            0 <= i < g.len() ==> (#[trigger] group_record(fields, g, count)[i]).0 == fields[i]
                && group_record(fields, g, count)[i].1 == ValV::Str(g[i]),
        group_record(fields, g, count).last() == ("count"@, ValV::Int(count)),
{
}

/// Looking up a field in the record of a group gives the group's value of it.
pub proof fn group_answers_by_field(fields: Seq<Seq<char>>, g: Group, count: int, i: int)
    requires
        fields.len() == g.len(),
        0 <= i < g.len(),
        forall|k: int| 0 <= k < i ==> #[trigger] fields[k] != fields[i],
    ensures
        field_value(group_record(fields, g, count), fields[i]) == Some(ValV::Str(g[i])),
{
    lemma_first_field(group_record(fields, g, count), i);
}

proof fn lemma_first_field(rec: RecordV, i: int)
    requires
        0 <= i < rec.len(),
        forall|k: int| 0 <= k < i ==> (#[trigger] rec[k]).0 != rec[i].0,
    ensures
        field_value(rec, rec[i].0) == Some(rec[i].1),
    decreases rec.len(),
{
    if i > 0 {
        let rest = rec.skip(1);
        assert(rec[0].0 != rec[i].0);
        assert forall|k: int| 0 <= k < i - 1 implies (#[trigger] rest[k]).0 != rest[i - 1].0 by {
            assert(rest[k] == rec[k + 1]);
        }
        lemma_first_field(rest, i - 1);
    }
}

/// The number of the first `n` records that have those texts in the fields.
pub open spec fn records_with(hs: Seq<JsonV>, fields: Seq<Seq<char>>, g: Group, n: int) -> int
    decreases n,
{
    if n <= 0 {
        0
    } else {
        records_with(hs, fields, g, n - 1) + if fields.len() == g.len() && forall|k: int|
            0 <= k < g.len() ==> #[trigger] g[k] == match field_text(hs[n - 1], fields[k]) {
                Some(s) => s,
                None => Seq::empty(),
            } {
            1int
        } else {
            0
        }
    }
}

/// A group counts the records that have its values, and is there if any has.
pub proof fn tally_counts_records(hs: Seq<JsonV>, fields: Seq<Seq<char>>, g: Group, n: int)
    requires
        0 <= n <= hs.len(),
        n <= u64::MAX,
    ensures
        0 <= records_with(hs, fields, g, n) <= n,
        tally(hs, fields, n).dom().contains(g) == (records_with(hs, fields, g, n) > 0),
        tally(hs, fields, n).dom().contains(g) ==> tally(hs, fields, n)[g] == records_with(
            hs,
            fields,
            g,
            n,
        ),
    decreases n,
{
    if n > 0 {
        tally_counts_records(hs, fields, g, n - 1);
        let h = group_of(hs[n - 1], fields);
        let same = fields.len() == g.len() && forall|k: int|
            0 <= k < g.len() ==> #[trigger] g[k] == match field_text(hs[n - 1], fields[k]) {
                Some(s) => s,
                None => Seq::empty(),
            };
        if same {
            assert(h =~= g);
        }
        if h == g {
            assert forall|k: int| 0 <= k < g.len() implies #[trigger] g[k] == match field_text(
                hs[n - 1],
                fields[k],
            ) {
                Some(s) => s,
                None => Seq::empty(),
            } by {
                assert(h[k] == g[k]);
            }
            assert(same);
        }
    }
}

/// Where every counted record has the same text in a field of the group, the
/// record shown for the group has it under that field.
pub proof fn groups_show_what_their_records_have(
    hs: Seq<JsonV>,
    fields: Seq<Seq<char>>,
    g: Group,
    k: int,
    v: Seq<char>,
    count: int,
)
    requires
        hs.len() <= u64::MAX,
        tally(hs, fields, hs.len() as int).dom().contains(g),
        0 <= k < fields.len(),
        forall|i: int|
            0 <= i < hs.len() ==> field_text(#[trigger] hs[i], fields[k]) == Some(v),
    ensures
        group_record(fields, g, count)[k] == (fields[k], ValV::Str(v)),
{
    let i = lemma_tally_has_record(hs, fields, g, hs.len() as int);
    assert(group_of(hs[i], fields)[k] == v);
}

proof fn lemma_tally_has_record(hs: Seq<JsonV>, fields: Seq<Seq<char>>, g: Group, n: int) -> (i:
    int)
    requires
        0 <= n <= hs.len(),
        tally(hs, fields, n).dom().contains(g),
    ensures
        0 <= i < n,
        group_of(hs[i], fields) == g,
    decreases n,
{
    if group_of(hs[n - 1], fields) == g {
        n - 1
    } else {
        lemma_tally_has_record(hs, fields, g, n - 1)
    }
}

/// Where every event that a statement is about has the same text in a column
/// that it groups by, the record shown for a group with events has it under that
/// column.
pub proof fn groups_show_what_their_events_have(
    s: Statement,
    rows: Seq<Event>,
    fields: Seq<Seq<char>>,
    g: Group,
    k: int,
    v: Seq<char>,
    count: int,
)
    requires
        s.groups == fields.map_values(|f: Seq<char>| Item::Column(f)),
        counted(s, rows, g) > 0,
        0 <= k < fields.len(),
        forall|i: int|
            0 <= i < rows.len() && is_about(s, #[trigger] rows[i]) ==> shown(rows[i], fields[k])
                == v,
    ensures
        group_record(fields, g, count)[k] == (fields[k], ValV::Str(v)),
{
    let p = |row: Event| is_about(s, row) && group_of_event(row, s.groups) == g;
    let i = lemma_some_event(rows, p, rows.len() as int);
    assert(group_of_event(rows[i], s.groups)[k] == shown(rows[i], fields[k]));
    assert(group_of_event(rows[i], s.groups).len() == fields.len());
}

proof fn lemma_some_event(rows: Seq<Event>, p: spec_fn(Event) -> bool, n: int) -> (i: int)
    requires
        0 <= n <= rows.len(),
        number_of(rows, p, n) > 0,
    ensures
        0 <= i < n,
        p(rows[i]),
    decreases n,
{
    if p(rows[n - 1]) {
        n - 1
    } else {
        lemma_some_event(rows, p, n - 1)
    }
}

// ── Rows ─────────────────────────────────────────────────────────────────────

/// A row shows each cell under its own column; a null shows as null, a number as
/// that number, a text as that text.
pub proof fn cells_stand_under_their_columns(cols: Seq<Seq<char>>, cells: Seq<Cell>, i: int)
    requires
        cols.len() == cells.len(),
        0 <= i < cols.len(),
    ensures
        row_record(cols, cells).len() == cols.len(),
        row_record(cols, cells)[i].0 == cols[i],
        cells[i] is Null ==> row_record(cols, cells)[i].1 == ValV::Null,
        cells[i] matches Cell::Int(n) ==> row_record(cols, cells)[i].1 == ValV::Int(n as int),
        cells[i] matches Cell::Real(t) ==> row_record(cols, cells)[i].1 == ValV::Real(t@),
        cells[i] matches Cell::Text { shown, exact: Some(t) } ==> row_record(cols, cells)[i].1
            == ValV::Str(t@),
{
}

/// A cell as part of a group's key reads as the same cell does in a row; nulls
/// read as the empty text.
pub proof fn keys_read_as_cells_do(c: Cell)
    requires
        c matches Cell::Text { shown, exact } ==> exact matches Some(t) && t@ == shown@ && forall|
            i: int,
        |
            0 <= i < shown@.len() ==> #[trigger] shown@[i] != '\t' && shown@[i] != '\n' && shown@[i]
                != '\r',
    ensures
        cell_text(c) == tsv_cell(cell_val(c)),
{
    match c {
        Cell::Text { shown, exact } => {
            assert(tsv_cell(cell_val(c)) =~= shown@);
        },
        _ => {},
    }
}

/// A row's line is looked up where its own columns say, wherever they stand.
pub proof fn place_is_read_from_its_columns(
    cols: Seq<Seq<char>>,
    cells: Seq<Cell>,
    f: int,
    o: int,
    name: Seq<char>,
    at: i64,
)
    requires
        cols.len() == cells.len(),
        0 <= f < cols.len(),
        0 <= o < cols.len(),
        cols[f] == "raw_file"@,
        cols[o] == "byte_offset"@,
        forall|k: int| 0 <= k < cols.len() && k != f ==> #[trigger] cols[k] != "raw_file"@,
        forall|k: int| 0 <= k < cols.len() && k != o ==> #[trigger] cols[k] != "byte_offset"@,
        cells[f] matches Cell::Text { shown, exact: Some(t) } && t@ == name,
        cells[o] == Cell::Int(at),
    ensures
        place_of(cols, cells) == Some((name, at as int)),
{
    lemma_only_column(cols, "raw_file"@, f, 0);
    lemma_only_column(cols, "byte_offset"@, o, 0);
}

proof fn lemma_only_column(cols: Seq<Seq<char>>, name: Seq<char>, at: int, i: int)
    requires
        0 <= i <= at < cols.len(),
        cols[at] == name,
        forall|k: int| 0 <= k < cols.len() && k != at ==> #[trigger] cols[k] != name,
    ensures
        column_at(cols, name, i) == Some(at),
    decreases at - i,
{
    if i < at {
        assert(cols[i] != name);
        lemma_only_column(cols, name, at, i + 1);
    }
}

/// Line ends at the end of a raw line do not matter, and nothing else is cut.
pub proof fn only_line_ends_are_cut(s: Seq<char>)
    ensures
        without_line_end(s.push('\n')) == without_line_end(s),
        without_line_end(s.push('\r')) == without_line_end(s),
        s.len() > 0 && s.last() != '\n' && s.last() != '\r' ==> without_line_end(s) == s,
        without_line_end(without_line_end(s)) == without_line_end(s),
{
    assert(s.push('\n').drop_last() =~= s);
    assert(s.push('\r').drop_last() =~= s);
    lemma_cut_once(s);
}

proof fn lemma_cut_once(s: Seq<char>)
    ensures
        without_line_end(without_line_end(s)) == without_line_end(s),
    decreases s.len(),
{
    if s.len() > 0 && (s.last() == '\n' || s.last() == '\r') {
        lemma_cut_once(s.drop_last());
    }
}

// ── Shown records ────────────────────────────────────────────────────────────

/// Asking for all the fields of a record, by name and in their order, shows what
/// asking for none does.
pub proof fn naming_every_field_changes_nothing(rec: RecordV)
    requires
        forall|a: int, b: int|
            0 <= a < b < rec.len() ==> (#[trigger] rec[a]).0 != (#[trigger] rec[b]).0,
    ensures
        json_pairs(Some(field_names(rec)), rec) == json_pairs(None, rec),
        row_cells(field_names(rec), rec) == rec.map_values(
            |e: (Seq<char>, ValV)| tsv_cell(e.1),
        ),
{
    assert forall|i: int| 0 <= i < rec.len() implies field_value(rec, #[trigger] rec[i].0) == Some(
        rec[i].1,
    ) by {
        lemma_first_field(rec, i);
    }
    assert(json_pairs(Some(field_names(rec)), rec) =~= json_pairs(None, rec));
    assert(row_cells(field_names(rec), rec) =~= rec.map_values(
        |e: (Seq<char>, ValV)| tsv_cell(e.1),
    ));
}

/// The fields come out in the order in which they are asked for: what is asked
/// for first and what is asked for after it stand in that order, each as if it
/// were asked for alone.
pub proof fn fields_come_in_the_order_asked(
    a: Seq<Seq<char>>,
    b: Seq<Seq<char>>,
    rec: RecordV,
)
    ensures
        json_pairs(Some(a + b), rec) == json_pairs(Some(a), rec) + json_pairs(Some(b), rec),
        row_cells(a + b, rec) == row_cells(a, rec) + row_cells(b, rec),
{
    assert(json_pairs(Some(a + b), rec) =~= json_pairs(Some(a), rec) + json_pairs(Some(b), rec));
    assert(row_cells(a + b, rec) =~= row_cells(a, rec) + row_cells(b, rec));
}

// ── Alerts ───────────────────────────────────────────────────────────────────

proof fn lemma_hits_front(a: Seq<JsonV>, b: Seq<JsonV>, e: Option<ExprV>, n: int)
    requires
        0 <= n <= a.len(),
        n <= b.len(),
        forall|i: int| 0 <= i < n ==> a[i] == b[i],
    ensures
        hits(a, e, n) == hits(b, e, n),
    decreases n,
{
    if n > 0 {
        lemma_hits_front(a, b, e, n - 1);
    }
}

/// A record is found exactly if the predicate holds of it, in the records'
/// order; without a predicate every record is.
pub proof fn records_are_found_by_the_predicate(rs: Seq<JsonV>, e: Option<ExprV>, j: JsonV)
    ensures
        hits(rs.push(j), e, (rs.len() + 1) as int) == hits(rs, e, rs.len() as int) + (if e is None
            || expr_holds(e->Some_0, j) {
            seq![j]
        } else {
            seq![]
        }),
        hits(Seq::empty(), e, 0) == Seq::<JsonV>::empty(),
{
    let n = rs.len() as int;
    lemma_hits_front(rs.push(j), rs, e, n);
    assert(rs.push(j)[n] == j);
    assert(hits(rs.push(j), e, n + 1) =~= hits(rs, e, n) + (if e is None || expr_holds(
        e->Some_0,
        j,
    ) {
        seq![j]
    } else {
        seq![]
    }));
}

/// A projection shows each field that is asked for, in that order, with the
/// record's own value of it; a field that the record lacks shows as null.
pub proof fn projections_show_the_fields_asked(j: JsonV, fields: Seq<Seq<char>>, i: int)
    requires
        0 <= i < fields.len(),
    ensures
        projected(j, fields).len() == fields.len(),
        projected(j, fields)[i].0 == fields[i],
        resolved(j, fields[i]) is None ==> projected(j, fields)[i].1 == ValV::Null,
        resolved(j, fields[i]) matches Some(JsonV::Str(t)) ==> projected(j, fields)[i].1
            == ValV::Str(t),
        resolved(j, fields[i]) matches Some(JsonV::Int(k)) ==> projected(j, fields)[i].1
            == ValV::Int(k),
        resolved(j, fields[i]) matches Some(JsonV::Bool(b)) ==> projected(j, fields)[i].1
            == ValV::Bool(b),
{
}

/// The alerts shown are those that no acknowledgement hides, in their order.
pub proof fn shown_alerts_are_not_hidden(s: Seq<Json>, w: Watermarks, i: int, k: int)
    requires
        0 <= i <= k < s.len(),
    ensures
        !hidden(s[k].view(), w) ==> shown_from(s, w, i).contains(s[k]),
        forall|a: int|
            0 <= a < shown_from(s, w, i).len() ==> s.contains(#[trigger] shown_from(s, w, i)[a])
                && !hidden(shown_from(s, w, i)[a].view(), w),
    decreases s.len() - i,
{
    let all = shown_from(s, w, i);
    let rest = shown_from(s, w, i + 1);
    if i + 1 < s.len() {
        shown_alerts_are_not_hidden(s, w, i + 1, if k > i {
            k
        } else {
            i + 1
        });
    } else {
        assert(rest =~= Seq::<Json>::empty());
    }
    if !hidden(s[i].view(), w) {
        assert(all == seq![s[i]] + rest);
        assert(all[0] == s[i]);
    }
    if k > i && !hidden(s[k].view(), w) {
        let a = choose|a: int| 0 <= a < rest.len() && rest[a] == s[k];
        if hidden(s[i].view(), w) {
            assert(all[a] == s[k]);
        } else {
            assert(all[a + 1] == s[k]);
        }
    }
    assert forall|a: int| 0 <= a < all.len() implies s.contains(#[trigger] all[a]) && !hidden(
        all[a].view(),
        w,
    ) by {
        if hidden(s[i].view(), w) {
            assert(all[a] == rest[a]);
        } else if a == 0 {
            assert(all[a] == s[i]);
        } else {
            assert(all[a] == rest[a - 1]);
        }
    }
}

/// The watermark of a rule is its latest acknowledgement.
pub proof fn watermark_is_the_latest(ls: Seq<Seq<char>>, rule: Seq<char>, n: int, i: int, ts: int)
    requires
        0 <= i < n <= ls.len(),
        ack_in(ls[i]) == Some((rule, ts)),
    ensures
        watermark(ls, rule, n) matches Some(m) && m >= ts,
        watermark(ls, rule, n) matches Some(m) ==> exists|k: int|
            0 <= k < n && ack_in(#[trigger] ls[k]) == Some((rule, m)),
    decreases n,
{
    lemma_watermark_is_an_ack(ls, rule, n);
    if i < n - 1 {
        watermark_is_the_latest(ls, rule, n - 1, i, ts);
    }
}

proof fn lemma_watermark_is_an_ack(ls: Seq<Seq<char>>, rule: Seq<char>, n: int)
    requires
        0 <= n <= ls.len(),
    ensures
        watermark(ls, rule, n) matches Some(m) ==> exists|k: int|
            0 <= k < n && ack_in(#[trigger] ls[k]) == Some((rule, m)),
    decreases n,
{
    if n > 0 {
        lemma_watermark_is_an_ack(ls, rule, n - 1);
        if let Some(m) = watermark(ls, rule, n) {
            if ack_in(ls[n - 1]) == Some((rule, m)) {
                assert(exists|k: int| 0 <= k < n && ack_in(#[trigger] ls[k]) == Some((rule, m)));
            } else {
                assert(watermark(ls, rule, n - 1) == Some(m));
            }
        }
    }
}

/// A line of the log stays exactly if it does not say that it is older than the
/// cutoff; what cannot be read stays.
pub proof fn old_acknowledgements_go(line: Seq<char>, cutoff: int)
    ensures
        line_stays(line, cutoff) <==> !(parsed_json(line) matches Some(j) && int_member(
            j,
            "timestamp"@,
        ) matches Some(ts) && ts < cutoff),
{
}

/// The lines kept are those that stay, in their order, and the others are the
/// ones that count as dropped; blank lines count as neither.
pub proof fn lines_are_kept_or_dropped(ls: Seq<Seq<char>>, cutoff: int, line: Seq<char>)
    ensures
        ({
            let n = ls.len() as int;
            let stays = line.len() > 0 && line_stays(line, cutoff);
            let goes = line.len() > 0 && !line_stays(line, cutoff);
            &&& lines_kept(ls.push(line), cutoff, n + 1) == lines_kept(ls, cutoff, n) + (if stays {
                seq![line]
            } else {
                seq![]
            })
            &&& lines_dropped(ls.push(line), cutoff, n + 1) == lines_dropped(ls, cutoff, n) + (
            if goes {
                1int
            } else {
                0
            })
        }),
{
    let n = ls.len() as int;
    lemma_kept_front(ls.push(line), ls, cutoff, n);
    assert(ls.push(line)[n] == line);
    assert(lines_kept(ls.push(line), cutoff, n + 1) =~= lines_kept(ls, cutoff, n) + (if line.len()
        > 0 && line_stays(line, cutoff) {
        seq![line]
    } else {
        seq![]
    }));
}

proof fn lemma_kept_front(a: Seq<Seq<char>>, b: Seq<Seq<char>>, cutoff: int, n: int)
    requires
        0 <= n <= a.len(),
        n <= b.len(),
        forall|i: int| 0 <= i < n ==> a[i] == b[i],
    ensures
        lines_kept(a, cutoff, n) == lines_kept(b, cutoff, n),
        lines_dropped(a, cutoff, n) == lines_dropped(b, cutoff, n),
    decreases n,
{
    if n > 0 {
        lemma_kept_front(a, b, cutoff, n - 1);
    }
}

// ── Addresses ────────────────────────────────────────────────────────────────

proof fn lemma_dec_has_no(n: nat, c: char)
    requires
        !is_digit(c),
    ensures
        !dec(n).contains(c),
{
    read_dec(n);
    if dec(n).contains(c) {
        let i = choose|i: int| 0 <= i < dec(n).len() && dec(n)[i] == c;
        assert(is_digit(dec(n)[i]));
    }
}

/// An address of four numbers stands for them, the first counting most.
pub proof fn addresses_have_four_numbers(a: nat, b: nat, c: nat, d: nat)
    requires
        a < 256,
        b < 256,
        c < 256,
        d < 256,
    ensures
        ipv4_value(
            dec(a) + (seq!['.'] + (dec(b) + (seq!['.'] + (dec(c) + (seq!['.'] + dec(d)))))),
        ) == Some(((a * 256 + b) * 256 + c) * 256 + d as int),
{
    lemma_dec_has_no(a, '.');
    lemma_dec_has_no(b, '.');
    lemma_dec_has_no(c, '.');
    lemma_dec_has_no(d, '.');
    read_dec(a);
    read_dec(b);
    read_dec(c);
    read_dec(d);
    let r2 = dec(c) + (seq!['.'] + dec(d));
    let r1 = dec(b) + (seq!['.'] + r2);
    split_front(dec(a), '.', r1);
    split_front(dec(b), '.', r2);
    split_front(dec(c), '.', dec(d));
    split_whole(dec(d), '.');
    let s = dec(a) + (seq!['.'] + r1);
    assert(split(s, '.') =~= seq![dec(a), dec(b), dec(c), dec(d)]);
}

/// A network that begins at a multiple of its size holds the addresses from
/// there on, as many as its size.
pub proof fn networks_are_ranges(a: int, n: int, p: int)
    requires
        0 <= a,
        0 <= n,
        0 <= p <= 32,
        n % (pow2((32 - p) as nat) as int) == 0,
    ensures
        same_network(a, n, p) <==> n <= a < n + pow2((32 - p) as nat),
{
    let m = pow2((32 - p) as nat) as int;
    vstd::arithmetic::power2::lemma_pow2_pos((32 - p) as nat);
    let q = n / m;
    assert(n == q * m) by (nonlinear_arith)
        requires
            m > 0,
            q == n / m,
            n % m == 0,
    ;
    let k = a / m;
    assert(k * m <= a < k * m + m) by (nonlinear_arith)
        requires
            m > 0,
            k == a / m,
    ;
    if k != q {
        if k < q {
            assert(k * m + m <= q * m) by (nonlinear_arith)
                requires
                    m > 0,
                    k + 1 <= q,
            ;
        } else {
            assert(q * m + m <= k * m) by (nonlinear_arith)
                requires
                    m > 0,
                    q + 1 <= k,
            ;
        }
    }
}

/// An address lies in the network of its own that a prefix gives, and one that
/// is no address lies in none.
pub proof fn addresses_lie_in_their_own_network(ip: Seq<char>, other: Seq<char>, p: nat)
    requires
        ipv4_value(ip) is Some,
        !ip.contains('/') && !ip.contains(':'),
        p <= 32,
    ensures
        cidr_answer(ip + (seq!['/'] + dec(p)), ip) == Ok::<bool, Seq<char>>(true),
        ipv4_value(other) is None ==> cidr_answer(ip + (seq!['/'] + dec(p)), other) == Ok::<
            bool,
            Seq<char>,
        >(false),
        ipv4_value(other) is Some ==> cidr_answer(ip + (seq!['/'] + dec(p)), other) == Ok::<
            bool,
            Seq<char>,
        >(same_network(ipv4_value(other)->0, ipv4_value(ip)->0, p as int)),
{
    let s = ip + (seq!['/'] + dec(p));
    let n = ip.len() as int;
    char_from_is_first(s, '/', 0);
    assert(s[n] == '/');
    assert(char_from(s, '/', 0) == Some(n)) by {
        let k = char_from(s, '/', 0)->0;
        if k < n {
            assert(s[k] == ip[k]);
        }
    }
    assert(s.subrange(0, n) =~= ip);
    assert(s.subrange(n + 1, s.len() as int) =~= dec(p));
    read_dec(p);
    lemma_dec_has_no(p, ':');
    char_from_is_first(s, ':', 0);
    if let Some(k) = char_from(s, ':', 0) {
        if k < n {
            assert(s[k] == ip[k]);
        } else if k > n {
            assert(s[k] == dec(p)[k - n - 1]);
        }
    }
}

/// A bucket is read exactly if its hour is not before the earliest one asked for
/// and not after the latest; one whose name gives no hour is always read.
pub proof fn buckets_are_read_in_range(
    name: Seq<char>,
    b: HourBucket,
    after: HourBucket,
    before: HourBucket,
)
    requires
        hour_in_filename(name) == Some(b),
        b.on_calendar(),
        after.on_calendar(),
        before.on_calendar(),
    ensures
        is_pruned(name, Some(after), Some(before)) == !(after.number() <= b.number()
            <= before.number()),
        is_pruned(name, Some(after), None) == !(after.number() <= b.number()),
        is_pruned(name, None, Some(before)) == !(b.number() <= before.number()),
        !is_pruned(name, None, None),
{
    hours_in_order(b, after);
    hours_in_order(before, b);
}

/// A bucket whose name gives no hour is read whatever is asked for.
pub proof fn unnamed_buckets_are_read(
    name: Seq<char>,
    after: Option<HourBucket>,
    before: Option<HourBucket>,
)
    requires
        hour_in_filename(name) is None,
    ensures
        !is_pruned(name, after, before),
{
}

/// A raw search finds a line exactly if the text stands in it, and every line
/// without a text.
pub proof fn raw_search_finds_the_text(a: Seq<char>, needle: Seq<char>, b: Seq<char>)
    ensures
        is_raw_hit(a + needle + b, Some(needle)),
        is_raw_hit(a, None),
        is_raw_hit(a, Some(needle)) ==> exists|x: Seq<char>, y: Seq<char>|
            a == #[trigger] (x + needle + y),
{
    let s = a + needle + b;
    let p = a.len() as int;
    assert(s.subrange(p, p + needle.len()) =~= needle);
    assert(occurs_at(s, needle, p));
    if is_raw_hit(a, Some(needle)) {
        let i = choose|i: int| #[trigger] occurs_at(a, needle, i);
        let x = a.take(i);
        let y = a.skip(i + needle.len());
        assert(a =~= x + needle + y) by {
            assert(a.subrange(i, i + needle.len()) == needle);
            assert(a =~= x + a.subrange(i, i + needle.len()) + y);
        }
    }
}

/// A missing index is told apart from a failing one by what the message says.
pub proof fn absence_is_told_by_the_message(a: Seq<char>, b: Seq<char>)
    ensures
        means_absence(a + "no such column"@ + b),
        means_absence(a + "no such table"@ + b),
{
    let p = a.len() as int;
    let s = a + "no such column"@ + b;
    let t = a + "no such table"@ + b;
    assert(s.subrange(p, p + "no such column"@.len()) =~= "no such column"@);
    assert(occurs_at(s, "no such column"@, p));
    assert(t.subrange(p, p + "no such table"@.len()) =~= "no such table"@);
    assert(occurs_at(t, "no such table"@, p));
}

/// A member of an object is found by its name; of what is no object there is
/// none.
pub proof fn members_are_found_by_name(e: Seq<(Seq<char>, JsonV)>, i: int, key: Seq<char>)
    requires
        0 <= i < e.len(),
        forall|k: int| 0 <= k < i ==> (#[trigger] e[k]).0 != e[i].0,
    ensures
        member(JsonV::Object(e), e[i].0) == Some(e[i].1),
        (forall|k: int| 0 <= k < e.len() ==> (#[trigger] e[k]).0 != key) ==> member(
            JsonV::Object(e),
            key,
        ) is None,
        member(JsonV::Null, key) is None,
{
    lemma_entry_at(e, i);
    if forall|k: int| 0 <= k < e.len() ==> (#[trigger] e[k]).0 != key {
        lemma_no_entry(e, key);
    }
}

proof fn lemma_entry_at(e: Seq<(Seq<char>, JsonV)>, i: int)
    requires
        0 <= i < e.len(),
        forall|k: int| 0 <= k < i ==> (#[trigger] e[k]).0 != e[i].0,
    ensures
        entry(e, e[i].0) == Some(e[i].1),
    decreases e.len(),
{
    if i > 0 {
        let rest = e.skip(1);
        assert(e[0].0 != e[i].0);
        assert forall|k: int| 0 <= k < i - 1 implies (#[trigger] rest[k]).0 != rest[i - 1].0 by {
            assert(rest[k] == e[k + 1]);
        }
        lemma_entry_at(rest, i - 1);
    }
}

proof fn lemma_no_entry(e: Seq<(Seq<char>, JsonV)>, key: Seq<char>)
    requires
        forall|k: int| 0 <= k < e.len() ==> (#[trigger] e[k]).0 != key,
    ensures
        entry(e, key) is None,
    decreases e.len(),
{
    if e.len() > 0 {
        let rest = e.skip(1);
        assert(e[0].0 != key);
        assert forall|k: int| 0 <= k < rest.len() implies (#[trigger] rest[k]).0 != key by {
            assert(rest[k] == e[k + 1]);
        }
        lemma_no_entry(rest, key);
    }
}

/// A member is read as a text, a number or a truth value exactly if it is one.
pub proof fn members_are_read_as_what_they_are(
    j: JsonV,
    key: Seq<char>,
    s: Seq<char>,
    n: int,
    b: bool,
)
    ensures
        text_member(j, key) == Some(s) <==> member(j, key) == Some(JsonV::Str(s)),
        int_member(j, key) == Some(n) <==> member(j, key) == Some(JsonV::Int(n)),
        bool_member(j, key) == Some(b) <==> member(j, key) == Some(JsonV::Bool(b)),
{
}

/// A field that is asked for and that a record lacks shows as null in an object,
/// and as nothing in a table.
pub proof fn missing_fields_show_as_null(rec: RecordV, f: Seq<char>)
    requires
        forall|i: int| 0 <= i < rec.len() ==> (#[trigger] rec[i]).0 != f,
    ensures
        json_pairs(Some(seq![f]), rec) == seq![json_pair(f, ValV::Null)],
        row_cells(seq![f], rec) == seq![Seq::<char>::empty()],
{
    lemma_no_field(rec, f);
    assert(json_pairs(Some(seq![f]), rec) =~= seq![json_pair(f, ValV::Null)]);
    assert(row_cells(seq![f], rec) =~= seq![Seq::<char>::empty()]);
}

proof fn lemma_no_field(rec: RecordV, f: Seq<char>)
    requires
        forall|i: int| 0 <= i < rec.len() ==> (#[trigger] rec[i]).0 != f,
    ensures
        field_value(rec, f) is None,
    decreases rec.len(),
{
    if rec.len() > 0 {
        let rest = rec.skip(1);
        assert(rec[0].0 != f);
        assert forall|i: int| 0 <= i < rest.len() implies (#[trigger] rest[i]).0 != f by {
            assert(rest[i] == rec[i + 1]);
        }
        lemma_no_field(rest, f);
    }
}

} // verus!
