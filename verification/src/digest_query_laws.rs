//! What the statements of a digest choose and count.
use vstd::prelude::*;

use crate::digest_query::{
    and_filter, blocked, by_source, extreme_sql, failed_logins, firewall_changes, group_sql, let_in,
    logins, minute_sql, outbound, outbound_to, rows_sql, severe, sudo_commands, transitions,
    transitions_of, Extreme, SelectionV,
};
use crate::number::dec;
use crate::order::text_lt;
use crate::query_parser::sql_ident;
use crate::sql::{
    both, bound_to, counted, group_of_event, is_about, is_statement, is_text_of, item_text,
    item_texts, marks, number_of, reads_as_written, same_numbers, shown, statement_text, text_of,
    truth, Event, Item, Sql, Statement,
};
use crate::text::joined;

verus! {

/// Whether a column of an event has that text.
pub open spec fn is_in(row: Event, column: Seq<char>, text: Seq<char>) -> bool {
    row.columns.dom().contains(column) && row.columns[column] == text
}

/// Whether the filter of a selection, with its values, is that of a condition.
pub open spec fn filters_by(s: SelectionV, e: Sql) -> bool {
    s.filter matches Some(w) && is_text_of(w, s.params, e)
}

spec fn two(a: Seq<char>, x: Seq<char>, b: Seq<char>, y: Seq<char>) -> Sql {
    Sql::And(Box::new(Sql::Equal(a, x)), Box::new(Sql::Equal(b, y)))
}

proof fn lemma_two(a: Seq<char>, x: Seq<char>, b: Seq<char>, y: Seq<char>)
    requires
        sql_ident(a),
        sql_ident(b),
    ensures
        text_of(two(a, x, b, y)) == a + " = ?"@ + " AND "@ + (b + " = ?"@),
        bound_to(two(a, x, b, y)) == seq![x, y],
        reads_as_written(two(a, x, b, y)),
        forall|row: Event|
            (#[trigger] truth(two(a, x, b, y), row) == Some(true)) == (is_in(row, a, x) && is_in(
                row,
                b,
                y,
            )),
{
    reveal_with_fuel(text_of, 2);
    reveal_with_fuel(bound_to, 2);
    reveal_with_fuel(reads_as_written, 2);
    reveal_with_fuel(truth, 2);
    assert(bound_to(two(a, x, b, y)) =~= seq![x, y]);
}

proof fn lemma_three(e: Sql, c: Seq<char>, z: Seq<char>) -> (s: Sql)
    requires
        sql_ident(c),
        reads_as_written(e),
        !(e is Or),
    ensures
        s == Sql::And(Box::new(e), Box::new(Sql::Equal(c, z))),
        text_of(s) == text_of(e) + " AND "@ + (c + " = ?"@),
        bound_to(s) == bound_to(e).push(z),
        reads_as_written(s),
        forall|row: Event|
            (#[trigger] truth(s, row) == Some(true)) == (truth(e, row) == Some(true) && is_in(
                row,
                c,
                z,
            )),
{
    let b = Sql::Equal(c, z);
    lemma_and(e, b);
    let s = Sql::And(Box::new(e), Box::new(b));
    assert(bound_to(s) =~= bound_to(e).push(z));
    assert forall|row: Event| (#[trigger] truth(s, row) == Some(true)) == (truth(e, row) == Some(
        true,
    ) && is_in(row, c, z)) by {
        assert((truth(b, row) == Some(true)) == is_in(row, c, z));
    }
    s
}

proof fn lemma_and(a: Sql, b: Sql)
    ensures
        ({
            let s = Sql::And(Box::new(a), Box::new(b));
            &&& text_of(s) == text_of(a) + " AND "@ + text_of(b)
            &&& bound_to(s) == bound_to(a) + bound_to(b)
            &&& reads_as_written(a) && reads_as_written(b) && !(a is Or) && !(b is Or)
                ==> reads_as_written(s)
            &&& forall|row: Event|
                (#[trigger] truth(s, row) == Some(true)) == (truth(a, row) == Some(true) && truth(
                    b,
                    row,
                ) == Some(true))
        }),
{
    let s = Sql::And(Box::new(a), Box::new(b));
    assert(text_of(s) == text_of(a) + " AND "@ + text_of(b));
    assert(bound_to(s) == bound_to(a) + bound_to(b));
    assert forall|row: Event| (#[trigger] truth(s, row) == Some(true)) == (truth(a, row) == Some(
        true,
    ) && truth(b, row) == Some(true)) by {
        assert(truth(s, row) == both(truth(a, row), truth(b, row)));
        lemma_both(truth(a, row), truth(b, row));
    }
}

proof fn lemma_both(x: Option<bool>, y: Option<bool>)
    ensures
        (both(x, y) == Some(true)) == (x == Some(true) && y == Some(true)),
{
    match (x, y) {
        (Some(a), Some(b)) => {
            if a && b {
                assert(x == Some(true) && y == Some(true));
            } else if !a {
                assert(x == Some(false));
            } else {
                assert(y == Some(false));
            }
        },
        _ => {},
    }
}

proof fn lemma_names()
    ensures
        sql_ident("_source_type"@),
        sql_ident("action"@),
        sql_ident("interface"@),
        sql_ident("direction"@),
        sql_ident("dst_ip"@),
        sql_ident("event_type"@),
        sql_ident("unit"@),
        sql_ident("severity"@),
        sql_ident("raw_file"@),
{
    reveal_strlit("_source_type");
    reveal_strlit("action");
    reveal_strlit("interface");
    reveal_strlit("direction");
    reveal_strlit("dst_ip");
    reveal_strlit("event_type");
    reveal_strlit("unit");
    reveal_strlit("severity");
    reveal_strlit("raw_file");
}

/// Blocks are the firewall's events with the action `BLOCK`.
pub proof fn blocks_are_blocked(columns: Seq<Seq<char>>) -> (e: Sql)
    ensures
        filters_by(blocked(columns), e),
        blocked(columns).columns == columns,
        forall|row: Event|
            (#[trigger] truth(e, row) == Some(true)) == (is_in(row, "_source_type"@, "filterlog"@)
                && is_in(row, "action"@, "BLOCK"@)),
{
    lemma_names();
    lemma_two("_source_type"@, "filterlog"@, "action"@, "BLOCK"@);
    assert("_source_type"@ + " = ?"@ + " AND "@ + ("action"@ + " = ?"@)
        =~= "_source_type = ? AND action = ?"@) by {
        reveal_strlit("_source_type");
        reveal_strlit(" = ?");
        reveal_strlit(" AND ");
        reveal_strlit("action");
        reveal_strlit("_source_type = ? AND action = ?");
    }
    two("_source_type"@, "filterlog"@, "action"@, "BLOCK"@)
}

/// What was let in are the firewall's events with the action `ALLOW` on the
/// interface.
pub proof fn let_in_was_allowed(interface: Seq<char>) -> (e: Sql)
    ensures
        filters_by(let_in(interface), e),
        let_in(interface).columns == seq!["src_ip"@, "dst_ip"@, "dst_port"@],
        forall|row: Event|
            (#[trigger] truth(e, row) == Some(true)) == (is_in(row, "_source_type"@, "filterlog"@)
                && is_in(row, "action"@, "ALLOW"@) && is_in(row, "interface"@, interface)),
{
    lemma_names();
    let a = two("_source_type"@, "filterlog"@, "action"@, "ALLOW"@);
    lemma_two("_source_type"@, "filterlog"@, "action"@, "ALLOW"@);
    let e = lemma_three(a, "interface"@, interface);
    assert("_source_type"@ + " = ?"@ + " AND "@ + ("action"@ + " = ?"@) + " AND "@ + ("interface"@
        + " = ?"@) =~= "_source_type = ? AND action = ? AND interface = ?"@) by {
        reveal_strlit("_source_type");
        reveal_strlit(" = ?");
        reveal_strlit(" AND ");
        reveal_strlit("action");
        reveal_strlit("interface");
        reveal_strlit("_source_type = ? AND action = ? AND interface = ?");
    }
    assert(bound_to(e) =~= let_in(interface).params);
    e
}

/// What went out are the firewall's events with the direction `out`.
pub proof fn outbound_went_out(columns: Seq<Seq<char>>) -> (e: Sql)
    ensures
        filters_by(outbound(columns), e),
        outbound(columns).columns == columns,
        forall|row: Event|
            (#[trigger] truth(e, row) == Some(true)) == (is_in(row, "_source_type"@, "filterlog"@)
                && is_in(row, "direction"@, "out"@)),
{
    lemma_names();
    lemma_two("_source_type"@, "filterlog"@, "direction"@, "out"@);
    assert("_source_type"@ + " = ?"@ + " AND "@ + ("direction"@ + " = ?"@)
        =~= "_source_type = ? AND direction = ?"@) by {
        reveal_strlit("_source_type");
        reveal_strlit(" = ?");
        reveal_strlit(" AND ");
        reveal_strlit("direction");
        reveal_strlit("_source_type = ? AND direction = ?");
    }
    two("_source_type"@, "filterlog"@, "direction"@, "out"@)
}

/// What went out to an address are those of them with that destination.
pub proof fn outbound_to_went_there(dst_ip: Seq<char>) -> (e: Sql)
    ensures
        filters_by(outbound_to(dst_ip), e),
        forall|row: Event|
            (#[trigger] truth(e, row) == Some(true)) == (is_in(row, "_source_type"@, "filterlog"@)
                && is_in(row, "direction"@, "out"@) && is_in(row, "dst_ip"@, dst_ip)),
{
    lemma_names();
    let a = two("_source_type"@, "filterlog"@, "direction"@, "out"@);
    lemma_two("_source_type"@, "filterlog"@, "direction"@, "out"@);
    let e = lemma_three(a, "dst_ip"@, dst_ip);
    assert("_source_type"@ + " = ?"@ + " AND "@ + ("direction"@ + " = ?"@) + " AND "@ + ("dst_ip"@
        + " = ?"@) =~= "_source_type = ? AND direction = ? AND dst_ip = ?"@) by {
        reveal_strlit("_source_type");
        reveal_strlit(" = ?");
        reveal_strlit(" AND ");
        reveal_strlit("direction");
        reveal_strlit("dst_ip");
        reveal_strlit("_source_type = ? AND direction = ? AND dst_ip = ?");
    }
    assert(bound_to(e) =~= outbound_to(dst_ip).params);
    e
}

proof fn lemma_one_of(c: Seq<char>, vs: Seq<Seq<char>>)
    requires
        sql_ident(c),
        vs.len() > 0,
    ensures
        bound_to(Sql::OneOf(c, vs)) == vs,
        reads_as_written(Sql::OneOf(c, vs)),
        forall|row: Event|
            (#[trigger] truth(Sql::OneOf(c, vs), row) == Some(true)) == (exists|i: int|
                0 <= i < vs.len() && is_in(row, c, #[trigger] vs[i])),
{
    assert forall|row: Event|
        (#[trigger] truth(Sql::OneOf(c, vs), row) == Some(true)) == (exists|i: int|
            0 <= i < vs.len() && is_in(row, c, #[trigger] vs[i])) by {
        if truth(Sql::OneOf(c, vs), row) == Some(true) {
            let i = choose|i: int| 0 <= i < vs.len() && vs[i] == row.columns[c];
            assert(is_in(row, c, vs[i]));
        }
        if exists|i: int| 0 <= i < vs.len() && is_in(row, c, #[trigger] vs[i]) {
            let i = choose|i: int| 0 <= i < vs.len() && is_in(row, c, #[trigger] vs[i]);
            assert(vs.contains(row.columns[c]));
        }
    }
}

proof fn lemma_four_marks()
    ensures
        marks(4) == "?, ?, ?, ?"@,
        marks(1) == "?"@,
{
    reveal_strlit("?");
    reveal_strlit(", ");
    reveal_strlit("?, ?, ?, ?");
    reveal_with_fuel(joined, 5);
    let m1 = Seq::new(1, |i: int| "?"@);
    let m2 = Seq::new(2, |i: int| "?"@);
    let m3 = Seq::new(3, |i: int| "?"@);
    let m4 = Seq::new(4, |i: int| "?"@);
    assert(m4.drop_last() =~= m3);
    assert(m3.drop_last() =~= m2);
    assert(m2.drop_last() =~= m1);
    assert(joined(m1, ", "@) == "?"@);
    assert(joined(m2, ", "@) =~= "?"@ + ", "@ + "?"@);
    assert(joined(m3, ", "@) =~= "?"@ + ", "@ + "?"@ + ", "@ + "?"@);
    assert(joined(m4, ", "@) =~= "?, ?, ?, ?"@);
}

/// Failed logins are events of one of the four types that say so.
pub proof fn failures_are_failures() -> (e: Sql)
    ensures
        filters_by(failed_logins(), e),
        failed_logins().columns == seq!["src_ip"@, "_source_type"@, "event_type"@],
        forall|row: Event|
            (#[trigger] truth(e, row) == Some(true)) == (is_in(
                row,
                "event_type"@,
                "ssh_auth_failure"@,
            ) || is_in(row, "event_type"@, "ssh_auth_timeout"@) || is_in(
                row,
                "event_type"@,
                "vpn_auth_failure"@,
            ) || is_in(row, "event_type"@, "vpn_tls_error"@)),
{
    lemma_names();
    lemma_four_marks();
    let vs = failed_logins().params;
    let e = Sql::OneOf("event_type"@, vs);
    lemma_one_of("event_type"@, vs);
    assert("event_type"@ + " IN ("@ + "?, ?, ?, ?"@ + ")"@ =~= "event_type IN (?, ?, ?, ?)"@) by {
        reveal_strlit("event_type");
        reveal_strlit(" IN (");
        reveal_strlit("?, ?, ?, ?");
        reveal_strlit(")");
        reveal_strlit("event_type IN (?, ?, ?, ?)");
    }
    assert forall|row: Event| (#[trigger] truth(e, row) == Some(true)) == (is_in(
        row,
        "event_type"@,
        "ssh_auth_failure"@,
    ) || is_in(row, "event_type"@, "ssh_auth_timeout"@) || is_in(
        row,
        "event_type"@,
        "vpn_auth_failure"@,
    ) || is_in(row, "event_type"@, "vpn_tls_error"@)) by {
        assert(vs[0] == "ssh_auth_failure"@ && vs[1] == "ssh_auth_timeout"@ && vs[2]
            == "vpn_auth_failure"@ && vs[3] == "vpn_tls_error"@);
    }
    e
}

/// Logins are the events of the type that says so.
pub proof fn logins_are_logins() -> (e: Sql)
    ensures
        filters_by(logins(), e),
        logins().columns == seq!["raw_file"@, "src_ip"@, "username"@, "_source_type"@],
        forall|row: Event|
            (#[trigger] truth(e, row) == Some(true)) == is_in(
                row,
                "event_type"@,
                "ssh_auth_success"@,
            ),
{
    lemma_names();
    lemma_four_marks();
    let vs = logins().params;
    let e = Sql::OneOf("event_type"@, vs);
    lemma_one_of("event_type"@, vs);
    assert("event_type"@ + " IN ("@ + "?"@ + ")"@ =~= "event_type IN (?)"@) by {
        reveal_strlit("event_type");
        reveal_strlit(" IN (");
        reveal_strlit("?");
        reveal_strlit(")");
        reveal_strlit("event_type IN (?)");
    }
    assert forall|row: Event| (#[trigger] truth(e, row) == Some(true)) == is_in(
        row,
        "event_type"@,
        "ssh_auth_success"@,
    ) by {
        assert(vs[0] == "ssh_auth_success"@);
    }
    e
}

/// Commands run by `sudo` are its events of that type.
pub proof fn sudo_commands_are_commands() -> (e: Sql)
    ensures
        filters_by(sudo_commands(), e),
        sudo_commands().columns == seq!["raw_file"@, "username"@, "target_user"@, "command"@],
        forall|row: Event|
            (#[trigger] truth(e, row) == Some(true)) == (is_in(row, "_source_type"@, "sudo"@)
                && is_in(row, "event_type"@, "sudo_command"@)),
{
    lemma_names();
    lemma_two("_source_type"@, "sudo"@, "event_type"@, "sudo_command"@);
    assert("_source_type"@ + " = ?"@ + " AND "@ + ("event_type"@ + " = ?"@)
        =~= "_source_type = ? AND event_type = ?"@) by {
        reveal_strlit("_source_type");
        reveal_strlit(" = ?");
        reveal_strlit(" AND ");
        reveal_strlit("event_type");
        reveal_strlit("_source_type = ? AND event_type = ?");
    }
    two("_source_type"@, "sudo"@, "event_type"@, "sudo_command"@)
}

/// Changes of the firewall are the events of the type that says so.
pub proof fn firewall_changes_are_changes() -> (e: Sql)
    ensures
        filters_by(firewall_changes(), e),
        firewall_changes().columns == seq![
            "raw_file"@,
            "admin_user"@,
            "src_ip"@,
            "pfsense_page"@,
        ],
        forall|row: Event|
            (#[trigger] truth(e, row) == Some(true)) == is_in(
                row,
                "event_type"@,
                "pfsense_config_change"@,
            ),
{
    lemma_names();
    let e = Sql::Equal("event_type"@, "pfsense_config_change"@);
    assert("event_type"@ + " = ?"@ =~= "event_type = ?"@) by {
        reveal_strlit("event_type");
        reveal_strlit(" = ?");
        reveal_strlit("event_type = ?");
    }
    assert(bound_to(e) =~= firewall_changes().params);
    e
}

/// Whether an event says that a unit started, stopped, is stopping or failed.
pub open spec fn is_transition(row: Event) -> bool {
    is_in(row, "_source_type"@, "systemd"@) && (is_in(row, "event_type"@, "unit_started"@) || is_in(
        row,
        "event_type"@,
        "unit_stopped"@,
    ) || is_in(row, "event_type"@, "unit_stopping"@) || is_in(
        row,
        "event_type"@,
        "unit_failed"@,
    ))
}

/// Transitions are the events of `systemd` of the four types that say so.
pub proof fn transitions_are_transitions() -> (e: Sql)
    ensures
        filters_by(transitions(), e),
        transitions().columns == seq!["unit"@],
        !(e is Or),
        forall|row: Event| (#[trigger] truth(e, row) == Some(true)) == is_transition(row),
{
    lemma_names();
    lemma_four_marks();
    let vs = seq!["unit_started"@, "unit_stopped"@, "unit_stopping"@, "unit_failed"@];
    lemma_one_of("event_type"@, vs);
    let a = Sql::Equal("_source_type"@, "systemd"@);
    let b = Sql::OneOf("event_type"@, vs);
    let e = Sql::And(Box::new(a), Box::new(b));
    reveal_with_fuel(text_of, 2);
    reveal_with_fuel(bound_to, 2);
    reveal_with_fuel(reads_as_written, 2);
    assert(bound_to(e) =~= transitions().params);
    assert(text_of(b) == "event_type"@ + " IN ("@ + "?, ?, ?, ?"@ + ")"@);
    assert("_source_type"@ + " = ?"@ + " AND "@ + ("event_type"@ + " IN ("@ + "?, ?, ?, ?"@ + ")"@)
        =~= "_source_type = ? AND event_type IN (?, ?, ?, ?)"@) by {
        reveal_strlit("_source_type");
        reveal_strlit(" = ?");
        reveal_strlit(" AND ");
        reveal_strlit("event_type");
        reveal_strlit(" IN (");
        reveal_strlit("?, ?, ?, ?");
        reveal_strlit(")");
        reveal_strlit("_source_type = ? AND event_type IN (?, ?, ?, ?)");
    }
    assert forall|row: Event| (#[trigger] truth(e, row) == Some(true)) == is_transition(row) by {
        assert(truth(a, row) == Some(true) <==> is_in(row, "_source_type"@, "systemd"@));
        assert(vs[0] == "unit_started"@ && vs[1] == "unit_stopped"@ && vs[2] == "unit_stopping"@
            && vs[3] == "unit_failed"@);
        assert((truth(b, row) == Some(true)) == (exists|i: int|
            0 <= i < vs.len() && is_in(row, "event_type"@, #[trigger] vs[i])));
    }
    e
}

/// The transitions of a unit are those of them that name it.
pub proof fn transitions_of_are_of_the_unit(unit: Seq<char>) -> (e: Sql)
    ensures
        filters_by(transitions_of(unit), e),
        forall|row: Event|
            (#[trigger] truth(e, row) == Some(true)) == (is_transition(row) && is_in(
                row,
                "unit"@,
                unit,
            )),
{
    lemma_names();
    let a = transitions_are_transitions();
    let e = lemma_three(a, "unit"@, unit);
    assert("_source_type = ? AND event_type IN (?, ?, ?, ?)"@ + " AND "@ + ("unit"@ + " = ?"@)
        =~= "_source_type = ? AND event_type IN (?, ?, ?, ?) AND unit = ?"@) by {
        reveal_strlit("_source_type = ? AND event_type IN (?, ?, ?, ?)");
        reveal_strlit(" = ?");
        reveal_strlit(" AND ");
        reveal_strlit("unit");
        reveal_strlit("_source_type = ? AND event_type IN (?, ?, ?, ?) AND unit = ?");
    }
    assert forall|row: Event| (#[trigger] truth(e, row) == Some(true)) == (is_transition(row)
        && is_in(row, "unit"@, unit)) by {
        assert((truth(a, row) == Some(true)) == is_transition(row));
    }
    e
}

/// Severe events are the critical ones and the emergencies.
pub proof fn severe_events_are_severe() -> (e: Sql)
    ensures
        filters_by(severe(), e),
        severe().columns == seq!["raw_file"@, "_source_type"@, "event_type"@, "severity"@],
        forall|row: Event|
            (#[trigger] truth(e, row) == Some(true)) == (is_in(row, "severity"@, "critical"@)
                || is_in(row, "severity"@, "emergency"@)),
{
    lemma_names();
    let a = Sql::Equal("severity"@, "critical"@);
    let b = Sql::Equal("severity"@, "emergency"@);
    let e = Sql::Or(Box::new(a), Box::new(b));
    reveal_with_fuel(text_of, 2);
    reveal_with_fuel(bound_to, 2);
    reveal_with_fuel(reads_as_written, 2);
    reveal_with_fuel(truth, 2);
    assert(bound_to(e) =~= severe().params);
    assert("severity"@ + " = ?"@ + " OR "@ + ("severity"@ + " = ?"@)
        =~= "severity = ? OR severity = ?"@) by {
        reveal_strlit("severity");
        reveal_strlit(" = ?");
        reveal_strlit(" OR ");
        reveal_strlit("severity = ? OR severity = ?");
    }
    e
}

// ── The window ───────────────────────────────────────────────────────────────

/// Whether an event's raw file lies from `lo` on and before `hi`.
pub open spec fn is_between(row: Event, lo: Seq<char>, hi: Seq<char>) -> bool {
    row.columns.dom().contains("raw_file"@) && !text_lt(row.columns["raw_file"@], lo) && text_lt(
        row.columns["raw_file"@],
        hi,
    )
}

spec fn window_filter(lo: Seq<char>, hi: Seq<char>, e: Option<Sql>) -> Sql {
    let w = Sql::And(
        Box::new(Sql::AtLeast("raw_file"@, lo)),
        Box::new(Sql::Below("raw_file"@, hi)),
    );
    match e {
        Some(x) => Sql::And(Box::new(w), Box::new(Sql::Enclosed(Box::new(x)))),
        None => w,
    }
}

proof fn lemma_window_filter(lo: Seq<char>, hi: Seq<char>, s: SelectionV, e: Option<Sql>)
    requires
        match e {
            Some(x) => filters_by(s, x),
            None => s.filter is None && s.params.len() == 0,
        },
    ensures
        ({
            let f = window_filter(lo, hi, e);
            &&& reads_as_written(f)
            &&& text_of(f) == "raw_file >= ? AND raw_file < ?"@ + and_filter(s.filter)
            &&& bound_to(f) == seq![lo, hi] + s.params
            &&& forall|row: Event|
                (#[trigger] truth(f, row) == Some(true)) == (is_between(row, lo, hi) && (e matches
                Some(x) ==> truth(x, row) == Some(true)))
        }),
{
    lemma_names();
    let f = window_filter(lo, hi, e);
    let w = window_filter(lo, hi, None);
    let from = Sql::AtLeast("raw_file"@, lo);
    let to = Sql::Below("raw_file"@, hi);
    lemma_and(from, to);
    assert(text_of(w) =~= "raw_file >= ? AND raw_file < ?"@) by {
        reveal_strlit("raw_file");
        reveal_strlit(" >= ?");
        reveal_strlit(" AND ");
        reveal_strlit(" < ?");
        reveal_strlit("raw_file >= ? AND raw_file < ?");
        assert(text_of(w) == "raw_file"@ + " >= ?"@ + " AND "@ + ("raw_file"@ + " < ?"@));
    }
    assert(bound_to(w) =~= seq![lo, hi]);
    assert forall|row: Event| (#[trigger] truth(w, row) == Some(true)) == is_between(row, lo, hi) by {
        assert((truth(from, row) == Some(true)) == (row.columns.dom().contains("raw_file"@)
            && !text_lt(row.columns["raw_file"@], lo)));
        assert((truth(to, row) == Some(true)) == (row.columns.dom().contains("raw_file"@)
            && text_lt(row.columns["raw_file"@], hi)));
    }
    match e {
        Some(x) => {
            let t = text_of(x);
            let y = Sql::Enclosed(Box::new(x));
            lemma_and(w, y);
            assert(text_of(y) == "("@ + t + ")"@);
            assert(bound_to(y) == bound_to(x));
            assert(" AND "@ + "("@ =~= " AND ("@) by {
                reveal_strlit(" AND ");
                reveal_strlit("(");
                reveal_strlit(" AND (");
            }
            assert(text_of(w) + " AND "@ + ("("@ + t + ")"@) =~= text_of(w) + ((" AND "@ + "("@) + t
                + ")"@));
            assert forall|row: Event| (#[trigger] truth(f, row) == Some(true)) == (is_between(
                row,
                lo,
                hi,
            ) && truth(x, row) == Some(true)) by {
                assert(truth(y, row) == truth(x, row));
                assert((truth(w, row) == Some(true)) == is_between(row, lo, hi));
            }
        },
        None => {
            assert(text_of(w) + and_filter(s.filter) =~= text_of(w));
            assert(seq![lo, hi] + s.params =~= seq![lo, hi]);
        },
    }
}

spec fn columns(fields: Seq<Seq<char>>) -> Seq<Item> {
    fields.map_values(|f: Seq<char>| Item::Column(f))
}

proof fn lemma_group_text(s: SelectionV)
    requires
        s.columns.len() > 0,
    ensures
        item_texts(columns(s.columns)) == s.columns,
        "SELECT "@ + joined(item_texts(columns(s.columns).push(Item::Count)), ", "@)
            + " FROM events"@ + (" WHERE "@ + ("raw_file >= ? AND raw_file < ?"@ + and_filter(
            s.filter,
        ))) + (" GROUP BY "@ + joined(s.columns, ", "@)) + ""@ + ""@ == group_sql(s),
{
    let v = s.columns;
    let j = joined(v, ", "@);
    assert(item_texts(columns(v)) =~= v);
    let a = item_texts(columns(v).push(Item::Count));
    assert(a.drop_last() =~= v);
    assert(a.last() == "COUNT(*)"@);
    assert(joined(a, ", "@) == j + ", "@ + "COUNT(*)"@);
    let w = "raw_file >= ? AND raw_file < ?"@;
    let x = and_filter(s.filter);
    assert(", "@ + "COUNT(*)"@ + " FROM events"@ + " WHERE "@ + w
        =~= ", COUNT(*) FROM events WHERE raw_file >= ? AND raw_file < ?"@) by {
        reveal_strlit(", ");
        reveal_strlit("COUNT(*)");
        reveal_strlit(" FROM events");
        reveal_strlit(" WHERE ");
        reveal_strlit("raw_file >= ? AND raw_file < ?");
        reveal_strlit(", COUNT(*) FROM events WHERE raw_file >= ? AND raw_file < ?");
    }
    reveal_strlit("");
    assert("SELECT "@ + (j + ", "@ + "COUNT(*)"@) + " FROM events"@ + (" WHERE "@ + (w + x)) + (
    " GROUP BY "@ + j) + ""@ + ""@ =~= "SELECT "@ + j + (", "@ + "COUNT(*)"@ + " FROM events"@
        + " WHERE "@ + w) + x + " GROUP BY "@ + j);
}

/// A selection counts, for each combination of values of its columns, the events
/// of the window that its filter chooses.
pub proof fn selections_count_in_the_window(
    s: SelectionV,
    e: Option<Sql>,
    lo: Seq<char>,
    hi: Seq<char>,
    rows: Seq<Event>,
) -> (t: Statement)
    requires
        match e {
            Some(x) => filters_by(s, x),
            None => s.filter is None && s.params.len() == 0,
        },
        s.columns.len() > 0,
        forall|k: int| 0 <= k < s.columns.len() ==> sql_ident(#[trigger] s.columns[k]),
    ensures
        is_statement(group_sql(s), seq![lo, hi] + s.params, t),
        t.limit is None,
        t.groups.len() == s.columns.len(),
        t.items.len() == s.columns.len() + 1,
        t.items.last() == Item::Count,
        forall|k: int|
            0 <= k < s.columns.len() ==> #[trigger] t.items[k] == Item::Column(s.columns[k])
                && t.groups[k] == Item::Column(s.columns[k]),
        forall|g: Seq<Seq<char>>|
            #[trigger] counted(t, rows, g) == number_of(
                rows,
                |row: Event|
                    is_between(row, lo, hi) && (e matches Some(x) ==> truth(x, row) == Some(true))
                        && g == s.columns.map_values(|f: Seq<char>| shown(row, f)),
                rows.len() as int,
            ),
{
    let f = window_filter(lo, hi, e);
    lemma_window_filter(lo, hi, s, e);
    let v = s.columns;
    let t = Statement {
        items: columns(v).push(Item::Count),
        filter: Some(f),
        groups: columns(v),
        by_count: false,
        limit: None,
    };
    lemma_group_text(s);
    assert(item_texts(t.items) == item_texts(columns(v).push(Item::Count)));
    assert(statement_text(t) == group_sql(s));
    assert forall|g: Seq<Seq<char>>| #[trigger] counted(t, rows, g) == number_of(
        rows,
        |row: Event|
            is_between(row, lo, hi) && (e matches Some(x) ==> truth(x, row) == Some(true)) && g
                == s.columns.map_values(|f: Seq<char>| shown(row, f)),
        rows.len() as int,
    ) by {
        assert forall|i: int| 0 <= i < rows.len() implies #[trigger] group_of_event(
            rows[i],
            t.groups,
        ) == v.map_values(|f: Seq<char>| shown(rows[i], f)) by {
            assert(group_of_event(rows[i], t.groups) =~= v.map_values(
                |f: Seq<char>| shown(rows[i], f),
            ));
        }
        same_numbers(
            rows,
            |row: Event| is_about(t, row) && group_of_event(row, t.groups) == g,
            |row: Event|
                is_between(row, lo, hi) && (e matches Some(x) ==> truth(x, row) == Some(true)) && g
                    == s.columns.map_values(|f: Seq<char>| shown(row, f)),
            rows.len() as int,
        );
    }
    t
}

/// A selection's rows are its columns of the events of the window that its
/// filter chooses, all of them.
pub proof fn selections_read_in_the_window(
    s: SelectionV,
    e: Option<Sql>,
    lo: Seq<char>,
    hi: Seq<char>,
) -> (t: Statement)
    requires
        match e {
            Some(x) => filters_by(s, x),
            None => s.filter is None && s.params.len() == 0,
        },
        forall|k: int| 0 <= k < s.columns.len() ==> sql_ident(#[trigger] s.columns[k]),
    ensures
        is_statement(rows_sql(s), seq![lo, hi] + s.params, t),
        t.limit is None,
        t.groups.len() == 0,
        t.items.len() == s.columns.len(),
        forall|k: int|
            0 <= k < s.columns.len() ==> #[trigger] t.items[k] == Item::Column(s.columns[k]),
        forall|row: Event|
            #[trigger] is_about(t, row) == (is_between(row, lo, hi) && (e matches Some(x) ==> truth(
                x,
                row,
            ) == Some(true))),
{
    let f = window_filter(lo, hi, e);
    lemma_window_filter(lo, hi, s, e);
    let v = s.columns;
    let t = Statement {
        items: columns(v),
        filter: Some(f),
        groups: seq![],
        by_count: false,
        limit: None,
    };
    let j = joined(v, ", "@);
    assert(item_texts(columns(v)) =~= v);
    let w = "raw_file >= ? AND raw_file < ?"@;
    let x = and_filter(s.filter);
    assert(" FROM events"@ + " WHERE "@ + w
        =~= " FROM events WHERE raw_file >= ? AND raw_file < ?"@) by {
        reveal_strlit(" FROM events");
        reveal_strlit(" WHERE ");
        reveal_strlit("raw_file >= ? AND raw_file < ?");
        reveal_strlit(" FROM events WHERE raw_file >= ? AND raw_file < ?");
    }
    reveal_strlit("");
    assert("SELECT "@ + j + " FROM events"@ + (" WHERE "@ + (w + x)) + ""@ + ""@ + ""@
        =~= "SELECT "@ + j + (" FROM events"@ + " WHERE "@ + w) + x);
    assert(statement_text(t) == rows_sql(s));
    t
}

/// The minutes of a selection are the fronts of the names of its raw files, as
/// long as a name's front is up to the minute, with the number of its events.
pub proof fn minutes_count_in_the_window(
    s: SelectionV,
    e: Option<Sql>,
    lo: Seq<char>,
    hi: Seq<char>,
    rows: Seq<Event>,
) -> (t: Statement)
    requires
        match e {
            Some(x) => filters_by(s, x),
            None => s.filter is None && s.params.len() == 0,
        },
    ensures
        is_statement(minute_sql(s), seq![lo, hi] + s.params, t),
        t.limit is None,
        t.items == seq![Item::Front("raw_file"@, 20), Item::Count],
        forall|name: Seq<char>|
            name.len() >= 20 ==> #[trigger] counted(t, rows, seq![name.take(20)]) == number_of(
                rows,
                |row: Event|
                    is_between(row, lo, hi) && (e matches Some(x) ==> truth(x, row) == Some(true))
                        && shown(row, "raw_file"@).len() >= 20 && shown(row, "raw_file"@).take(20)
                        == name.take(20),
                rows.len() as int,
            ),
{
    lemma_names();
    let f = window_filter(lo, hi, e);
    lemma_window_filter(lo, hi, s, e);
    let front = Item::Front("raw_file"@, 20);
    let t = Statement {
        items: seq![front, Item::Count],
        filter: Some(f),
        groups: seq![front],
        by_count: false,
        limit: None,
    };
    let j = item_text(front);
    assert(j =~= "substr(raw_file, 1, 20)"@) by {
        reveal_with_fuel(dec, 3);
        reveal_strlit("substr(");
        reveal_strlit("raw_file");
        reveal_strlit(", 1, ");
        reveal_strlit(")");
        reveal_strlit("substr(raw_file, 1, 20)");
        assert(dec(20) =~= seq!['2', '0']);
    }
    let a = item_texts(t.items);
    assert(a =~= seq![j, "COUNT(*)"@]);
    assert(a.drop_last() =~= seq![j]);
    reveal_with_fuel(joined, 3);
    assert(joined(a, ", "@) == j + ", "@ + "COUNT(*)"@);
    assert(item_texts(t.groups) =~= seq![j]);
    let w = "raw_file >= ? AND raw_file < ?"@;
    let x = and_filter(s.filter);
    let head = "SELECT substr(raw_file, 1, 20), COUNT(*) FROM events WHERE raw_file >= ? AND raw_file < ?"@;
    assert("SELECT "@ + (j + ", "@ + "COUNT(*)"@) + " FROM events"@ + (" WHERE "@
        + w) =~= head) by {
        reveal_strlit("SELECT ");
        reveal_strlit("substr(raw_file, 1, 20)");
        reveal_strlit(", ");
        reveal_strlit("COUNT(*)");
        reveal_strlit(" FROM events");
        reveal_strlit(" WHERE ");
        reveal_strlit("raw_file >= ? AND raw_file < ?");
        reveal_strlit(
            "SELECT substr(raw_file, 1, 20), COUNT(*) FROM events WHERE raw_file >= ? AND raw_file < ?",
        );
    }
    let tail = " GROUP BY substr(raw_file, 1, 20)"@;
    assert(" GROUP BY "@ + j =~= tail) by {
        reveal_strlit(" GROUP BY ");
        reveal_strlit("substr(raw_file, 1, 20)");
        reveal_strlit(" GROUP BY substr(raw_file, 1, 20)");
    }
    reveal_strlit("");
    let sel = "SELECT "@ + (j + ", "@ + "COUNT(*)"@) + " FROM events"@;
    assert(sel + (" WHERE "@ + (w + x)) + (" GROUP BY "@ + j) + ""@ + ""@ =~= (sel + (" WHERE "@
        + w)) + x + tail);
    assert(statement_text(t) == minute_sql(s));
    assert forall|name: Seq<char>| name.len() >= 20 implies #[trigger] counted(
        t,
        rows,
        seq![name.take(20)],
    ) == number_of(
        rows,
        |row: Event|
            is_between(row, lo, hi) && (e matches Some(x) ==> truth(x, row) == Some(true)) && shown(
                row,
                "raw_file"@,
            ).len() >= 20 && shown(row, "raw_file"@).take(20) == name.take(20),
        rows.len() as int,
    ) by {
        let g = seq![name.take(20)];
        assert forall|i: int| 0 <= i < rows.len() implies (group_of_event(
            #[trigger] rows[i],
            t.groups,
        ) == g) == (shown(rows[i], "raw_file"@).len() >= 20 && shown(rows[i], "raw_file"@).take(20)
            == name.take(20)) by {
            let h = group_of_event(rows[i], t.groups);
            let file = shown(rows[i], "raw_file"@);
            assert(h.len() == 1);
            assert(g[0] == name.take(20));
            if file.len() >= 20 {
                assert(file.take(20) =~= if 20 < file.len() {
                    file.take(20)
                } else {
                    file
                });
                assert(h[0] == file.take(20));
                if file.take(20) == name.take(20) {
                    assert(h =~= g);
                }
            } else {
                assert(h[0] == file);
                assert(h[0].len() != g[0].len());
            }
        }
        same_numbers(
            rows,
            |row: Event| is_about(t, row) && group_of_event(row, t.groups) == g,
            |row: Event|
                is_between(row, lo, hi) && (e matches Some(x) ==> truth(x, row) == Some(true))
                    && shown(row, "raw_file"@).len() >= 20 && shown(row, "raw_file"@).take(20)
                    == name.take(20),
            rows.len() as int,
        );
    }
    t
}

proof fn lemma_extreme_item(x: Extreme)
    ensures
        item_text(
            if x is First {
                Item::Least("raw_file"@)
            } else {
                Item::Greatest("raw_file"@)
            },
        ) == if x is First {
            "MIN"@
        } else {
            "MAX"@
        } + "(raw_file)"@,
{
    reveal_strlit("MIN(");
    reveal_strlit("MAX(");
    reveal_strlit("MIN");
    reveal_strlit("MAX");
    reveal_strlit("raw_file");
    reveal_strlit(")");
    reveal_strlit("(raw_file)");
    assert("MIN("@ + "raw_file"@ + ")"@ =~= "MIN"@ + "(raw_file)"@);
    assert("MAX("@ + "raw_file"@ + ")"@ =~= "MAX"@ + "(raw_file)"@);
}

proof fn lemma_extreme_text(x: Extreme, y: Seq<char>)
    ensures
        ({
            let item = if x is First {
                Item::Least("raw_file"@)
            } else {
                Item::Greatest("raw_file"@)
            };
            "SELECT "@ + item_text(item) + " FROM events"@ + (" WHERE "@ + (
            "raw_file >= ? AND raw_file < ?"@ + (" AND ("@ + y + ")"@))) + ""@ + ""@ + ""@
                == extreme_sql(x, y)
        }),
{
    lemma_extreme_item(x);
    let m = if x is First {
        "MIN"@
    } else {
        "MAX"@
    };
    let w = "raw_file >= ? AND raw_file < ?"@;
    assert("(raw_file)"@ + " FROM events"@ + " WHERE "@ + w + " AND ("@
        =~= "(raw_file) FROM events WHERE raw_file >= ? AND raw_file < ? AND ("@) by {
        reveal_strlit("(raw_file)");
        reveal_strlit(" FROM events");
        reveal_strlit(" WHERE ");
        reveal_strlit("raw_file >= ? AND raw_file < ?");
        reveal_strlit(" AND (");
        reveal_strlit("(raw_file) FROM events WHERE raw_file >= ? AND raw_file < ? AND (");
    }
    reveal_strlit("");
    assert("SELECT "@ + (m + "(raw_file)"@) + " FROM events"@ + (" WHERE "@ + (w + (" AND ("@ + y
        + ")"@))) + ""@ + ""@ + ""@ =~= "SELECT "@ + m + ("(raw_file)"@ + " FROM events"@
        + " WHERE "@ + w + " AND ("@) + y + ")"@);
}

/// The first sight of what a filter chooses is asked as the least name of a raw
/// file in the window, the last as the greatest.
pub proof fn extremes_read_in_the_window(
    x: Extreme,
    s: SelectionV,
    e: Sql,
    lo: Seq<char>,
    hi: Seq<char>,
) -> (t: Statement)
    requires
        filters_by(s, e),
    ensures
        is_statement(extreme_sql(x, s.filter->Some_0), seq![lo, hi] + s.params, t),
        t.items == seq![
            if x is First {
                Item::Least("raw_file"@)
            } else {
                Item::Greatest("raw_file"@)
            },
        ],
        t.groups.len() == 0,
        t.limit is None,
        forall|row: Event|
            #[trigger] is_about(t, row) == (is_between(row, lo, hi) && truth(e, row) == Some(true)),
{
    lemma_names();
    let f = window_filter(lo, hi, Some(e));
    lemma_window_filter(lo, hi, s, Some(e));
    let item = if x is First {
        Item::Least("raw_file"@)
    } else {
        Item::Greatest("raw_file"@)
    };
    let t = Statement {
        items: seq![item],
        filter: Some(f),
        groups: seq![],
        by_count: false,
        limit: None,
    };
    assert(item_texts(t.items) =~= seq![item_text(item)]);
    let y = s.filter->Some_0;
    lemma_extreme_text(x, y);
    assert(joined(item_texts(t.items), ", "@) == item_text(item));
    assert(statement_text(t) == extreme_sql(x, y));
    t
}

/// The sources of a window are counted by their names, without a filter.
pub proof fn sources_are_counted_by_name()
    ensures
        by_source().columns == seq!["_source_type"@],
        by_source().filter is None,
        by_source().params.len() == 0,
{
}

} // verus!
