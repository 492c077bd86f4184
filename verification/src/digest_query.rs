//! The digest's own questions to the index: which rows they select, how they
//! read as SQL, and how their answers are put together.
//!
//! An hour bucket is a database `index/YYYY-MM-DD-HH.db`. A window need not
//! begin or end on the hour: the `raw_file` column, whose text order is the
//! order of time, selects the rows to the second.
use vstd::prelude::*;

use crate::calendar::Civil;
use crate::collections::{key_texts, GroupCounts};
use crate::groups::Group;
use crate::number::{zero_pad, zero_padded};
use crate::order::{compare_text, text_lt, text_lt_asymmetric, text_lt_total, Rel};
use crate::order::text_lt_transitive;
use crate::paths::{join_path, joined_path};
use crate::raw_files::{bound_of, minute_in_prefix, padded_reads_back, parse_minute_prefix};
use crate::raw_files::{parse_raw_file_time, raw_file_range, second_in_name};
use crate::text::{digit, is_digit, join, joined, line_seq, lines, list_of_four};
use crate::text::{list_of_one, list_of_three, list_of_two, opt_view, pieces};
use crate::text::{split, split_front, split_whole, to_chars, views};
use crate::time::{advance_by_is_n_hours, hour_number_in_range, hours_after};
use crate::time::{hours_in_order, HourBucket};
use crate::trend::{sum_grows, sum_of};
use crate::window::{dirs_in_range_under, Duration, Instant, Window, NANOS};

verus! {

// ── Selections ───────────────────────────────────────────────────────────────

/// What a section asks the index for: columns, and the rows by a condition with
/// one value per placeholder.
pub struct Selection {
    pub columns: Vec<String>,
    pub filter: Option<String>,
    pub params: Vec<String>,
}

/// The model of a selection.
pub ghost struct SelectionV {
    pub columns: Seq<Seq<char>>,
    pub filter: Option<Seq<char>>,
    pub params: Seq<Seq<char>>,
}

impl View for Selection {
    type V = SelectionV;

    open spec fn view(&self) -> SelectionV {
        SelectionV {
            columns: views(self.columns@),
            filter: opt_view(self.filter),
            params: views(self.params@),
        }
    }
}

/// All events by source.
pub open spec fn by_source() -> SelectionV {
    SelectionV { columns: seq!["_source_type"@], filter: None, params: seq![] }
}

/// Blocked connections by some columns.
pub open spec fn blocked(columns: Seq<Seq<char>>) -> SelectionV {
    SelectionV {
        columns,
        filter: Some("_source_type = ? AND action = ?"@),
        params: seq!["filterlog"@, "BLOCK"@],
    }
}

/// Connections that were let in on an interface.
pub open spec fn let_in(interface: Seq<char>) -> SelectionV {
    SelectionV {
        columns: seq!["src_ip"@, "dst_ip"@, "dst_port"@],
        filter: Some("_source_type = ? AND action = ? AND interface = ?"@),
        params: seq!["filterlog"@, "ALLOW"@, interface],
    }
}

/// Outbound connections by some columns.
pub open spec fn outbound(columns: Seq<Seq<char>>) -> SelectionV {
    SelectionV {
        columns,
        filter: Some("_source_type = ? AND direction = ?"@),
        params: seq!["filterlog"@, "out"@],
    }
}

/// Outbound connections to one address.
pub open spec fn outbound_to(dst_ip: Seq<char>) -> SelectionV {
    SelectionV {
        columns: seq![],
        filter: Some("_source_type = ? AND direction = ? AND dst_ip = ?"@),
        params: seq!["filterlog"@, "out"@, dst_ip],
    }
}

/// Failed logins that have an origin address.
pub open spec fn failed_logins() -> SelectionV {
    SelectionV {
        columns: seq!["src_ip"@, "_source_type"@, "event_type"@],
        filter: Some("event_type IN (?, ?, ?, ?)"@),
        params: seq![
            "ssh_auth_failure"@,
            "ssh_auth_timeout"@,
            "vpn_auth_failure"@,
            "vpn_tls_error"@,
        ],
    }
}

/// Successful logins.
pub open spec fn logins() -> SelectionV {
    SelectionV {
        columns: seq!["raw_file"@, "src_ip"@, "username"@, "_source_type"@],
        filter: Some("event_type IN (?)"@),
        params: seq!["ssh_auth_success"@],
    }
}

/// Commands run through sudo.
pub open spec fn sudo_commands() -> SelectionV {
    SelectionV {
        columns: seq!["raw_file"@, "username"@, "target_user"@, "command"@],
        filter: Some("_source_type = ? AND event_type = ?"@),
        params: seq!["sudo"@, "sudo_command"@],
    }
}

/// Configuration changes on the firewall.
pub open spec fn firewall_changes() -> SelectionV {
    SelectionV {
        columns: seq!["raw_file"@, "admin_user"@, "src_ip"@, "pfsense_page"@],
        filter: Some("event_type = ?"@),
        params: seq!["pfsense_config_change"@],
    }
}

/// Services that started, stopped or failed.
pub open spec fn transitions() -> SelectionV {
    SelectionV {
        columns: seq!["unit"@],
        filter: Some("_source_type = ? AND event_type IN (?, ?, ?, ?)"@),
        params: seq!["systemd"@, "unit_started"@, "unit_stopped"@, "unit_stopping"@, "unit_failed"@],
    }
}

/// The transitions of one service.
pub open spec fn transitions_of(unit: Seq<char>) -> SelectionV {
    SelectionV {
        columns: seq![],
        filter: Some("_source_type = ? AND event_type IN (?, ?, ?, ?) AND unit = ?"@),
        params: transitions().params.push(unit),
    }
}

/// Events of the highest severities.
pub open spec fn severe() -> SelectionV {
    SelectionV {
        columns: seq!["raw_file"@, "_source_type"@, "event_type"@, "severity"@],
        filter: Some("severity = ? OR severity = ?"@),
        params: seq!["critical"@, "emergency"@],
    }
}

impl Selection {
    /// All events by source.
    pub fn by_source() -> (r: Selection)
        ensures
            r@ == by_source(),
    {
        let r = Selection {
            columns: list_of_one("_source_type"),
            filter: None,
            params: Vec::new(),
        };
        assert(views(r.params@) =~= Seq::<Seq<char>>::empty());
        r
    }

    /// Blocked connections, not grouped by any column.
    pub fn blocks() -> (r: Selection)
        ensures
            r@ == blocked(seq![]),
    {
        let r = Selection {
            columns: Vec::new(),
            filter: Some("_source_type = ? AND action = ?".to_owned()),
            params: list_of_two("filterlog", "BLOCK"),
        };
        assert(views(r.columns@) =~= Seq::<Seq<char>>::empty());
        r
    }

    /// Blocked connections by origin and protocol.
    pub fn blocked_sources() -> (r: Selection)
        ensures
            r@ == blocked(seq!["src_ip"@, "protocol"@]),
    {
        Selection {
            columns: list_of_two("src_ip", "protocol"),
            filter: Some("_source_type = ? AND action = ?".to_owned()),
            params: list_of_two("filterlog", "BLOCK"),
        }
    }

    /// Connections that were let in on an interface.
    pub fn inbound(wan_interface: &str) -> (r: Selection)
        ensures
            r@ == let_in(wan_interface@),
    {
        Selection {
            columns: list_of_three("src_ip", "dst_ip", "dst_port"),
            filter: Some("_source_type = ? AND action = ? AND interface = ?".to_owned()),
            params: list_of_three("filterlog", "ALLOW", wan_interface),
        }
    }

    /// Outbound connections by address and port.
    pub fn outbound_targets() -> (r: Selection)
        ensures
            r@ == outbound(seq!["dst_ip"@, "dst_port"@]),
    {
        Selection {
            columns: list_of_two("dst_ip", "dst_port"),
            filter: Some("_source_type = ? AND direction = ?".to_owned()),
            params: list_of_two("filterlog", "out"),
        }
    }

    /// Outbound connections by address.
    pub fn outbound_addresses() -> (r: Selection)
        ensures
            r@ == outbound(seq!["dst_ip"@]),
    {
        Selection {
            columns: list_of_one("dst_ip"),
            filter: Some("_source_type = ? AND direction = ?".to_owned()),
            params: list_of_two("filterlog", "out"),
        }
    }

    /// Outbound connections to one address.
    pub fn outbound_to(dst_ip: &str) -> (r: Selection)
        ensures
            r@ == outbound_to(dst_ip@),
    {
        let r = Selection {
            columns: Vec::new(),
            filter: Some("_source_type = ? AND direction = ? AND dst_ip = ?".to_owned()),
            params: list_of_three("filterlog", "out", dst_ip),
        };
        assert(views(r.columns@) =~= Seq::<Seq<char>>::empty());
        r
    }

    /// Failed logins that have an origin address.
    pub fn failed_logins() -> (r: Selection)
        ensures
            r@ == failed_logins(),
    {
        Selection {
            columns: list_of_three("src_ip", "_source_type", "event_type"),
            filter: Some("event_type IN (?, ?, ?, ?)".to_owned()),
            params: list_of_four(
                "ssh_auth_failure",
                "ssh_auth_timeout",
                "vpn_auth_failure",
                "vpn_tls_error",
            ),
        }
    }

    /// Successful logins.
    pub fn logins() -> (r: Selection)
        ensures
            r@ == logins(),
    {
        Selection {
            columns: list_of_four("raw_file", "src_ip", "username", "_source_type"),
            filter: Some("event_type IN (?)".to_owned()),
            params: list_of_one("ssh_auth_success"),
        }
    }

    /// Commands run through sudo.
    pub fn sudo_commands() -> (r: Selection)
        ensures
            r@ == sudo_commands(),
    {
        Selection {
            columns: list_of_four("raw_file", "username", "target_user", "command"),
            filter: Some("_source_type = ? AND event_type = ?".to_owned()),
            params: list_of_two("sudo", "sudo_command"),
        }
    }

    /// Configuration changes on the firewall.
    pub fn firewall_changes() -> (r: Selection)
        ensures
            r@ == firewall_changes(),
    {
        Selection {
            columns: list_of_four("raw_file", "admin_user", "src_ip", "pfsense_page"),
            filter: Some("event_type = ?".to_owned()),
            params: list_of_one("pfsense_config_change"),
        }
    }

    /// Services that started, stopped or failed.
    pub fn transitions() -> (r: Selection)
        ensures
            r@ == transitions(),
    {
        let mut params = list_of_four("systemd", "unit_started", "unit_stopped", "unit_stopping");
        let ghost before = views(params@);
        params.push("unit_failed".to_owned());
        assert(views(params@) =~= before.push("unit_failed"@));
        assert(views(params@) =~= transitions().params);
        Selection {
            columns: list_of_one("unit"),
            filter: Some("_source_type = ? AND event_type IN (?, ?, ?, ?)".to_owned()),
            params,
        }
    }

    /// The transitions of one service.
    pub fn transitions_of(unit: &str) -> (r: Selection)
        ensures
            r@ == transitions_of(unit@),
    {
        let mut params = Selection::transitions().params;
        let ghost before = views(params@);
        params.push(unit.to_owned());
        assert(views(params@) =~= before.push(unit@));
        let r = Selection {
            columns: Vec::new(),
            filter: Some("_source_type = ? AND event_type IN (?, ?, ?, ?) AND unit = ?".to_owned()),
            params,
        };
        assert(views(r.columns@) =~= Seq::<Seq<char>>::empty());
        r
    }

    /// Events of the highest severities.
    pub fn severe() -> (r: Selection)
        ensures
            r@ == severe(),
    {
        Selection {
            columns: list_of_four("raw_file", "_source_type", "event_type", "severity"),
            filter: Some("severity = ? OR severity = ?".to_owned()),
            params: list_of_two("critical", "emergency"),
        }
    }
}

// ── SQL ──────────────────────────────────────────────────────────────────────

/// The further condition of a selection.
pub open spec fn and_filter(filter: Option<Seq<char>>) -> Seq<char> {
    match filter {
        Some(w) => " AND ("@ + w + ")"@,
        None => Seq::empty(),
    }
}

/// The statement that counts a selection's rows by its columns.
pub open spec fn group_sql(s: SelectionV) -> Seq<char> {
    "SELECT "@ + joined(s.columns, ", "@)
        + ", COUNT(*) FROM events WHERE raw_file >= ? AND raw_file < ?"@ + and_filter(s.filter)
        + " GROUP BY "@ + joined(s.columns, ", "@)
}

/// The statement that counts a selection's rows by the minute.
pub open spec fn minute_sql(s: SelectionV) -> Seq<char> {
    "SELECT substr(raw_file, 1, 20), COUNT(*) FROM events WHERE raw_file >= ? AND raw_file < ?"@
        + and_filter(s.filter) + " GROUP BY substr(raw_file, 1, 20)"@
}

/// The statement that selects the columns of a selection's rows.
pub open spec fn rows_sql(s: SelectionV) -> Seq<char> {
    "SELECT "@ + joined(s.columns, ", "@) + " FROM events WHERE raw_file >= ? AND raw_file < ?"@
        + and_filter(s.filter)
}

fn filter_text(filter: &Option<String>) -> (r: String)
    ensures
        r@ == and_filter(opt_view(*filter)),
{
    match filter {
        Some(w) => {
            let mut r = " AND (".to_owned();
            r.append(w.as_str());
            r.append(")");
            r
        },
        None => String::new(),
    }
}

impl Selection {
    /// The statement that counts the rows by the columns.
    pub fn group_sql(&self) -> (r: String)
        ensures
            r@ == group_sql(self@),
    {
        let cols = join(&self.columns, ", ");
        let mut r = "SELECT ".to_owned();
        r.append(cols.as_str());
        r.append(", COUNT(*) FROM events WHERE raw_file >= ? AND raw_file < ?");
        r.append(filter_text(&self.filter).as_str());
        r.append(" GROUP BY ");
        r.append(cols.as_str());
        r
    }

    /// The statement that counts the rows by the minute.
    pub fn minute_sql(&self) -> (r: String)
        ensures
            r@ == minute_sql(self@),
    {
        let mut r =
            "SELECT substr(raw_file, 1, 20), COUNT(*) FROM events WHERE raw_file >= ? AND raw_file < ?".to_owned();
        r.append(filter_text(&self.filter).as_str());
        r.append(" GROUP BY substr(raw_file, 1, 20)");
        r
    }

    /// The statement that selects the columns of the rows.
    pub fn rows_sql(&self) -> (r: String)
        ensures
            r@ == rows_sql(self@),
    {
        let mut r = "SELECT ".to_owned();
        r.append(join(&self.columns, ", ").as_str());
        r.append(" FROM events WHERE raw_file >= ? AND raw_file < ?");
        r.append(filter_text(&self.filter).as_str());
        r
    }

    /// The values of the statement's placeholders: the window's bounds, then
    /// the selection's own.
    pub fn values_in(&self, win: &Window) -> (r: Vec<String>)
        requires
            win.in_range(),
        ensures
            views(r@) == seq![bound_of(win.start.civil()), bound_of(win.end.civil())]
                + self@.params,
    {
        let (lo, hi) = raw_file_range(win);
        let mut r: Vec<String> = Vec::new();
        r.push(lo);
        r.push(hi);
        let ghost bounds = seq![bound_of(win.start.civil()), bound_of(win.end.civil())];
        let ghost pv = views(self.params@);
        assert(views(r@) =~= bounds + pv.take(0));
        let mut i: usize = 0;
        while i < self.params.len()
            invariant
                i <= self.params@.len(),
                pv == views(self.params@),
                views(r@) == bounds + pv.take(i as int),
            decreases self.params@.len() - i,
        {
            let ghost before = views(r@);
            r.push(self.params[i].clone());
            assert(views(r@) =~= before.push(pv[i as int]));
            assert(pv.take(i + 1) =~= pv.take(i as int).push(pv[i as int]));
            i = i + 1;
            assert(views(r@) =~= bounds + pv.take(i as int));
        }
        assert(pv.take(i as int) =~= pv);
        r
    }
}

// ── Earliest and latest ──────────────────────────────────────────────────────

/// Which of a selection's rows is asked for.
#[derive(Clone, Copy, Debug, PartialEq, Eq, Structural)]
pub enum Extreme {
    First,
    Last,
}

/// The statement that gives the first or last file name of a selection's rows.
pub open spec fn extreme_sql(e: Extreme, filter: Seq<char>) -> Seq<char> {
    "SELECT "@ + if e is First {
        "MIN"@
    } else {
        "MAX"@
    } + "(raw_file) FROM events WHERE raw_file >= ? AND raw_file < ? AND ("@ + filter + ")"@
}

impl Extreme {
    /// The statement that gives the first or last file name of a selection's rows.
    pub fn sql(self, filter: &str) -> (r: String)
        ensures
            r@ == extreme_sql(self, filter@),
    {
        let mut r = "SELECT ".to_owned();
        match self {
            Extreme::First => r.append("MIN"),
            Extreme::Last => r.append("MAX"),
        }
        r.append("(raw_file) FROM events WHERE raw_file >= ? AND raw_file < ? AND (");
        r.append(filter);
        r.append(")");
        r
    }
}

/// The first or last of the first `n` names that were found.
pub open spec fn extreme_of(e: Extreme, found: Seq<Option<Seq<char>>>, n: int) -> Option<Seq<char>>
    decreases n,
{
    if n <= 0 {
        None
    } else {
        match (extreme_of(e, found, n - 1), found[n - 1]) {
            (None, x) => x,
            (b, None) => b,
            (Some(b), Some(x)) => if (e is First && text_lt(x, b)) || (e is Last && text_lt(b, x)) {
                Some(x)
            } else {
                Some(b)
            },
        }
    }
}

/// Texts that may be missing.
pub open spec fn found_views(v: Seq<Option<String>>) -> Seq<Option<Seq<char>>> {
    v.map_values(|o: Option<String>| opt_view(o))
}

/// The time of the first or last name that was found, one answer per bucket.
pub fn extreme_seen(e: Extreme, found: &Vec<Option<String>>) -> (r: Option<Instant>)
    ensures
        match extreme_of(e, found_views(found@), found@.len() as int) {
            Some(name) => match second_in_name(name) {
                Some(c) => r matches Some(t) && t.nanos == c.seconds() * NANOS && t.in_range(),
                None => r is None,
            },
            None => r is None,
        },
{
    let ghost fv = found_views(found@);
    let mut best: Option<String> = None;
    let mut i: usize = 0;
    while i < found.len()
        invariant
            i <= found@.len(),
            fv == found_views(found@),
            opt_view(best) == extreme_of(e, fv, i as int),
        decreases found@.len() - i,
    {
        match &found[i] {
            Some(name) => {
                assert(fv[i as int] == Some(name@));
                let better = match &best {
                    None => true,
                    Some(b) => match (e, compare_text(name.as_str(), b.as_str())) {
                        (Extreme::First, Rel::Less) => true,
                        (Extreme::Last, Rel::Greater) => true,
                        _ => false,
                    },
                };
                if better {
                    best = Some(name.clone());
                }
            },
            None => {
                assert(fv[i as int] is None);
            },
        }
        i = i + 1;
    }
    match &best {
        Some(name) => parse_raw_file_time(name.as_str()),
        None => None,
    }
}

/// The first name that was found is no later than any other, the last no
/// earlier.
pub proof fn extreme_bounds_all(e: Extreme, found: Seq<Option<Seq<char>>>, n: int, i: int)
    requires
        0 <= i < n,
        found[i] is Some,
    ensures
        extreme_of(e, found, n) is Some,
        e is First ==> !text_lt(found[i]->0, extreme_of(e, found, n)->0),
        e is Last ==> !text_lt(extreme_of(e, found, n)->0, found[i]->0),
    decreases n,
{
    let x = found[i]->0;
    text_lt_asymmetric(x, x);
    if i < n - 1 {
        extreme_bounds_all(e, found, n - 1, i);
        let b = extreme_of(e, found, n - 1)->0;
        if let Some(y) = found[n - 1] {
            text_lt_total(x, y);
            text_lt_total(b, y);
            text_lt_total(b, x);
            text_lt_asymmetric(b, y);
            if text_lt(y, b) && text_lt(x, y) {
                text_lt_transitive(x, y, b);
            }
            if text_lt(b, y) && text_lt(y, x) {
                text_lt_transitive(b, y, x);
            }
        }
    } else {
        if let Some(b) = extreme_of(e, found, n - 1) {
            text_lt_asymmetric(b, x);
        }
    }
}

// ── Hours ────────────────────────────────────────────────────────────────────

/// Whether a moment's hour is not the calendar's last.
pub open spec fn hour_follows(t: Instant) -> bool {
    t.second() / 3600 < crate::time::last_hour_number()
}

/// The name of an hour's bucket: `YYYY-MM-DD-HH`.
pub open spec fn bucket_name(b: HourBucket) -> Seq<char> {
    zero_padded(b.year as int, 4) + "-"@ + zero_padded(b.month as int, 2) + "-"@ + zero_padded(
        b.day as int,
        2,
    ) + "-"@ + zero_padded(b.hour as int, 2)
}

fn name_bucket(b: &HourBucket) -> (r: String)
    ensures
        r@ == bucket_name(*b),
{
    let mut r = zero_pad(b.year as i64, 4);
    r.append("-");
    r.append(zero_pad(b.month as i64, 2).as_str());
    r.append("-");
    r.append(zero_pad(b.day as i64, 2).as_str());
    r.append("-");
    r.append(zero_pad(b.hour as i64, 2).as_str());
    r
}

/// A bucket's file name names its hour, for years that are not negative.
pub proof fn bucket_name_reads_back(b: HourBucket)
    requires
        b.on_calendar(),
        b.year >= 0,
    ensures
        crate::time::hour_in_filename(bucket_name(b) + ".db"@) == Some(b),
{
    reveal_strlit("-");
    assert("-"@ =~= seq!['-']);
    let y = zero_padded(b.year as int, 4);
    let m = zero_padded(b.month as int, 2);
    let d = zero_padded(b.day as int, 2);
    let h = zero_padded(b.hour as int, 2);
    padded_reads_back(b.year as int, 4);
    padded_reads_back(b.month as int, 2);
    padded_reads_back(b.day as int, 2);
    padded_reads_back(b.hour as int, 2);
    let dash = seq!['-'];
    let s = bucket_name(b);
    assert(s =~= y + (dash + (m + (dash + (d + (dash + h))))));
    split_whole(h, '-');
    split_front(d, '-', h);
    split_front(m, '-', d + (dash + h));
    split_front(y, '-', m + (dash + (d + (dash + h))));
    assert(split(s, '-') =~= seq![y, m, d, h]);
    assert(crate::time::without_db(s + ".db"@) == s) by {
        reveal_strlit(".db");
        let f = s + ".db"@;
        assert(f.subrange(f.len() - 3, f.len() as int) =~= ".db"@);
        assert(f.subrange(0, f.len() - 3) =~= s);
    }
}

/// The number of hours that a window touches, its end's hour among them.
pub open spec fn hours_touched(win: Window) -> int {
    if win.end.second() / 3600 < win.start.second() / 3600 {
        0
    } else {
        win.end.second() / 3600 - win.start.second() / 3600 + 1
    }
}

/// Whether `b` is the hour in which a window starts.
pub open spec fn starts_in(win: Window, b: HourBucket) -> bool {
    b.valid() && b.number() == win.start.second() / 3600
}

/// The path of an hour's bucket.
pub open spec fn bucket_path(data_dir: Seq<char>, b: HourBucket) -> Seq<char> {
    joined_path(joined_path(data_dir, "index"@), bucket_name(b) + ".db"@)
}

/// Candidate files `index/YYYY-MM-DD-HH.db` of the hours that a window touches,
/// in order. One hour more may be among them where the window ends on the hour.
pub fn hour_bucket_files(data_dir: &str, win: &Window) -> (r: Vec<String>)
    requires
        win.in_range(),
        hour_follows(win.end),
    ensures
        r@.len() == hours_touched(*win),
        forall|b: HourBucket, k: int|
            starts_in(*win, b) && 0 <= k < r@.len() ==> #[trigger] r@[k]@ == bucket_path(
                data_dir@,
                #[trigger] hours_after(b, k as nat),
            ),
{
    let first = HourBucket::from_datetime(win.start);
    let last = HourBucket::from_datetime(win.end);
    let dir = join_path(data_dir, "index");
    let mut r: Vec<String> = Vec::new();
    proof {
        hours_in_order(first, last);
        hours_in_order(last, first);
        hour_number_in_range(last);
    }
    let mut cur = first;
    let ghost mut n: int = 0;
    while !last.is_before(&cur)
        invariant
            first.valid(),
            last.valid(),
            last.number() < crate::time::last_hour_number(),
            n == r@.len(),
            cur == hours_after(first, n as nat),
            cur.valid(),
            cur.number() == first.number() + n,
            n <= hours_touched(*win),
            hours_touched(*win) == if last.number() < first.number() {
                0
            } else {
                last.number() - first.number() + 1
            },
            dir@ == joined_path(data_dir@, "index"@),
            forall|k: int|
                0 <= k < r@.len() ==> (#[trigger] r@[k])@ == bucket_path(
                    data_dir@,
                    hours_after(first, k as nat),
                ),
        decreases last.number() + 1 - cur.number(),
    {
        proof {
            hours_in_order(last, cur);
        }
        let mut name = name_bucket(&cur);
        name.append(".db");
        r.push(join_path(dir.as_str(), name.as_str()));
        proof {
            n = n + 1;
            advance_by_is_n_hours(first, n as nat);
        }
        cur = cur.advance();
    }
    proof {
        hours_in_order(last, cur);
        assert forall|b: HourBucket, k: int|
            starts_in(*win, b) && 0 <= k < r@.len() implies #[trigger] r@[k]@ == bucket_path(
            data_dir@,
            #[trigger] hours_after(b, k as nat),
        ) by {
            hours_in_order(b, first);
        }
    }
    r
}

/// The hour of every moment of a window is among the hours that the window
/// touches, so its bucket is among the candidates.
pub proof fn window_touches_its_moments(win: Window, first: HourBucket, t: Instant, b: HourBucket)
    requires
        starts_in(win, first),
        win.start.nanos <= t.nanos <= win.end.nanos,
        b.valid(),
        b.number() == t.second() / 3600,
    ensures
        0 <= b.number() - first.number() < hours_touched(win),
        hours_after(first, (b.number() - first.number()) as nat) == b,
{
    hour_number_in_range(b);
    let n = (b.number() - first.number()) as nat;
    advance_by_is_n_hours(first, n);
    hours_in_order(hours_after(first, n), b);
}

/// Candidate directories `raw/YYYY/MM/DD/HH` of the hours that a window touches,
/// in order.
pub fn raw_hour_dirs(data_dir: &str, win: &Window) -> (r: Vec<String>)
    requires
        win.in_range(),
    ensures
        r@.len() == hours_touched(*win),
        forall|b: HourBucket, k: int|
            starts_in(*win, b) && 0 <= k < r@.len() ==> #[trigger] r@[k]@ == crate::time::hour_dir(
                #[trigger] hours_after(b, k as nat),
                joined_path(data_dir@, "raw"@),
            ),
{
    let first = HourBucket::from_datetime(win.start);
    let last = HourBucket::from_datetime(win.end);
    proof {
        hours_in_order(last, first);
        assert forall|b: HourBucket| starts_in(*win, b) implies b == first by {
            hours_in_order(b, first);
        }
    }
    dirs_in_range_under(join_path(data_dir, "raw").as_str(), first, last)
}

// ── Minutes ──────────────────────────────────────────────────────────────────

/// The whole seconds of an interval, one at least.
pub open spec fn interval_seconds(interval: Duration) -> int {
    let s = interval.nanos as int / NANOS as int;
    if s < 1 {
        1
    } else {
        s
    }
}

/// How many intervals cover a window, one at least.
pub open spec fn interval_count(win: Window, interval: Duration) -> int {
    let len = win.nanos() / NANOS as int;
    let n = if len <= 0 {
        0
    } else {
        (len + interval_seconds(interval) - 1) / interval_seconds(interval)
    };
    if n < 1 {
        1
    } else {
        n
    }
}

/// The interval of a window that a minute falls in; none for one outside the
/// window.
pub open spec fn slot_of(minute: Seq<char>, win: Window, interval: Duration) -> Option<int> {
    match minute_in_prefix(minute) {
        None => None,
        Some(c) => {
            let t = c.seconds() * NANOS;
            if t < win.start.nanos || t >= win.end.nanos {
                None
            } else {
                let i = (t - win.start.nanos) / NANOS as int / interval_seconds(interval);
                let last = interval_count(win, interval) - 1;
                Some(
                    if i > last {
                        last
                    } else {
                        i
                    },
                )
            }
        },
    }
}

/// The minute of a group: its last value.
pub open spec fn minute_of(g: Group) -> Seq<char> {
    if g.len() > 0 {
        g.last()
    } else {
        Seq::empty()
    }
}

/// The count of interval `b` over the first `n` minutes.
pub open spec fn slot_count(
    keys: Seq<Group>,
    counts: Seq<u64>,
    win: Window,
    interval: Duration,
    b: int,
    n: int,
) -> int
    decreases n,
{
    if n <= 0 {
        0
    } else {
        slot_count(keys, counts, win, interval, b, n - 1) + if slot_of(
            minute_of(keys[n - 1]),
            win,
            interval,
        ) == Some(b) {
            counts[n - 1] as int
        } else {
            0
        }
    }
}

proof fn lemma_slot_bounded(
    keys: Seq<Group>,
    counts: Seq<u64>,
    win: Window,
    interval: Duration,
    b: int,
    n: int,
)
    ensures
        0 <= slot_count(keys, counts, win, interval, b, n) <= sum_of(counts, n),
    decreases n,
{
    if n > 0 {
        lemma_slot_bounded(keys, counts, win, interval, b, n - 1);
    }
}

fn count_intervals(win: &Window, interval: Duration) -> (r: usize)
    requires
        win.in_range(),
        interval.in_range(),
        interval_count(*win, interval) <= usize::MAX,
    ensures
        r == interval_count(*win, interval),
{
    let s: i128 = length_of_interval(interval);
    let nanos: i128 = win.end.nanos - win.start.nanos;
    if nanos < NANOS {
        return 1;
    }
    let len: i128 = nanos / NANOS;
    proof {
        vstd::arithmetic::div_mod::lemma_div_is_ordered(s as int, len + s - 1, s as int);
        vstd::arithmetic::div_mod::lemma_div_by_self(s as int);
    }
    ((len + s - 1) / s) as usize
}

fn length_of_interval(interval: Duration) -> (r: i128)
    requires
        interval.in_range(),
    ensures
        r == interval_seconds(interval),
        1 <= r <= 9223372036854775,
{
    if interval.nanos < NANOS {
        1
    } else {
        interval.nanos / NANOS
    }
}

fn find_slot(minute: &str, win: &Window, interval: Duration, n: usize) -> (r: Option<usize>)
    requires
        win.in_range(),
        interval.in_range(),
        n == interval_count(*win, interval),
    ensures
        match slot_of(minute@, *win, interval) {
            Some(b) => r matches Some(i) && i == b && i < n,
            None => r is None,
        },
{
    match parse_minute_prefix(minute) {
        None => None,
        Some(t) => {
            if t.nanos < win.start.nanos || t.nanos >= win.end.nanos {
                return None;
            }
            let s: i128 = length_of_interval(interval);
            let i: i128 = (t.nanos - win.start.nanos) / NANOS / s;
            proof {
                let o = (t.nanos - win.start.nanos) / NANOS as int;
                vstd::arithmetic::div_mod::lemma_div_pos_is_pos(o, s as int);
            }
            if i > (n - 1) as i128 {
                Some(n - 1)
            } else {
                Some(i as usize)
            }
        },
    }
}

/// The minutes' counts in intervals that cover the window, in order of time. The
/// last interval is short where the window is no whole number of them. Minutes
/// outside the window do not count.
pub fn bucket_series(minutes: &GroupCounts, win: &Window, interval: Duration) -> (r: Vec<u64>)
    requires
        minutes.wf(),
        win.in_range(),
        interval.in_range(),
        interval_count(*win, interval) <= usize::MAX,
        sum_of(minutes.counts@, minutes.counts@.len() as int) <= u64::MAX,
    ensures
        r@.len() == interval_count(*win, interval),
        forall|b: int|
            0 <= b < r@.len() ==> #[trigger] r@[b] == slot_count(
                key_texts(minutes.keys@),
                minutes.counts@,
                *win,
                interval,
                b,
                minutes.counts@.len() as int,
            ),
{
    let ghost keys = key_texts(minutes.keys@);
    let ghost cs = minutes.counts@;
    let n: usize = count_intervals(win, interval);
    let mut r: Vec<u64> = Vec::new();
    let mut b: usize = 0;
    while b < n
        invariant
            b <= n,
            r@.len() == b,
            forall|k: int| 0 <= k < b ==> #[trigger] r@[k] == 0,
        decreases n - b,
    {
        r.push(0);
        b = b + 1;
    }
    let m: usize = minutes.counts.len();
    let mut i: usize = 0;
    while i < m
        invariant
            minutes.wf(),
            win.in_range(),
            interval.in_range(),
            keys == key_texts(minutes.keys@),
            cs == minutes.counts@,
            m == cs.len(),
            n == interval_count(*win, interval),
            sum_of(cs, m as int) <= u64::MAX,
            i <= m,
            r@.len() == n,
            forall|k: int|
                0 <= k < n ==> #[trigger] r@[k] == slot_count(
                    keys,
                    cs,
                    *win,
                    interval,
                    k,
                    i as int,
                ),
        decreases m - i,
    {
        let key = &minutes.keys[i];
        let k: usize = key.len();
        assert(keys[i as int] == views(key@));
        let minute = if k > 0 {
            key[k - 1].clone()
        } else {
            String::new()
        };
        assert(minute@ =~= minute_of(keys[i as int]));
        match find_slot(minute.as_str(), win, interval, n) {
            Some(b) => {
                proof {
                    lemma_slot_bounded(keys, cs, *win, interval, b as int, i as int);
                    sum_grows(cs, i + 1, m as int);
                }
                let c: u64 = r[b] + minutes.counts[i];
                r.set(b, c);
            },
            None => {},
        }
        i = i + 1;
    }
    r
}

/// The counts of the minutes that lie in the window, summed over the first `n`.
pub open spec fn in_window(
    keys: Seq<Group>,
    counts: Seq<u64>,
    win: Window,
    interval: Duration,
    n: int,
) -> int
    decreases n,
{
    if n <= 0 {
        0
    } else {
        in_window(keys, counts, win, interval, n - 1) + if slot_of(
            minute_of(keys[n - 1]),
            win,
            interval,
        ) is Some {
            counts[n - 1] as int
        } else {
            0
        }
    }
}

/// The sum of the counts of the first `k` intervals over the first `n` minutes.
pub open spec fn slots_sum(
    keys: Seq<Group>,
    counts: Seq<u64>,
    win: Window,
    interval: Duration,
    k: int,
    n: int,
) -> int
    decreases k,
{
    if k <= 0 {
        0
    } else {
        slots_sum(keys, counts, win, interval, k - 1, n) + slot_count(
            keys,
            counts,
            win,
            interval,
            k - 1,
            n,
        )
    }
}

proof fn lemma_slots_step(
    keys: Seq<Group>,
    counts: Seq<u64>,
    win: Window,
    interval: Duration,
    k: int,
    n: int,
)
    requires
        n > 0,
    ensures
        slots_sum(keys, counts, win, interval, k, n) == slots_sum(
            keys,
            counts,
            win,
            interval,
            k,
            n - 1,
        ) + match slot_of(minute_of(keys[n - 1]), win, interval) {
            Some(b) => if 0 <= b < k {
                counts[n - 1] as int
            } else {
                0
            },
            None => 0,
        },
    decreases k,
{
    if k > 0 {
        lemma_slots_step(keys, counts, win, interval, k - 1, n);
    }
}

proof fn lemma_slots_empty(
    keys: Seq<Group>,
    counts: Seq<u64>,
    win: Window,
    interval: Duration,
    k: int,
    n: int,
)
    requires
        n <= 0,
    ensures
        slots_sum(keys, counts, win, interval, k, n) == 0,
    decreases k,
{
    if k > 0 {
        lemma_slots_empty(keys, counts, win, interval, k - 1, n);
    }
}

/// No event of the window is lost in the series, and none is counted twice: the
/// intervals' counts add up to those of the minutes in the window.
pub proof fn series_keeps_every_event(
    keys: Seq<Group>,
    counts: Seq<u64>,
    win: Window,
    interval: Duration,
    n: int,
)
    ensures
        slots_sum(keys, counts, win, interval, interval_count(win, interval), n) == in_window(
            keys,
            counts,
            win,
            interval,
            n,
        ),
    decreases n,
{
    let k = interval_count(win, interval);
    if n <= 0 {
        lemma_slots_empty(keys, counts, win, interval, k, n);
    } else {
        series_keeps_every_event(keys, counts, win, interval, n - 1);
        lemma_slots_step(keys, counts, win, interval, k, n);
        if let Some(c) = minute_in_prefix(minute_of(keys[n - 1])) {
            let t = c.seconds() * NANOS;
            if win.start.nanos <= t {
                let o = (t - win.start.nanos) / NANOS as int;
                vstd::arithmetic::div_mod::lemma_div_pos_is_pos(o, interval_seconds(interval));
            }
        }
    }
}

// ── Raw files ────────────────────────────────────────────────────────────────

/// The name with slashes for backslashes.
pub open spec fn slashed(s: Seq<char>) -> Seq<char> {
    s.map_values(
        |c: char|
            if c == '\\' {
                '/'
            } else {
                c
            },
    )
}

fn with_slashes(s: &str) -> (r: String)
    ensures
        r@ == slashed(s@),
{
    let v = to_chars(s);
    let mut r = String::new();
    let mut i: usize = 0;
    while i < v.len()
        invariant
            i <= v@.len(),
            v@ == s@,
            r@ == slashed(s@).take(i as int),
        decreases v@.len() - i,
    {
        let c = v[i];
        if c == '\\' {
            r.push('/');
        } else {
            r.push(c);
        }
        assert(slashed(s@).take(i + 1) =~= slashed(s@).take(i as int).push(slashed(s@)[i as int]));
        i = i + 1;
    }
    assert(slashed(s@).take(i as int) =~= slashed(s@));
    r
}

/// Whether a raw file belongs to a window, by its name below the data directory.
pub open spec fn name_in_window(name: Seq<char>, win: Window) -> bool {
    match second_in_name(slashed(name)) {
        Some(c) => win.start.nanos <= c.seconds() * NANOS < win.end.nanos,
        None => false,
    }
}

/// Whether a raw file belongs to a window, by its name below the data directory.
pub fn is_in_window(name: &str, win: &Window) -> (r: bool)
    ensures
        r == name_in_window(name@, *win),
{
    match parse_raw_file_time(with_slashes(name).as_str()) {
        Some(t) => win.start.nanos <= t.nanos && t.nanos < win.end.nanos,
        None => false,
    }
}

/// A raw file: its name below the data directory, and the number of its lines.
pub struct RawFile {
    pub name: String,
    pub lines: u64,
}

/// The number of lines of a text.
pub fn count_lines(content: &str) -> (r: u64)
    ensures
        r == line_seq(content@).len(),
{
    let ls = lines(&to_chars(content));
    assert(pieces(ls@).len() == ls@.len());
    ls.len() as u64
}

/// The bucket that a raw file's lines belong in.
pub open spec fn bucket_of_file(name: Seq<char>) -> Option<Seq<char>> {
    match second_in_name(slashed(name)) {
        Some(c) => Some(bucket_name(hour_of_second(c))),
        None => None,
    }
}

/// The hour that a second lies in.
pub open spec fn hour_of_second(c: Civil) -> HourBucket {
    HourBucket { year: c.year, month: c.month as u8, day: c.day as u8, hour: c.hour as u8 }
}

fn find_bucket(name: &str) -> (r: Option<String>)
    ensures
        opt_view(r) == bucket_of_file(name@),
{
    match parse_raw_file_time(with_slashes(name).as_str()) {
        Some(t) => {
            let c = t.fields();
            proof {
                crate::window::moments_have_fields(t, second_in_name(slashed(name@))->0);
            }
            let b = HourBucket {
                year: c.year,
                month: c.month as u8,
                day: c.day as u8,
                hour: c.hour as u8,
            };
            Some(name_bucket(&b))
        },
        None => None,
    }
}

/// The sum of the lines of the first `n` files.
pub open spec fn lines_of(files: Seq<RawFile>, n: int) -> int
    decreases n,
{
    if n <= 0 {
        0
    } else {
        lines_of(files, n - 1) + files[n - 1].lines
    }
}

/// The lines of the first `n` files by bucket.
pub open spec fn lines_by_bucket(files: Seq<RawFile>, n: int) -> Map<Group, u64>
    decreases n,
{
    if n <= 0 {
        Map::empty()
    } else {
        let front = lines_by_bucket(files, n - 1);
        match bucket_of_file(files[n - 1].name@) {
            Some(b) => front.insert(
                seq![b],
                (crate::trend::count_in(front, seq![b]) + files[n - 1].lines) as u64,
            ),
            None => front,
        }
    }
}

proof fn lemma_lines_grow(files: Seq<RawFile>, m: int, n: int)
    requires
        0 <= m <= n,
    ensures
        0 <= lines_of(files, m) <= lines_of(files, n),
    decreases n,
{
    if m < n {
        lemma_lines_grow(files, m, n - 1);
    } else if n > 0 {
        lemma_lines_grow(files, m - 1, n - 1);
    }
}

/// The lines of raw files by bucket.
pub fn raw_counts(files: &Vec<RawFile>) -> (r: GroupCounts)
    requires
        lines_of(files@, files@.len() as int) <= u64::MAX,
    ensures
        r.wf(),
        r@ == lines_by_bucket(files@, files@.len() as int),
{
    let mut r = GroupCounts::new();
    let n: usize = files.len();
    let mut i: usize = 0;
    while i < n
        invariant
            n == files@.len(),
            lines_of(files@, n as int) <= u64::MAX,
            i <= n,
            r.wf(),
            r@ == lines_by_bucket(files@, i as int),
            crate::trend::bounded(r@, lines_of(files@, i as int)),
        decreases n - i,
    {
        proof {
            lemma_lines_grow(files@, i + 1, n as int);
            lemma_lines_grow(files@, i as int, i + 1);
        }
        match find_bucket(files[i].name.as_str()) {
            Some(b) => {
                let key = list_of_one(b.as_str());
                r.add_count(&key, files[i].lines);
            },
            None => {},
        }
        i = i + 1;
    }
    r
}

// ── Completeness ─────────────────────────────────────────────────────────────

/// An hour bucket of which fewer rows are indexed than raw lines were written.
#[derive(Debug)]
pub struct BucketCompleteness {
    pub bucket: String,
    pub raw_count: u64,
    pub indexed_count: u64,
}

/// The model of a bucket's completeness.
pub open spec fn gap_view(b: BucketCompleteness) -> (Seq<char>, u64, u64) {
    (b.bucket@, b.raw_count, b.indexed_count)
}

/// The models of buckets' completeness.
pub open spec fn gap_views(v: Seq<BucketCompleteness>) -> Seq<(Seq<char>, u64, u64)> {
    v.map_values(|b: BucketCompleteness| gap_view(b))
}

/// The gaps among the first `n` buckets. A bucket with more rows than lines is
/// none: its raw file is still being written.
pub open spec fn gaps(
    keys: Seq<Group>,
    raw: Seq<u64>,
    indexed: Seq<u64>,
    n: int,
) -> Seq<(Seq<char>, u64, u64)>
    decreases n,
{
    if n <= 0 {
        Seq::empty()
    } else if indexed[n - 1] < raw[n - 1] {
        gaps(keys, raw, indexed, n - 1).push(
            (crate::trend::label_of(keys[n - 1]), raw[n - 1], indexed[n - 1]),
        )
    } else {
        gaps(keys, raw, indexed, n - 1)
    }
}

/// The buckets of which the index is short, with both counts. `indexed` holds
/// the rows of each bucket of `raw`, zero where there is no bucket file.
pub fn completeness(raw: &GroupCounts, indexed: &Vec<u64>) -> (r: Vec<BucketCompleteness>)
    requires
        raw.wf(),
        indexed@.len() == raw.counts@.len(),
    ensures
        gap_views(r@) == gaps(
            key_texts(raw.keys@),
            raw.counts@,
            indexed@,
            raw.counts@.len() as int,
        ),
{
    let ghost keys = key_texts(raw.keys@);
    let mut r: Vec<BucketCompleteness> = Vec::new();
    let n: usize = raw.counts.len();
    let mut i: usize = 0;
    assert(gap_views(r@) =~= Seq::<(Seq<char>, u64, u64)>::empty());
    while i < n
        invariant
            raw.wf(),
            n == raw.counts@.len(),
            indexed@.len() == n,
            keys == key_texts(raw.keys@),
            i <= n,
            gap_views(r@) == gaps(keys, raw.counts@, indexed@, i as int),
        decreases n - i,
    {
        if indexed[i] < raw.counts[i] {
            let ghost before = gap_views(r@);
            let key = &raw.keys[i];
            assert(keys[i as int] == views(key@));
            let bucket = if key.len() > 0 {
                key[0].clone()
            } else {
                String::new()
            };
            assert(bucket@ =~= crate::trend::label_of(keys[i as int]));
            r.push(
                BucketCompleteness {
                    bucket,
                    raw_count: raw.counts[i],
                    indexed_count: indexed[i],
                },
            );
            assert(gap_views(r@) =~= before.push(gap_view(r@.last())));
        }
        i = i + 1;
    }
    r
}

/// The statement that counts a bucket's rows in a window.
pub fn completeness_sql() -> (r: String)
    ensures
        r@ == "SELECT COUNT(*) FROM events WHERE raw_file >= ? AND raw_file < ?"@,
{
    "SELECT COUNT(*) FROM events WHERE raw_file >= ? AND raw_file < ?".to_owned()
}

/// A bucket is reported exactly if its index is short, with its true counts.
pub proof fn every_gap_is_reported(
    keys: Seq<Group>,
    raw: Seq<u64>,
    indexed: Seq<u64>,
    n: int,
    g: (Seq<char>, u64, u64),
)
    ensures
        gaps(keys, raw, indexed, n).contains(g) <==> exists|i: int|
            0 <= i < n && indexed[i] < raw[i] && g == (
                #[trigger] crate::trend::label_of(keys[i]),
                raw[i],
                indexed[i],
            ),
    decreases n,
{
    let s = gaps(keys, raw, indexed, n);
    if n > 0 {
        every_gap_is_reported(keys, raw, indexed, n - 1, g);
        let t = gaps(keys, raw, indexed, n - 1);
        let last = (crate::trend::label_of(keys[n - 1]), raw[n - 1], indexed[n - 1]);
        if indexed[n - 1] < raw[n - 1] {
            assert(s == t.push(last));
            if s.contains(g) && g != last {
                let k = choose|k: int| 0 <= k < s.len() && s[k] == g;
                assert(t[k] == g);
            }
            if t.contains(g) {
                let k = choose|k: int| 0 <= k < t.len() && t[k] == g;
                assert(s[k] == g);
            }
            assert(s[t.len() as int] == last);
        }
    }
}

// ── The oldest and the newest raw file ───────────────────────────────────────

/// Whether a directory's name is a number of `width` digits.
pub open spec fn is_entry(name: Seq<char>, width: int) -> bool {
    name.len() == width && forall|k: int| 0 <= k < name.len() ==> is_digit(#[trigger] name[k])
}

fn names_entry(name: &str, width: usize) -> (r: bool)
    ensures
        r == is_entry(name@, width as int),
{
    let v = to_chars(name);
    if v.len() != width {
        return false;
    }
    let mut i: usize = 0;
    while i < v.len()
        invariant
            i <= v@.len(),
            v@ == name@,
            forall|k: int| 0 <= k < i ==> is_digit(#[trigger] v@[k]),
        decreases v@.len() - i,
    {
        if !digit(v[i]) {
            return false;
        }
        i = i + 1;
    }
    true
}

/// Whether `m` is the first or the last of the numbered names.
pub open spec fn is_extreme_entry(
    e: Extreme,
    names: Seq<Seq<char>>,
    width: int,
    m: Option<Seq<char>>,
) -> bool {
    match m {
        Some(x) => {
            &&& names.contains(x)
            &&& is_entry(x, width)
            &&& forall|i: int|
                0 <= i < names.len() && is_entry(#[trigger] names[i], width) ==> if e is First {
                    !text_lt(names[i], x)
                } else {
                    !text_lt(x, names[i])
                }
        },
        None => forall|i: int| 0 <= i < names.len() ==> !is_entry(#[trigger] names[i], width),
    }
}

/// The first or last of the names that are numbers of `width` digits.
pub fn extreme_entry(e: Extreme, names: &Vec<String>, width: usize) -> (r: Option<String>)
    ensures
        is_extreme_entry(e, views(names@), width as int, opt_view(r)),
{
    let ghost nv = views(names@);
    let mut best: Option<String> = None;
    let mut i: usize = 0;
    assert(nv.take(0).len() == 0);
    while i < names.len()
        invariant
            i <= names@.len(),
            nv == views(names@),
            is_extreme_entry(e, nv.take(i as int), width as int, opt_view(best)),
        decreases names@.len() - i,
    {
        let ghost t = nv.take(i as int);
        let ghost u = nv.take(i + 1);
        let ghost b0 = opt_view(best);
        let name = &names[i];
        assert(u =~= t.push(name@));
        assert(u[i as int] == name@);
        assert(forall|k: int| 0 <= k < i ==> u[k] == t[k]);
        if names_entry(name.as_str(), width) {
            let better = match &best {
                None => true,
                Some(b) => match (e, compare_text(name.as_str(), b.as_str())) {
                    (Extreme::First, Rel::Less) => true,
                    (Extreme::Last, Rel::Greater) => true,
                    _ => false,
                },
            };
            if better {
                best = Some(name.clone());
            }
            proof {
                text_lt_asymmetric(name@, name@);
                if let Some(b) = b0 {
                    text_lt_asymmetric(b, name@);
                    if !better {
                        let k = choose|k: int| 0 <= k < t.len() && t[k] == b;
                        assert(u[k] == b);
                    }
                    assert forall|k: int|
                        0 <= k < u.len() && is_entry(#[trigger] u[k], width as int) implies if e
                        is First {
                        !text_lt(u[k], opt_view(best)->0)
                    } else {
                        !text_lt(opt_view(best)->0, u[k])
                    } by {
                        if k < i && better {
                            assert(is_entry(t[k], width as int));
                            text_lt_total(u[k], b);
                            text_lt_asymmetric(u[k], name@);
                            if e is First && text_lt(u[k], name@) {
                                text_lt_transitive(u[k], name@, b);
                            }
                            if e is Last && text_lt(name@, u[k]) {
                                text_lt_transitive(b, name@, u[k]);
                            }
                        } else if k < i {
                            assert(is_entry(t[k], width as int));
                        }
                    }
                }
            }
        } else {
            proof {
                if let Some(b) = b0 {
                    let k = choose|k: int| 0 <= k < t.len() && t[k] == b;
                    assert(u[k] == b);
                    assert forall|k: int|
                        0 <= k < u.len() && is_entry(#[trigger] u[k], width as int) implies if e
                        is First {
                        !text_lt(u[k], b)
                    } else {
                        !text_lt(b, u[k])
                    } by {
                        assert(is_entry(t[k], width as int));
                    }
                }
            }
        }
        i = i + 1;
    }
    assert(nv.take(i as int) =~= nv);
    best
}

/// The time that the directories `YYYY/MM/DD/HH/MM/SS` under `raw` name.
pub fn time_of_dirs(dirs: &Vec<String>) -> (r: Option<Instant>)
    ensures
        match second_in_name("raw/"@ + joined(views(dirs@), "/"@) + "/x"@) {
            Some(c) => r matches Some(t) && t.nanos == c.seconds() * NANOS && t.in_range(),
            None => r is None,
        },
{
    let mut name = "raw/".to_owned();
    name.append(join(dirs, "/").as_str());
    name.append("/x");
    parse_raw_file_time(name.as_str())
}

} // verus!
