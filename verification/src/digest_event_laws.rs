//! What a digest says of logins, alerts and restarts, told from the events.
use vstd::prelude::*;

use crate::digest::lag;
use crate::digest_alerts::{
    after_alert, after_lines, fired, rule_at, rule_keys, rules_in_order, RuleV, TallyV,
};
use crate::digest_auth::{by_time, parts_of, row_time, time_keys};
use crate::digest_notable::{
    all_clusters, by_first, by_transitions, closed_cluster, clusters, earliest, first_keys,
    is_apart, latest, restart_keys, storm_keys, storm_of, storms_by_time, RestartV, StormV,
};
use crate::groups::Group;
use crate::json::{int_member, parsed_json, text_member, JsonV};
use crate::order::{
    row_before, stable_order_exists, stable_order_holds_every_row, stable_order_of, text_lt,
};

verus! {

// ── Logins ───────────────────────────────────────────────────────────────────

/// The parts of an address's failures are its groups, each with its source, its
/// type and its count.
pub proof fn failures_are_told_apart(
    keys: Seq<Group>,
    counts: Seq<u64>,
    ip: Seq<char>,
    n: int,
    k: int,
)
    requires
        0 <= k < n <= keys.len(),
        n <= counts.len(),
        keys[k].len() == 3,
    ensures
        keys[k][0] == ip ==> parts_of(keys, counts, ip, n).contains(
            (keys[k][1], keys[k][2], counts[k]),
        ),
    decreases n,
{
    let front = parts_of(keys, counts, ip, n - 1);
    let all = parts_of(keys, counts, ip, n);
    if keys[k][0] == ip {
        if k == n - 1 {
            assert(all.last() == (keys[k][1], keys[k][2], counts[k]));
        } else {
            failures_are_told_apart(keys, counts, ip, n - 1, k);
            let x = (keys[k][1], keys[k][2], counts[k]);
            let i = choose|i: int| 0 <= i < front.len() && front[i] == x;
            assert(all[i] == x);
        }
    }
}

/// Each part of an address's failures is one of its groups.
pub proof fn failure_parts_are_counted(
    keys: Seq<Group>,
    counts: Seq<u64>,
    ip: Seq<char>,
    n: int,
    i: int,
) -> (k: int)
    requires
        0 <= n <= keys.len(),
        n <= counts.len(),
        0 <= i < parts_of(keys, counts, ip, n).len(),
        ip.len() > 0,
    ensures
        0 <= k < n,
        keys[k].len() > 0 && keys[k][0] == ip,
        parts_of(keys, counts, ip, n)[i].2 == counts[k],
        keys[k].len() > 1 ==> parts_of(keys, counts, ip, n)[i].0 == keys[k][1],
        keys[k].len() > 2 ==> parts_of(keys, counts, ip, n)[i].1 == keys[k][2],
    decreases n,
{
    if i < parts_of(keys, counts, ip, n - 1).len() {
        failure_parts_are_counted(keys, counts, ip, n - 1, i)
    } else {
        n - 1
    }
}

/// Events are told by their time: none comes before one that happened earlier,
/// those of unknown time come first, and every event is told.
pub proof fn events_are_told_by_time(rows: Seq<Group>, i: int, j: int)
    requires
        0 <= i < j < rows.len(),
        forall|k: int|
            0 <= k < rows.len() ==> (row_time(#[trigger] rows[k]) matches Some(t) ==> t
                >= crate::window::MIN_NANOS),
    ensures
        by_time(rows).len() == rows.len(),
        match (row_time(by_time(rows)[i]), row_time(by_time(rows)[j])) {
            (Some(a), Some(b)) => a <= b,
            (Some(a), None) => false,
            _ => true,
        },
        by_time(rows).contains(rows[i]) && by_time(rows).contains(rows[j]),
        rows.contains(by_time(rows)[i]) && rows.contains(by_time(rows)[j]),
{
    let keys = time_keys(rows);
    stable_order_exists(keys);
    let r = stable_order_of(keys);
    let s = by_time(rows);
    assert(row_before(keys, r[i], r[j]));
    assert(s[i] == rows[r[i]] && s[j] == rows[r[j]]);
    assert(keys[r[i]].0 <= keys[r[j]].0);
    stable_order_holds_every_row(keys, r, i);
    let a = choose|a: int| 0 <= a < r.len() && #[trigger] r[a] == i;
    assert(s[a] == rows[i]);
    stable_order_holds_every_row(keys, r, j);
    let b = choose|b: int| 0 <= b < r.len() && #[trigger] r[b] == j;
    assert(s[b] == rows[j]);
}

/// Events of one time keep their order.
pub proof fn events_of_one_time_keep_their_order(rows: Seq<Group>)
    requires
        forall|i: int, j: int|
            0 <= i < j < rows.len() ==> row_time(#[trigger] rows[i]) == row_time(#[trigger] rows[j]),
    ensures
        by_time(rows) == rows,
{
    let keys = time_keys(rows);
    stable_order_exists(keys);
    let r = stable_order_of(keys);
    let id = Seq::new(keys.len(), |i: int| i);
    assert(crate::order::is_stable_order(keys, id)) by {
        assert forall|a: int, b: int| 0 <= a < b < id.len() implies row_before(
            keys,
            #[trigger] id[a],
            #[trigger] id[b],
        ) by {
            assert(row_time(rows[a]) == row_time(rows[b]));
        }
    }
    crate::order::stable_order_unique(keys, r, id);
    assert(by_time(rows) =~= rows);
}

// ── Alerts ───────────────────────────────────────────────────────────────────

/// How often a rule fired.
pub open spec fn times_fired(rules: Seq<RuleV>, id: Seq<char>, n: int) -> int
    decreases n,
{
    if n <= 0 {
        0
    } else {
        times_fired(rules, id, n - 1) + if rules[n - 1].id == id {
            rules[n - 1].count
        } else {
            0
        }
    }
}

proof fn lemma_times_update(rules: Seq<RuleV>, k: int, x: RuleV, id: Seq<char>, n: int)
    requires
        0 <= k < rules.len(),
        0 <= n <= rules.len(),
        x.id == rules[k].id,
    ensures
        times_fired(rules.update(k, x), id, n) == times_fired(rules, id, n) + if k < n
            && rules[k].id == id {
            x.count - rules[k].count
        } else {
            0
        },
    decreases n,
{
    if n > 0 {
        lemma_times_update(rules, k, x, id, n - 1);
    }
}

proof fn lemma_times_push(rules: Seq<RuleV>, x: RuleV, id: Seq<char>, n: int)
    requires
        0 <= n <= rules.len(),
    ensures
        times_fired(rules.push(x), id, n) == times_fired(rules, id, n),
    decreases n,
{
    if n > 0 {
        lemma_times_push(rules, x, id, n - 1);
    }
}

proof fn lemma_rule_at_is_it(rules: Seq<RuleV>, id: Seq<char>, i: int)
    requires
        0 <= i,
    ensures
        rule_at(rules, id, i) matches Some(k) ==> i <= k < rules.len() && rules[k].id == id,
    decreases rules.len() - i,
{
    if i < rules.len() && rules[i].id != id {
        lemma_rule_at_is_it(rules, id, i + 1);
    }
}

/// The moment of an alert; one that does not say so is of the first moment.
pub open spec fn alert_time(j: JsonV) -> int {
    match int_member(j, "timestamp"@) {
        Some(n) => n,
        None => 0,
    }
}

/// An alert of the window adds one to its rule and to the total, and nothing to
/// other rules; an earlier one only marks its rule as seen before; a later one,
/// and one without a rule, change nothing.
pub proof fn alerts_count_in_their_window(
    t: TallyV,
    j: JsonV,
    start: int,
    end: int,
    id: Seq<char>,
    other: Seq<char>,
)
    requires
        id != other,
    ensures
        ({
            let u = after_alert(t, j, start, end);
            let n = t.rules.len() as int;
            let m = u.rules.len() as int;
            let at = alert_time(j);
            &&& text_member(j, "rule_id"@) is None ==> u == t
            &&& text_member(j, "rule_id"@) == Some(id) && start <= at < end ==> u.total == t.total
                + 1 && u.before == t.before && times_fired(u.rules, id, m) == times_fired(
                t.rules,
                id,
                n,
            ) + 1 && times_fired(u.rules, other, m) == times_fired(t.rules, other, n)
            &&& text_member(j, "rule_id"@) == Some(id) && at < start ==> u.total == t.total
                && u.rules == t.rules && u.before == t.before.insert(id)
            &&& text_member(j, "rule_id"@) == Some(id) && at >= end && start <= end ==> u == t
        }),
{
    let n = t.rules.len() as int;
    if text_member(j, "rule_id"@) == Some(id) {
        lemma_rule_at_is_it(t.rules, id, 0);
        let u = fired(t.rules, id, j);
        match rule_at(t.rules, id, 0) {
            Some(k) => {
                let x = RuleV { count: t.rules[k].count + 1, ..t.rules[k] };
                lemma_times_update(t.rules, k, x, id, n);
                lemma_times_update(t.rules, k, x, other, n);
            },
            None => {
                lemma_times_push(t.rules, u.last(), id, n);
                lemma_times_push(t.rules, u.last(), other, n);
                assert(u == t.rules.push(u.last()));
                assert(times_fired(u, id, n + 1) == times_fired(u, id, n) + 1);
            },
        }
    }
}

/// Rules are listed by how often they fired, the most often first, and those
/// that fired equally often by their ids; every rule is listed.
pub proof fn rules_are_listed_by_count(rules: Seq<RuleV>, i: int, j: int)
    requires
        0 <= i < j < rules.len(),
    ensures
        ({
            let s = rules_in_order(rules);
            &&& s.len() == rules.len()
            &&& s[i].count >= s[j].count
            &&& s[i].count == s[j].count ==> s[i].id == s[j].id || text_lt(s[i].id, s[j].id)
            &&& s.contains(rules[i]) && s.contains(rules[j])
            &&& rules.contains(s[i]) && rules.contains(s[j])
        }),
{
    let keys = rule_keys(rules);
    stable_order_exists(keys);
    let r = stable_order_of(keys);
    let s = rules_in_order(rules);
    assert(row_before(keys, r[i], r[j]));
    assert(s[i] == rules[r[i]] && s[j] == rules[r[j]]);
    stable_order_holds_every_row(keys, r, i);
    let a = choose|a: int| 0 <= a < r.len() && #[trigger] r[a] == i;
    assert(s[a] == rules[i]);
    stable_order_holds_every_row(keys, r, j);
    let b = choose|b: int| 0 <= b < r.len() && #[trigger] r[b] == j;
    assert(s[b] == rules[j]);
}

// ── Restarts ─────────────────────────────────────────────────────────────────

/// The first sight of a storm is that of its earliest service, the last that of
/// its latest.
pub proof fn storms_span_their_services(c: Seq<RestartV>, n: int, i: int)
    requires
        0 <= i < n <= c.len(),
    ensures
        c[i].first matches Some(t) ==> earliest(c, n) matches Some(e) && e <= t,
        c[i].last matches Some(t) ==> latest(c, n) matches Some(e) && e >= t,
        earliest(c, n) matches Some(e) ==> exists|k: int| 0 <= k < n && (#[trigger] c[k]).first
            == Some(e),
        latest(c, n) matches Some(e) ==> exists|k: int| 0 <= k < n && (#[trigger] c[k]).last
            == Some(e),
    decreases n,
{
    if n > 1 {
        storms_span_their_services(c, n - 1, if i < n - 1 {
            i
        } else {
            0
        });
        if earliest(c, n) == c[n - 1].first {
            assert(c[n - 1].first == earliest(c, n));
        }
        if latest(c, n) == c[n - 1].last {
            assert(c[n - 1].last == latest(c, n));
        }
    } else {
        assert(earliest(c, 0) is None && latest(c, 0) is None);
        assert(earliest(c, 1) == c[0].first);
        assert(latest(c, 1) == c[0].last);
    }
}

/// Whether each service was first seen within five minutes of the one before it.
pub open spec fn are_close(rows: Seq<RestartV>) -> bool {
    forall|i: int, j: int|
        0 <= i < rows.len() && j == i + 1 && j < rows.len() ==> (#[trigger] rows[i]).first is Some
            && (#[trigger] rows[j]).first is Some && lag(rows[j].first->0, rows[i].first->0) <= 300
}

/// Whether each service was first seen more than five minutes after the one
/// before it.
pub open spec fn are_apart(rows: Seq<RestartV>) -> bool {
    forall|i: int, j: int|
        0 <= i < rows.len() && j == i + 1 && j < rows.len() ==> (#[trigger] rows[i]).first is Some
            && (#[trigger] rows[j]).first is Some && lag(rows[j].first->0, rows[i].first->0) > 300
}

/// Five services or more that were seen one soon after the other are one storm,
/// and none of them is listed on its own.
pub proof fn close_restarts_are_one_storm(rows: Seq<RestartV>)
    requires
        rows.len() >= 5,
        are_close(by_first(rows)),
    ensures
        all_clusters(rows).storms.len() == 1,
        all_clusters(rows).storms[0] == storm_of(by_first(rows)),
        all_clusters(rows).kept.len() == 0,
{
    let sorted = by_first(rows);
    stable_order_exists(first_keys(rows));
    assert(sorted.len() == rows.len());
    lemma_one_cluster(sorted, sorted.len() as int);
    assert(sorted.take(sorted.len() as int) =~= sorted);
}

proof fn lemma_one_cluster(rows: Seq<RestartV>, n: int)
    requires
        0 <= n <= rows.len(),
        rows.len() >= 2,
        are_close(rows),
    ensures
        clusters(rows, n).cluster == rows.take(n),
        clusters(rows, n).storms.len() == 0,
        clusters(rows, n).kept.len() == 0,
    decreases n,
{
    if n > 0 {
        lemma_one_cluster(rows, n - 1);
        let c = clusters(rows, n - 1).cluster;
        if n == 1 {
            assert(rows[0].first is Some && rows[1].first is Some);
        } else {
            assert(rows[n - 2].first is Some && rows[n - 1].first is Some && lag(
                rows[n - 1].first->0,
                rows[n - 2].first->0,
            ) <= 300);
            assert(c.last() == rows[n - 2]);
        }
        assert(rows.take(n - 1).push(rows[n - 1]) =~= rows.take(n));
    } else {
        assert(rows.take(0) =~= Seq::<RestartV>::empty());
    }
}

/// Services that were seen far apart make no storm, however many they are, and
/// each is listed on its own.
pub proof fn distant_restarts_are_no_storm(rows: Seq<RestartV>)
    requires
        rows.len() >= 2,
        are_apart(by_first(rows)),
    ensures
        all_clusters(rows).storms.len() == 0,
        all_clusters(rows).kept == by_first(rows),
{
    let sorted = by_first(rows);
    stable_order_exists(first_keys(rows));
    assert(sorted.len() == rows.len());
    let n = sorted.len() as int;
    lemma_lone_clusters(sorted, n);
    assert(sorted.take(n - 1) + seq![sorted[n - 1]] =~= sorted);
}

proof fn lemma_lone_clusters(rows: Seq<RestartV>, n: int)
    requires
        1 <= n <= rows.len(),
        rows.len() >= 2,
        are_apart(rows),
    ensures
        clusters(rows, n).cluster == seq![rows[n - 1]],
        clusters(rows, n).storms.len() == 0,
        clusters(rows, n).kept == rows.take(n - 1),
    decreases n,
{
    reveal_with_fuel(clusters, 2);
    if n > 1 {
        lemma_lone_clusters(rows, n - 1);
        let s = clusters(rows, n - 1);
        assert(rows[n - 2].first is Some && rows[n - 1].first is Some && lag(
            rows[n - 1].first->0,
            rows[n - 2].first->0,
        ) > 300);
        assert(s.cluster.last() == rows[n - 2]);
        assert(is_apart(s.cluster, rows[n - 1]));
        let t = closed_cluster(s);
        assert(t.kept =~= rows.take(n - 1)) by {
            assert(rows.take(n - 2) + seq![rows[n - 2]] =~= rows.take(n - 1));
        }
        assert(t.cluster.push(rows[n - 1]) =~= seq![rows[n - 1]]);
    } else {
        assert(rows[0].first is Some && rows[1].first is Some);
        assert(rows.take(0) =~= Seq::<RestartV>::empty());
        assert(clusters(rows, 1).cluster =~= seq![rows[0]]);
    }
}

/// The services left are listed by how often they changed, the most often first,
/// and those that changed equally often by name.
pub proof fn restarts_are_listed_by_count(rows: Seq<RestartV>, i: int, j: int)
    requires
        0 <= i < j < rows.len(),
    ensures
        ({
            let s = by_transitions(rows);
            &&& s.len() == rows.len()
            &&& s[i].count >= s[j].count
            &&& s[i].count == s[j].count ==> s[i].unit == s[j].unit || text_lt(
                s[i].unit,
                s[j].unit,
            )
            &&& s.contains(rows[i]) && s.contains(rows[j])
        }),
{
    let keys = restart_keys(rows);
    stable_order_exists(keys);
    let r = stable_order_of(keys);
    let s = by_transitions(rows);
    assert(row_before(keys, r[i], r[j]));
    assert(s[i] == rows[r[i]] && s[j] == rows[r[j]]);
    stable_order_holds_every_row(keys, r, i);
    let a = choose|a: int| 0 <= a < r.len() && #[trigger] r[a] == i;
    assert(s[a] == rows[i]);
    stable_order_holds_every_row(keys, r, j);
    let b = choose|b: int| 0 <= b < r.len() && #[trigger] r[b] == j;
    assert(s[b] == rows[j]);
}

/// Storms are told by their first sight.
pub proof fn storms_are_told_by_time(storms: Seq<StormV>, i: int, j: int)
    requires
        0 <= i < j < storms.len(),
    ensures
        ({
            let s = storms_by_time(storms);
            &&& s.len() == storms.len()
            &&& s[i].first is Some && s[j].first is Some ==> s[i].first->0 <= s[j].first->0
            &&& s.contains(storms[i]) && s.contains(storms[j])
        }),
{
    let keys = storm_keys(storms);
    stable_order_exists(keys);
    let r = stable_order_of(keys);
    let s = storms_by_time(storms);
    assert(row_before(keys, r[i], r[j]));
    assert(s[i] == storms[r[i]] && s[j] == storms[r[j]]);
    assert(keys[r[i]].0 <= keys[r[j]].0);
    stable_order_holds_every_row(keys, r, i);
    let a = choose|a: int| 0 <= a < r.len() && #[trigger] r[a] == i;
    assert(s[a] == storms[i]);
    stable_order_holds_every_row(keys, r, j);
    let b = choose|b: int| 0 <= b < r.len() && #[trigger] r[b] == j;
    assert(s[b] == storms[j]);
}

/// A rule that fires for the first time takes its title and level from the alert;
/// one that fired before keeps them.
pub proof fn rules_are_titled_by_their_first_alert(rules: Seq<RuleV>, id: Seq<char>, j: JsonV)
    ensures
        (forall|i: int| 0 <= i < rules.len() ==> (#[trigger] rules[i]).id != id) ==> {
            let r = fired(rules, id, j);
            &&& r.len() == rules.len() + 1
            &&& r.last().id == id
            &&& r.last().count == 1
            &&& text_member(j, "rule_title"@) matches Some(t) ==> r.last().title == t
            &&& text_member(j, "level"@) matches Some(t) ==> r.last().level == t
            &&& text_member(j, "rule_title"@) is None ==> r.last().title.len() == 0
            &&& text_member(j, "level"@) is None ==> r.last().level.len() == 0
        },
        (exists|i: int| 0 <= i < rules.len() && (#[trigger] rules[i]).id == id) ==> {
            let r = fired(rules, id, j);
            &&& r.len() == rules.len()
            &&& forall|i: int|
                0 <= i < r.len() ==> (#[trigger] r[i]).id == rules[i].id && r[i].title
                    == rules[i].title && r[i].level == rules[i].level
        },
{
    lemma_rule_at_is_it(rules, id, 0);
    if exists|i: int| 0 <= i < rules.len() && (#[trigger] rules[i]).id == id {
        let i = choose|i: int| 0 <= i < rules.len() && (#[trigger] rules[i]).id == id;
        lemma_rule_at_finds(rules, id, 0, i);
    }
}

proof fn lemma_rule_at_finds(rules: Seq<RuleV>, id: Seq<char>, i: int, k: int)
    requires
        0 <= i <= k < rules.len(),
        rules[k].id == id,
    ensures
        rule_at(rules, id, i) is Some,
    decreases k - i,
{
    if i < k && rules[i].id != id {
        lemma_rule_at_finds(rules, id, i + 1, k);
    }
}

/// A file of alerts counts line by line; a line that cannot be read counts for
/// nothing.
pub proof fn alert_lines_count_one_by_one(
    t: TallyV,
    ls: Seq<Seq<char>>,
    start: int,
    end: int,
    n: int,
)
    requires
        1 <= n <= ls.len(),
    ensures
        parsed_json(ls[n - 1]) is None ==> after_lines(t, ls, start, end, n) == after_lines(
            t,
            ls,
            start,
            end,
            n - 1,
        ),
        parsed_json(ls[n - 1]) matches Some(j) ==> after_lines(t, ls, start, end, n) == after_alert(
            after_lines(t, ls, start, end, n - 1),
            j,
            start,
            end,
        ),
        after_lines(t, ls, start, end, 0) == t,
{
}

} // verus!
