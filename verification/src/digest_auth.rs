//! The digest's authentication section: failed logins by origin, successful
//! ones, and commands run with another user's rights.
use vstd::prelude::*;

use crate::collections::{key_texts, GroupCounts};
use crate::digest::{value_at, value_of_key};
use crate::groups::{groups_at, groups_by_count, ordered_groups, Group};
use crate::order::{key_views, row_before, row_numbers, stable_order, stable_order_of};
use crate::order::{text_lt_asymmetric, SortKey};
use crate::raw_files::{parse_raw_file_time, second_in_name};
use crate::text::{list_of_one, same, views};
use crate::trend::{bounded, count_in, label_of, rows_added, sum_grows, sum_of};
use crate::window::{Instant, MIN_NANOS, NANOS};

verus! {

/// Failed logins of one kind at one source.
#[derive(Debug)]
pub struct AuthFailureBySource {
    pub source: String,
    pub event_type: String,
    pub count: u64,
}

/// The failed logins from one address, over all sources.
#[derive(Debug)]
pub struct AuthFailureRow {
    pub src_ip: String,
    pub count: u64,
    pub by_source: Vec<AuthFailureBySource>,
}

/// A successful login.
#[derive(Debug)]
pub struct AccessEvent {
    pub timestamp: Option<Instant>,
    pub src_ip: String,
    pub username: String,
    pub source: String,
}

/// A command that was run with another user's rights.
#[derive(Debug)]
pub struct SudoEvent {
    pub timestamp: Option<Instant>,
    pub username: String,
    pub target_user: String,
    pub command: String,
}

/// Who got in, who did not, and who took another user's rights.
#[derive(Debug)]
pub struct AuthSection {
    pub failures: Vec<AuthFailureRow>,
    pub successes: Vec<AccessEvent>,
    pub sudo: Vec<SudoEvent>,
}

// ── Failures ─────────────────────────────────────────────────────────────────

/// The model of a row's part.
pub open spec fn part_view(p: AuthFailureBySource) -> (Seq<char>, Seq<char>, u64) {
    (p.source@, p.event_type@, p.count)
}

/// The models of a row's parts.
pub open spec fn part_views(v: Seq<AuthFailureBySource>) -> Seq<(Seq<char>, Seq<char>, u64)> {
    v.map_values(|p: AuthFailureBySource| part_view(p))
}

/// What the first `n` groups hold of one address: source, kind and count.
pub open spec fn parts_of(keys: Seq<Group>, counts: Seq<u64>, ip: Seq<char>, n: int) -> Seq<
    (Seq<char>, Seq<char>, u64),
>
    decreases n,
{
    if n <= 0 {
        Seq::empty()
    } else {
        let front = parts_of(keys, counts, ip, n - 1);
        if label_of(keys[n - 1]) == ip {
            front.push((value_at(keys[n - 1], 1), value_at(keys[n - 1], 2), counts[n - 1]))
        } else {
            front
        }
    }
}

/// The counts by address, over all sources and kinds; events without an address
/// are left out.
pub open spec fn by_address(keys: Seq<Group>, counts: Seq<u64>) -> Map<Group, u64> {
    rows_added(Map::empty(), keys, counts, counts.len() as int)
}

fn parts_with(counts: &GroupCounts, ip: &str) -> (r: Vec<AuthFailureBySource>)
    requires
        counts.wf(),
    ensures
        part_views(r@) == parts_of(
            key_texts(counts.keys@),
            counts.counts@,
            ip@,
            counts.counts@.len() as int,
        ),
{
    let ghost keys = key_texts(counts.keys@);
    let mut r: Vec<AuthFailureBySource> = Vec::new();
    let n: usize = counts.counts.len();
    let mut i: usize = 0;
    assert(part_views(r@) =~= Seq::<(Seq<char>, Seq<char>, u64)>::empty());
    while i < n
        invariant
            counts.wf(),
            keys == key_texts(counts.keys@),
            n == counts.counts@.len(),
            i <= n,
            part_views(r@) == parts_of(keys, counts.counts@, ip@, i as int),
        decreases n - i,
    {
        let key = &counts.keys[i];
        assert(keys[i as int] == views(key@));
        let from = value_of_key(key, 0);
        assert(from@ == label_of(keys[i as int]));
        if same(from.as_str(), ip) {
            let ghost before = part_views(r@);
            r.push(
                AuthFailureBySource {
                    source: value_of_key(key, 1),
                    event_type: value_of_key(key, 2),
                    count: counts.counts[i],
                },
            );
            assert(part_views(r@) =~= before.push(part_view(r@.last())));
        }
        i = i + 1;
    }
    r
}

fn count_by_address(counts: &GroupCounts) -> (r: GroupCounts)
    requires
        counts.wf(),
        sum_of(counts.counts@, counts.counts@.len() as int) <= u64::MAX,
    ensures
        r.wf(),
        r@ == by_address(key_texts(counts.keys@), counts.counts@),
{
    let ghost keys = key_texts(counts.keys@);
    let ghost cs = counts.counts@;
    let mut r = GroupCounts::new();
    let n: usize = counts.counts.len();
    let mut i: usize = 0;
    while i < n
        invariant
            counts.wf(),
            keys == key_texts(counts.keys@),
            cs == counts.counts@,
            n == cs.len(),
            sum_of(cs, n as int) <= u64::MAX,
            i <= n,
            r.wf(),
            r@ == rows_added(Map::empty(), keys, cs, i as int),
            bounded(r@, sum_of(cs, i as int)),
        decreases n - i,
    {
        proof {
            sum_grows(cs, i + 1, n as int);
            sum_grows(cs, i as int, i + 1);
        }
        let key = &counts.keys[i];
        assert(keys[i as int] == views(key@));
        let from = value_of_key(key, 0);
        assert(from@ == label_of(keys[i as int]));
        if crate::text::char_count(from.as_str()) > 0 {
            r.add_count(&list_of_one(from.as_str()), counts.counts[i]);
        }
        i = i + 1;
    }
    r
}

/// The failed logins by address, the most first, from counts by address, source
/// and kind. What one address did at several sources stands in one row.
pub fn auth_failures(counts: &GroupCounts) -> (r: Vec<AuthFailureRow>)
    requires
        counts.wf(),
        sum_of(counts.counts@, counts.counts@.len() as int) <= u64::MAX,
    ensures
        ({
            let keys = key_texts(counts.keys@);
            let gs = ordered_groups(by_address(keys, counts.counts@));
            &&& r@.len() == gs.len()
            &&& forall|i: int|
                0 <= i < r@.len() ==> (#[trigger] r@[i]).src_ip@ == label_of(gs[i].0) && r@[i].count
                    == gs[i].1 && part_views(r@[i].by_source@) == parts_of(
                    keys,
                    counts.counts@,
                    label_of(gs[i].0),
                    counts.counts@.len() as int,
                )
        }),
{
    let ghost keys = key_texts(counts.keys@);
    let per_ip = count_by_address(counts);
    let order = groups_by_count(&per_ip);
    let ghost gs = groups_at(per_ip, order@);
    let mut r: Vec<AuthFailureRow> = Vec::new();
    let n: usize = order.len();
    let mut i: usize = 0;
    while i < n
        invariant
            counts.wf(),
            per_ip.wf(),
            keys == key_texts(counts.keys@),
            n == order@.len(),
            forall|k: int| 0 <= k < order@.len() ==> (#[trigger] order@[k]) < per_ip.keys@.len(),
            gs == groups_at(per_ip, order@),
            i <= n,
            r@.len() == i,
            forall|k: int|
                0 <= k < i ==> (#[trigger] r@[k]).src_ip@ == label_of(gs[k].0) && r@[k].count
                    == gs[k].1 && part_views(r@[k].by_source@) == parts_of(
                    keys,
                    counts.counts@,
                    label_of(gs[k].0),
                    counts.counts@.len() as int,
                ),
        decreases n - i,
    {
        let at: usize = order[i];
        let key = &per_ip.keys[at];
        assert(gs[i as int].0 == views(key@));
        let src_ip = value_of_key(key, 0);
        assert(src_ip@ == label_of(gs[i as int].0));
        let by_source = parts_with(counts, src_ip.as_str());
        r.push(AuthFailureRow { src_ip, count: per_ip.counts[at], by_source });
        i = i + 1;
    }
    r
}

/// The sum of the counts of a row's first `n` parts.
pub open spec fn parts_sum(parts: Seq<(Seq<char>, Seq<char>, u64)>, n: int) -> int
    decreases n,
{
    if n <= 0 {
        0
    } else {
        parts_sum(parts, n - 1) + parts[n - 1].2
    }
}

proof fn lemma_parts_front(a: Seq<(Seq<char>, Seq<char>, u64)>, b: Seq<(Seq<char>, Seq<char>, u64)>, n: int)
    requires
        n <= a.len(),
        n <= b.len(),
        forall|i: int| 0 <= i < n ==> a[i] == b[i],
    ensures
        parts_sum(a, n) == parts_sum(b, n),
    decreases n,
{
    if n > 0 {
        lemma_parts_front(a, b, n - 1);
    }
}

/// An address's count is the sum of its parts.
pub proof fn failures_add_up(keys: Seq<Group>, counts: Seq<u64>, ip: Seq<char>, n: int)
    requires
        ip.len() > 0,
        0 <= n,
        sum_of(counts, n) <= u64::MAX,
    ensures
        count_in(rows_added(Map::empty(), keys, counts, n), seq![ip]) == parts_sum(
            parts_of(keys, counts, ip, n),
            parts_of(keys, counts, ip, n).len() as int,
        ),
        0 <= count_in(rows_added(Map::empty(), keys, counts, n), seq![ip]) <= sum_of(counts, n),
    decreases n,
{
    if n > 0 {
        sum_grows(counts, n - 1, n);
        failures_add_up(keys, counts, ip, n - 1);
        let front = parts_of(keys, counts, ip, n - 1);
        let whole = parts_of(keys, counts, ip, n);
        let label = label_of(keys[n - 1]);
        lemma_parts_front(front, whole, front.len() as int);
        if label.len() > 0 && label != ip {
            assert(seq![label][0] != seq![ip][0]);
        }
    }
}

// ── Events in order of time ──────────────────────────────────────────────────

/// The time of a row by the file name in its first column.
pub open spec fn row_time(row: Group) -> Option<int> {
    match second_in_name(value_at(row, 0)) {
        Some(c) => Some(c.seconds() * NANOS),
        None => None,
    }
}

/// Where a time stands in the order of time; what has none comes first.
pub open spec fn time_rank(t: Option<int>) -> int {
    match t {
        Some(n) => n,
        None => MIN_NANOS - 1,
    }
}

/// The keys by which rows are put in order of time.
pub open spec fn time_keys(rows: Seq<Group>) -> Seq<(int, Seq<char>)> {
    rows.map_values(|row: Group| (time_rank(row_time(row)), Seq::<char>::empty()))
}

/// The rows in order of time; rows of the same time keep their order.
pub open spec fn by_time(rows: Seq<Group>) -> Seq<Group> {
    stable_order_of(time_keys(rows)).map_values(|i: int| rows[i])
}

/// Whether rows stand in order of time.
pub open spec fn in_time_order(rows: Seq<Group>) -> bool {
    forall|i: int, j: int|
        0 <= i < j < rows.len() ==> time_rank(row_time(#[trigger] rows[i])) <= time_rank(
            row_time(#[trigger] rows[j]),
        )
}

/// A moment that may be missing, in nanoseconds.
pub open spec fn opt_nanos(t: Option<Instant>) -> Option<int> {
    match t {
        Some(x) => Some(x.nanos as int),
        None => None,
    }
}

/// The time of a row by the file name in its first column.
fn time_of_row(row: &Vec<String>) -> (r: Option<Instant>)
    ensures
        opt_nanos(r) == row_time(views(row@)),
        r matches Some(t) ==> t.in_range(),
{
    let name = value_of_key(row, 0);
    parse_raw_file_time(name.as_str())
}

/// The numbers of the rows in order of time.
pub(crate) fn rows_by_time(rows: &Vec<Vec<String>>) -> (r: Vec<usize>)
    ensures
        r@.len() == rows@.len(),
        forall|i: int| 0 <= i < r@.len() ==> (#[trigger] r@[i]) < rows@.len(),
        by_time(key_texts(rows@)).len() == r@.len(),
        in_time_order(by_time(key_texts(rows@))),
        forall|i: int|
            0 <= i < r@.len() ==> by_time(key_texts(rows@))[i] == views(
                rows@[#[trigger] r@[i] as int]@,
            ),
{
    let ghost rt = key_texts(rows@);
    let mut keys: Vec<SortKey> = Vec::new();
    let n: usize = rows.len();
    let mut i: usize = 0;
    while i < n
        invariant
            n == rows@.len(),
            rt == key_texts(rows@),
            i <= n,
            keys@.len() == i,
            forall|k: int|
                0 <= k < i ==> (#[trigger] keys@[k]).num == time_rank(row_time(rt[k]))
                    && keys@[k].text@.len() == 0,
        decreases n - i,
    {
        assert(rt[i as int] == views(rows@[i as int]@));
        let num: i128 = match time_of_row(&rows[i]) {
            Some(t) => t.nanos,
            None => MIN_NANOS - 1,
        };
        keys.push(SortKey { num, text: String::new() });
        i = i + 1;
    }
    let r = stable_order(&keys);
    proof {
        let kv = key_views(keys@);
        assert(kv =~= time_keys(rt)) by {
            assert forall|k: int| 0 <= k < kv.len() implies kv[k] == time_keys(rt)[k] by {
                assert(keys@[k].text@ =~= Seq::<char>::empty());
            }
        }
        let rn = row_numbers(r@);
        assert(rn.len() == r@.len());
        assert forall|a: int| 0 <= a < r@.len() implies (#[trigger] r@[a]) < rows@.len()
            && by_time(rt)[a] == views(rows@[r@[a] as int]@) by {
            assert(rn[a] == r@[a]);
            assert(0 <= rn[a] < kv.len());
        }
        assert forall|i: int, j: int| 0 <= i < j < by_time(rt).len() implies time_rank(
            row_time(#[trigger] by_time(rt)[i]),
        ) <= time_rank(row_time(#[trigger] by_time(rt)[j])) by {
            assert(row_before(kv, rn[i], rn[j]));
            text_lt_asymmetric(kv[rn[i]].1, kv[rn[j]].1);
        }
    }
    r
}

/// The successful logins in order of time, from rows of file name, address, user
/// and source.
pub fn successful_access(rows: &Vec<Vec<String>>) -> (r: Vec<AccessEvent>)
    ensures
        ({
            let sorted = by_time(key_texts(rows@));
            &&& r@.len() == rows@.len()
            &&& in_time_order(sorted)
            &&& forall|i: int|
                0 <= i < r@.len() ==> opt_nanos((#[trigger] r@[i]).timestamp) == row_time(sorted[i])
                    && r@[i].src_ip@ == value_at(sorted[i], 1) && r@[i].username@ == value_at(
                    sorted[i],
                    2,
                ) && r@[i].source@ == value_at(sorted[i], 3)
        }),
{
    let order = rows_by_time(rows);
    let ghost sorted = by_time(key_texts(rows@));
    let mut r: Vec<AccessEvent> = Vec::new();
    let mut i: usize = 0;
    while i < order.len()
        invariant
            forall|k: int| 0 <= k < order@.len() ==> (#[trigger] order@[k]) < rows@.len(),
            forall|k: int|
                0 <= k < order@.len() ==> sorted[k] == views(rows@[#[trigger] order@[k] as int]@),
            i <= order@.len(),
            r@.len() == i,
            forall|k: int|
                0 <= k < i ==> opt_nanos((#[trigger] r@[k]).timestamp) == row_time(sorted[k])
                    && r@[k].src_ip@ == value_at(sorted[k], 1) && r@[k].username@ == value_at(
                    sorted[k],
                    2,
                ) && r@[k].source@ == value_at(sorted[k], 3),
        decreases order@.len() - i,
    {
        let row = &rows[order[i]];
        assert(sorted[i as int] == views(row@));
        r.push(
            AccessEvent {
                timestamp: time_of_row(row),
                src_ip: value_of_key(row, 1),
                username: value_of_key(row, 2),
                source: value_of_key(row, 3),
            },
        );
        i = i + 1;
    }
    r
}

/// The commands run with another user's rights in order of time, from rows of
/// file name, user, target user and command.
pub fn sudo_events(rows: &Vec<Vec<String>>) -> (r: Vec<SudoEvent>)
    ensures
        ({
            let sorted = by_time(key_texts(rows@));
            &&& r@.len() == rows@.len()
            &&& in_time_order(sorted)
            &&& forall|i: int|
                0 <= i < r@.len() ==> opt_nanos((#[trigger] r@[i]).timestamp) == row_time(sorted[i])
                    && r@[i].username@ == value_at(sorted[i], 1) && r@[i].target_user@ == value_at(
                    sorted[i],
                    2,
                ) && r@[i].command@ == value_at(sorted[i], 3)
        }),
{
    let order = rows_by_time(rows);
    let ghost sorted = by_time(key_texts(rows@));
    let mut r: Vec<SudoEvent> = Vec::new();
    let mut i: usize = 0;
    while i < order.len()
        invariant
            forall|k: int| 0 <= k < order@.len() ==> (#[trigger] order@[k]) < rows@.len(),
            forall|k: int|
                0 <= k < order@.len() ==> sorted[k] == views(rows@[#[trigger] order@[k] as int]@),
            i <= order@.len(),
            r@.len() == i,
            forall|k: int|
                0 <= k < i ==> opt_nanos((#[trigger] r@[k]).timestamp) == row_time(sorted[k])
                    && r@[k].username@ == value_at(sorted[k], 1) && r@[k].target_user@ == value_at(
                    sorted[k],
                    2,
                ) && r@[k].command@ == value_at(sorted[k], 3),
        decreases order@.len() - i,
    {
        let row = &rows[order[i]];
        assert(sorted[i as int] == views(row@));
        r.push(
            SudoEvent {
                timestamp: time_of_row(row),
                username: value_of_key(row, 1),
                target_user: value_of_key(row, 2),
                command: value_of_key(row, 3),
            },
        );
        i = i + 1;
    }
    r
}

/// The authentication section.
pub fn build_auth(
    failures: &GroupCounts,
    logins: &Vec<Vec<String>>,
    sudo: &Vec<Vec<String>>,
) -> (r: AuthSection)
    requires
        failures.wf(),
        sum_of(failures.counts@, failures.counts@.len() as int) <= u64::MAX,
    ensures
        ({
            let keys = key_texts(failures.keys@);
            let gs = ordered_groups(by_address(keys, failures.counts@));
            let into = by_time(key_texts(logins@));
            let up = by_time(key_texts(sudo@));
            &&& r.failures@.len() == gs.len()
            &&& forall|i: int|
                0 <= i < gs.len() ==> (#[trigger] r.failures@[i]).src_ip@ == label_of(gs[i].0)
                    && r.failures@[i].count == gs[i].1 && part_views(r.failures@[i].by_source@)
                    == parts_of(
                    keys,
                    failures.counts@,
                    label_of(gs[i].0),
                    failures.counts@.len() as int,
                )
            &&& r.successes@.len() == logins@.len()
            &&& forall|i: int|
                0 <= i < r.successes@.len() ==> opt_nanos((#[trigger] r.successes@[i]).timestamp)
                    == row_time(into[i]) && r.successes@[i].src_ip@ == value_at(into[i], 1)
                    && r.successes@[i].username@ == value_at(into[i], 2)
                    && r.successes@[i].source@ == value_at(into[i], 3)
            &&& r.sudo@.len() == sudo@.len()
            &&& forall|i: int|
                0 <= i < r.sudo@.len() ==> opt_nanos((#[trigger] r.sudo@[i]).timestamp) == row_time(
                    up[i],
                ) && r.sudo@[i].username@ == value_at(up[i], 1) && r.sudo@[i].target_user@
                    == value_at(up[i], 2) && r.sudo@[i].command@ == value_at(up[i], 3)
        }),
{
    AuthSection {
        failures: auth_failures(failures),
        successes: successful_access(logins),
        sudo: sudo_events(sudo),
    }
}

} // verus!
