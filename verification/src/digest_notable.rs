//! The digest's notable events: configuration changes, services that started or
//! stopped, and events of the highest severities.
use vstd::prelude::*;

use crate::collections::{key_texts, GroupCounts};
use crate::digest::{lag, named_groups, named_rows, value_at, value_of_key};
use crate::digest_auth::{by_time, in_time_order, opt_nanos, row_time, rows_by_time, time_rank};
use crate::groups::groups_at;
use crate::order::{is_stable_order, key_views, row_numbers, stable_order, stable_order_exists};
use crate::order::{sort_texts, sorted_texts, stable_order_holds_every_row, stable_order_of};
use crate::order::{text_keys, SortKey};
use crate::raw_files::parse_raw_file_time;
use crate::text::views;
use crate::trend::label_of;
use crate::window::{Instant, MIN_NANOS, NANOS};

verus! {

/// The longest pause, in seconds, between two transitions of one storm.
pub const BOOT_STORM_GAP_SECONDS: i64 = 300;

/// The fewest services whose transitions make a storm.
pub const BOOT_STORM_MIN_UNITS: usize = 5;

/// A change of the firewall's configuration.
#[derive(Debug)]
pub struct ConfigChange {
    pub timestamp: Option<Instant>,
    pub admin_user: String,
    pub src_ip: String,
    pub page: String,
}

/// A service's transitions.
#[derive(Debug)]
pub struct ServiceRestart {
    pub unit: String,
    pub count: u64,
    pub first_seen: Option<Instant>,
    pub last_seen: Option<Instant>,
}

/// Transitions of many services close together: one reboot or shutdown.
#[derive(Debug)]
pub struct BootStorm {
    pub unit_count: usize,
    pub units: Vec<String>,
    pub first_seen: Option<Instant>,
    pub last_seen: Option<Instant>,
}

/// An event of the highest severities.
#[derive(Debug)]
pub struct CriticalEvent {
    pub timestamp: Option<Instant>,
    pub source: String,
    pub event_type: String,
    pub severity: String,
}

/// What deserves a look.
#[derive(Debug)]
pub struct NotableSection {
    pub config_changes: Vec<ConfigChange>,
    /// The services that are not part of a storm.
    pub service_restarts: Vec<ServiceRestart>,
    pub boot_storms: Vec<BootStorm>,
    pub critical_events: Vec<CriticalEvent>,
}

// ── Events in order of time ──────────────────────────────────────────────────

/// The configuration changes in order of time, from rows of file name, user,
/// address and page.
pub fn config_changes(rows: &Vec<Vec<String>>) -> (r: Vec<ConfigChange>)
    ensures
        ({
            let sorted = by_time(key_texts(rows@));
            &&& r@.len() == rows@.len()
            &&& in_time_order(sorted)
            &&& forall|i: int|
                0 <= i < r@.len() ==> opt_nanos((#[trigger] r@[i]).timestamp) == row_time(sorted[i])
                    && r@[i].admin_user@ == value_at(sorted[i], 1) && r@[i].src_ip@ == value_at(
                    sorted[i],
                    2,
                ) && r@[i].page@ == value_at(sorted[i], 3)
        }),
{
    let order = rows_by_time(rows);
    let ghost sorted = by_time(key_texts(rows@));
    let mut r: Vec<ConfigChange> = Vec::new();
    let mut i: usize = 0;
    while i < order.len()
        invariant
            forall|k: int| 0 <= k < order@.len() ==> (#[trigger] order@[k]) < rows@.len(),
            forall|k: int|
                0 <= k < order@.len() ==> sorted[k] == views(rows@[#[trigger] order@[k] as int]@),
            i <= order@.len(),
            r@.len() == i,
            forall|k: int|
                0 <= k < i ==> opt_nanos((#[trigger] r@[k]).timestamp) == row_time(sorted[k])
                    && r@[k].admin_user@ == value_at(sorted[k], 1) && r@[k].src_ip@ == value_at(
                    sorted[k],
                    2,
                ) && r@[k].page@ == value_at(sorted[k], 3),
        decreases order@.len() - i,
    {
        let row = &rows[order[i]];
        assert(sorted[i as int] == views(row@));
        r.push(
            ConfigChange {
                timestamp: parse_raw_file_time(value_of_key(row, 0).as_str()),
                admin_user: value_of_key(row, 1),
                src_ip: value_of_key(row, 2),
                page: value_of_key(row, 3),
            },
        );
        i = i + 1;
    }
    r
}

/// The events of the highest severities in order of time, from rows of file
/// name, source, kind and severity.
pub fn critical_events(rows: &Vec<Vec<String>>) -> (r: Vec<CriticalEvent>)
    ensures
        ({
            let sorted = by_time(key_texts(rows@));
            &&& r@.len() == rows@.len()
            &&& in_time_order(sorted)
            &&& forall|i: int|
                0 <= i < r@.len() ==> opt_nanos((#[trigger] r@[i]).timestamp) == row_time(sorted[i])
                    && r@[i].source@ == value_at(sorted[i], 1) && r@[i].event_type@ == value_at(
                    sorted[i],
                    2,
                ) && r@[i].severity@ == value_at(sorted[i], 3)
        }),
{
    let order = rows_by_time(rows);
    let ghost sorted = by_time(key_texts(rows@));
    let mut r: Vec<CriticalEvent> = Vec::new();
    let mut i: usize = 0;
    while i < order.len()
        invariant
            forall|k: int| 0 <= k < order@.len() ==> (#[trigger] order@[k]) < rows@.len(),
            forall|k: int|
                0 <= k < order@.len() ==> sorted[k] == views(rows@[#[trigger] order@[k] as int]@),
            i <= order@.len(),
            r@.len() == i,
            forall|k: int|
                0 <= k < i ==> opt_nanos((#[trigger] r@[k]).timestamp) == row_time(sorted[k])
                    && r@[k].source@ == value_at(sorted[k], 1) && r@[k].event_type@ == value_at(
                    sorted[k],
                    2,
                ) && r@[k].severity@ == value_at(sorted[k], 3),
        decreases order@.len() - i,
    {
        let row = &rows[order[i]];
        assert(sorted[i as int] == views(row@));
        r.push(
            CriticalEvent {
                timestamp: parse_raw_file_time(value_of_key(row, 0).as_str()),
                source: value_of_key(row, 1),
                event_type: value_of_key(row, 2),
                severity: value_of_key(row, 3),
            },
        );
        i = i + 1;
    }
    r
}

// ── Transitions ──────────────────────────────────────────────────────────────

/// The model of a service's transitions.
pub ghost struct RestartV {
    pub unit: Seq<char>,
    pub count: int,
    pub first: Option<int>,
    pub last: Option<int>,
}

/// The model of a service's transitions.
pub open spec fn restart_view(r: ServiceRestart) -> RestartV {
    RestartV {
        unit: r.unit@,
        count: r.count as int,
        first: opt_nanos(r.first_seen),
        last: opt_nanos(r.last_seen),
    }
}

/// The models of services' transitions.
pub open spec fn restart_views(v: Seq<ServiceRestart>) -> Seq<RestartV> {
    v.map_values(|r: ServiceRestart| restart_view(r))
}

/// The model of a storm.
pub ghost struct StormV {
    pub units: Seq<Seq<char>>,
    pub first: Option<int>,
    pub last: Option<int>,
}

/// The model of a storm.
pub open spec fn storm_view(s: BootStorm) -> StormV {
    StormV { units: views(s.units@), first: opt_nanos(s.first_seen), last: opt_nanos(s.last_seen) }
}

/// The models of storms.
pub open spec fn storm_views(v: Seq<BootStorm>) -> Seq<StormV> {
    v.map_values(|s: BootStorm| storm_view(s))
}

/// The transitions by service, the most first, from counts by service. `first`
/// and `last` hold, for each group, when it was first and last seen.
pub fn service_restarts(
    counts: &GroupCounts,
    first: &Vec<Option<Instant>>,
    last: &Vec<Option<Instant>>,
) -> (r: Vec<ServiceRestart>)
    requires
        counts.wf(),
        first@.len() == counts.keys@.len(),
        last@.len() == counts.keys@.len(),
    ensures
        ({
            let gs = named_groups(counts@);
            let keys = key_texts(counts.keys@);
            &&& r@.len() == gs.len()
            &&& forall|i: int|
                0 <= i < r@.len() ==> (#[trigger] r@[i]).unit@ == label_of(gs[i].0) && r@[i].count
                    == gs[i].1 && keys.contains(gs[i].0) && r@[i].first_seen
                    == first@[keys.index_of(gs[i].0)] && r@[i].last_seen
                    == last@[keys.index_of(gs[i].0)]
        }),
{
    let rows = named_rows(counts);
    let ghost gs = named_groups(counts@);
    let ghost keys = key_texts(counts.keys@);
    assert(gs.len() == rows@.len());
    let mut r: Vec<ServiceRestart> = Vec::new();
    let mut i: usize = 0;
    while i < rows.len()
        invariant
            counts.wf(),
            first@.len() == counts.keys@.len(),
            last@.len() == counts.keys@.len(),
            keys == key_texts(counts.keys@),
            forall|k: int| 0 <= k < rows@.len() ==> (#[trigger] rows@[k]) < counts.keys@.len(),
            gs == groups_at(*counts, rows@),
            i <= rows@.len(),
            r@.len() == i,
            forall|k: int|
                0 <= k < i ==> (#[trigger] r@[k]).unit@ == label_of(gs[k].0) && r@[k].count
                    == gs[k].1 && keys.contains(gs[k].0) && r@[k].first_seen
                    == first@[keys.index_of(gs[k].0)] && r@[k].last_seen
                    == last@[keys.index_of(gs[k].0)],
        decreases rows@.len() - i,
    {
        let at: usize = rows[i];
        let key = &counts.keys[at];
        proof {
            assert(gs[i as int].0 == views(key@));
            assert(keys[at as int] == views(key@));
            assert(keys.contains(keys[at as int]));
            counts.positions_are_unique(at as int);
        }
        let unit = value_of_key(key, 0);
        assert(unit@ == label_of(gs[i as int].0));
        r.push(
            ServiceRestart {
                unit,
                count: counts.counts[at],
                first_seen: first[at],
                last_seen: last[at],
            },
        );
        i = i + 1;
    }
    r
}

// ── Storms ───────────────────────────────────────────────────────────────────

/// The services of a cluster.
pub open spec fn units_of(c: Seq<RestartV>) -> Seq<Seq<char>> {
    c.map_values(|r: RestartV| r.unit)
}

/// The earliest first sighting among the first `n`.
pub open spec fn earliest(c: Seq<RestartV>, n: int) -> Option<int>
    decreases n,
{
    if n <= 0 {
        None
    } else {
        match (earliest(c, n - 1), c[n - 1].first) {
            (None, x) => x,
            (b, None) => b,
            (Some(b), Some(x)) => Some(
                if x < b {
                    x
                } else {
                    b
                },
            ),
        }
    }
}

/// The latest last sighting among the first `n`.
pub open spec fn latest(c: Seq<RestartV>, n: int) -> Option<int>
    decreases n,
{
    if n <= 0 {
        None
    } else {
        match (latest(c, n - 1), c[n - 1].last) {
            (None, x) => x,
            (b, None) => b,
            (Some(b), Some(x)) => Some(
                if x > b {
                    x
                } else {
                    b
                },
            ),
        }
    }
}

/// The storm that a cluster is.
pub open spec fn storm_of(c: Seq<RestartV>) -> StormV {
    StormV {
        units: sorted_texts(units_of(c)),
        first: earliest(c, c.len() as int),
        last: latest(c, c.len() as int),
    }
}

/// What was sorted out so far: services on their own, storms, and the cluster
/// that is still growing.
pub ghost struct Clusters {
    pub kept: Seq<RestartV>,
    pub storms: Seq<StormV>,
    pub cluster: Seq<RestartV>,
}

/// After the cluster was closed: a storm if it is large enough.
pub open spec fn closed_cluster(s: Clusters) -> Clusters {
    if s.cluster.len() >= BOOT_STORM_MIN_UNITS {
        Clusters { storms: s.storms.push(storm_of(s.cluster)), cluster: seq![], ..s }
    } else {
        Clusters { kept: s.kept + s.cluster, cluster: seq![], ..s }
    }
}

/// Whether a row comes too late for a cluster.
pub open spec fn is_apart(c: Seq<RestartV>, row: RestartV) -> bool {
    c.len() > 0 && lag(row.first->0, c.last().first->0) > BOOT_STORM_GAP_SECONDS
}

/// After one more row. A row without a time is never part of a cluster.
pub open spec fn with_row(s: Clusters, row: RestartV) -> Clusters {
    if row.first is None {
        Clusters { kept: s.kept.push(row), ..s }
    } else {
        let t = if is_apart(s.cluster, row) {
            closed_cluster(s)
        } else {
            s
        };
        Clusters { cluster: t.cluster.push(row), ..t }
    }
}

/// After the first `n` rows.
pub open spec fn clusters(rows: Seq<RestartV>, n: int) -> Clusters
    decreases n,
{
    if n <= 0 {
        Clusters { kept: seq![], storms: seq![], cluster: seq![] }
    } else {
        with_row(clusters(rows, n - 1), rows[n - 1])
    }
}

/// The keys by which rows are put in order of their first sighting.
pub open spec fn first_keys(rows: Seq<RestartV>) -> Seq<(int, Seq<char>)> {
    rows.map_values(|r: RestartV| (time_rank(r.first), Seq::<char>::empty()))
}

/// The rows in order of their first sighting; those without one come first.
pub open spec fn by_first(rows: Seq<RestartV>) -> Seq<RestartV> {
    stable_order_of(first_keys(rows)).map_values(|i: int| rows[i])
}

/// The keys by which services are listed.
pub open spec fn restart_keys(rows: Seq<RestartV>) -> Seq<(int, Seq<char>)> {
    rows.map_values(|r: RestartV| (-r.count, r.unit))
}

/// The services, the most transitions first, then by name.
pub open spec fn by_transitions(rows: Seq<RestartV>) -> Seq<RestartV> {
    stable_order_of(restart_keys(rows)).map_values(|i: int| rows[i])
}

/// The keys by which storms are listed.
pub open spec fn storm_keys(s: Seq<StormV>) -> Seq<(int, Seq<char>)> {
    s.map_values(|x: StormV| (time_rank(x.first), Seq::<char>::empty()))
}

/// The storms in order of time.
pub open spec fn storms_by_time(s: Seq<StormV>) -> Seq<StormV> {
    stable_order_of(storm_keys(s)).map_values(|i: int| s[i])
}

/// All rows sorted out.
pub open spec fn all_clusters(rows: Seq<RestartV>) -> Clusters {
    closed_cluster(clusters(by_first(rows), rows.len() as int))
}

fn copy_restart(r: &ServiceRestart) -> (c: ServiceRestart)
    ensures
        restart_view(c) == restart_view(*r),
        c.first_seen == r.first_seen,
        c.last_seen == r.last_seen,
{
    ServiceRestart {
        unit: r.unit.clone(),
        count: r.count,
        first_seen: r.first_seen,
        last_seen: r.last_seen,
    }
}

/// Copies the rows of an order.
fn rows_at(rows: &Vec<ServiceRestart>, order: &Vec<usize>) -> (r: Vec<ServiceRestart>)
    requires
        forall|k: int| 0 <= k < order@.len() ==> (#[trigger] order@[k]) < rows@.len(),
    ensures
        restart_views(r@) == row_numbers(order@).map_values(|i: int| restart_views(rows@)[i]),
        forall|k: int|
            0 <= k < r@.len() ==> (#[trigger] r@[k]).first_seen
                == rows@[order@[k] as int].first_seen && r@[k].last_seen
                == rows@[order@[k] as int].last_seen,
{
    let mut r: Vec<ServiceRestart> = Vec::new();
    let mut i: usize = 0;
    while i < order.len()
        invariant
            forall|k: int| 0 <= k < order@.len() ==> (#[trigger] order@[k]) < rows@.len(),
            i <= order@.len(),
            r@.len() == i,
            forall|k: int|
                0 <= k < i ==> restart_view(#[trigger] r@[k]) == restart_view(
                    rows@[order@[k] as int],
                ),
            forall|k: int|
                0 <= k < i ==> (#[trigger] r@[k]).first_seen == rows@[order@[k] as int].first_seen
                    && r@[k].last_seen == rows@[order@[k] as int].last_seen,
        decreases order@.len() - i,
    {
        r.push(copy_restart(&rows[order[i]]));
        i = i + 1;
    }
    assert(restart_views(r@) =~= row_numbers(order@).map_values(
        |i: int| restart_views(rows@)[i],
    ));
    r
}

/// Whether the times of rows lie in the calendar's range.
pub open spec fn times_fit(rows: Seq<ServiceRestart>) -> bool {
    forall|i: int|
        0 <= i < rows.len() ==> ((#[trigger] rows[i]).first_seen matches Some(t) ==> t.in_range())
            && (rows[i].last_seen matches Some(t) ==> t.in_range())
}

fn order_by_first(rows: &Vec<ServiceRestart>) -> (r: Vec<ServiceRestart>)
    requires
        times_fit(rows@),
    ensures
        restart_views(r@) == by_first(restart_views(rows@)),
        r@.len() == rows@.len(),
        times_fit(r@),
{
    let ghost rv = restart_views(rows@);
    let mut keys: Vec<SortKey> = Vec::new();
    let n: usize = rows.len();
    let mut i: usize = 0;
    while i < n
        invariant
            times_fit(rows@),
            n == rows@.len(),
            rv == restart_views(rows@),
            i <= n,
            keys@.len() == i,
            forall|k: int|
                0 <= k < i ==> (#[trigger] keys@[k]).num == time_rank(rv[k].first)
                    && keys@[k].text@.len() == 0,
        decreases n - i,
    {
        assert(rv[i as int] == restart_view(rows@[i as int]));
        let num: i128 = match rows[i].first_seen {
            Some(t) => t.nanos,
            None => MIN_NANOS - 1,
        };
        keys.push(SortKey { num, text: String::new() });
        i = i + 1;
    }
    let order = stable_order(&keys);
    proof {
        let kv = key_views(keys@);
        assert(kv =~= first_keys(rv)) by {
            assert forall|k: int| 0 <= k < kv.len() implies kv[k] == first_keys(rv)[k] by {
                assert(keys@[k].text@ =~= Seq::<char>::empty());
            }
        }
        let rn = row_numbers(order@);
        assert forall|k: int| 0 <= k < order@.len() implies (#[trigger] order@[k]) < rows@.len() by {
            assert(rn[k] == order@[k]);
            assert(0 <= rn[k] < kv.len());
        }
    }
    let r = rows_at(rows, &order);
    assert(restart_views(r@).len() == r@.len());
    r
}

fn order_by_transitions(rows: &Vec<ServiceRestart>) -> (r: Vec<ServiceRestart>)
    ensures
        restart_views(r@) == by_transitions(restart_views(rows@)),
{
    let ghost rv = restart_views(rows@);
    let mut keys: Vec<SortKey> = Vec::new();
    let n: usize = rows.len();
    let mut i: usize = 0;
    while i < n
        invariant
            n == rows@.len(),
            rv == restart_views(rows@),
            i <= n,
            keys@.len() == i,
            forall|k: int|
                0 <= k < i ==> (#[trigger] keys@[k]).num == -rv[k].count && keys@[k].text@
                    == rv[k].unit,
        decreases n - i,
    {
        assert(rv[i as int] == restart_view(rows@[i as int]));
        keys.push(SortKey { num: -(rows[i].count as i128), text: rows[i].unit.clone() });
        i = i + 1;
    }
    let order = stable_order(&keys);
    proof {
        let kv = key_views(keys@);
        assert(kv =~= restart_keys(rv));
        let rn = row_numbers(order@);
        assert forall|k: int| 0 <= k < order@.len() implies (#[trigger] order@[k]) < rows@.len() by {
            assert(rn[k] == order@[k]);
            assert(0 <= rn[k] < kv.len());
        }
    }
    rows_at(rows, &order)
}

fn copy_storm(s: &BootStorm) -> (c: BootStorm)
    ensures
        storm_view(c) == storm_view(*s),
        c.unit_count == s.unit_count,
{
    BootStorm {
        unit_count: s.unit_count,
        units: crate::text::copy_strings(&s.units),
        first_seen: s.first_seen,
        last_seen: s.last_seen,
    }
}

/// Whether the storms' counts are those of their services.
pub open spec fn counts_fit(s: Seq<BootStorm>) -> bool {
    forall|i: int| 0 <= i < s.len() ==> (#[trigger] s[i]).unit_count == s[i].units@.len()
}

/// Whether the storms' times lie in the calendar's range.
spec fn storm_times_fit(s: Seq<BootStorm>) -> bool {
    forall|i: int|
        0 <= i < s.len() ==> ((#[trigger] s[i]).first_seen matches Some(t) ==> t.in_range())
}

fn order_storms(storms: &Vec<BootStorm>) -> (r: Vec<BootStorm>)
    requires
        counts_fit(storms@),
        storm_times_fit(storms@),
    ensures
        storm_views(r@) == storms_by_time(storm_views(storms@)),
        counts_fit(r@),
{
    let ghost sv = storm_views(storms@);
    let mut keys: Vec<SortKey> = Vec::new();
    let n: usize = storms.len();
    let mut i: usize = 0;
    while i < n
        invariant
            storm_times_fit(storms@),
            n == storms@.len(),
            sv == storm_views(storms@),
            i <= n,
            keys@.len() == i,
            forall|k: int|
                0 <= k < i ==> (#[trigger] keys@[k]).num == time_rank(sv[k].first)
                    && keys@[k].text@.len() == 0,
        decreases n - i,
    {
        assert(sv[i as int] == storm_view(storms@[i as int]));
        let num: i128 = match storms[i].first_seen {
            Some(t) => t.nanos,
            None => MIN_NANOS - 1,
        };
        keys.push(SortKey { num, text: String::new() });
        i = i + 1;
    }
    let order = stable_order(&keys);
    let ghost kv = key_views(keys@);
    let ghost rn = row_numbers(order@);
    proof {
        assert(kv =~= storm_keys(sv)) by {
            assert forall|k: int| 0 <= k < kv.len() implies kv[k] == storm_keys(sv)[k] by {
                assert(keys@[k].text@ =~= Seq::<char>::empty());
            }
        }
        assert(rn.len() == order@.len());
    }
    let mut r: Vec<BootStorm> = Vec::new();
    let mut i: usize = 0;
    while i < order.len()
        invariant
            counts_fit(storms@),
            sv == storm_views(storms@),
            rn == row_numbers(order@),
            is_stable_order(kv, rn),
            kv.len() == storms@.len(),
            i <= order@.len(),
            r@.len() == i,
            forall|k: int| 0 <= k < i ==> storm_view(#[trigger] r@[k]) == sv[rn[k]],
            counts_fit(r@),
        decreases order@.len() - i,
    {
        assert(rn[i as int] == order@[i as int]);
        assert(0 <= rn[i as int] < kv.len());
        let at: usize = order[i];
        let c = copy_storm(&storms[at]);
        proof {
            assert(sv[at as int] == storm_view(storms@[at as int]));
            assert(views(c.units@).len() == c.units@.len());
            assert(views(storms@[at as int].units@).len() == storms@[at as int].units@.len());
        }
        r.push(c);
        i = i + 1;
    }
    assert(storm_views(r@) =~= storms_by_time(sv));
    r
}

fn sort_units(cluster: &Vec<ServiceRestart>) -> (r: Vec<String>)
    ensures
        views(r@) == sorted_texts(units_of(restart_views(cluster@))),
        r@.len() == cluster@.len(),
{
    let ghost units = units_of(restart_views(cluster@));
    let mut names: Vec<String> = Vec::new();
    let mut i: usize = 0;
    while i < cluster.len()
        invariant
            units == units_of(restart_views(cluster@)),
            i <= cluster@.len(),
            names@.len() == i,
            forall|k: int| 0 <= k < i ==> (#[trigger] names@[k])@ == units[k],
        decreases cluster@.len() - i,
    {
        assert(restart_views(cluster@)[i as int] == restart_view(cluster@[i as int]));
        names.push(cluster[i].unit.clone());
        i = i + 1;
    }
    assert(views(names@) =~= units);
    sort_texts(&names)
}

fn make_storm(cluster: &Vec<ServiceRestart>) -> (r: BootStorm)
    requires
        times_fit(cluster@),
    ensures
        storm_view(r) == storm_of(restart_views(cluster@)),
        r.unit_count == r.units@.len(),
        r.first_seen matches Some(t) ==> t.in_range(),
{
    let ghost cv = restart_views(cluster@);
    let mut first: Option<Instant> = None;
    let mut last: Option<Instant> = None;
    let n: usize = cluster.len();
    let mut i: usize = 0;
    while i < n
        invariant
            times_fit(cluster@),
            n == cluster@.len(),
            cv == restart_views(cluster@),
            i <= n,
            opt_nanos(first) == earliest(cv, i as int),
            opt_nanos(last) == latest(cv, i as int),
            first matches Some(t) ==> t.in_range(),
        decreases n - i,
    {
        assert(cv[i as int] == restart_view(cluster@[i as int]));
        match (first, cluster[i].first_seen) {
            (None, x) => {
                first = x;
            },
            (Some(b), Some(x)) => {
                if x.nanos < b.nanos {
                    first = Some(x);
                }
            },
            _ => {},
        }
        match (last, cluster[i].last_seen) {
            (None, x) => {
                last = x;
            },
            (Some(b), Some(x)) => {
                if x.nanos > b.nanos {
                    last = Some(x);
                }
            },
            _ => {},
        }
        i = i + 1;
    }
    BootStorm { unit_count: n, units: sort_units(cluster), first_seen: first, last_seen: last }
}

fn close_cluster(
    kept: &mut Vec<ServiceRestart>,
    storms: &mut Vec<BootStorm>,
    cluster: &mut Vec<ServiceRestart>,
)
    requires
        times_fit(old(cluster)@),
        counts_fit(old(storms)@),
        storm_times_fit(old(storms)@),
    ensures
        (Clusters {
            kept: restart_views(final(kept)@),
            storms: storm_views(final(storms)@),
            cluster: restart_views(final(cluster)@),
        }) == closed_cluster(
            Clusters {
                kept: restart_views(old(kept)@),
                storms: storm_views(old(storms)@),
                cluster: restart_views(old(cluster)@),
            },
        ),
        final(cluster)@.len() == 0,
        counts_fit(final(storms)@),
        storm_times_fit(final(storms)@),
{
    let ghost kv = restart_views(kept@);
    let ghost sv = storm_views(storms@);
    let ghost cv = restart_views(cluster@);
    assert(cv.len() == cluster@.len());
    if cluster.len() >= BOOT_STORM_MIN_UNITS {
        storms.push(make_storm(cluster));
        assert(storm_views(storms@) =~= sv.push(storm_of(cv)));
    } else {
        let n: usize = cluster.len();
        let mut i: usize = 0;
        assert(kv + cv.take(0) =~= kv);
        while i < n
            invariant
                n == cluster@.len(),
                cv == restart_views(cluster@),
                i <= n,
                restart_views(kept@) == kv + cv.take(i as int),
            decreases n - i,
        {
            let ghost before = restart_views(kept@);
            assert(cv[i as int] == restart_view(cluster@[i as int]));
            kept.push(copy_restart(&cluster[i]));
            assert(restart_views(kept@) =~= before.push(cv[i as int]));
            assert(cv.take(i + 1) =~= cv.take(i as int).push(cv[i as int]));
            assert(kv + cv.take(i + 1) =~= (kv + cv.take(i as int)).push(cv[i as int]));
            i = i + 1;
        }
        assert(cv.take(n as int) =~= cv);
    }
    cluster.clear();
    assert(restart_views(cluster@) =~= Seq::<RestartV>::empty());
}

/// Puts services whose transitions lie close together into storms, and lists the
/// others: the most transitions first, then by name; storms in order of time.
pub fn collapse_boot_storms(rows: Vec<ServiceRestart>) -> (r: (Vec<ServiceRestart>, Vec<BootStorm>))
    requires
        times_fit(rows@),
    ensures
        restart_views(r.0@) == by_transitions(all_clusters(restart_views(rows@)).kept),
        storm_views(r.1@) == storms_by_time(all_clusters(restart_views(rows@)).storms),
        counts_fit(r.1@),
{
    let sorted = order_by_first(&rows);
    let ghost rv = restart_views(sorted@);
    let mut kept: Vec<ServiceRestart> = Vec::new();
    let mut storms: Vec<BootStorm> = Vec::new();
    let mut cluster: Vec<ServiceRestart> = Vec::new();
    let n: usize = sorted.len();
    let mut i: usize = 0;
    proof {
        assert(restart_views(kept@) =~= Seq::<RestartV>::empty());
        assert(restart_views(cluster@) =~= Seq::<RestartV>::empty());
        assert(storm_views(storms@) =~= Seq::<StormV>::empty());
    }
    while i < n
        invariant
            times_fit(sorted@),
            n == sorted@.len(),
            rv == restart_views(sorted@),
            i <= n,
            times_fit(cluster@),
            counts_fit(storms@),
            storm_times_fit(storms@),
            forall|k: int| 0 <= k < cluster@.len() ==> (#[trigger] cluster@[k]).first_seen is Some,
            (Clusters {
                kept: restart_views(kept@),
                storms: storm_views(storms@),
                cluster: restart_views(cluster@),
            }) == clusters(rv, i as int),
        decreases n - i,
    {
        let row = copy_restart(&sorted[i]);
        let ghost x = rv[i as int];
        assert(x == restart_view(sorted@[i as int]));
        match row.first_seen {
            None => {
                let ghost before = restart_views(kept@);
                kept.push(row);
                assert(restart_views(kept@) =~= before.push(x));
            },
            Some(t) => {
                let m: usize = cluster.len();
                assert(restart_views(cluster@).len() == m);
                if m > 0 {
                    assert(restart_views(cluster@)[m - 1] == restart_view(cluster@[m - 1]));
                    match cluster[m - 1].first_seen {
                        Some(u) => {
                            assert(u.in_range());
                            let gap: i128 = if t.nanos >= u.nanos {
                                (t.nanos - u.nanos) / NANOS
                            } else {
                                -((u.nanos - t.nanos) / NANOS)
                            };
                            assert(gap == lag(t.nanos as int, u.nanos as int));
                            if gap > BOOT_STORM_GAP_SECONDS as i128 {
                                close_cluster(&mut kept, &mut storms, &mut cluster);
                            }
                        },
                        None => {},
                    }
                }
                let ghost before = restart_views(cluster@);
                cluster.push(row);
                assert(restart_views(cluster@) =~= before.push(x));
            },
        }
        i = i + 1;
    }
    close_cluster(&mut kept, &mut storms, &mut cluster);
    (order_by_transitions(&kept), order_storms(&storms))
}

/// The notable events.
pub fn build_notable(
    config: &Vec<Vec<String>>,
    restarts: Vec<ServiceRestart>,
    critical: &Vec<Vec<String>>,
) -> (r: NotableSection)
    requires
        times_fit(restarts@),
    ensures
        ({
            let changes = by_time(key_texts(config@));
            let events = by_time(key_texts(critical@));
            let sorted = all_clusters(restart_views(restarts@));
            &&& r.config_changes@.len() == config@.len()
            &&& forall|i: int|
                0 <= i < config@.len() ==> opt_nanos((#[trigger] r.config_changes@[i]).timestamp)
                    == row_time(changes[i]) && r.config_changes@[i].admin_user@ == value_at(
                    changes[i],
                    1,
                ) && r.config_changes@[i].src_ip@ == value_at(changes[i], 2)
                    && r.config_changes@[i].page@ == value_at(changes[i], 3)
            &&& restart_views(r.service_restarts@) == by_transitions(sorted.kept)
            &&& storm_views(r.boot_storms@) == storms_by_time(sorted.storms)
            &&& counts_fit(r.boot_storms@)
            &&& r.critical_events@.len() == critical@.len()
            &&& forall|i: int|
                0 <= i < critical@.len() ==> opt_nanos((#[trigger] r.critical_events@[i]).timestamp)
                    == row_time(events[i]) && r.critical_events@[i].source@ == value_at(
                    events[i],
                    1,
                ) && r.critical_events@[i].event_type@ == value_at(events[i], 2)
                    && r.critical_events@[i].severity@ == value_at(events[i], 3)
        }),
{
    let (service_restarts, boot_storms) = collapse_boot_storms(restarts);
    NotableSection {
        config_changes: config_changes(config),
        service_restarts,
        boot_storms,
        critical_events: critical_events(critical),
    }
}

// ── Laws ─────────────────────────────────────────────────────────────────────

/// The number of services in the first `n` storms.
pub open spec fn stormy_units(storms: Seq<StormV>, n: int) -> int
    decreases n,
{
    if n <= 0 {
        0
    } else {
        stormy_units(storms, n - 1) + storms[n - 1].units.len()
    }
}

proof fn lemma_same_storms(a: Seq<StormV>, b: Seq<StormV>, n: int)
    requires
        n <= a.len(),
        n <= b.len(),
        forall|i: int| 0 <= i < n ==> a[i] == b[i],
    ensures
        stormy_units(a, n) == stormy_units(b, n),
    decreases n,
{
    if n > 0 {
        lemma_same_storms(a, b, n - 1);
    }
}

proof fn lemma_sorted_len(s: Seq<Seq<char>>)
    ensures
        sorted_texts(s).len() == s.len(),
        forall|t: Seq<char>| s.contains(t) ==> #[trigger] sorted_texts(s).contains(t),
{
    let keys = text_keys(s);
    stable_order_exists(keys);
    let r = stable_order_of(keys);
    assert forall|t: Seq<char>| s.contains(t) implies #[trigger] sorted_texts(s).contains(t) by {
        let x = choose|x: int| 0 <= x < s.len() && s[x] == t;
        stable_order_holds_every_row(keys, r, x);
        let a = choose|a: int| 0 <= a < r.len() && #[trigger] r[a] == x;
        assert(sorted_texts(s)[a] == t);
    }
}

/// What holds of the clusters after `n` rows.
spec fn clusters_ok(s: Clusters, n: int) -> bool {
    &&& s.kept.len() + stormy_units(s.storms, s.storms.len() as int) + s.cluster.len() == n
    &&& forall|i: int|
        0 <= i < s.storms.len() ==> (#[trigger] s.storms[i]).units.len() >= BOOT_STORM_MIN_UNITS
}

/// Whether a service is listed on its own or in a storm.
pub open spec fn is_listed(kept: Seq<RestartV>, storms: Seq<StormV>, unit: Seq<char>) -> bool {
    ||| exists|i: int| 0 <= i < kept.len() && (#[trigger] kept[i]).unit == unit
    ||| exists|i: int| 0 <= i < storms.len() && (#[trigger] storms[i]).units.contains(unit)
}

proof fn lemma_closed(s: Clusters, n: int, unit: Seq<char>)
    requires
        clusters_ok(s, n),
    ensures
        clusters_ok(closed_cluster(s), n),
        is_listed(s.kept, s.storms, unit) ==> is_listed(
            closed_cluster(s).kept,
            closed_cluster(s).storms,
            unit,
        ),
        units_of(s.cluster).contains(unit) ==> is_listed(
            closed_cluster(s).kept,
            closed_cluster(s).storms,
            unit,
        ),
{
    let t = closed_cluster(s);
    let us = units_of(s.cluster);
    lemma_sorted_len(us);
    if s.cluster.len() >= BOOT_STORM_MIN_UNITS {
        lemma_same_storms(s.storms, t.storms, s.storms.len() as int);
        assert(t.storms[s.storms.len() as int].units == sorted_texts(us));
        if is_listed(s.kept, s.storms, unit) {
            if exists|i: int| 0 <= i < s.storms.len() && (#[trigger] s.storms[i]).units.contains(
                unit,
            ) {
                let i = choose|i: int|
                    0 <= i < s.storms.len() && (#[trigger] s.storms[i]).units.contains(unit);
                assert(t.storms[i].units.contains(unit));
            }
        }
    } else {
        if exists|i: int| 0 <= i < s.kept.len() && (#[trigger] s.kept[i]).unit == unit {
            let i = choose|i: int| 0 <= i < s.kept.len() && (#[trigger] s.kept[i]).unit == unit;
            assert(t.kept[i].unit == unit);
        }
        if us.contains(unit) {
            let i = choose|i: int| 0 <= i < us.len() && us[i] == unit;
            assert(t.kept[s.kept.len() + i].unit == unit);
        }
    }
}

proof fn lemma_clusters(rows: Seq<RestartV>, n: int, k: int)
    requires
        0 <= n <= rows.len(),
    ensures
        clusters_ok(clusters(rows, n), n),
        0 <= k < n ==> is_listed(clusters(rows, n).kept, clusters(rows, n).storms, rows[k].unit)
            || units_of(clusters(rows, n).cluster).contains(rows[k].unit),
    decreases n,
{
    if n > 0 {
        lemma_clusters(rows, n - 1, k);
        let s = clusters(rows, n - 1);
        let t = clusters(rows, n);
        let row = rows[n - 1];
        let unit = rows[k].unit;
        if row.first is None {
            if 0 <= k < n - 1 {
                if exists|i: int| 0 <= i < s.kept.len() && (#[trigger] s.kept[i]).unit == unit {
                    let i = choose|i: int|
                        0 <= i < s.kept.len() && (#[trigger] s.kept[i]).unit == unit;
                    assert(t.kept[i].unit == unit);
                }
            } else if k == n - 1 {
                assert(t.kept[s.kept.len() as int].unit == unit);
            }
        } else {
            lemma_closed(s, n - 1, unit);
            let u = if is_apart(s.cluster, row) {
                closed_cluster(s)
            } else {
                s
            };
            assert(t.cluster == u.cluster.push(row));
            assert(units_of(t.cluster) =~= units_of(u.cluster).push(row.unit));
            if k == n - 1 {
                assert(units_of(t.cluster)[u.cluster.len() as int] == unit);
            } else if units_of(u.cluster).contains(unit) {
                let i = choose|i: int|
                    0 <= i < units_of(u.cluster).len() && units_of(u.cluster)[i] == unit;
                assert(units_of(t.cluster)[i] == unit);
            }
        }
    }
}

/// No service is lost: each is listed, on its own or in a storm, and as many are
/// listed as there were.
pub proof fn storms_lose_no_service(rows: Seq<RestartV>, k: int)
    ensures
        all_clusters(rows).kept.len() + stormy_units(
            all_clusters(rows).storms,
            all_clusters(rows).storms.len() as int,
        ) == rows.len(),
        0 <= k < rows.len() ==> is_listed(
            all_clusters(rows).kept,
            all_clusters(rows).storms,
            rows[k].unit,
        ),
{
    let keys = first_keys(rows);
    stable_order_exists(keys);
    let r = stable_order_of(keys);
    let sorted = by_first(rows);
    let n = rows.len() as int;
    lemma_clusters(sorted, n, 0);
    lemma_closed(clusters(sorted, n), n, Seq::empty());
    if 0 <= k < n {
        stable_order_holds_every_row(keys, r, k);
        let a = choose|a: int| 0 <= a < r.len() && #[trigger] r[a] == k;
        assert(sorted[a] == rows[k]);
        lemma_clusters(sorted, n, a);
        lemma_closed(clusters(sorted, n), n, rows[k].unit);
    }
}

/// A storm has five services at least, so fewer rows make none.
pub proof fn few_services_make_no_storm(rows: Seq<RestartV>)
    ensures
        forall|i: int|
            0 <= i < all_clusters(rows).storms.len() ==> (#[trigger] all_clusters(
                rows,
            ).storms[i]).units.len() >= BOOT_STORM_MIN_UNITS,
        rows.len() < BOOT_STORM_MIN_UNITS ==> all_clusters(rows).storms.len() == 0,
{
    let keys = first_keys(rows);
    stable_order_exists(keys);
    let sorted = by_first(rows);
    let n = rows.len() as int;
    lemma_clusters(sorted, n, 0);
    lemma_closed(clusters(sorted, n), n, Seq::empty());
    let storms = all_clusters(rows).storms;
    lemma_storms_sum(storms, storms.len() as int);
}

proof fn lemma_storms_sum(storms: Seq<StormV>, n: int)
    requires
        0 <= n <= storms.len(),
        forall|i: int|
            0 <= i < storms.len() ==> (#[trigger] storms[i]).units.len() >= BOOT_STORM_MIN_UNITS,
    ensures
        stormy_units(storms, n) >= n * BOOT_STORM_MIN_UNITS,
    decreases n,
{
    if n > 0 {
        lemma_storms_sum(storms, n - 1);
        assert(storms[n - 1].units.len() >= BOOT_STORM_MIN_UNITS);
    }
}

} // verus!
