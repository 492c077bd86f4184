//! The digest: one report on a window of time. Each function builds one section
//! from what the index and the raw files hold; rendering is another module's.
//!
//! Percentages are floating-point numbers, so whoever compares them with a
//! threshold hands the outcome in.
use vstd::prelude::*;

use crate::collections::{ascending, key_texts, FieldSet, GroupCounts};
use crate::digest_alerts::AlertsSection;
use crate::digest_auth::AuthSection;
use crate::digest_notable::NotableSection;
use crate::digest_query::{bucket_series, gap_view, gap_views, interval_count, slot_count};
use crate::digest_query::BucketCompleteness;
use crate::groups::{groups_at, groups_by_count, ordered_groups, Group};
use crate::json::{bool_member, parsed_json, text_member, Json};
use crate::order::{text_lt, text_lt_asymmetric};
use crate::text::{line_seq, lines, list_of_one, opt_view, pieces, string_of, to_chars, views};
use crate::trend::{bounded, count_in, label_of, sum_of};
use crate::window::{Duration, Instant, Window, MAX_DURATION_SECONDS, NANOS};

verus! {

// ── Defaults ─────────────────────────────────────────────────────────────────

/// How many unparsed events of a source are not worth mentioning.
pub const DEFAULT_UNPARSED_MIN_EVENTS: u64 = 50;

/// The interface on which connections count as inbound.
pub const DEFAULT_WAN_INTERFACE: &'static str = "re1";

/// How many blocked sources are listed.
pub const DEFAULT_TOP_BLOCKED_LIMIT: usize = 20;

/// How far the digest stays behind the clock, so that it never depends on
/// events that are not indexed yet.
pub const NOW_LAG_SECONDS: i64 = 300;

/// The hours over which a source may report only once without counting as new
/// or silent.
pub const DEFAULT_COVERAGE_LOOKBACK_HOURS: u64 = 24;

/// What the digest reports and what it leaves out.
#[derive(Debug)]
pub struct DigestConfig {
    pub new_source_always_flag: bool,
    pub unparsed_min_events: u64,
    pub coverage_lookback_hours: u64,
    pub wan_interface: String,
    pub top_blocked_limit: usize,
    pub new_destination_always_flag: bool,
}

impl Default for DigestConfig {
    fn default() -> (r: DigestConfig)
        ensures
            r.new_source_always_flag,
            r.unparsed_min_events == DEFAULT_UNPARSED_MIN_EVENTS,
            r.coverage_lookback_hours == DEFAULT_COVERAGE_LOOKBACK_HOURS,
            r.wan_interface@ == DEFAULT_WAN_INTERFACE@,
            r.top_blocked_limit == DEFAULT_TOP_BLOCKED_LIMIT,
            r.new_destination_always_flag,
    {
        DigestConfig {
            new_source_always_flag: true,
            unparsed_min_events: DEFAULT_UNPARSED_MIN_EVENTS,
            coverage_lookback_hours: DEFAULT_COVERAGE_LOOKBACK_HOURS,
            wan_interface: DEFAULT_WAN_INTERFACE.to_owned(),
            top_blocked_limit: DEFAULT_TOP_BLOCKED_LIMIT,
            new_destination_always_flag: true,
        }
    }
}

// ── Windows ──────────────────────────────────────────────────────────────────

/// The times of a report.
#[derive(Debug, Clone, Copy, PartialEq, Eq, Structural)]
pub struct WindowInfo {
    pub start: Instant,
    pub end: Instant,
    pub baseline_start: Instant,
    pub baseline_end: Instant,
}

/// The windows that a report compares.
#[derive(Debug, Clone, Copy, PartialEq, Eq, Structural)]
pub struct DigestWindows {
    pub info: WindowInfo,
    pub baseline: Window,
    pub coverage: Window,
    pub coverage_baseline: Window,
}

/// Whether a moment lies in the calendar's range.
pub open spec fn moment_fits(nanos: int) -> bool {
    crate::calendar::MIN_SECONDS * NANOS <= nanos < (crate::calendar::MAX_SECONDS + 1) * NANOS
}

/// Whether every window of a report lies in the calendar's range.
pub open spec fn windows_fit(win: Window, lookback_hours: int) -> bool {
    &&& win.in_range()
    &&& lookback_hours * 3600 <= MAX_DURATION_SECONDS
    &&& moment_fits(win.start.nanos - win.nanos())
    &&& moment_fits(win.end.nanos - lookback_hours * 3600 * NANOS)
    &&& moment_fits(win.end.nanos - 2 * (lookback_hours * 3600 * NANOS))
}

/// Whether every window of a report lies in the calendar's range.
pub fn do_windows_fit(win: &Window, lookback_hours: u64) -> (r: bool)
    requires
        win.in_range(),
    ensures
        r == windows_fit(*win, lookback_hours as int),
{
    let lo: i128 = crate::calendar::MIN_SECONDS as i128 * NANOS;
    let hi: i128 = (crate::calendar::MAX_SECONDS as i128 + 1) * NANOS;
    let seconds: i128 = lookback_hours as i128 * 3600;
    if seconds > MAX_DURATION_SECONDS as i128 {
        return false;
    }
    let a: i128 = win.start.nanos - (win.end.nanos - win.start.nanos);
    let b: i128 = win.end.nanos - seconds * NANOS;
    let c: i128 = b - seconds * NANOS;
    lo <= a && a < hi && lo <= b && b < hi && lo <= c && c < hi
}

/// The windows of a report: the baseline right before it; the lookback that ends
/// with it; and that one's own baseline.
pub fn digest_windows(win: &Window, lookback_hours: u64) -> (r: DigestWindows)
    requires
        windows_fit(*win, lookback_hours as int),
    ensures
        r.info.start == win.start,
        r.info.end == win.end,
        r.info.baseline_start == r.baseline.start,
        r.info.baseline_end == r.baseline.end,
        r.baseline.end == win.start,
        r.baseline.nanos() == win.nanos(),
        r.coverage.end == win.end,
        r.coverage.nanos() == lookback_hours * 3600 * NANOS,
        r.coverage_baseline.end == r.coverage.start,
        r.coverage_baseline.nanos() == r.coverage.nanos(),
        r.baseline.in_range(),
        r.coverage.in_range(),
        r.coverage_baseline.in_range(),
{
    let baseline = win.baseline();
    let coverage = win.lookback(Duration::hours(lookback_hours as i64));
    let coverage_baseline = coverage.baseline();
    DigestWindows {
        info: WindowInfo {
            start: win.start,
            end: win.end,
            baseline_start: baseline.start,
            baseline_end: baseline.end,
        },
        baseline,
        coverage,
        coverage_baseline,
    }
}

/// The whole seconds from one moment to another, none if it is not later.
pub open spec fn seconds_between(a: int, b: int) -> int {
    if b <= a {
        0
    } else {
        (b - a) / NANOS as int
    }
}

/// Whether a baseline is no comparison: there were events during less than half
/// of it, because collection had only begun.
pub open spec fn is_cold_start(earliest: Option<Instant>, baseline: Window) -> bool {
    match earliest {
        None => false,
        Some(e) => {
            let total = seconds_between(baseline.start.nanos as int, baseline.end.nanos as int);
            let from = if e.nanos > baseline.start.nanos {
                e.nanos
            } else {
                baseline.start.nanos
            };
            let covered = seconds_between(from as int, baseline.end.nanos as int);
            2 * covered < if total < 1 {
                1
            } else {
                total
            }
        },
    }
}

/// Whether a baseline is no comparison: there were events during less than half
/// of it, because collection had only begun. Without any event it is not known.
pub fn cold_start_for_baseline(earliest: Option<Instant>, baseline: &Window) -> (r: bool)
    requires
        baseline.in_range(),
        earliest matches Some(e) ==> e.in_range(),
    ensures
        r == is_cold_start(earliest, *baseline),
{
    match earliest {
        None => false,
        Some(e) => {
            let total: i128 = if baseline.end.nanos <= baseline.start.nanos {
                0
            } else {
                (baseline.end.nanos - baseline.start.nanos) / NANOS
            };
            let from: i128 = if e.nanos > baseline.start.nanos {
                e.nanos
            } else {
                baseline.start.nanos
            };
            let covered: i128 = if baseline.end.nanos <= from {
                0
            } else {
                (baseline.end.nanos - from) / NANOS
            };
            2 * covered < if total < 1 {
                1
            } else {
                total
            }
        },
    }
}

/// A baseline of a second or more that began after collection did is a
/// comparison.
pub proof fn covered_baseline_is_trusted(e: Instant, baseline: Window)
    requires
        e.nanos <= baseline.start.nanos,
        baseline.nanos() >= NANOS,
    ensures
        !is_cold_start(Some(e), baseline),
{
}

/// A baseline that was over before collection began is none.
pub proof fn uncovered_baseline_is_cold(e: Instant, baseline: Window)
    requires
        baseline.end.nanos <= e.nanos,
    ensures
        is_cold_start(Some(e), baseline),
{
}

/// The longer a baseline was covered, the sooner it is trusted.
pub proof fn earlier_events_cannot_chill(e: Instant, f: Instant, baseline: Window)
    requires
        e.nanos <= f.nanos,
        is_cold_start(Some(e), baseline),
    ensures
        is_cold_start(Some(f), baseline),
{
    let a = if e.nanos > baseline.start.nanos {
        e.nanos as int
    } else {
        baseline.start.nanos as int
    };
    let b = if f.nanos > baseline.start.nanos {
        f.nanos as int
    } else {
        baseline.start.nanos as int
    };
    if b < baseline.end.nanos {
        assert((baseline.end.nanos - b) / NANOS as int <= (baseline.end.nanos - a) / NANOS as int);
    }
}

// ── Sources ──────────────────────────────────────────────────────────────────

/// The sources that have events: the labels of the groups, but for the empty one.
pub open spec fn sources_of(m: Map<Group, u64>) -> Set<Seq<char>> {
    Set::new(
        |s: Seq<char>| s.len() > 0 && exists|g: Group| #[trigger] m.dom().contains(g) && label_of(g) == s,
    )
}

fn label(key: &Vec<String>) -> (r: String)
    ensures
        r@ == label_of(views(key@)),
{
    if key.len() > 0 {
        key[0].clone()
    } else {
        let r = String::new();
        assert(r@ =~= Seq::<char>::empty());
        r
    }
}

/// Value number `i` of a group, empty if there is none.
pub open spec fn value_at(g: Group, i: int) -> Seq<char> {
    if 0 <= i < g.len() {
        g[i]
    } else {
        Seq::empty()
    }
}

pub(crate) fn value_of_key(key: &Vec<String>, i: usize) -> (r: String)
    ensures
        r@ == value_at(views(key@), i as int),
{
    if i < key.len() {
        key[i].clone()
    } else {
        let r = String::new();
        assert(r@ =~= Seq::<char>::empty());
        r
    }
}

/// The sources that have events.
pub fn sources(acc: &GroupCounts) -> (r: FieldSet)
    requires
        acc.wf(),
    ensures
        r.wf(),
        r@ == sources_of(acc@),
{
    let ghost kt = key_texts(acc.keys@);
    let mut r = FieldSet::new();
    let n: usize = acc.keys.len();
    let mut i: usize = 0;
    while i < n
        invariant
            acc.wf(),
            n == acc.keys@.len(),
            kt == key_texts(acc.keys@),
            i <= n,
            r.wf(),
            forall|s: Seq<char>| #[trigger]
                r@.contains(s) <==> s.len() > 0 && exists|k: int|
                    0 <= k < i && label_of(#[trigger] kt[k]) == s,
        decreases n - i,
    {
        let name = label(&acc.keys[i]);
        assert(kt[i as int] == views(acc.keys@[i as int]@));
        let ghost before = r@;
        if crate::text::char_count(name.as_str()) > 0 {
            r.insert(name.as_str());
        }
        proof {
            assert forall|s: Seq<char>| #[trigger] r@.contains(s) <==> s.len() > 0 && exists|k: int|
                0 <= k < i + 1 && label_of(#[trigger] kt[k]) == s by {
                if r@.contains(s) {
                    if s == name@ && name@.len() > 0 {
                        assert(label_of(kt[i as int]) == s);
                    } else {
                        assert(before.contains(s));
                        let k = choose|k: int| 0 <= k < i && label_of(#[trigger] kt[k]) == s;
                        assert(label_of(kt[k]) == s);
                    }
                }
                if s.len() > 0 && exists|k: int| 0 <= k < i + 1 && label_of(#[trigger] kt[k]) == s {
                    let k = choose|k: int| 0 <= k < i + 1 && label_of(#[trigger] kt[k]) == s;
                    if k < i {
                        assert(before.contains(s));
                    }
                }
            }
        }
        i = i + 1;
    }
    proof {
        assert forall|s: Seq<char>| r@.contains(s) <==> sources_of(acc@).contains(s) by {
            if r@.contains(s) {
                let k = choose|k: int| 0 <= k < n && label_of(#[trigger] kt[k]) == s;
                acc.entry_at(k);
                assert(acc@.dom().contains(kt[k]));
            }
            if sources_of(acc@).contains(s) {
                let g = choose|g: Group| #[trigger] acc@.dom().contains(g) && label_of(g) == s;
                let k = kt.index_of(g);
                assert(kt.contains(g));
                assert(label_of(kt[k]) == s);
            }
        }
        assert(r@ =~= sources_of(acc@));
    }
    r
}

/// The names of one set that are not in another, in order.
pub fn names_only_in(a: &FieldSet, b: &FieldSet) -> (r: Vec<String>)
    requires
        a.wf(),
        b.wf(),
    ensures
        ascending(views(r@)),
        views(r@).to_set() == a@.difference(b@),
{
    let ghost av = views(a.items@);
    let mut r: Vec<String> = Vec::new();
    let n: usize = a.items.len();
    let mut i: usize = 0;
    while i < n
        invariant
            a.wf(),
            b.wf(),
            av == views(a.items@),
            n == av.len(),
            i <= n,
            ascending(views(r@)),
            forall|k: int, j: int|
                0 <= k < r@.len() && i <= j < n ==> text_lt(
                    #[trigger] views(r@)[k],
                    #[trigger] av[j],
                ),
            forall|s: Seq<char>| #[trigger]
                views(r@).contains(s) <==> av.take(i as int).contains(s) && !b@.contains(s),
        decreases n - i,
    {
        let ghost before = views(r@);
        let ghost t = av.take(i as int);
        let ghost u = av.take(i + 1);
        assert(u =~= t.push(av[i as int]));
        if !b.contains(a.items[i].as_str()) {
            r.push(a.items[i].clone());
            assert(views(r@) =~= before.push(av[i as int]));
        }
        proof {
            let after = views(r@);
            assert forall|s: Seq<char>| #[trigger] after.contains(s) <==> u.contains(s)
                && !b@.contains(s) by {
                if after.contains(s) {
                    let k = choose|k: int| 0 <= k < after.len() && after[k] == s;
                    if k < before.len() {
                        assert(before[k] == s);
                        assert(before.contains(s));
                        let j = choose|j: int| 0 <= j < t.len() && t[j] == s;
                        assert(u[j] == s);
                    } else {
                        assert(u[i as int] == s);
                    }
                }
                if u.contains(s) && !b@.contains(s) {
                    let j = choose|j: int| 0 <= j < u.len() && u[j] == s;
                    if j < i {
                        assert(t[j] == s);
                        assert(before.contains(s));
                        let k = choose|k: int| 0 <= k < before.len() && before[k] == s;
                        assert(after[k] == s);
                    } else {
                        assert(after[before.len() as int] == s);
                    }
                }
            }
        }
        i = i + 1;
    }
    proof {
        assert(av.take(i as int) =~= av);
        assert(views(r@).to_set() =~= a@.difference(b@));
    }
    r
}

// ── Coverage ─────────────────────────────────────────────────────────────────

/// A program of which many events could not be parsed.
#[derive(Debug)]
pub struct UnparsedSource {
    pub app_name: String,
    pub count: u64,
}

/// An hour bucket of which fewer rows are indexed than raw lines were written.
#[derive(Debug)]
pub struct IncompleteBucket {
    pub bucket: String,
    pub raw_count: u64,
    pub indexed_count: u64,
}

/// How complete the window's data is.
#[derive(Debug)]
pub struct CoverageSection {
    pub sources_reporting: usize,
    pub gone_silent: Vec<String>,
    pub new_sources: Vec<String>,
    pub unparsed_high_volume: Vec<UnparsedSource>,
    pub latest_raw: Option<Instant>,
    pub latest_indexed: Option<Instant>,
    pub index_lag_seconds: Option<i64>,
    pub incomplete_buckets: Vec<IncompleteBucket>,
    /// Whether the window's own baseline is no comparison.
    pub cold_start: bool,
    /// Whether the lookback's baseline is no comparison; then no source counts
    /// as new.
    pub coverage_cold_start: bool,
}

/// The program of a raw line that was not parsed.
pub open spec fn unparsed_app(line: Seq<char>) -> Option<Seq<char>> {
    match parsed_json(line) {
        None => None,
        Some(j) => if bool_member(j, "_normalized"@) != Some(false) {
            None
        } else {
            Some(
                match text_member(j, "app_name"@) {
                    Some(a) => a,
                    None => "(unknown)"@,
                },
            )
        },
    }
}

/// The counts with the first `n` lines' unparsed events added, by program.
pub open spec fn unparsed_added(m: Map<Group, u64>, ls: Seq<Seq<char>>, n: int) -> Map<Group, u64>
    decreases n,
{
    if n <= 0 {
        m
    } else {
        let front = unparsed_added(m, ls, n - 1);
        match unparsed_app(ls[n - 1]) {
            Some(a) => front.insert(seq![a], (count_in(front, seq![a]) + 1) as u64),
            None => front,
        }
    }
}

fn find_unparsed_app(line: &str) -> (r: Option<String>)
    ensures
        opt_view(r) == unparsed_app(line@),
{
    match Json::parse(line) {
        None => None,
        Some(j) => match j.get_bool("_normalized") {
            Some(false) => match j.get_text("app_name") {
                Some(a) => Some(a.clone()),
                None => Some("(unknown)".to_owned()),
            },
            _ => None,
        },
    }
}

/// Adds the unparsed events of a raw file to the counts by program.
pub fn count_unparsed(content: &str, counts: &mut GroupCounts)
    requires
        old(counts).wf(),
        bounded(old(counts)@, u64::MAX - line_seq(content@).len()),
    ensures
        final(counts).wf(),
        final(counts)@ == unparsed_added(
            old(counts)@,
            line_seq(content@),
            line_seq(content@).len() as int,
        ),
{
    let ls = lines(&to_chars(content));
    let ghost lv = line_seq(content@);
    let n: usize = ls.len();
    let mut i: usize = 0;
    assert(pieces(ls@).len() == n);
    while i < n
        invariant
            n == ls@.len(),
            pieces(ls@) == lv,
            lv.len() == n,
            i <= n,
            counts.wf(),
            counts@ == unparsed_added(old(counts)@, lv, i as int),
            bounded(counts@, u64::MAX - n + i),
        decreases n - i,
    {
        assert(lv[i as int] == ls@[i as int]@);
        let line = string_of(&ls[i]);
        match find_unparsed_app(line.as_str()) {
            Some(a) => {
                let key = list_of_one(a.as_str());
                counts.add_count(&key, 1);
            },
            None => {},
        }
        i = i + 1;
    }
}

/// The groups, among the first `n`, with more than `min` events.
pub open spec fn above(gs: Seq<(Group, u64)>, min: u64, n: int) -> Seq<(Group, u64)>
    decreases n,
{
    if n <= 0 {
        Seq::empty()
    } else if gs[n - 1].1 > min {
        above(gs, min, n - 1).push(gs[n - 1])
    } else {
        above(gs, min, n - 1)
    }
}

/// The programs with more than `min_events` unparsed events, the most first.
pub fn unparsed_high_volume_sources(counts: &GroupCounts, min_events: u64) -> (r: Vec<
    UnparsedSource,
>)
    requires
        counts.wf(),
    ensures
        ({
            let gs = ordered_groups(counts@);
            let kept = above(gs, min_events, gs.len() as int);
            &&& r@.len() == kept.len()
            &&& forall|i: int|
                0 <= i < r@.len() ==> (#[trigger] r@[i]).app_name@ == label_of(kept[i].0)
                    && r@[i].count == kept[i].1
        }),
{
    let order = groups_by_count(counts);
    let ghost gs = groups_at(*counts, order@);
    let mut r: Vec<UnparsedSource> = Vec::new();
    let n: usize = order.len();
    let mut i: usize = 0;
    while i < n
        invariant
            counts.wf(),
            n == order@.len(),
            n == counts.keys@.len(),
            forall|k: int| 0 <= k < order@.len() ==> (#[trigger] order@[k]) < counts.keys@.len(),
            gs == groups_at(*counts, order@),
            i <= n,
            r@.len() == above(gs, min_events, i as int).len(),
            forall|k: int|
                0 <= k < r@.len() ==> (#[trigger] r@[k]).app_name@ == label_of(
                    above(gs, min_events, i as int)[k].0,
                ) && r@[k].count == above(gs, min_events, i as int)[k].1,
        decreases n - i,
    {
        let at: usize = order[i];
        assert(gs[i as int].0 == views(counts.keys@[at as int]@));
        if counts.counts[at] > min_events {
            r.push(
                UnparsedSource { app_name: label(&counts.keys[at]), count: counts.counts[at] },
            );
        }
        i = i + 1;
    }
    r
}

/// The whole seconds from one moment back to another, towards zero.
pub open spec fn lag(raw: int, indexed: int) -> int {
    if raw >= indexed {
        (raw - indexed) / NANOS as int
    } else {
        -((indexed - raw) / NANOS as int)
    }
}

/// The gaps as the report lists them.
pub open spec fn bucket_views(v: Seq<IncompleteBucket>) -> Seq<(Seq<char>, u64, u64)> {
    v.map_values(|b: IncompleteBucket| (b.bucket@, b.raw_count, b.indexed_count))
}

/// The coverage section. What reports is told by the window itself; what is new
/// or silent, by the lookback against its own baseline, so that a source that
/// logs seldom does not come and go.
pub fn build_coverage(
    window: &GroupCounts,
    coverage: &GroupCounts,
    coverage_baseline: &GroupCounts,
    unparsed: Vec<UnparsedSource>,
    latest_raw: Option<Instant>,
    latest_indexed: Option<Instant>,
    incomplete: &Vec<BucketCompleteness>,
    cold_start: bool,
    coverage_cold_start: bool,
) -> (r: CoverageSection)
    requires
        window.wf(),
        coverage.wf(),
        coverage_baseline.wf(),
        latest_raw matches Some(t) ==> t.in_range(),
        latest_indexed matches Some(t) ==> t.in_range(),
    ensures
        r.sources_reporting == sources_of(window@).len(),
        ascending(views(r.gone_silent@)),
        views(r.gone_silent@).to_set() == sources_of(coverage_baseline@).difference(
            sources_of(coverage@),
        ),
        coverage_cold_start ==> r.new_sources@.len() == 0,
        !coverage_cold_start ==> ascending(views(r.new_sources@)) && views(r.new_sources@).to_set()
            == sources_of(coverage@).difference(sources_of(coverage_baseline@)),
        r.unparsed_high_volume == unparsed,
        r.latest_raw == latest_raw,
        r.latest_indexed == latest_indexed,
        match (latest_raw, latest_indexed) {
            (Some(a), Some(b)) => r.index_lag_seconds matches Some(s) && s == lag(
                a.nanos as int,
                b.nanos as int,
            ),
            _ => r.index_lag_seconds is None,
        },
        bucket_views(r.incomplete_buckets@) == gap_views(incomplete@),
        r.cold_start == cold_start,
        r.coverage_cold_start == coverage_cold_start,
{
    let reporting = sources(window);
    proof {
        lemma_ascending_distinct(views(reporting.items@));
        views(reporting.items@).unique_seq_to_set();
    }
    let now = sources(coverage);
    let earlier = sources(coverage_baseline);
    let gone_silent = names_only_in(&earlier, &now);
    let new_sources = if coverage_cold_start {
        Vec::new()
    } else {
        names_only_in(&now, &earlier)
    };
    let index_lag_seconds: Option<i64> = match (latest_raw, latest_indexed) {
        (Some(a), Some(b)) => {
            let s: i128 = if a.nanos >= b.nanos {
                (a.nanos - b.nanos) / NANOS
            } else {
                -((b.nanos - a.nanos) / NANOS)
            };
            Some(s as i64)
        },
        _ => None,
    };
    let mut incomplete_buckets: Vec<IncompleteBucket> = Vec::new();
    let mut i: usize = 0;
    while i < incomplete.len()
        invariant
            i <= incomplete@.len(),
            incomplete_buckets@.len() == i,
            forall|k: int|
                0 <= k < i ==> ((#[trigger] incomplete_buckets@[k]).bucket@,
                    incomplete_buckets@[k].raw_count, incomplete_buckets@[k].indexed_count)
                    == gap_view(incomplete@[k]),
        decreases incomplete@.len() - i,
    {
        incomplete_buckets.push(
            IncompleteBucket {
                bucket: incomplete[i].bucket.clone(),
                raw_count: incomplete[i].raw_count,
                indexed_count: incomplete[i].indexed_count,
            },
        );
        i = i + 1;
    }
    assert(bucket_views(incomplete_buckets@) =~= gap_views(incomplete@));
    CoverageSection {
        sources_reporting: reporting.items.len(),
        gone_silent,
        new_sources,
        unparsed_high_volume: unparsed,
        latest_raw,
        latest_indexed,
        index_lag_seconds,
        incomplete_buckets,
        cold_start,
        coverage_cold_start,
    }
}

proof fn lemma_ascending_distinct(s: Seq<Seq<char>>)
    requires
        ascending(s),
    ensures
        s.no_duplicates(),
{
    assert forall|a: int, b: int| 0 <= a < s.len() && 0 <= b < s.len() && a != b implies s[a]
        != s[b] by {
        if a < b {
            text_lt_asymmetric(s[a], s[b]);
        } else {
            text_lt_asymmetric(s[b], s[a]);
        }
    }
}

/// No source is both new and silent, and one that reported in both periods is
/// neither.
pub proof fn new_and_silent_exclude_each_other(
    now: Map<Group, u64>,
    earlier: Map<Group, u64>,
    s: Seq<char>,
)
    ensures
        !(sources_of(now).difference(sources_of(earlier)).contains(s) && sources_of(
            earlier,
        ).difference(sources_of(now)).contains(s)),
        sources_of(now).contains(s) && sources_of(earlier).contains(s) ==> !sources_of(
            now,
        ).difference(sources_of(earlier)).contains(s) && !sources_of(earlier).difference(
            sources_of(now),
        ).contains(s),
{
}

// ── Volume ───────────────────────────────────────────────────────────────────

/// How a source's volume stands to its baseline, against the threshold.
#[derive(Clone, Copy, Debug, PartialEq, Eq, Structural)]
pub enum Change {
    Spike,
    Drop,
    Steady,
}

/// A source's events in the window and in its baseline.
#[derive(Debug)]
pub struct Volume {
    pub source: String,
    pub count: u64,
    pub baseline: u64,
}

/// A row of the volume section. The flag of a source without a baseline is
/// `"new"`; of another one `"spike"` or `"drop"`, if it changed beyond the
/// threshold. `delta` is the percentage as it is shown.
#[derive(Debug)]
pub struct VolumeRow {
    pub source: String,
    pub count: u64,
    pub baseline: u64,
    pub delta: Option<String>,
    pub flag: Option<String>,
}

/// The window's counts, with a zero for each source that only the baseline has.
pub open spec fn with_silent(window: Map<Group, u64>, baseline: Map<Group, u64>) -> Map<Group, u64> {
    Map::new(
        |g: Group| g.len() == 1 && (sources_of(window).contains(g[0]) || sources_of(baseline).contains(g[0])),
        |g: Group| count_in(window, g) as u64,
    )
}

fn add_sources(of: &GroupCounts, window: &GroupCounts, all: &mut GroupCounts)
    requires
        of.wf(),
        window.wf(),
        old(all).wf(),
    ensures
        final(all).wf(),
        forall|g: Group| #[trigger]
            final(all)@.dom().contains(g) <==> old(all)@.dom().contains(g) || (g.len() == 1
                && sources_of(of@).contains(g[0])),
        forall|g: Group| #[trigger]
            final(all)@.dom().contains(g) && g.len() == 1 && sources_of(of@).contains(g[0])
                ==> final(all)@[g] == count_in(window@, g),
        forall|g: Group|
            old(all)@.dom().contains(g) && !(g.len() == 1 && sources_of(of@).contains(g[0]))
                ==> #[trigger] final(all)@[g] == old(all)@[g],
{
    let names = sources(of);
    let ghost nv = views(names.items@);
    let ghost before = all@;
    let n: usize = names.items.len();
    let mut i: usize = 0;
    while i < n
        invariant
            n == names.items@.len(),
            nv == views(names.items@),
            window.wf(),
            all.wf(),
            before == old(all)@,
            i <= n,
            forall|g: Group| #[trigger]
                all@.dom().contains(g) <==> before.dom().contains(g) || (g.len() == 1 && nv.take(
                    i as int,
                ).contains(g[0])),
            forall|g: Group| #[trigger]
                all@.dom().contains(g) && g.len() == 1 && nv.take(i as int).contains(g[0])
                    ==> all@[g] == count_in(window@, g),
            forall|g: Group|
                before.dom().contains(g) && !(g.len() == 1 && nv.take(i as int).contains(g[0]))
                    ==> #[trigger] all@[g] == before[g],
        decreases n - i,
    {
        let ghost t = nv.take(i as int);
        let ghost u = nv.take(i + 1);
        let ghost x = nv[i as int];
        let ghost mid = all@;
        let key = list_of_one(names.items[i].as_str());
        let c: u64 = match window.get(&key) {
            Some(c) => c,
            None => 0,
        };
        all.set_count(&key, c);
        proof {
            assert(u =~= t.push(x));
            assert forall|s: Seq<char>| u.contains(s) <==> t.contains(s) || s == x by {
                if t.contains(s) {
                    let k = choose|k: int| 0 <= k < t.len() && t[k] == s;
                    assert(u[k] == s);
                }
                assert(u[i as int] == x);
                if u.contains(s) {
                    let k = choose|k: int| 0 <= k < u.len() && u[k] == s;
                    if k < i {
                        assert(t[k] == s);
                    }
                }
            }
            assert(all@ == mid.insert(seq![x], c));
            assert forall|g: Group| g.len() == 1 && g[0] == x implies g == seq![x] by {
                assert(g =~= seq![x]);
            }
        }
        i = i + 1;
    }
    proof {
        assert(nv.take(i as int) =~= nv);
        assert forall|s: Seq<char>| nv.contains(s) <==> sources_of(of@).contains(s) by {
            assert(names@.contains(s) <==> nv.contains(s));
        }
    }
}

/// Every source's events in the window and in the baseline, the most first.
pub fn volumes(window: &GroupCounts, baseline: &GroupCounts) -> (r: Vec<Volume>)
    requires
        window.wf(),
        baseline.wf(),
    ensures
        ({
            let gs = ordered_groups(with_silent(window@, baseline@));
            &&& r@.len() == gs.len()
            &&& forall|i: int|
                0 <= i < r@.len() ==> (#[trigger] r@[i]).source@ == gs[i].0[0] && r@[i].count
                    == gs[i].1 && r@[i].baseline == count_in(baseline@, gs[i].0)
        }),
{
    let mut all = GroupCounts::new();
    add_sources(window, window, &mut all);
    add_sources(baseline, window, &mut all);
    proof {
        let target = with_silent(window@, baseline@);
        assert(all@ =~= target) by {
            assert forall|g: Group| #[trigger]
                all@.dom().contains(g) <==> target.dom().contains(g) by {}
            assert forall|g: Group| all@.dom().contains(g) implies #[trigger] all@[g]
                == target[g] by {}
        }
    }
    let order = groups_by_count(&all);
    let ghost gs = groups_at(all, order@);
    let mut r: Vec<Volume> = Vec::new();
    let n: usize = order.len();
    let mut i: usize = 0;
    while i < n
        invariant
            all.wf(),
            baseline.wf(),
            all@ == with_silent(window@, baseline@),
            n == order@.len(),
            n == all.keys@.len(),
            forall|k: int| 0 <= k < order@.len() ==> (#[trigger] order@[k]) < all.keys@.len(),
            gs == groups_at(all, order@),
            i <= n,
            r@.len() == i,
            forall|k: int|
                0 <= k < i ==> (#[trigger] r@[k]).source@ == gs[k].0[0] && r@[k].count == gs[k].1
                    && r@[k].baseline == count_in(baseline@, gs[k].0),
        decreases n - i,
    {
        let at: usize = order[i];
        let key = &all.keys[at];
        proof {
            all.entry_at(at as int);
            assert(gs[i as int].0 == views(key@));
            assert(key_texts(all.keys@)[at as int] == views(key@));
        }
        let b: u64 = match baseline.get(key) {
            Some(c) => c,
            None => 0,
        };
        r.push(Volume { source: label(key), count: all.counts[at], baseline: b });
        i = i + 1;
    }
    r
}

/// The flag of a row.
pub open spec fn flag_of(
    count: u64,
    baseline: u64,
    change: Change,
    cold_start: bool,
    new_source_always_flag: bool,
) -> Option<Seq<char>> {
    if baseline == 0 {
        if !cold_start && new_source_always_flag && count > 0 {
            Some("new"@)
        } else {
            None
        }
    } else {
        match change {
            Change::Spike => Some("spike"@),
            Change::Drop => Some("drop"@),
            Change::Steady => None,
        }
    }
}

/// Whether a row is that of a source. `change` and `delta` tell how it stands to
/// its baseline; they count only where it has one.
pub open spec fn is_row_of(
    r: VolumeRow,
    v: Volume,
    change: Change,
    delta: Seq<char>,
    cold_start: bool,
    new_source_always_flag: bool,
) -> bool {
    &&& r.source@ == v.source@
    &&& r.count == v.count
    &&& r.baseline == v.baseline
    &&& opt_view(r.delta) == if v.baseline == 0 {
        None
    } else {
        Some(delta)
    }
    &&& opt_view(r.flag) == flag_of(
        v.count,
        v.baseline,
        change,
        cold_start,
        new_source_always_flag,
    )
}

fn volume_row(
    v: &Volume,
    change: Change,
    delta: &str,
    cold_start: bool,
    new_source_always_flag: bool,
) -> (r: VolumeRow)
    ensures
        is_row_of(r, *v, change, delta@, cold_start, new_source_always_flag),
{
    let flag: Option<String> = if v.baseline == 0 {
        if !cold_start && new_source_always_flag && v.count > 0 {
            Some("new".to_owned())
        } else {
            None
        }
    } else {
        match change {
            Change::Spike => Some("spike".to_owned()),
            Change::Drop => Some("drop".to_owned()),
            Change::Steady => None,
        }
    };
    let shown: Option<String> = if v.baseline == 0 {
        None
    } else {
        Some(delta.to_owned())
    };
    VolumeRow {
        source: v.source.clone(),
        count: v.count,
        baseline: v.baseline,
        delta: shown,
        flag,
    }
}

/// The rows of the volume section, one for each source, in their order. `changes`
/// and `deltas` tell how each stands to its baseline.
pub fn build_volume(
    rows: &Vec<Volume>,
    changes: &Vec<Change>,
    deltas: &Vec<String>,
    cold_start: bool,
    new_source_always_flag: bool,
) -> (r: Vec<VolumeRow>)
    requires
        changes@.len() == rows@.len(),
        deltas@.len() == rows@.len(),
    ensures
        r@.len() == rows@.len(),
        forall|i: int|
            0 <= i < r@.len() ==> is_row_of(
                #[trigger] r@[i],
                rows@[i],
                changes@[i],
                deltas@[i]@,
                cold_start,
                new_source_always_flag,
            ),
{
    let mut r: Vec<VolumeRow> = Vec::new();
    let mut i: usize = 0;
    while i < rows.len()
        invariant
            i <= rows@.len(),
            changes@.len() == rows@.len(),
            deltas@.len() == rows@.len(),
            r@.len() == i,
            forall|k: int|
                0 <= k < i ==> is_row_of(
                    #[trigger] r@[k],
                    rows@[k],
                    changes@[k],
                    deltas@[k]@,
                    cold_start,
                    new_source_always_flag,
                ),
        decreases rows@.len() - i,
    {
        r.push(
            volume_row(&rows[i], changes[i], deltas[i].as_str(), cold_start, new_source_always_flag),
        );
        i = i + 1;
    }
    r
}

/// In a cold start no source counts as new.
pub proof fn cold_start_flags_nothing_new(count: u64, baseline: u64, change: Change, always: bool)
    ensures
        flag_of(count, baseline, change, true, always) != Some("new"@),
{
    reveal_strlit("new");
    reveal_strlit("spike");
    reveal_strlit("drop");
    assert("spike"@.len() != "new"@.len());
    assert("drop"@.len() != "new"@.len());
}

// ── Network ──────────────────────────────────────────────────────────────────

/// An origin of blocked connections.
#[derive(Debug)]
pub struct TopBlocked {
    pub src_ip: String,
    pub protocol: String,
    pub count: u64,
}

/// Connections that were let in.
#[derive(Debug)]
pub struct InboundAllowed {
    pub src_ip: String,
    pub dst_ip: String,
    pub dst_port: String,
    pub count: u64,
}

/// A destination that the baseline does not have.
#[derive(Debug)]
pub struct NewDestination {
    pub dst_ip: String,
    pub dst_port: String,
    pub count: u64,
    pub first_seen: Option<Instant>,
}

/// The firewall's traffic.
#[derive(Debug)]
pub struct NetworkSection {
    pub block_trend: Vec<u64>,
    pub top_blocked: Vec<TopBlocked>,
    pub inbound: Vec<InboundAllowed>,
    pub new_destinations: Vec<NewDestination>,
}

/// The groups, among the first `n`, whose label is not empty.
pub open spec fn named(gs: Seq<(Group, u64)>, n: int) -> Seq<(Group, u64)>
    decreases n,
{
    if n <= 0 {
        Seq::empty()
    } else if label_of(gs[n - 1].0).len() > 0 {
        named(gs, n - 1).push(gs[n - 1])
    } else {
        named(gs, n - 1)
    }
}

/// The groups that have a label, in the order in which they are shown.
pub open spec fn named_groups(m: Map<Group, u64>) -> Seq<(Group, u64)> {
    named(ordered_groups(m), ordered_groups(m).len() as int)
}

/// The rows of the groups that have a label, in the order in which they are shown.
pub(crate) fn named_rows(acc: &GroupCounts) -> (r: Vec<usize>)
    requires
        acc.wf(),
    ensures
        forall|i: int| 0 <= i < r@.len() ==> (#[trigger] r@[i]) < acc.keys@.len(),
        groups_at(*acc, r@) == named_groups(acc@),
{
    let order = groups_by_count(acc);
    let ghost gs = groups_at(*acc, order@);
    let mut r: Vec<usize> = Vec::new();
    let n: usize = order.len();
    let mut i: usize = 0;
    assert(groups_at(*acc, r@) =~= named(gs, 0));
    while i < n
        invariant
            acc.wf(),
            n == order@.len(),
            forall|k: int| 0 <= k < order@.len() ==> (#[trigger] order@[k]) < acc.keys@.len(),
            gs == groups_at(*acc, order@),
            i <= n,
            forall|k: int| 0 <= k < r@.len() ==> (#[trigger] r@[k]) < acc.keys@.len(),
            groups_at(*acc, r@) == named(gs, i as int),
        decreases n - i,
    {
        let at: usize = order[i];
        assert(gs[i as int].0 == views(acc.keys@[at as int]@));
        let name = label(&acc.keys[at]);
        if crate::text::char_count(name.as_str()) > 0 {
            let ghost before = groups_at(*acc, r@);
            r.push(at);
            assert(groups_at(*acc, r@) =~= before.push(gs[i as int]));
        }
        i = i + 1;
    }
    r
}

/// The origins with the most blocked connections, `limit` at most, from counts
/// by origin and protocol.
pub fn top_blocked_sources(counts: &GroupCounts, limit: usize) -> (r: Vec<TopBlocked>)
    requires
        counts.wf(),
    ensures
        ({
            let gs = named_groups(counts@);
            &&& r@.len() == if gs.len() < limit {
                gs.len() as int
            } else {
                limit as int
            }
            &&& forall|i: int|
                0 <= i < r@.len() ==> (#[trigger] r@[i]).src_ip@ == value_at(gs[i].0, 0)
                    && r@[i].protocol@ == value_at(gs[i].0, 1) && r@[i].count == gs[i].1
        }),
{
    let rows = named_rows(counts);
    let ghost gs = named_groups(counts@);
    assert(gs.len() == rows@.len());
    let mut r: Vec<TopBlocked> = Vec::new();
    let mut i: usize = 0;
    while i < rows.len() && i < limit
        invariant
            counts.wf(),
            forall|k: int| 0 <= k < rows@.len() ==> (#[trigger] rows@[k]) < counts.keys@.len(),
            gs == groups_at(*counts, rows@),
            i <= rows@.len(),
            i <= limit,
            r@.len() == i,
            forall|k: int|
                0 <= k < i ==> (#[trigger] r@[k]).src_ip@ == value_at(gs[k].0, 0)
                    && r@[k].protocol@ == value_at(gs[k].0, 1) && r@[k].count == gs[k].1,
        decreases rows@.len() - i,
    {
        let at: usize = rows[i];
        let key = &counts.keys[at];
        assert(gs[i as int].0 == views(key@));
        r.push(
            TopBlocked {
                src_ip: value_of_key(key, 0),
                protocol: value_of_key(key, 1),
                count: counts.counts[at],
            },
        );
        i = i + 1;
    }
    r
}

/// The connections that were let in, the most first, from counts by origin,
/// address and port.
pub fn inbound_allowed(counts: &GroupCounts) -> (r: Vec<InboundAllowed>)
    requires
        counts.wf(),
    ensures
        ({
            let gs = named_groups(counts@);
            &&& r@.len() == gs.len()
            &&& forall|i: int|
                0 <= i < r@.len() ==> (#[trigger] r@[i]).src_ip@ == value_at(gs[i].0, 0)
                    && r@[i].dst_ip@ == value_at(gs[i].0, 1) && r@[i].dst_port@ == value_at(
                    gs[i].0,
                    2,
                ) && r@[i].count == gs[i].1
        }),
{
    let rows = named_rows(counts);
    let ghost gs = named_groups(counts@);
    assert(gs.len() == rows@.len());
    let mut r: Vec<InboundAllowed> = Vec::new();
    let mut i: usize = 0;
    while i < rows.len()
        invariant
            counts.wf(),
            forall|k: int| 0 <= k < rows@.len() ==> (#[trigger] rows@[k]) < counts.keys@.len(),
            gs == groups_at(*counts, rows@),
            i <= rows@.len(),
            r@.len() == i,
            forall|k: int|
                0 <= k < i ==> (#[trigger] r@[k]).src_ip@ == value_at(gs[k].0, 0)
                    && r@[k].dst_ip@ == value_at(gs[k].0, 1) && r@[k].dst_port@ == value_at(
                    gs[k].0,
                    2,
                ) && r@[k].count == gs[k].1,
        decreases rows@.len() - i,
    {
        let at: usize = rows[i];
        let key = &counts.keys[at];
        assert(gs[i as int].0 == views(key@));
        r.push(
            InboundAllowed {
                src_ip: value_of_key(key, 0),
                dst_ip: value_of_key(key, 1),
                dst_port: value_of_key(key, 2),
                count: counts.counts[at],
            },
        );
        i = i + 1;
    }
    r
}

/// The addresses of a baseline: its groups' first values.
pub open spec fn labels_of(m: Map<Group, u64>) -> Set<Seq<char>> {
    Set::new(
        |s: Seq<char>| exists|g: Group| #[trigger] m.dom().contains(g) && g.len() > 0 && g[0] == s,
    )
}

/// Whether a destination is new: it has an address, and the baseline does not
/// have that.
pub open spec fn is_new(g: Group, baseline: Map<Group, u64>) -> bool {
    label_of(g).len() > 0 && !labels_of(baseline).contains(label_of(g))
}

/// Whether the destination of a group is new, given the baseline's counts by
/// address.
pub fn is_new_destination(key: &Vec<String>, baseline: &GroupCounts) -> (r: bool)
    requires
        baseline.wf(),
    ensures
        r == is_new(views(key@), baseline@),
{
    let name = label(key);
    if crate::text::char_count(name.as_str()) == 0 {
        return false;
    }
    let ghost kt = key_texts(baseline.keys@);
    let n: usize = baseline.keys.len();
    let mut i: usize = 0;
    while i < n
        invariant
            baseline.wf(),
            n == baseline.keys@.len(),
            kt == key_texts(baseline.keys@),
            name@ == label_of(views(key@)),
            i <= n,
            forall|k: int| 0 <= k < i ==> (#[trigger] kt[k]).len() == 0 || kt[k][0] != name@,
        decreases n - i,
    {
        let other = &baseline.keys[i];
        assert(kt[i as int] == views(other@));
        if other.len() > 0 && crate::text::same(other[0].as_str(), name.as_str()) {
            proof {
                baseline.entry_at(i as int);
                assert(baseline@.dom().contains(kt[i as int]));
            }
            return false;
        }
        i = i + 1;
    }
    proof {
        if labels_of(baseline@).contains(name@) {
            let g = choose|g: Group| #[trigger]
                baseline@.dom().contains(g) && g.len() > 0 && g[0] == name@;
            assert(kt.contains(g));
            let k = kt.index_of(g);
            assert(kt[k] == g);
        }
    }
    true
}

/// The rows, among the first `n` of an order, whose destination is new.
pub open spec fn new_rows(
    keys: Seq<Group>,
    order: Seq<usize>,
    baseline: Map<Group, u64>,
    n: int,
) -> Seq<usize>
    decreases n,
{
    if n <= 0 {
        Seq::empty()
    } else if is_new(keys[order[n - 1] as int], baseline) {
        new_rows(keys, order, baseline, n - 1).push(order[n - 1])
    } else {
        new_rows(keys, order, baseline, n - 1)
    }
}

/// Whether `order` lists the rows of `acc` as they are shown.
pub open spec fn is_shown_order(acc: GroupCounts, order: Seq<usize>) -> bool {
    &&& forall|i: int| 0 <= i < order.len() ==> (#[trigger] order[i]) < acc.keys@.len()
    &&& groups_at(acc, order) == ordered_groups(acc@)
}

/// Whether the rows `r` of the section are the new destinations of `counts`.
pub open spec fn shows_new(
    counts: GroupCounts,
    baseline: Map<Group, u64>,
    seen: Seq<Option<Instant>>,
    r: Seq<NewDestination>,
) -> bool {
    let keys = key_texts(counts.keys@);
    exists|order: Seq<usize>| #[trigger]
        is_shown_order(counts, order) && {
            let rows = new_rows(keys, order, baseline, order.len() as int);
            r.len() == rows.len() && forall|i: int|
                0 <= i < r.len() ==> (#[trigger] r[i]).dst_ip@ == value_at(keys[rows[i] as int], 0)
                    && r[i].dst_port@ == value_at(keys[rows[i] as int], 1) && r[i].count
                    == counts.counts@[rows[i] as int] && r[i].first_seen == seen[rows[i] as int]
        }
}

/// The destinations that the baseline does not have, the most used first, from
/// counts by address and port. `seen` holds, for each group that is new, when it
/// was first seen.
pub fn new_outbound_destinations(
    counts: &GroupCounts,
    baseline: &GroupCounts,
    seen: &Vec<Option<Instant>>,
) -> (r: Vec<NewDestination>)
    requires
        counts.wf(),
        baseline.wf(),
        seen@.len() == counts.keys@.len(),
    ensures
        shows_new(*counts, baseline@, seen@, r@),
{
    let order = groups_by_count(counts);
    let ghost keys = key_texts(counts.keys@);
    let mut r: Vec<NewDestination> = Vec::new();
    let n: usize = order.len();
    let mut i: usize = 0;
    while i < n
        invariant
            counts.wf(),
            baseline.wf(),
            seen@.len() == counts.keys@.len(),
            keys == key_texts(counts.keys@),
            n == order@.len(),
            forall|k: int| 0 <= k < order@.len() ==> (#[trigger] order@[k]) < counts.keys@.len(),
            i <= n,
            ({
                let rows = new_rows(keys, order@, baseline@, i as int);
                r@.len() == rows.len() && forall|k: int|
                    0 <= k < r@.len() ==> (#[trigger] r@[k]).dst_ip@ == value_at(
                        keys[rows[k] as int],
                        0,
                    ) && r@[k].dst_port@ == value_at(keys[rows[k] as int], 1) && r@[k].count
                        == counts.counts@[rows[k] as int] && r@[k].first_seen
                        == seen@[rows[k] as int]
            }),
        decreases n - i,
    {
        let at: usize = order[i];
        let key = &counts.keys[at];
        assert(keys[at as int] == views(key@));
        if is_new_destination(key, baseline) {
            r.push(
                NewDestination {
                    dst_ip: value_of_key(key, 0),
                    dst_port: value_of_key(key, 1),
                    count: counts.counts[at],
                    first_seen: seen[at],
                },
            );
        }
        i = i + 1;
    }
    assert(is_shown_order(*counts, order@));
    r
}

/// The network section. Connections to new destinations are listed only if they
/// are asked for.
pub fn build_network_with_interval(
    block_minutes: &GroupCounts,
    win: &Window,
    interval: Duration,
    blocked: &GroupCounts,
    let_in: &GroupCounts,
    outbound: &GroupCounts,
    outbound_baseline: &GroupCounts,
    seen: &Vec<Option<Instant>>,
    cfg: &DigestConfig,
) -> (r: NetworkSection)
    requires
        block_minutes.wf(),
        blocked.wf(),
        let_in.wf(),
        outbound.wf(),
        outbound_baseline.wf(),
        seen@.len() == outbound.keys@.len(),
        win.in_range(),
        interval.in_range(),
        interval_count(*win, interval) <= usize::MAX,
        sum_of(block_minutes.counts@, block_minutes.counts@.len() as int) <= u64::MAX,
    ensures
        r.block_trend@.len() == interval_count(*win, interval),
        forall|b: int|
            0 <= b < r.block_trend@.len() ==> #[trigger] r.block_trend@[b] == slot_count(
                key_texts(block_minutes.keys@),
                block_minutes.counts@,
                *win,
                interval,
                b,
                block_minutes.counts@.len() as int,
            ),
        ({
            let gs = named_groups(blocked@);
            &&& r.top_blocked@.len() == if gs.len() < cfg.top_blocked_limit {
                gs.len() as int
            } else {
                cfg.top_blocked_limit as int
            }
            &&& forall|i: int|
                0 <= i < r.top_blocked@.len() ==> (#[trigger] r.top_blocked@[i]).src_ip@
                    == value_at(gs[i].0, 0) && r.top_blocked@[i].protocol@ == value_at(gs[i].0, 1)
                    && r.top_blocked@[i].count == gs[i].1
        }),
        ({
            let gs = named_groups(let_in@);
            &&& r.inbound@.len() == gs.len()
            &&& forall|i: int|
                0 <= i < r.inbound@.len() ==> (#[trigger] r.inbound@[i]).src_ip@ == value_at(
                    gs[i].0,
                    0,
                ) && r.inbound@[i].dst_ip@ == value_at(gs[i].0, 1) && r.inbound@[i].dst_port@
                    == value_at(gs[i].0, 2) && r.inbound@[i].count == gs[i].1
        }),
        cfg.new_destination_always_flag ==> shows_new(
            *outbound,
            outbound_baseline@,
            seen@,
            r.new_destinations@,
        ),
        !cfg.new_destination_always_flag ==> r.new_destinations@.len() == 0,
{
    let new_destinations = if cfg.new_destination_always_flag {
        new_outbound_destinations(outbound, outbound_baseline, seen)
    } else {
        Vec::new()
    };
    NetworkSection {
        block_trend: bucket_series(block_minutes, win, interval),
        top_blocked: top_blocked_sources(blocked, cfg.top_blocked_limit),
        inbound: inbound_allowed(let_in),
        new_destinations,
    }
}

// ── The report ───────────────────────────────────────────────────────────────

/// The digest of a window.
#[derive(Debug)]
pub struct DigestReport {
    pub window: WindowInfo,
    pub coverage: CoverageSection,
    pub volume: Vec<VolumeRow>,
    pub network: NetworkSection,
    pub auth: AuthSection,
    pub alerts: AlertsSection,
    pub notable: NotableSection,
}

} // verus!
