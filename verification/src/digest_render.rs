//! The digest as text.
//!
//! The text gives what the report holds: a changed page of the firewall by its
//! path, a service by its transitions, a rule by its name.
use vstd::prelude::*;

use crate::calendar::Civil;
use crate::collections::{ascending_list, FieldSet};
use crate::digest::{CoverageSection, DigestReport, IncompleteBucket, InboundAllowed};
use crate::digest::{NetworkSection, NewDestination, TopBlocked, UnparsedSource, VolumeRow};
use crate::digest::WindowInfo;
use crate::digest_alerts::{AlertRuleCount, AlertsSection};
use crate::digest_auth::{AccessEvent, AuthFailureBySource, AuthFailureRow, AuthSection, SudoEvent};
use crate::digest_notable::{ConfigChange, CriticalEvent, NotableSection, ServiceRestart};
use crate::figures::{fmt_n, grouped};
use crate::number::{dec, dec_i64, dec_int, dec_u64, zero_pad, zero_padded};
use crate::text::{fill, join, joined, left_aligned, opt_view, pad_left, pad_right, repeat};
use crate::text::{right_aligned, same, views};
use crate::window::{Duration, Instant, NANOS};

verus! {

// ── Pieces ───────────────────────────────────────────────────────────────────

/// A time of day: `HH:MM`.
pub open spec fn hm(c: Civil) -> Seq<char> {
    zero_padded(c.hour as int, 2) + ":"@ + zero_padded(c.minute as int, 2)
}

/// A time of day: `HH:MM:SS`.
pub open spec fn hms(c: Civil) -> Seq<char> {
    hm(c) + ":"@ + zero_padded(c.second as int, 2)
}

/// A time of day, or a question mark.
pub open spec fn opt_hm(t: Option<Instant>) -> Seq<char> {
    match t {
        Some(x) => hm(x.civil()),
        None => "?"@,
    }
}

/// A time of day to the second, or a question mark.
pub open spec fn opt_hms(t: Option<Instant>) -> Seq<char> {
    match t {
        Some(x) => hms(x.civil()),
        None => "?"@,
    }
}

/// Whether a time, if there is one, lies in the calendar's range.
pub open spec fn time_fits(t: Option<Instant>) -> bool {
    match t {
        Some(x) => x.in_range(),
        None => true,
    }
}

fn fmt_hm(t: Instant) -> (r: String)
    requires
        t.in_range(),
    ensures
        r@ == hm(t.civil()),
{
    let c = t.fields();
    let mut r = zero_pad(c.hour as i64, 2);
    r.append(":");
    r.append(zero_pad(c.minute as i64, 2).as_str());
    r
}

fn fmt_hms(t: Instant) -> (r: String)
    requires
        t.in_range(),
    ensures
        r@ == hms(t.civil()),
{
    let mut r = fmt_hm(t);
    r.append(":");
    r.append(zero_pad(t.fields().second as i64, 2).as_str());
    r
}

fn fmt_opt_hm(t: Option<Instant>) -> (r: String)
    requires
        time_fits(t),
    ensures
        r@ == opt_hm(t),
{
    match t {
        Some(x) => fmt_hm(x),
        None => "?".to_owned(),
    }
}

fn fmt_opt_hms(t: Option<Instant>) -> (r: String)
    requires
        time_fits(t),
    ensures
        r@ == opt_hms(t),
{
    match t {
        Some(x) => fmt_hms(x),
        None => "?".to_owned(),
    }
}

/// The whole seconds of a duration, towards zero.
pub open spec fn whole_seconds(d: Duration) -> int {
    if d.nanos >= 0 {
        d.nanos as int / NANOS as int
    } else {
        -((-d.nanos) / NANOS as int)
    }
}

/// The name of an interval, in the largest unit that it is a whole number of.
pub open spec fn duration_label(d: Duration) -> Seq<char> {
    let s = whole_seconds(d);
    if s % 3600 == 0 {
        dec_int(s / 3600) + "h"@
    } else if s % 60 == 0 {
        dec_int(s / 60) + "min"@
    } else {
        dec_int(s) + "s"@
    }
}

/// The name of an interval, in the largest unit that it is a whole number of.
pub fn fmt_duration_label(d: Duration) -> (r: String)
    requires
        d.in_range(),
        d.nanos >= 0,
    ensures
        r@ == duration_label(d),
{
    let s: i64 = (d.nanos / NANOS) as i64;
    if s % 3600 == 0 {
        let mut r = dec_i64(s / 3600);
        r.append("h");
        r
    } else if s % 60 == 0 {
        let mut r = dec_i64(s / 60);
        r.append("min");
        r
    } else {
        let mut r = dec_i64(s);
        r.append("s");
        r
    }
}

/// A list, or that there is nothing in it.
pub open spec fn list_text(items: Seq<Seq<char>>) -> Seq<char> {
    if items.len() == 0 {
        "— (none)"@
    } else {
        joined(items, ", "@)
    }
}

fn list_or_none(items: &Vec<String>) -> (r: String)
    ensures
        r@ == list_text(views(items@)),
{
    assert(views(items@).len() == items@.len());
    if items.len() == 0 {
        "— (none)".to_owned()
    } else {
        join(items, ", ")
    }
}

// ── Coverage ─────────────────────────────────────────────────────────────────

/// The lines of the first `n` programs that were not parsed.
pub open spec fn unparsed_lines(out: Seq<char>, v: Seq<UnparsedSource>, n: int) -> Seq<char>
    decreases n,
{
    if n <= 0 {
        out
    } else {
        unparsed_lines(out, v, n - 1) + "  "@ + left_aligned(v[n - 1].app_name@, 15) + " "@
            + right_aligned(dec(v[n - 1].count as nat), 5) + " events\n"@
    }
}

/// The lines of the first `n` buckets with gaps.
pub open spec fn gap_lines(out: Seq<char>, v: Seq<IncompleteBucket>, n: int) -> Seq<char>
    decreases n,
{
    if n <= 0 {
        out
    } else {
        let b = v[n - 1];
        let missing = if b.raw_count > b.indexed_count {
            b.raw_count - b.indexed_count
        } else {
            0
        };
        gap_lines(out, v, n - 1) + "  "@ + b.bucket@ + "   "@ + dec(b.raw_count as nat) + " raw, "@
            + dec(b.indexed_count as nat) + " indexed ("@ + dec(missing as nat)
            + " missing) — try: indexd --backfill "@ + b.bucket@ + "\n"@
    }
}

/// How the index stands to the raw files.
pub open spec fn index_state(c: CoverageSection) -> Seq<char> {
    match (c.latest_raw, c.index_lag_seconds) {
        (Some(_), Some(lag)) => if lag <= 300 {
            "current"@
        } else {
            "LAGGING by "@ + dec_int(lag as int) + "s"@
        },
        (Some(_), None) => "unknown (no index yet)"@,
        (None, _) => "unknown (no raw data)"@,
    }
}

/// The text after the coverage section.
pub open spec fn coverage_text(out: Seq<char>, w: WindowInfo, c: CoverageSection) -> Seq<char> {
    let a = out + "=== COVERAGE ("@ + hm(w.start.civil()) + " – "@ + hm(w.end.civil())
        + ") ===\n\nSources reporting:     "@ + dec(c.sources_reporting as nat)
        + "\nSources gone silent:   "@ + list_text(views(c.gone_silent@));
    let b = if c.new_sources@.len() == 0 {
        a + "\nNew sources:           — (none)\n"@
    } else {
        a + "\nNew sources:           "@ + joined(views(c.new_sources@), ", "@)
            + "  (first seen this window)\n"@
    };
    let d = b + "\nUnparsed high-volume sources (>threshold events, _normalized: false):\n"@;
    let e = if c.unparsed_high_volume@.len() == 0 {
        d + "  (none)\n"@
    } else {
        unparsed_lines(d, c.unparsed_high_volume@, c.unparsed_high_volume@.len() as int)
    };
    let f = e + "\nIndex coverage:        "@ + index_state(c) + " (latest raw: "@ + opt_hm(
        c.latest_raw,
    ) + ", latest bucket: "@ + opt_hm(c.latest_indexed) + ")\n"@;
    if c.incomplete_buckets@.len() == 0 {
        f + "Index completeness:    complete (raw line counts match indexed row counts)\n\n"@
    } else {
        gap_lines(
            f + "Index completeness:    INCOMPLETE — raw events exist that were never indexed:\n"@,
            c.incomplete_buckets@,
            c.incomplete_buckets@.len() as int,
        ) + "\n"@
    }
}

fn coverage_state(c: &CoverageSection) -> (r: String)
    ensures
        r@ == index_state(*c),
{
    match (c.latest_raw, c.index_lag_seconds) {
        (Some(_), Some(lag)) => if lag <= 300 {
            "current".to_owned()
        } else {
            let mut r = "LAGGING by ".to_owned();
            r.append(dec_i64(lag).as_str());
            r.append("s");
            r
        },
        (Some(_), None) => "unknown (no index yet)".to_owned(),
        (None, _) => "unknown (no raw data)".to_owned(),
    }
}

fn render_coverage(out: &mut String, w: &WindowInfo, c: &CoverageSection)
    requires
        w.start.in_range(),
        w.end.in_range(),
        time_fits(c.latest_raw),
        time_fits(c.latest_indexed),
    ensures
        final(out)@ == coverage_text(old(out)@, *w, *c),
{
    out.append("=== COVERAGE (");
    out.append(fmt_hm(w.start).as_str());
    out.append(" – ");
    out.append(fmt_hm(w.end).as_str());
    out.append(") ===\n\nSources reporting:     ");
    out.append(dec_u64(c.sources_reporting as u64).as_str());
    out.append("\nSources gone silent:   ");
    out.append(list_or_none(&c.gone_silent).as_str());
    if c.new_sources.len() == 0 {
        out.append("\nNew sources:           — (none)\n");
    } else {
        out.append("\nNew sources:           ");
        out.append(join(&c.new_sources, ", ").as_str());
        out.append("  (first seen this window)\n");
    }
    out.append("\nUnparsed high-volume sources (>threshold events, _normalized: false):\n");
    if c.unparsed_high_volume.len() == 0 {
        out.append("  (none)\n");
    } else {
        let ghost before = out@;
        let v = &c.unparsed_high_volume;
        let mut i: usize = 0;
        while i < v.len()
            invariant
                i <= v@.len(),
                out@ == unparsed_lines(before, v@, i as int),
            decreases v@.len() - i,
        {
            out.append("  ");
            out.append(pad_right(v[i].app_name.as_str(), 15).as_str());
            out.append(" ");
            out.append(pad_left(dec_u64(v[i].count).as_str(), 5).as_str());
            out.append(" events\n");
            i = i + 1;
        }
    }
    out.append("\nIndex coverage:        ");
    out.append(coverage_state(c).as_str());
    out.append(" (latest raw: ");
    out.append(fmt_opt_hm(c.latest_raw).as_str());
    out.append(", latest bucket: ");
    out.append(fmt_opt_hm(c.latest_indexed).as_str());
    out.append(")\n");
    if c.incomplete_buckets.len() == 0 {
        out.append(
            "Index completeness:    complete (raw line counts match indexed row counts)\n\n",
        );
    } else {
        out.append(
            "Index completeness:    INCOMPLETE — raw events exist that were never indexed:\n",
        );
        let ghost before = out@;
        let v = &c.incomplete_buckets;
        let mut i: usize = 0;
        while i < v.len()
            invariant
                i <= v@.len(),
                out@ == gap_lines(before, v@, i as int),
            decreases v@.len() - i,
        {
            let missing: u64 = if v[i].raw_count > v[i].indexed_count {
                v[i].raw_count - v[i].indexed_count
            } else {
                0
            };
            out.append("  ");
            out.append(v[i].bucket.as_str());
            out.append("   ");
            out.append(dec_u64(v[i].raw_count).as_str());
            out.append(" raw, ");
            out.append(dec_u64(v[i].indexed_count).as_str());
            out.append(" indexed (");
            out.append(dec_u64(missing).as_str());
            out.append(" missing) — try: indexd --backfill ");
            out.append(v[i].bucket.as_str());
            out.append("\n");
            i = i + 1;
        }
        out.append("\n");
    }
}

// ── Volume ───────────────────────────────────────────────────────────────────

/// How a row's change is shown.
pub open spec fn delta_text(row: VolumeRow) -> Seq<char> {
    if opt_view(row.flag) == Some("new"@) {
        "NEW"@
    } else {
        match row.delta {
            Some(d) => d@,
            None => "0%"@,
        }
    }
}

/// The lines of the first `n` sources.
pub open spec fn volume_lines(out: Seq<char>, v: Seq<VolumeRow>, n: int) -> Seq<char>
    decreases n,
{
    if n <= 0 {
        out
    } else {
        let row = v[n - 1];
        volume_lines(out, v, n - 1) + left_aligned(row.source@, 14) + right_aligned(
            grouped(dec(row.count as nat)),
            12,
        ) + "  "@ + right_aligned(grouped(dec(row.baseline as nat)), 8) + "   "@ + delta_text(row)
            + if row.flag is Some {
            " ←\n"@
        } else {
            "\n"@
        }
    }
}

/// The text after the volume section.
pub open spec fn volume_text(out: Seq<char>, w: WindowInfo, v: Seq<VolumeRow>) -> Seq<char> {
    volume_lines(
        out + "=== VOLUME ("@ + hm(w.start.civil()) + " – "@ + hm(w.end.civil()) + " vs "@ + hm(
            w.baseline_start.civil(),
        ) + " – "@ + hm(w.baseline_end.civil())
            + ") ===\n\nsource         this window  baseline   delta\n"@,
        v,
        v.len() as int,
    ) + "\n"@
}

fn render_delta(row: &VolumeRow) -> (r: String)
    ensures
        r@ == delta_text(*row),
{
    if let Some(f) = &row.flag {
        if same(f.as_str(), "new") {
            return "NEW".to_owned();
        }
    }
    match &row.delta {
        Some(d) => d.clone(),
        None => "0%".to_owned(),
    }
}

fn render_volume(out: &mut String, w: &WindowInfo, v: &Vec<VolumeRow>)
    requires
        w.start.in_range(),
        w.end.in_range(),
        w.baseline_start.in_range(),
        w.baseline_end.in_range(),
    ensures
        final(out)@ == volume_text(old(out)@, *w, v@),
{
    out.append("=== VOLUME (");
    out.append(fmt_hm(w.start).as_str());
    out.append(" – ");
    out.append(fmt_hm(w.end).as_str());
    out.append(" vs ");
    out.append(fmt_hm(w.baseline_start).as_str());
    out.append(" – ");
    out.append(fmt_hm(w.baseline_end).as_str());
    out.append(") ===\n\nsource         this window  baseline   delta\n");
    let ghost before = out@;
    let mut i: usize = 0;
    while i < v.len()
        invariant
            i <= v@.len(),
            out@ == volume_lines(before, v@, i as int),
        decreases v@.len() - i,
    {
        out.append(pad_right(v[i].source.as_str(), 14).as_str());
        out.append(pad_left(fmt_n(v[i].count).as_str(), 12).as_str());
        out.append("  ");
        out.append(pad_left(fmt_n(v[i].baseline).as_str(), 8).as_str());
        out.append("   ");
        out.append(render_delta(&v[i]).as_str());
        if v[i].flag.is_some() {
            out.append(" ←\n");
        } else {
            out.append("\n");
        }
        i = i + 1;
    }
    out.append("\n");
}

// ── Network ──────────────────────────────────────────────────────────────────

/// How a series is shown: as its average where it has no peak, else as a line of
/// bars of these heights, zero to seven.
#[derive(Debug)]
pub enum Shape {
    Flat { average: String },
    Peaked { levels: Vec<usize> },
}

/// A bar of a height from zero to seven.
pub open spec fn bar(level: int) -> char {
    if level <= 0 {
        '▁'
    } else if level == 1 {
        '▂'
    } else if level == 2 {
        '▃'
    } else if level == 3 {
        '▄'
    } else if level == 4 {
        '▅'
    } else if level == 5 {
        '▆'
    } else if level == 6 {
        '▇'
    } else {
        '█'
    }
}

fn bar_of(level: usize) -> (r: char)
    ensures
        r == bar(level as int),
{
    if level == 0 {
        '▁'
    } else if level == 1 {
        '▂'
    } else if level == 2 {
        '▃'
    } else if level == 3 {
        '▄'
    } else if level == 4 {
        '▅'
    } else if level == 5 {
        '▆'
    } else if level == 6 {
        '▇'
    } else {
        '█'
    }
}

/// The largest of the first `n` numbers.
pub open spec fn largest(s: Seq<u64>, n: int) -> u64
    decreases n,
{
    if n <= 0 {
        0
    } else if s[n - 1] > largest(s, n - 1) {
        s[n - 1]
    } else {
        largest(s, n - 1)
    }
}

/// The bars of a series.
pub open spec fn bars(series: Seq<u64>, levels: Seq<usize>) -> Seq<char> {
    Seq::new(
        series.len(),
        |i: int|
            if largest(series, series.len() as int) == 0 {
                bar(0)
            } else {
                bar(levels[i] as int)
            },
    )
}

/// The text after a series.
pub open spec fn sparkline_text(
    out: Seq<char>,
    series: Seq<u64>,
    w: WindowInfo,
    shape: Shape,
    label: Seq<char>,
) -> Seq<char> {
    if series.len() == 0 {
        out + "  (no data)\n"@
    } else {
        match shape {
            Shape::Flat { average } => out + "BLOCK rate stable: avg "@ + average@ + "/"@ + label
                + ", max "@ + dec(largest(series, series.len() as int) as nat) + "/"@ + label
                + "\n"@,
            Shape::Peaked { levels } => out + bars(series, levels@) + "\n"@ + hm(w.start.civil())
                + fill(' ', series.len() - 10) + hm(w.end.civil()) + "\n"@,
        }
    }
}

/// Writes a series: nothing but that it is empty; its average and its largest
/// number; or one bar per number over the times of its ends.
fn render_sparkline(out: &mut String, series: &Vec<u64>, w: &WindowInfo, shape: &Shape, label: &str)
    requires
        w.start.in_range(),
        w.end.in_range(),
        shape matches Shape::Peaked { levels } ==> levels@.len() == series@.len(),
    ensures
        final(out)@ == sparkline_text(old(out)@, series@, *w, *shape, label@),
{
    if series.len() == 0 {
        out.append("  (no data)\n");
        return;
    }
    let mut max: u64 = 0;
    let n: usize = series.len();
    let mut i: usize = 0;
    while i < n
        invariant
            n == series@.len(),
            i <= n,
            max == largest(series@, i as int),
        decreases n - i,
    {
        if series[i] > max {
            max = series[i];
        }
        i = i + 1;
    }
    match shape {
        Shape::Flat { average } => {
            out.append("BLOCK rate stable: avg ");
            out.append(average.as_str());
            out.append("/");
            out.append(label);
            out.append(", max ");
            out.append(dec_u64(max).as_str());
            out.append("/");
            out.append(label);
            out.append("\n");
        },
        Shape::Peaked { levels } => {
            let mut line = String::new();
            let ghost target = bars(series@, levels@);
            let mut k: usize = 0;
            while k < n
                invariant
                    n == series@.len(),
                    levels@.len() == n,
                    max == largest(series@, n as int),
                    target == bars(series@, levels@),
                    k <= n,
                    line@ == target.take(k as int),
                decreases n - k,
            {
                if max == 0 {
                    line.push(bar_of(0));
                } else {
                    line.push(bar_of(levels[k]));
                }
                assert(target.take(k + 1) =~= target.take(k as int).push(target[k as int]));
                k = k + 1;
            }
            assert(target.take(n as int) =~= target);
            out.append(line.as_str());
            out.append("\n");
            out.append(fmt_hm(w.start).as_str());
            let pad: usize = if n > 10 {
                n - 10
            } else {
                0
            };
            assert(fill(' ', pad as int) =~= fill(' ', n - 10));
            out.append(repeat(' ', pad).as_str());
            out.append(fmt_hm(w.end).as_str());
            out.append("\n");
        },
    }
}

/// The lines of the first `n` blocked origins.
pub open spec fn blocked_lines(out: Seq<char>, v: Seq<TopBlocked>, n: int) -> Seq<char>
    decreases n,
{
    if n <= 0 {
        out
    } else {
        blocked_lines(out, v, n - 1) + left_aligned(v[n - 1].src_ip@, 18) + right_aligned(
            grouped(dec(v[n - 1].count as nat)),
            7,
        ) + "  "@ + v[n - 1].protocol@ + "\n"@
    }
}

/// The lines of the first `n` connections that were let in.
pub open spec fn inbound_lines(out: Seq<char>, v: Seq<InboundAllowed>, n: int) -> Seq<char>
    decreases n,
{
    if n <= 0 {
        out
    } else {
        inbound_lines(out, v, n - 1) + left_aligned(v[n - 1].src_ip@, 18) + left_aligned(
            v[n - 1].dst_ip@ + ":"@ + v[n - 1].dst_port@,
            24,
        ) + right_aligned(grouped(dec(v[n - 1].count as nat)), 7) + "\n"@
    }
}

/// The lines of the first `n` new destinations.
pub open spec fn destination_lines(out: Seq<char>, v: Seq<NewDestination>, n: int) -> Seq<char>
    decreases n,
{
    if n <= 0 {
        out
    } else {
        destination_lines(out, v, n - 1) + left_aligned(v[n - 1].dst_ip@, 18) + left_aligned(
            v[n - 1].dst_port@,
            10,
        ) + right_aligned(grouped(dec(v[n - 1].count as nat)), 7) + "  "@ + opt_hms(
            v[n - 1].first_seen,
        ) + "\n"@
    }
}

/// The text after the network section.
pub open spec fn network_text(
    out: Seq<char>,
    w: WindowInfo,
    n: NetworkSection,
    wan: Seq<char>,
    interval: Duration,
    shape: Shape,
) -> Seq<char> {
    let label = duration_label(interval);
    let a = sparkline_text(
        out + "=== FIREWALL TRENDS (BLOCK / "@ + label + ") ===\n\n"@,
        n.block_trend@,
        w,
        shape,
        label,
    ) + "\n=== TOP BLOCKED SOURCE IPs ===\n\n"@;
    let b = if n.top_blocked@.len() == 0 {
        a + "  (none)\n"@
    } else {
        blocked_lines(
            a + "src_ip              count  protocol\n"@,
            n.top_blocked@,
            n.top_blocked@.len() as int,
        )
    };
    let c = b + "\n=== INBOUND ALLOWED ("@ + wan + ") ===\n\n"@;
    let d = if n.inbound@.len() == 0 {
        c + "  (none)\n"@
    } else {
        inbound_lines(
            c + "src_ip            dst                       count\n"@,
            n.inbound@,
            n.inbound@.len() as int,
        )
    };
    let e = d + "\n=== NEW OUTBOUND DESTINATIONS (vs baseline) ===\n\n"@;
    let f = if n.new_destinations@.len() == 0 {
        e + "  (none)\n"@
    } else {
        destination_lines(
            e + "dst_ip            dst_port    count  first seen\n"@,
            n.new_destinations@,
            n.new_destinations@.len() as int,
        )
    };
    f + "\n"@
}

/// Whether the network section's times lie in the calendar's range.
pub open spec fn network_fits(n: NetworkSection) -> bool {
    forall|i: int|
        0 <= i < n.new_destinations@.len() ==> time_fits(
            (#[trigger] n.new_destinations@[i]).first_seen,
        )
}

fn render_blocked(out: &mut String, v: &Vec<TopBlocked>)
    ensures
        final(out)@ == blocked_lines(old(out)@, v@, v@.len() as int),
{
    let ghost before = out@;
    let mut i: usize = 0;
    while i < v.len()
        invariant
            i <= v@.len(),
            out@ == blocked_lines(before, v@, i as int),
        decreases v@.len() - i,
    {
        out.append(pad_right(v[i].src_ip.as_str(), 18).as_str());
        out.append(pad_left(fmt_n(v[i].count).as_str(), 7).as_str());
        out.append("  ");
        out.append(v[i].protocol.as_str());
        out.append("\n");
        i = i + 1;
    }
}

fn render_inbound(out: &mut String, v: &Vec<InboundAllowed>)
    ensures
        final(out)@ == inbound_lines(old(out)@, v@, v@.len() as int),
{
    let ghost before = out@;
    let mut i: usize = 0;
    while i < v.len()
        invariant
            i <= v@.len(),
            out@ == inbound_lines(before, v@, i as int),
        decreases v@.len() - i,
    {
        let mut dst = v[i].dst_ip.clone();
        dst.append(":");
        dst.append(v[i].dst_port.as_str());
        out.append(pad_right(v[i].src_ip.as_str(), 18).as_str());
        out.append(pad_right(dst.as_str(), 24).as_str());
        out.append(pad_left(fmt_n(v[i].count).as_str(), 7).as_str());
        out.append("\n");
        i = i + 1;
    }
}

fn render_destinations(out: &mut String, v: &Vec<NewDestination>)
    requires
        forall|i: int| 0 <= i < v@.len() ==> time_fits((#[trigger] v@[i]).first_seen),
    ensures
        final(out)@ == destination_lines(old(out)@, v@, v@.len() as int),
{
    let ghost before = out@;
    let mut i: usize = 0;
    while i < v.len()
        invariant
            forall|k: int| 0 <= k < v@.len() ==> time_fits((#[trigger] v@[k]).first_seen),
            i <= v@.len(),
            out@ == destination_lines(before, v@, i as int),
        decreases v@.len() - i,
    {
        out.append(pad_right(v[i].dst_ip.as_str(), 18).as_str());
        out.append(pad_right(v[i].dst_port.as_str(), 10).as_str());
        out.append(pad_left(fmt_n(v[i].count).as_str(), 7).as_str());
        out.append("  ");
        out.append(fmt_opt_hms(v[i].first_seen).as_str());
        out.append("\n");
        i = i + 1;
    }
}

fn render_network(
    out: &mut String,
    w: &WindowInfo,
    n: &NetworkSection,
    wan_interface: &str,
    interval: Duration,
    shape: &Shape,
)
    requires
        w.start.in_range(),
        w.end.in_range(),
        interval.in_range(),
        interval.nanos >= 0,
        network_fits(*n),
        shape matches Shape::Peaked { levels } ==> levels@.len() == n.block_trend@.len(),
    ensures
        final(out)@ == network_text(old(out)@, *w, *n, wan_interface@, interval, *shape),
{
    let label = fmt_duration_label(interval);
    out.append("=== FIREWALL TRENDS (BLOCK / ");
    out.append(label.as_str());
    out.append(") ===\n\n");
    render_sparkline(out, &n.block_trend, w, shape, label.as_str());
    out.append("\n=== TOP BLOCKED SOURCE IPs ===\n\n");
    if n.top_blocked.len() == 0 {
        out.append("  (none)\n");
    } else {
        out.append("src_ip              count  protocol\n");
        render_blocked(out, &n.top_blocked);
    }
    out.append("\n=== INBOUND ALLOWED (");
    out.append(wan_interface);
    out.append(") ===\n\n");
    if n.inbound.len() == 0 {
        out.append("  (none)\n");
    } else {
        out.append("src_ip            dst                       count\n");
        render_inbound(out, &n.inbound);
    }
    out.append("\n=== NEW OUTBOUND DESTINATIONS (vs baseline) ===\n\n");
    if n.new_destinations.len() == 0 {
        out.append("  (none)\n");
    } else {
        out.append("dst_ip            dst_port    count  first seen\n");
        render_destinations(out, &n.new_destinations);
    }
    out.append("\n");
}

// ── Authentication ───────────────────────────────────────────────────────────

/// The sources of the first `n` parts.
pub open spec fn part_sources(v: Seq<AuthFailureBySource>, n: int) -> Set<Seq<char>>
    decreases n,
{
    if n <= 0 {
        Set::empty()
    } else {
        part_sources(v, n - 1).insert(v[n - 1].source@)
    }
}

/// The kinds and counts of one source among the first `n` parts.
pub open spec fn kinds_of(v: Seq<AuthFailureBySource>, source: Seq<char>, n: int) -> Seq<Seq<char>>
    decreases n,
{
    if n <= 0 {
        Seq::empty()
    } else if v[n - 1].source@ == source {
        kinds_of(v, source, n - 1).push(
            v[n - 1].event_type@ + " x"@ + dec(v[n - 1].count as nat),
        )
    } else {
        kinds_of(v, source, n - 1)
    }
}

/// A source with its kinds and counts.
pub open spec fn source_text(v: Seq<AuthFailureBySource>, source: Seq<char>) -> Seq<char> {
    source + " ("@ + joined(kinds_of(v, source, v.len() as int), ", "@) + ")"@
}

/// The sources with their kinds and counts, by name.
pub open spec fn breakdown_text(v: Seq<AuthFailureBySource>) -> Seq<char> {
    joined(
        ascending_list(part_sources(v, v.len() as int)).map_values(
            |s: Seq<char>| source_text(v, s),
        ),
        ", "@,
    )
}

fn render_source(v: &Vec<AuthFailureBySource>, source: &str) -> (r: String)
    ensures
        r@ == source_text(v@, source@),
{
    let mut kinds: Vec<String> = Vec::new();
    let mut i: usize = 0;
    assert(views(kinds@) =~= Seq::<Seq<char>>::empty());
    while i < v.len()
        invariant
            i <= v@.len(),
            views(kinds@) == kinds_of(v@, source@, i as int),
        decreases v@.len() - i,
    {
        if same(v[i].source.as_str(), source) {
            let ghost before = views(kinds@);
            let mut k = v[i].event_type.clone();
            k.append(" x");
            k.append(dec_u64(v[i].count).as_str());
            let ghost text = k@;
            kinds.push(k);
            assert(views(kinds@) =~= before.push(text));
        }
        i = i + 1;
    }
    let mut r = source.to_owned();
    r.append(" (");
    r.append(join(&kinds, ", ").as_str());
    r.append(")");
    r
}

/// The failures of an address by source: each source with its kinds and counts.
pub fn format_auth_breakdown(by_source: &Vec<AuthFailureBySource>) -> (r: String)
    ensures
        r@ == breakdown_text(by_source@),
{
    let mut names = FieldSet::new();
    let mut i: usize = 0;
    while i < by_source.len()
        invariant
            i <= by_source@.len(),
            names.wf(),
            names@ == part_sources(by_source@, i as int),
        decreases by_source@.len() - i,
    {
        names.insert(by_source[i].source.as_str());
        i = i + 1;
    }
    proof {
        names.items_in_order();
    }
    let ghost nv = views(names.items@);
    let ghost target = nv.map_values(|s: Seq<char>| source_text(by_source@, s));
    let mut texts: Vec<String> = Vec::new();
    let n: usize = names.items.len();
    let mut i: usize = 0;
    while i < n
        invariant
            n == names.items@.len(),
            nv == views(names.items@),
            i <= n,
            texts@.len() == i,
            forall|k: int|
                0 <= k < i ==> (#[trigger] texts@[k])@ == source_text(by_source@, nv[k]),
        decreases n - i,
    {
        texts.push(render_source(by_source, names.items[i].as_str()));
        i = i + 1;
    }
    assert(views(texts@) =~= target);
    join(&texts, ", ")
}

/// The lines of the first `n` addresses.
pub open spec fn failure_lines(out: Seq<char>, v: Seq<AuthFailureRow>, n: int) -> Seq<char>
    decreases n,
{
    if n <= 0 {
        out
    } else {
        failure_lines(out, v, n - 1) + left_aligned(v[n - 1].src_ip@, 18) + right_aligned(
            grouped(dec(v[n - 1].count as nat)),
            7,
        ) + "  "@ + breakdown_text(v[n - 1].by_source@) + "\n"@
    }
}

/// The lines of the first `n` logins.
pub open spec fn access_lines(out: Seq<char>, v: Seq<AccessEvent>, n: int) -> Seq<char>
    decreases n,
{
    if n <= 0 {
        out
    } else {
        access_lines(out, v, n - 1) + "  "@ + opt_hms(v[n - 1].timestamp) + "  "@
            + v[n - 1].username@ + " @ "@ + v[n - 1].src_ip@ + " ("@ + v[n - 1].source@ + ")\n"@
    }
}

/// The user and the target user of a command.
pub open spec fn pair_of(e: SudoEvent) -> (Seq<char>, Seq<char>) {
    (e.username@, e.target_user@)
}

/// The pairs of users of the first `n` commands, each once, in the order in which
/// they first occur.
pub open spec fn pairs(v: Seq<SudoEvent>, n: int) -> Seq<(Seq<char>, Seq<char>)>
    decreases n,
{
    if n <= 0 {
        Seq::empty()
    } else if pairs(v, n - 1).contains(pair_of(v[n - 1])) {
        pairs(v, n - 1)
    } else {
        pairs(v, n - 1).push(pair_of(v[n - 1]))
    }
}

/// How many of the first `n` commands are a pair's.
pub open spec fn pair_count(v: Seq<SudoEvent>, p: (Seq<char>, Seq<char>), n: int) -> nat
    decreases n,
{
    if n <= 0 {
        0
    } else if pair_of(v[n - 1]) == p {
        pair_count(v, p, n - 1) + 1
    } else {
        pair_count(v, p, n - 1)
    }
}

/// The lines of a pair's commands among the first `n`.
pub open spec fn command_lines(
    out: Seq<char>,
    v: Seq<SudoEvent>,
    p: (Seq<char>, Seq<char>),
    n: int,
) -> Seq<char>
    decreases n,
{
    if n <= 0 {
        out
    } else if pair_of(v[n - 1]) == p {
        command_lines(out, v, p, n - 1) + "  "@ + opt_hms(v[n - 1].timestamp) + "  "@
            + v[n - 1].command@ + "\n"@
    } else {
        command_lines(out, v, p, n - 1)
    }
}

/// The lines of the first `k` pairs.
pub open spec fn pair_lines(
    out: Seq<char>,
    v: Seq<SudoEvent>,
    ps: Seq<(Seq<char>, Seq<char>)>,
    k: int,
) -> Seq<char>
    decreases k,
{
    if k <= 0 {
        out
    } else {
        let p = ps[k - 1];
        let n = pair_count(v, p, v.len() as int);
        command_lines(
            pair_lines(out, v, ps, k - 1) + p.0 + " → "@ + p.1 + "  "@ + dec(n) + if n == 1 {
                " event\n"@
            } else {
                " events\n"@
            },
            v,
            p,
            v.len() as int,
        )
    }
}

/// The text after the commands, by pair of users.
pub open spec fn sudo_text(out: Seq<char>, v: Seq<SudoEvent>) -> Seq<char> {
    let ps = pairs(v, v.len() as int);
    pair_lines(out, v, ps, ps.len() as int)
}

/// Whether a command is of a pair of users.
fn is_pair(e: &SudoEvent, user: &str, target: &str) -> (r: bool)
    ensures
        r == (pair_of(*e) == (user@, target@)),
{
    same(e.username.as_str(), user) && same(e.target_user.as_str(), target)
}

fn find_pairs(v: &Vec<SudoEvent>) -> (r: Vec<(String, String)>)
    ensures
        r@.len() == pairs(v@, v@.len() as int).len(),
        forall|k: int|
            0 <= k < r@.len() ==> ((#[trigger] r@[k]).0@, r@[k].1@) == pairs(
                v@,
                v@.len() as int,
            )[k],
{
    let mut r: Vec<(String, String)> = Vec::new();
    let mut i: usize = 0;
    while i < v.len()
        invariant
            i <= v@.len(),
            r@.len() == pairs(v@, i as int).len(),
            forall|k: int|
                0 <= k < r@.len() ==> ((#[trigger] r@[k]).0@, r@[k].1@) == pairs(v@, i as int)[k],
        decreases v@.len() - i,
    {
        let ghost ps = pairs(v@, i as int);
        let mut known = false;
        let mut k: usize = 0;
        while k < r.len()
            invariant
                i < v@.len(),
                k <= r@.len(),
                r@.len() == ps.len(),
                forall|j: int| 0 <= j < r@.len() ==> ((#[trigger] r@[j]).0@, r@[j].1@) == ps[j],
                known == exists|j: int| 0 <= j < k && #[trigger] ps[j] == pair_of(v@[i as int]),
            decreases r@.len() - k,
        {
            if is_pair(&v[i], r[k].0.as_str(), r[k].1.as_str()) {
                assert(ps[k as int] == pair_of(v@[i as int]));
                known = true;
            }
            k = k + 1;
        }
        assert(known == ps.contains(pair_of(v@[i as int])));
        if !known {
            r.push((v[i].username.clone(), v[i].target_user.clone()));
        }
        i = i + 1;
    }
    r
}

/// Writes commands by pair of users, in the order in which the pairs first occur.
fn render_sudo_events(out: &mut String, v: &Vec<SudoEvent>)
    requires
        forall|i: int| 0 <= i < v@.len() ==> time_fits((#[trigger] v@[i]).timestamp),
    ensures
        final(out)@ == sudo_text(old(out)@, v@),
{
    let found = find_pairs(v);
    let ghost ps = pairs(v@, v@.len() as int);
    let ghost start = out@;
    let m: usize = found.len();
    let n: usize = v.len();
    let mut k: usize = 0;
    while k < m
        invariant
            forall|i: int| 0 <= i < v@.len() ==> time_fits((#[trigger] v@[i]).timestamp),
            m == found@.len(),
            m == ps.len(),
            n == v@.len(),
            forall|j: int| 0 <= j < m ==> ((#[trigger] found@[j]).0@, found@[j].1@) == ps[j],
            k <= m,
            out@ == pair_lines(start, v@, ps, k as int),
        decreases m - k,
    {
        let ghost p = ps[k as int];
        let user = found[k].0.as_str();
        let target = found[k].1.as_str();
        assert(p == (user@, target@));
        let mut count: usize = 0;
        let mut i: usize = 0;
        while i < n
            invariant
                n == v@.len(),
                p == (user@, target@),
                i <= n,
                count <= i,
                count == pair_count(v@, p, i as int),
            decreases n - i,
        {
            if is_pair(&v[i], user, target) {
                count = count + 1;
            }
            i = i + 1;
        }
        out.append(user);
        out.append(" → ");
        out.append(target);
        out.append("  ");
        out.append(dec_u64(count as u64).as_str());
        if count == 1 {
            out.append(" event\n");
        } else {
            out.append(" events\n");
        }
        let ghost head = out@;
        let mut i: usize = 0;
        while i < n
            invariant
                forall|j: int| 0 <= j < v@.len() ==> time_fits((#[trigger] v@[j]).timestamp),
                n == v@.len(),
                p == (user@, target@),
                i <= n,
                out@ == command_lines(head, v@, p, i as int),
            decreases n - i,
        {
            if is_pair(&v[i], user, target) {
                out.append("  ");
                out.append(fmt_opt_hms(v[i].timestamp).as_str());
                out.append("  ");
                out.append(v[i].command.as_str());
                out.append("\n");
            }
            i = i + 1;
        }
        k = k + 1;
    }
}

/// The text after the authentication section.
pub open spec fn auth_text(out: Seq<char>, a: AuthSection) -> Seq<char> {
    let b = out + "=== AUTHENTICATION FAILURES (all sources) ===\n\n"@;
    let c = if a.failures@.len() == 0 {
        b + "  (none in window)\n"@
    } else {
        failure_lines(
            b + "src_ip              count  sources\n"@,
            a.failures@,
            a.failures@.len() as int,
        )
    };
    let d = c + "\n=== SUCCESSFUL LOGINS / ACCESS ===\n\n"@;
    let e = if a.successes@.len() == 0 {
        d + "  (none in window)\n"@
    } else {
        access_lines(d, a.successes@, a.successes@.len() as int)
    };
    let f = e + "\n=== PRIVILEGE ESCALATION (sudo) ===\n\n"@;
    let g = if a.sudo@.len() == 0 {
        f + "  (none in window)\n"@
    } else {
        sudo_text(f, a.sudo@)
    };
    g + "\n"@
}

/// Whether the authentication section's times lie in the calendar's range.
pub open spec fn auth_fits(a: AuthSection) -> bool {
    &&& forall|i: int|
        0 <= i < a.successes@.len() ==> time_fits((#[trigger] a.successes@[i]).timestamp)
    &&& forall|i: int| 0 <= i < a.sudo@.len() ==> time_fits((#[trigger] a.sudo@[i]).timestamp)
}

fn render_failures(out: &mut String, v: &Vec<AuthFailureRow>)
    ensures
        final(out)@ == failure_lines(old(out)@, v@, v@.len() as int),
{
    let ghost before = out@;
    let mut i: usize = 0;
    while i < v.len()
        invariant
            i <= v@.len(),
            out@ == failure_lines(before, v@, i as int),
        decreases v@.len() - i,
    {
        out.append(pad_right(v[i].src_ip.as_str(), 18).as_str());
        out.append(pad_left(fmt_n(v[i].count).as_str(), 7).as_str());
        out.append("  ");
        out.append(format_auth_breakdown(&v[i].by_source).as_str());
        out.append("\n");
        i = i + 1;
    }
}

fn render_access(out: &mut String, v: &Vec<AccessEvent>)
    requires
        forall|i: int| 0 <= i < v@.len() ==> time_fits((#[trigger] v@[i]).timestamp),
    ensures
        final(out)@ == access_lines(old(out)@, v@, v@.len() as int),
{
    let ghost before = out@;
    let mut i: usize = 0;
    while i < v.len()
        invariant
            forall|k: int| 0 <= k < v@.len() ==> time_fits((#[trigger] v@[k]).timestamp),
            i <= v@.len(),
            out@ == access_lines(before, v@, i as int),
        decreases v@.len() - i,
    {
        out.append("  ");
        out.append(fmt_opt_hms(v[i].timestamp).as_str());
        out.append("  ");
        out.append(v[i].username.as_str());
        out.append(" @ ");
        out.append(v[i].src_ip.as_str());
        out.append(" (");
        out.append(v[i].source.as_str());
        out.append(")\n");
        i = i + 1;
    }
}

fn render_auth(out: &mut String, a: &AuthSection)
    requires
        auth_fits(*a),
    ensures
        final(out)@ == auth_text(old(out)@, *a),
{
    out.append("=== AUTHENTICATION FAILURES (all sources) ===\n\n");
    if a.failures.len() == 0 {
        out.append("  (none in window)\n");
    } else {
        out.append("src_ip              count  sources\n");
        render_failures(out, &a.failures);
    }
    out.append("\n=== SUCCESSFUL LOGINS / ACCESS ===\n\n");
    if a.successes.len() == 0 {
        out.append("  (none in window)\n");
    } else {
        render_access(out, &a.successes);
    }
    out.append("\n=== PRIVILEGE ESCALATION (sudo) ===\n\n");
    if a.sudo.len() == 0 {
        out.append("  (none in window)\n");
    } else {
        render_sudo_events(out, &a.sudo);
    }
    out.append("\n");
}

// ── Alerts ───────────────────────────────────────────────────────────────────

/// The lines of the first `n` rules.
pub open spec fn rule_lines(out: Seq<char>, v: Seq<AlertRuleCount>, n: int) -> Seq<char>
    decreases n,
{
    if n <= 0 {
        out
    } else {
        rule_lines(out, v, n - 1) + left_aligned(v[n - 1].rule_id@, 26) + left_aligned(
            v[n - 1].level@,
            8,
        ) + right_aligned(grouped(dec(v[n - 1].count as nat)), 5) + "\n"@
    }
}

/// The rules of the two highest levels among the first `n`.
pub open spec fn grave_rules(v: Seq<AlertRuleCount>, n: int) -> Seq<Seq<char>>
    decreases n,
{
    if n <= 0 {
        Seq::empty()
    } else if v[n - 1].level@ == "high"@ || v[n - 1].level@ == "critical"@ {
        grave_rules(v, n - 1).push(v[n - 1].rule_id@)
    } else {
        grave_rules(v, n - 1)
    }
}

/// The text after the alerts section.
pub open spec fn alerts_text(out: Seq<char>, a: AlertsSection) -> Seq<char> {
    let n = a.by_rule@.len() as int;
    let b = out + "=== ALERTS ===\n\ntotal alerts:   "@ + grouped(dec(a.total as nat))
        + " events, "@ + dec(a.by_rule@.len()) + " rules\n\n"@;
    let c = if n == 0 {
        b
    } else {
        rule_lines(b + "rule                      level   count\n"@, a.by_rule@, n) + "\n"@
    };
    let grave = grave_rules(a.by_rule@, n);
    let d = c + "Rules firing for the first time this window:  "@ + list_text(
        views(a.first_time_rules@),
    ) + "\nHigh/critical alerts:                         "@ + if grave.len() == 0 {
        "none"@
    } else {
        joined(grave, ", "@)
    };
    match a.concentration_warning {
        Some(w) => d + "\n\nAlert concentration: "@ + w@ + "\n\n"@,
        None => d + "\n\n"@,
    }
}

fn find_grave(v: &Vec<AlertRuleCount>) -> (r: Vec<String>)
    ensures
        views(r@) == grave_rules(v@, v@.len() as int),
{
    let mut r: Vec<String> = Vec::new();
    let mut i: usize = 0;
    assert(views(r@) =~= Seq::<Seq<char>>::empty());
    while i < v.len()
        invariant
            i <= v@.len(),
            views(r@) == grave_rules(v@, i as int),
        decreases v@.len() - i,
    {
        if same(v[i].level.as_str(), "high") || same(v[i].level.as_str(), "critical") {
            let ghost before = views(r@);
            r.push(v[i].rule_id.clone());
            assert(views(r@) =~= before.push(v@[i as int].rule_id@));
        }
        i = i + 1;
    }
    r
}

fn render_alerts(out: &mut String, a: &AlertsSection)
    ensures
        final(out)@ == alerts_text(old(out)@, *a),
{
    let v = &a.by_rule;
    out.append("=== ALERTS ===\n\ntotal alerts:   ");
    out.append(fmt_n(a.total).as_str());
    out.append(" events, ");
    out.append(dec_u64(v.len() as u64).as_str());
    out.append(" rules\n\n");
    if v.len() > 0 {
        out.append("rule                      level   count\n");
        let ghost before = out@;
        let mut i: usize = 0;
        while i < v.len()
            invariant
                i <= v@.len(),
                out@ == rule_lines(before, v@, i as int),
            decreases v@.len() - i,
        {
            out.append(pad_right(v[i].rule_id.as_str(), 26).as_str());
            out.append(pad_right(v[i].level.as_str(), 8).as_str());
            out.append(pad_left(fmt_n(v[i].count).as_str(), 5).as_str());
            out.append("\n");
            i = i + 1;
        }
        out.append("\n");
    }
    out.append("Rules firing for the first time this window:  ");
    out.append(list_or_none(&a.first_time_rules).as_str());
    out.append("\nHigh/critical alerts:                         ");
    let grave = find_grave(v);
    assert(views(grave@).len() == grave@.len());
    if grave.len() == 0 {
        out.append("none");
    } else {
        out.append(join(&grave, ", ").as_str());
    }
    match &a.concentration_warning {
        Some(w) => {
            out.append("\n\nAlert concentration: ");
            out.append(w.as_str());
            out.append("\n\n");
        },
        None => {
            out.append("\n\n");
        },
    }
}

// ── Notable events ───────────────────────────────────────────────────────────

/// The lines of the first `n` configuration changes.
pub open spec fn change_lines(out: Seq<char>, v: Seq<ConfigChange>, n: int) -> Seq<char>
    decreases n,
{
    if n <= 0 {
        out
    } else {
        change_lines(out, v, n - 1) + "  "@ + opt_hm(v[n - 1].timestamp) + "  "@
            + v[n - 1].admin_user@ + " @ "@ + v[n - 1].src_ip@ + " — "@ + v[n - 1].page@ + "\n"@
    }
}

/// The lines of the first `n` services.
pub open spec fn restart_lines(out: Seq<char>, v: Seq<ServiceRestart>, n: int) -> Seq<char>
    decreases n,
{
    if n <= 0 {
        out
    } else {
        restart_lines(out, v, n - 1) + "  "@ + opt_hm(v[n - 1].first_seen) + "  "@ + v[n - 1].unit@
            + ": "@ + dec(v[n - 1].count as nat) + "x transition(s) (first "@ + opt_hm(
            v[n - 1].first_seen,
        ) + ", last "@ + opt_hm(v[n - 1].last_seen) + ")\n"@
    }
}

/// The lines of the first `n` events of the highest severities.
pub open spec fn critical_lines(out: Seq<char>, v: Seq<CriticalEvent>, n: int) -> Seq<char>
    decreases n,
{
    if n <= 0 {
        out
    } else {
        critical_lines(out, v, n - 1) + "  "@ + opt_hms(v[n - 1].timestamp) + "  "@
            + v[n - 1].source@ + " ("@ + v[n - 1].event_type@ + ") ["@ + v[n - 1].severity@
            + "]\n"@
    }
}

/// The text after the notable events.
pub open spec fn notable_text(out: Seq<char>, s: NotableSection) -> Seq<char> {
    let a = out + "=== NOTABLE EVENTS ===\n\nConfig changes (pfsense):\n"@;
    let b = if s.config_changes@.len() == 0 {
        a + "  (none)\n"@
    } else {
        change_lines(a, s.config_changes@, s.config_changes@.len() as int)
    };
    let c = b + "\nService restarts (systemd):\n"@;
    let d = if s.service_restarts@.len() == 0 {
        c + "  (none)\n"@
    } else {
        restart_lines(c, s.service_restarts@, s.service_restarts@.len() as int)
    };
    if s.critical_events@.len() == 0 {
        d + "\nSeverity critical/emergency:  none\n"@
    } else {
        critical_lines(
            d + "\nSeverity critical/emergency:\n"@,
            s.critical_events@,
            s.critical_events@.len() as int,
        )
    }
}

/// Whether the notable events' times lie in the calendar's range.
pub open spec fn notable_fits(s: NotableSection) -> bool {
    &&& forall|i: int|
        0 <= i < s.config_changes@.len() ==> time_fits((#[trigger] s.config_changes@[i]).timestamp)
    &&& forall|i: int|
        0 <= i < s.service_restarts@.len() ==> time_fits(
            (#[trigger] s.service_restarts@[i]).first_seen,
        ) && time_fits(s.service_restarts@[i].last_seen)
    &&& forall|i: int|
        0 <= i < s.critical_events@.len() ==> time_fits(
            (#[trigger] s.critical_events@[i]).timestamp,
        )
}

fn render_notable(out: &mut String, s: &NotableSection)
    requires
        notable_fits(*s),
    ensures
        final(out)@ == notable_text(old(out)@, *s),
{
    out.append("=== NOTABLE EVENTS ===\n\nConfig changes (pfsense):\n");
    if s.config_changes.len() == 0 {
        out.append("  (none)\n");
    } else {
        let ghost before = out@;
        let v = &s.config_changes;
        let mut i: usize = 0;
        while i < v.len()
            invariant
                forall|k: int| 0 <= k < v@.len() ==> time_fits((#[trigger] v@[k]).timestamp),
                i <= v@.len(),
                out@ == change_lines(before, v@, i as int),
            decreases v@.len() - i,
        {
            out.append("  ");
            out.append(fmt_opt_hm(v[i].timestamp).as_str());
            out.append("  ");
            out.append(v[i].admin_user.as_str());
            out.append(" @ ");
            out.append(v[i].src_ip.as_str());
            out.append(" — ");
            out.append(v[i].page.as_str());
            out.append("\n");
            i = i + 1;
        }
    }
    out.append("\nService restarts (systemd):\n");
    if s.service_restarts.len() == 0 {
        out.append("  (none)\n");
    } else {
        let ghost before = out@;
        let v = &s.service_restarts;
        let mut i: usize = 0;
        while i < v.len()
            invariant
                forall|k: int|
                    0 <= k < v@.len() ==> time_fits((#[trigger] v@[k]).first_seen) && time_fits(
                        v@[k].last_seen,
                    ),
                i <= v@.len(),
                out@ == restart_lines(before, v@, i as int),
            decreases v@.len() - i,
        {
            out.append("  ");
            out.append(fmt_opt_hm(v[i].first_seen).as_str());
            out.append("  ");
            out.append(v[i].unit.as_str());
            out.append(": ");
            out.append(dec_u64(v[i].count).as_str());
            out.append("x transition(s) (first ");
            out.append(fmt_opt_hm(v[i].first_seen).as_str());
            out.append(", last ");
            out.append(fmt_opt_hm(v[i].last_seen).as_str());
            out.append(")\n");
            i = i + 1;
        }
    }
    if s.critical_events.len() == 0 {
        out.append("\nSeverity critical/emergency:  none\n");
    } else {
        out.append("\nSeverity critical/emergency:\n");
        let ghost before = out@;
        let v = &s.critical_events;
        let mut i: usize = 0;
        while i < v.len()
            invariant
                forall|k: int| 0 <= k < v@.len() ==> time_fits((#[trigger] v@[k]).timestamp),
                i <= v@.len(),
                out@ == critical_lines(before, v@, i as int),
            decreases v@.len() - i,
        {
            out.append("  ");
            out.append(fmt_opt_hms(v[i].timestamp).as_str());
            out.append("  ");
            out.append(v[i].source.as_str());
            out.append(" (");
            out.append(v[i].event_type.as_str());
            out.append(") [");
            out.append(v[i].severity.as_str());
            out.append("]\n");
            i = i + 1;
        }
    }
}

// ── The report ───────────────────────────────────────────────────────────────

/// The text of a report.
pub open spec fn report_text(
    r: DigestReport,
    wan: Seq<char>,
    interval: Duration,
    shape: Shape,
) -> Seq<char> {
    let a = coverage_text(Seq::empty(), r.window, r.coverage);
    let b = volume_text(a, r.window, r.volume@);
    let c = network_text(b, r.window, r.network, wan, interval, shape);
    let d = auth_text(c, r.auth);
    let e = alerts_text(d, r.alerts);
    notable_text(e, r.notable)
}

/// Whether a report's times lie in the calendar's range.
pub open spec fn report_fits(r: DigestReport) -> bool {
    &&& r.window.start.in_range()
    &&& r.window.end.in_range()
    &&& r.window.baseline_start.in_range()
    &&& r.window.baseline_end.in_range()
    &&& time_fits(r.coverage.latest_raw)
    &&& time_fits(r.coverage.latest_indexed)
    &&& network_fits(r.network)
    &&& auth_fits(r.auth)
    &&& notable_fits(r.notable)
}

/// The report as text. `shape` is how the series of blocked connections is shown.
pub fn render_text(
    report: &DigestReport,
    wan_interface: &str,
    interval: Duration,
    shape: &Shape,
) -> (r: String)
    requires
        report_fits(*report),
        interval.in_range(),
        interval.nanos >= 0,
        shape matches Shape::Peaked { levels } ==> levels@.len()
            == report.network.block_trend@.len(),
    ensures
        r@ == report_text(*report, wan_interface@, interval, *shape),
{
    let mut out = String::new();
    assert(out@ =~= Seq::<char>::empty());
    render_coverage(&mut out, &report.window, &report.coverage);
    render_volume(&mut out, &report.window, &report.volume);
    render_network(&mut out, &report.window, &report.network, wan_interface, interval, shape);
    render_auth(&mut out, &report.auth);
    render_alerts(&mut out, &report.alerts);
    render_notable(&mut out, &report.notable);
    out
}

} // verus!
