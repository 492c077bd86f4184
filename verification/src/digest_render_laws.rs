//! What the text of a digest tells, line by line.
use vstd::prelude::*;

use crate::digest::{
    CoverageSection, InboundAllowed, IncompleteBucket, NewDestination, TopBlocked, UnparsedSource,
    VolumeRow, WindowInfo,
};
use crate::digest_alerts::{AlertRuleCount, AlertsSection};
use crate::digest_auth::{AccessEvent, AuthFailureBySource, AuthFailureRow, SudoEvent};
use crate::digest_notable::{ConfigChange, CriticalEvent, ServiceRestart};
use crate::digest_render::{
    access_lines, alerts_text, bar, blocked_lines, breakdown_text, change_lines, command_lines,
    coverage_text, critical_lines, delta_text, destination_lines, duration_label, failure_lines,
    gap_lines, grave_rules, hm, inbound_lines, index_state, kinds_of, largest, list_text, opt_hm,
    opt_hms, pair_count, pair_lines, pair_of, pairs, part_sources, restart_lines, rule_lines,
    unparsed_lines, volume_lines,
};
use crate::figures::grouped;
use crate::number::{dec, dec_int};
use crate::text::{fill, has, joined, views};
use crate::text_laws::{
    lists_hold_their_texts, longer_texts_hold_more, texts_hold_their_parts,
    texts_hold_what_they_begin_with,
};
use crate::window::{Duration, NANOS};

verus! {

// ── Lists ────────────────────────────────────────────────────────────────────

/// The sources that nothing parses are listed one after the other, each with
/// its number of events.
pub proof fn unparsed_sources_are_told(
    out: Seq<char>,
    v: Seq<UnparsedSource>,
    n: int,
) -> (gaps: Seq<Seq<char>>)
    requires
        1 <= n <= v.len(),
    ensures
        gaps.len() == 3,
        unparsed_lines(out, v, n) == unparsed_lines(out, v, n - 1) + (gaps[0]
            + v[n - 1].app_name@ + gaps[1] + dec(v[n - 1].count as nat) + gaps[2]),
        unparsed_lines(out, v, 0) == out,
{
    let g0 = "  "@;
    let g1 = fill(' ', 15 - v[n - 1].app_name@.len()) + " "@
        + fill(' ', 5 - dec(v[n - 1].count as nat).len());
    let g2 = " events\n"@;
    let gaps = seq![g0, g1, g2];
    assert(unparsed_lines(out, v, n) =~= unparsed_lines(out, v, n - 1) + (g0 + v[n - 1].app_name@
        + g1 + dec(v[n - 1].count as nat) + g2));
    gaps
}

/// The blocked addresses are listed one after the other, each with its count
/// and its protocol.
pub proof fn blocked_addresses_are_told(
    out: Seq<char>,
    v: Seq<TopBlocked>,
    n: int,
) -> (gaps: Seq<Seq<char>>)
    requires
        1 <= n <= v.len(),
    ensures
        gaps.len() == 4,
        blocked_lines(out, v, n) == blocked_lines(out, v, n - 1) + (gaps[0] + v[n - 1].src_ip@
            + gaps[1] + grouped(dec(v[n - 1].count as nat)) + gaps[2] + v[n - 1].protocol@
            + gaps[3]),
        blocked_lines(out, v, 0) == out,
{
    let g0 = Seq::<char>::empty();
    let g1 = fill(' ', 18 - v[n - 1].src_ip@.len())
        + fill(' ', 7 - grouped(dec(v[n - 1].count as nat)).len());
    let g2 = "  "@;
    let g3 = "\n"@;
    let gaps = seq![g0, g1, g2, g3];
    assert(blocked_lines(out, v, n) =~= blocked_lines(out, v, n - 1) + (g0 + v[n - 1].src_ip@
        + g1 + grouped(dec(v[n - 1].count as nat)) + g2 + v[n - 1].protocol@ + g3));
    gaps
}

/// What was let in is listed one after the other, from where and to what
/// address and port, with its count.
pub proof fn inbound_traffic_is_told(
    out: Seq<char>,
    v: Seq<InboundAllowed>,
    n: int,
) -> (gaps: Seq<Seq<char>>)
    requires
        1 <= n <= v.len(),
    ensures
        gaps.len() == 5,
        inbound_lines(out, v, n) == inbound_lines(out, v, n - 1) + (gaps[0] + v[n - 1].src_ip@
            + gaps[1] + v[n - 1].dst_ip@ + gaps[2] + v[n - 1].dst_port@ + gaps[3]
            + grouped(dec(v[n - 1].count as nat)) + gaps[4]),
        inbound_lines(out, v, 0) == out,
{
    let g0 = Seq::<char>::empty();
    let g1 = fill(' ', 18 - v[n - 1].src_ip@.len());
    let g2 = ":"@;
    let g3 = fill(' ', 24 - (v[n - 1].dst_ip@ + ":"@ + v[n - 1].dst_port@).len())
        + fill(' ', 7 - grouped(dec(v[n - 1].count as nat)).len());
    let g4 = "\n"@;
    let gaps = seq![g0, g1, g2, g3, g4];
    assert(inbound_lines(out, v, n) =~= inbound_lines(out, v, n - 1) + (g0 + v[n - 1].src_ip@
        + g1 + v[n - 1].dst_ip@ + g2 + v[n - 1].dst_port@ + g3
        + grouped(dec(v[n - 1].count as nat)) + g4));
    gaps
}

/// The new destinations are listed one after the other, each with its port, its
/// count and when it was first seen.
pub proof fn new_destinations_are_told(
    out: Seq<char>,
    v: Seq<NewDestination>,
    n: int,
) -> (gaps: Seq<Seq<char>>)
    requires
        1 <= n <= v.len(),
    ensures
        gaps.len() == 5,
        destination_lines(out, v, n) == destination_lines(out, v, n - 1) + (gaps[0]
            + v[n - 1].dst_ip@ + gaps[1] + v[n - 1].dst_port@ + gaps[2]
            + grouped(dec(v[n - 1].count as nat)) + gaps[3] + opt_hms(v[n - 1].first_seen)
            + gaps[4]),
        destination_lines(out, v, 0) == out,
{
    let g0 = Seq::<char>::empty();
    let g1 = fill(' ', 18 - v[n - 1].dst_ip@.len());
    let g2 = fill(' ', 10 - v[n - 1].dst_port@.len())
        + fill(' ', 7 - grouped(dec(v[n - 1].count as nat)).len());
    let g3 = "  "@;
    let g4 = "\n"@;
    let gaps = seq![g0, g1, g2, g3, g4];
    assert(destination_lines(out, v, n) =~= destination_lines(out, v, n - 1) + (g0
        + v[n - 1].dst_ip@ + g1 + v[n - 1].dst_port@ + g2 + grouped(dec(v[n - 1].count as nat))
        + g3 + opt_hms(v[n - 1].first_seen) + g4));
    gaps
}

/// The addresses with failures are listed one after the other, each with its
/// count and where they came from.
pub proof fn failures_are_told(
    out: Seq<char>,
    v: Seq<AuthFailureRow>,
    n: int,
) -> (gaps: Seq<Seq<char>>)
    requires
        1 <= n <= v.len(),
    ensures
        gaps.len() == 4,
        failure_lines(out, v, n) == failure_lines(out, v, n - 1) + (gaps[0] + v[n - 1].src_ip@
            + gaps[1] + grouped(dec(v[n - 1].count as nat)) + gaps[2]
            + (breakdown_text(v[n - 1].by_source@)) + gaps[3]),
        failure_lines(out, v, 0) == out,
{
    let g0 = Seq::<char>::empty();
    let g1 = fill(' ', 18 - v[n - 1].src_ip@.len())
        + fill(' ', 7 - grouped(dec(v[n - 1].count as nat)).len());
    let g2 = "  "@;
    let g3 = "\n"@;
    let gaps = seq![g0, g1, g2, g3];
    assert(failure_lines(out, v, n) =~= failure_lines(out, v, n - 1) + (g0 + v[n - 1].src_ip@
        + g1 + grouped(dec(v[n - 1].count as nat)) + g2 + breakdown_text(v[n - 1].by_source@)
        + g3));
    gaps
}

/// The logins are listed one after the other: when, who, from where and by
/// what.
pub proof fn logins_are_told(out: Seq<char>, v: Seq<AccessEvent>, n: int) -> (gaps: Seq<Seq<char>>)
    requires
        1 <= n <= v.len(),
    ensures
        gaps.len() == 5,
        access_lines(out, v, n) == access_lines(out, v, n - 1) + (gaps[0]
            + opt_hms(v[n - 1].timestamp) + gaps[1] + v[n - 1].username@ + gaps[2]
            + v[n - 1].src_ip@ + gaps[3] + v[n - 1].source@ + gaps[4]),
        access_lines(out, v, 0) == out,
{
    let g0 = "  "@;
    let g1 = "  "@;
    let g2 = " @ "@;
    let g3 = " ("@;
    let g4 = ")\n"@;
    let gaps = seq![g0, g1, g2, g3, g4];
    assert(access_lines(out, v, n) =~= access_lines(out, v, n - 1) + (g0
        + opt_hms(v[n - 1].timestamp) + g1 + v[n - 1].username@ + g2 + v[n - 1].src_ip@ + g3
        + v[n - 1].source@ + g4));
    gaps
}

/// The rules that fired are listed one after the other, each with its level and
/// its count.
pub proof fn fired_rules_are_told(
    out: Seq<char>,
    v: Seq<AlertRuleCount>,
    n: int,
) -> (gaps: Seq<Seq<char>>)
    requires
        1 <= n <= v.len(),
    ensures
        gaps.len() == 4,
        rule_lines(out, v, n) == rule_lines(out, v, n - 1) + (gaps[0] + v[n - 1].rule_id@
            + gaps[1] + v[n - 1].level@ + gaps[2] + grouped(dec(v[n - 1].count as nat)) + gaps[3]),
        rule_lines(out, v, 0) == out,
{
    let g0 = Seq::<char>::empty();
    let g1 = fill(' ', 26 - v[n - 1].rule_id@.len());
    let g2 = fill(' ', 8 - v[n - 1].level@.len())
        + fill(' ', 5 - grouped(dec(v[n - 1].count as nat)).len());
    let g3 = "\n"@;
    let gaps = seq![g0, g1, g2, g3];
    assert(rule_lines(out, v, n) =~= rule_lines(out, v, n - 1) + (g0 + v[n - 1].rule_id@ + g1
        + v[n - 1].level@ + g2 + grouped(dec(v[n - 1].count as nat)) + g3));
    gaps
}

/// The changes are listed one after the other: when, who, from where and on
/// what page.
pub proof fn changes_are_told(
    out: Seq<char>,
    v: Seq<ConfigChange>,
    n: int,
) -> (gaps: Seq<Seq<char>>)
    requires
        1 <= n <= v.len(),
    ensures
        gaps.len() == 5,
        change_lines(out, v, n) == change_lines(out, v, n - 1) + (gaps[0]
            + opt_hm(v[n - 1].timestamp) + gaps[1] + v[n - 1].admin_user@ + gaps[2]
            + v[n - 1].src_ip@ + gaps[3] + v[n - 1].page@ + gaps[4]),
        change_lines(out, v, 0) == out,
{
    let g0 = "  "@;
    let g1 = "  "@;
    let g2 = " @ "@;
    let g3 = " — "@;
    let g4 = "\n"@;
    let gaps = seq![g0, g1, g2, g3, g4];
    assert(change_lines(out, v, n) =~= change_lines(out, v, n - 1) + (g0
        + opt_hm(v[n - 1].timestamp) + g1 + v[n - 1].admin_user@ + g2 + v[n - 1].src_ip@ + g3
        + v[n - 1].page@ + g4));
    gaps
}

/// The services that changed are listed one after the other, each with its
/// count and when it was first and last seen.
pub proof fn restarts_are_told(
    out: Seq<char>,
    v: Seq<ServiceRestart>,
    n: int,
) -> (gaps: Seq<Seq<char>>)
    requires
        1 <= n <= v.len(),
    ensures
        gaps.len() == 5,
        restart_lines(out, v, n) == restart_lines(out, v, n - 1) + (gaps[0] + v[n - 1].unit@
            + gaps[1] + dec(v[n - 1].count as nat) + gaps[2] + opt_hm(v[n - 1].first_seen)
            + gaps[3] + opt_hm(v[n - 1].last_seen) + gaps[4]),
        restart_lines(out, v, 0) == out,
{
    let g0 = "  "@ + opt_hm(v[n - 1].first_seen) + "  "@;
    let g1 = ": "@;
    let g2 = "x transition(s) (first "@;
    let g3 = ", last "@;
    let g4 = ")\n"@;
    let gaps = seq![g0, g1, g2, g3, g4];
    assert(restart_lines(out, v, n) =~= restart_lines(out, v, n - 1) + (g0 + v[n - 1].unit@ + g1
        + dec(v[n - 1].count as nat) + g2 + opt_hm(v[n - 1].first_seen) + g3
        + opt_hm(v[n - 1].last_seen) + g4));
    gaps
}

/// The severe events are listed one after the other: when, of what source and
/// type, and how severe.
pub proof fn severe_events_are_told(
    out: Seq<char>,
    v: Seq<CriticalEvent>,
    n: int,
) -> (gaps: Seq<Seq<char>>)
    requires
        1 <= n <= v.len(),
    ensures
        gaps.len() == 5,
        critical_lines(out, v, n) == critical_lines(out, v, n - 1) + (gaps[0]
            + opt_hms(v[n - 1].timestamp) + gaps[1] + v[n - 1].source@ + gaps[2]
            + v[n - 1].event_type@ + gaps[3] + v[n - 1].severity@ + gaps[4]),
        critical_lines(out, v, 0) == out,
{
    let g0 = "  "@;
    let g1 = "  "@;
    let g2 = " ("@;
    let g3 = ") ["@;
    let g4 = "]\n"@;
    let gaps = seq![g0, g1, g2, g3, g4];
    assert(critical_lines(out, v, n) =~= critical_lines(out, v, n - 1) + (g0
        + opt_hms(v[n - 1].timestamp) + g1 + v[n - 1].source@ + g2 + v[n - 1].event_type@ + g3
        + v[n - 1].severity@ + g4));
    gaps
}

/// A bucket with raw events that were never indexed is told with both counts and
/// the number that is missing.
pub proof fn gaps_tell_what_is_missing(
    out: Seq<char>,
    v: Seq<IncompleteBucket>,
    n: int,
    missing: nat,
) -> (gaps: Seq<Seq<char>>)
    requires
        1 <= n <= v.len(),
        v[n - 1].raw_count == v[n - 1].indexed_count + missing,
    ensures
        gaps.len() == 5,
        gap_lines(out, v, n) == gap_lines(out, v, n - 1) + (gaps[0] + v[n - 1].bucket@ + gaps[1]
            + dec(
            v[n - 1].raw_count as nat,
        ) + gaps[2] + dec(v[n - 1].indexed_count as nat) + gaps[3] + dec(missing) + gaps[4]),
        gap_lines(out, v, 0) == out,
{
    let g0 = "  "@;
    let g1 = "   "@;
    let g2 = " raw, "@;
    let g3 = " indexed ("@;
    let g4 = " missing) — try: indexd --backfill "@ + v[n - 1].bucket@ + "\n"@;
    let gaps = seq![g0, g1, g2, g3, g4];
    assert(gap_lines(out, v, n) =~= gap_lines(out, v, n - 1) + (g0 + v[n - 1].bucket@ + g1 + dec(
        v[n - 1].raw_count as nat,
    ) + g2 + dec(v[n - 1].indexed_count as nat) + g3 + dec(missing) + g4));
    gaps
}

/// A volume is told with its source, its count, that of the baseline and the
/// change; an arrow marks exactly those that are flagged.
pub proof fn volumes_are_told(out: Seq<char>, v: Seq<VolumeRow>, n: int) -> (gaps: Seq<Seq<char>>)
    requires
        1 <= n <= v.len(),
    ensures
        gaps.len() == 5,
        volume_lines(out, v, n) == volume_lines(out, v, n - 1) + (gaps[0] + v[n - 1].source@
            + gaps[1]
            + grouped(dec(v[n - 1].count as nat)) + gaps[2] + grouped(
            dec(v[n - 1].baseline as nat),
        ) + gaps[3] + delta_text(v[n - 1]) + gaps[4]),
        v[n - 1].flag is Some ==> gaps[4] == seq![' ', '←', '\n'],
        v[n - 1].flag is None ==> gaps[4] == seq!['\n'],
        volume_lines(out, v, 0) == out,
{
    reveal_strlit(" ←\n");
    reveal_strlit("\n");
    let row = v[n - 1];
    let g0 = Seq::<char>::empty();
    let g1 = fill(' ', 14 - row.source@.len()) + fill(
        ' ',
        12 - grouped(dec(row.count as nat)).len(),
    );
    let g2 = "  "@ + fill(' ', 8 - grouped(dec(row.baseline as nat)).len());
    let g3 = "   "@;
    let g4 = if row.flag is Some {
        " ←\n"@
    } else {
        "\n"@
    };
    let gaps = seq![g0, g1, g2, g3, g4];
    assert(volume_lines(out, v, n) =~= volume_lines(out, v, n - 1) + (g0 + row.source@ + g1
        + grouped(
        dec(row.count as nat),
    ) + g2 + grouped(dec(row.baseline as nat)) + g3 + delta_text(row) + g4));
    gaps
}

/// A command is told under the pair of users that it belongs to, and under no
/// other.
pub proof fn commands_are_told_under_their_users(
    out: Seq<char>,
    v: Seq<SudoEvent>,
    p: (Seq<char>, Seq<char>),
    n: int,
) -> (gaps: Seq<Seq<char>>)
    requires
        1 <= n <= v.len(),
    ensures
        gaps.len() == 3,
        (v[n - 1].username@, v[n - 1].target_user@) == p ==> command_lines(out, v, p, n)
            == command_lines(out, v, p, n - 1) + (gaps[0] + opt_hms(v[n - 1].timestamp) + gaps[1]
            + v[n - 1].command@ + gaps[2]),
        (v[n - 1].username@, v[n - 1].target_user@) != p ==> command_lines(out, v, p, n)
            == command_lines(out, v, p, n - 1),
{
    let g0 = "  "@;
    let g1 = "  "@;
    let g2 = "\n"@;
    let gaps = seq![g0, g1, g2];
    assert(pair_of(v[n - 1]) == p ==> command_lines(out, v, p, n) =~= command_lines(out, v, p, n - 1)
        + (g0 + opt_hms(v[n - 1].timestamp) + g1 + v[n - 1].command@ + g2));
    gaps
}

/// Each pair of users is told once, if any event is of it.
pub proof fn user_pairs_are_told_once(v: Seq<SudoEvent>, n: int, a: Seq<char>, b: Seq<char>)
    requires
        0 <= n <= v.len(),
    ensures
        pairs(v, n).no_duplicates(),
        pairs(v, n).contains((a, b)) == (exists|i: int|
            0 <= i < n && (#[trigger] v[i]).username@ == a && v[i].target_user@ == b),
        pairs(v, n).contains((a, b)) == (pair_count(v, (a, b), n) > 0),
    decreases n,
{
    if n > 0 {
        user_pairs_are_told_once(v, n - 1, a, b);
        let front = pairs(v, n - 1);
        let all = pairs(v, n);
        let p = pair_of(v[n - 1]);
        user_pairs_are_told_once(v, n - 1, p.0, p.1);
        if !front.contains(p) {
            assert(all == front.push(p));
            assert(all.last() == p);
            assert(all.contains((a, b)) == (front.contains((a, b)) || p == (a, b))) by {
                if front.contains((a, b)) {
                    let k = choose|k: int| 0 <= k < front.len() && front[k] == (a, b);
                    assert(all[k] == (a, b));
                }
            }
        }
        if p == (a, b) {
            assert(v[n - 1].username@ == a && v[n - 1].target_user@ == b);
        }
    }
}

/// A pair of users has as many events as name both.
pub proof fn pair_events_are_counted(v: Seq<SudoEvent>, p: (Seq<char>, Seq<char>), n: int)
    requires
        1 <= n <= v.len(),
    ensures
        pair_count(v, p, n) == pair_count(v, p, n - 1) + if v[n - 1].username@ == p.0
            && v[n - 1].target_user@ == p.1 {
            1nat
        } else {
            0
        },
        pair_count(v, p, 0) == 0,
{
}

/// A failure's part is told under its source, with its type and its count.
pub proof fn failure_parts_are_told(v: Seq<AuthFailureBySource>, source: Seq<char>, n: int)
    requires
        1 <= n <= v.len(),
    ensures
        v[n - 1].source@ == source ==> kinds_of(v, source, n) == kinds_of(v, source, n - 1).push(
            v[n - 1].event_type@ + " x"@ + dec(v[n - 1].count as nat),
        ),
        v[n - 1].source@ != source ==> kinds_of(v, source, n) == kinds_of(v, source, n - 1),
        part_sources(v, n).contains(v[n - 1].source@),
        source != v[n - 1].source@ ==> part_sources(v, n).contains(source) == part_sources(
            v,
            n - 1,
        ).contains(source),
{
}

/// The grave rules are those of a high or critical level.
pub proof fn grave_rules_are_grave(v: Seq<AlertRuleCount>, n: int, i: int)
    requires
        0 <= i < n <= v.len(),
    ensures
        v[i].level@ == "high"@ || v[i].level@ == "critical"@ ==> grave_rules(v, n).contains(
            v[i].rule_id@,
        ),
        forall|k: int|
            0 <= k < grave_rules(v, n).len() ==> exists|j: int|
                0 <= j < n && (#[trigger] v[j]).rule_id@ == #[trigger] grave_rules(v, n)[k] && (
                v[j].level@ == "high"@ || v[j].level@ == "critical"@),
    decreases n,
{
    let all = grave_rules(v, n);
    let front = grave_rules(v, n - 1);
    if n > 1 {
        grave_rules_are_grave(v, n - 1, if i < n - 1 {
            i
        } else {
            0
        });
    }
    if v[i].level@ == "high"@ || v[i].level@ == "critical"@ {
        if i == n - 1 {
            assert(all.last() == v[i].rule_id@);
        } else {
            let k = choose|k: int| 0 <= k < front.len() && front[k] == v[i].rule_id@;
            assert(all[k] == v[i].rule_id@);
        }
    }
    assert forall|k: int| 0 <= k < all.len() implies exists|j: int|
        0 <= j < n && (#[trigger] v[j]).rule_id@ == #[trigger] all[k] && (v[j].level@ == "high"@
            || v[j].level@ == "critical"@) by {
        if k < front.len() {
            assert(all[k] == front[k]);
            let j = choose|j: int|
                0 <= j < n - 1 && (#[trigger] v[j]).rule_id@ == front[k] && (v[j].level@ == "high"@
                    || v[j].level@ == "critical"@);
            assert(v[j].rule_id@ == all[k]);
        } else {
            assert(v[n - 1].rule_id@ == all[k]);
        }
    }
}

// ── Figures of the digest ────────────────────────────────────────────────────

/// The index is current exactly if it lags by five minutes or less.
pub proof fn current_means_little_lag(c: CoverageSection)
    requires
        c.latest_raw is Some,
        c.index_lag_seconds is Some,
    ensures
        index_state(c) == "current"@ <==> c.index_lag_seconds->Some_0 <= 5 * 60,
{
    reveal_strlit("current");
    reveal_strlit("LAGGING by ");
    if c.index_lag_seconds->Some_0 > 300 {
        assert(index_state(c)[0] == 'L');
        assert("current"@[0] == 'c');
    }
}

/// What is not known is not told as current.
pub proof fn unknown_is_not_current(c: CoverageSection)
    requires
        c.latest_raw is None || c.index_lag_seconds is None,
    ensures
        index_state(c) != "current"@,
{
    reveal_strlit("current");
    reveal_strlit("unknown (no index yet)");
    reveal_strlit("unknown (no raw data)");
    assert(index_state(c)[0] == 'u');
    assert("current"@[0] == 'c');
}

/// Intervals are told in hours where they are whole hours, else in minutes where
/// they are whole minutes, else in seconds.
pub proof fn intervals_are_told_in_their_unit(s: int, d: Duration)
    requires
        s >= 0,
        d.nanos == s * NANOS,
    ensures
        s % 3600 == 0 ==> duration_label(d) == dec_int(s / 3600) + "h"@,
        s % 3600 != 0 && s % 60 == 0 ==> duration_label(d) == dec_int(s / 60) + "min"@,
        s % 60 != 0 ==> duration_label(d) == dec_int(s) + "s"@,
{
    assert(d.nanos as int / NANOS as int == s) by (nonlinear_arith)
        requires
            d.nanos == s * NANOS,
            NANOS == 1_000_000_000,
    ;
}

/// Higher levels have higher bars.
pub proof fn bars_rise(a: int, b: int)
    requires
        0 <= a < b <= 7,
    ensures
        bar(a) < bar(b),
{
}

/// The largest figure of a series is one of it, and none is larger.
pub proof fn largest_is_the_maximum(s: Seq<u64>, n: int, i: int)
    requires
        0 <= i < n <= s.len(),
    ensures
        s[i] <= largest(s, n),
        exists|k: int| 0 <= k < n && #[trigger] s[k] == largest(s, n),
    decreases n,
{
    if n > 1 {
        largest_is_the_maximum(s, n - 1, if i < n - 1 {
            i
        } else {
            0
        });
        let k = choose|k: int| 0 <= k < n - 1 && #[trigger] s[k] == largest(s, n - 1);
        assert(s[k] == largest(s, n - 1));
        assert(s[n - 1] == s[n - 1]);
    } else {
        assert(largest(s, 0) == 0);
        assert(s[0] == largest(s, 1));
    }
}

/// A new source is told as new, another one by its change, and one without a
/// change as unchanged.
pub proof fn volume_changes_are_told(row: VolumeRow)
    ensures
        row.flag matches Some(f) && f@ == "new"@ ==> delta_text(row) == "NEW"@,
        (row.flag matches Some(f) ==> f@ != "new"@) ==> delta_text(row) == match row.delta {
            Some(d) => d@,
            None => "0%"@,
        },
{
}

// ── Sections ─────────────────────────────────────────────────────────────────

proof fn lemma_longer(s: Seq<char>, t: Seq<char>, x: Seq<char>, p: Seq<char>)
    requires
        t == s + x,
        has(s, p),
    ensures
        has(t, p),
{
    longer_texts_hold_more(Seq::empty(), s, x, p);
}

proof fn lemma_unparsed_keeps(out: Seq<char>, v: Seq<UnparsedSource>, n: int, p: Seq<char>)
    requires
        0 <= n <= v.len(),
        has(out, p),
    ensures
        has(unparsed_lines(out, v, n), p),
    decreases n,
{
    if n > 0 {
        lemma_unparsed_keeps(out, v, n - 1, p);
        let gaps = unparsed_sources_are_told(out, v, n);
        lemma_longer(
            unparsed_lines(out, v, n - 1),
            unparsed_lines(out, v, n),
            gaps[0] + v[n - 1].app_name@ + gaps[1] + dec(v[n - 1].count as nat) + gaps[2],
            p,
        );
    }
}

proof fn lemma_gaps_keep(out: Seq<char>, v: Seq<IncompleteBucket>, n: int, p: Seq<char>)
    requires
        0 <= n <= v.len(),
        has(out, p),
    ensures
        has(gap_lines(out, v, n), p),
    decreases n,
{
    if n > 0 {
        lemma_gaps_keep(out, v, n - 1, p);
        let front = gap_lines(out, v, n - 1);
        let whole = gap_lines(out, v, n);
        assert(front.is_prefix_of(whole));
        texts_hold_what_they_begin_with(front, whole, p);
    }
}

spec fn after_silent(out: Seq<char>, w: WindowInfo, c: CoverageSection) -> Seq<char> {
    out + "=== COVERAGE ("@ + hm(w.start.civil()) + " – "@ + hm(w.end.civil())
        + ") ===\n\nSources reporting:     "@ + dec(c.sources_reporting as nat)
        + "\nSources gone silent:   "@ + list_text(views(c.gone_silent@))
}

spec fn after_new(a: Seq<char>, c: CoverageSection) -> Seq<char> {
    if c.new_sources@.len() == 0 {
        a + "\nNew sources:           — (none)\n"@
    } else {
        a + "\nNew sources:           "@ + joined(views(c.new_sources@), ", "@)
            + "  (first seen this window)\n"@
    }
}

proof fn lemma_coverage_keeps(out: Seq<char>, w: WindowInfo, c: CoverageSection, p: Seq<char>)
    requires
        has(after_new(after_silent(out, w, c), c), p),
    ensures
        has(coverage_text(out, w, c), p),
{
    let b = after_new(after_silent(out, w, c), c);
    let dx = "\nUnparsed high-volume sources (>threshold events, _normalized: false):\n"@;
    let d = b + dx;
    lemma_longer(b, d, dx, p);
    let n = c.unparsed_high_volume@.len() as int;
    let e = if n == 0 {
        d + "  (none)\n"@
    } else {
        unparsed_lines(d, c.unparsed_high_volume@, n)
    };
    if n == 0 {
        lemma_longer(d, e, "  (none)\n"@, p);
    } else {
        lemma_unparsed_keeps(d, c.unparsed_high_volume@, n, p);
    }
    let f = e + "\nIndex coverage:        "@ + index_state(c) + " (latest raw: "@ + opt_hm(
        c.latest_raw,
    ) + ", latest bucket: "@ + opt_hm(c.latest_indexed) + ")\n"@;
    assert(e.is_prefix_of(f));
    texts_hold_what_they_begin_with(e, f, p);
    let m = c.incomplete_buckets@.len() as int;
    if m == 0 {
        lemma_longer(
            f,
            coverage_text(out, w, c),
            "Index completeness:    complete (raw line counts match indexed row counts)\n\n"@,
            p,
        );
    } else {
        let gx = "Index completeness:    INCOMPLETE — raw events exist that were never indexed:\n"@;
        lemma_longer(f, f + gx, gx, p);
        lemma_gaps_keep(f + gx, c.incomplete_buckets@, m, p);
        lemma_longer(
            gap_lines(f + gx, c.incomplete_buckets@, m),
            coverage_text(out, w, c),
            "\n"@,
            p,
        );
    }
}

/// The coverage names every source that went silent and every new one.
pub proof fn coverage_names_silent_and_new_sources(
    out: Seq<char>,
    w: WindowInfo,
    c: CoverageSection,
    i: int,
)
    ensures
        0 <= i < c.gone_silent@.len() ==> has(coverage_text(out, w, c), c.gone_silent@[i]@),
        0 <= i < c.new_sources@.len() ==> has(coverage_text(out, w, c), c.new_sources@[i]@),
{
    let e = Seq::<char>::empty();
    let a = after_silent(out, w, c);
    let b = after_new(a, c);
    if 0 <= i < c.gone_silent@.len() {
        let v = views(c.gone_silent@);
        let p = v[i];
        lists_hold_their_texts(v, ", "@, i);
        let x = out + "=== COVERAGE ("@ + hm(w.start.civil()) + " – "@ + hm(w.end.civil())
            + ") ===\n\nSources reporting:     "@ + dec(c.sources_reporting as nat)
            + "\nSources gone silent:   "@;
        longer_texts_hold_more(x, joined(v, ", "@), e, p);
        assert(a.is_prefix_of(b));
        texts_hold_what_they_begin_with(a, b, p);
        lemma_coverage_keeps(out, w, c, p);
    }
    if 0 <= i < c.new_sources@.len() {
        let v = views(c.new_sources@);
        let p = v[i];
        lists_hold_their_texts(v, ", "@, i);
        longer_texts_hold_more(
            a + "\nNew sources:           "@,
            joined(v, ", "@),
            "  (first seen this window)\n"@,
            p,
        );
        lemma_coverage_keeps(out, w, c, p);
    }
}

spec fn after_rules(out: Seq<char>, a: AlertsSection) -> Seq<char> {
    let n = a.by_rule@.len() as int;
    let b = out + "=== ALERTS ===\n\ntotal alerts:   "@ + grouped(dec(a.total as nat))
        + " events, "@
        + dec(a.by_rule@.len()) + " rules\n\n"@;
    if n == 0 {
        b
    } else {
        rule_lines(b + "rule                      level   count\n"@, a.by_rule@, n) + "\n"@
    }
}

spec fn after_first(c: Seq<char>, a: AlertsSection) -> Seq<char> {
    let grave = grave_rules(a.by_rule@, a.by_rule@.len() as int);
    c + "Rules firing for the first time this window:  "@ + list_text(views(a.first_time_rules@))
        + "\nHigh/critical alerts:                         "@ + if grave.len() == 0 {
        "none"@
    } else {
        joined(grave, ", "@)
    }
}

proof fn lemma_alerts_keep(out: Seq<char>, a: AlertsSection, p: Seq<char>)
    requires
        has(after_first(after_rules(out, a), a), p),
    ensures
        has(alerts_text(out, a), p),
{
    let d = after_first(after_rules(out, a), a);
    let whole = alerts_text(out, a);
    assert(d.is_prefix_of(whole));
    texts_hold_what_they_begin_with(d, whole, p);
}

/// The alerts name every rule that fired for the first time and every grave one,
/// and tell the warning where there is one.
pub proof fn alerts_name_first_and_grave_rules(out: Seq<char>, a: AlertsSection, i: int)
    ensures
        0 <= i < a.first_time_rules@.len() ==> has(alerts_text(out, a), a.first_time_rules@[i]@),
        ({
            let grave = grave_rules(a.by_rule@, a.by_rule@.len() as int);
            0 <= i < grave.len() ==> has(alerts_text(out, a), grave[i])
        }),
        a.concentration_warning matches Some(w) ==> has(alerts_text(out, a), w@),
{
    let e = Seq::<char>::empty();
    let c = after_rules(out, a);
    let d = after_first(c, a);
    let grave = grave_rules(a.by_rule@, a.by_rule@.len() as int);
    let x = c + "Rules firing for the first time this window:  "@;
    let first = list_text(views(a.first_time_rules@));
    let mid = "\nHigh/critical alerts:                         "@;
    if 0 <= i < a.first_time_rules@.len() {
        let v = views(a.first_time_rules@);
        lists_hold_their_texts(v, ", "@, i);
        longer_texts_hold_more(x, joined(v, ", "@), e, v[i]);
        assert((x + first).is_prefix_of(d));
        texts_hold_what_they_begin_with(x + first, d, v[i]);
        lemma_alerts_keep(out, a, v[i]);
    }
    if 0 <= i < grave.len() {
        lists_hold_their_texts(grave, ", "@, i);
        longer_texts_hold_more(x + first + mid, joined(grave, ", "@), e, grave[i]);
        lemma_alerts_keep(out, a, grave[i]);
    }
    if let Some(w) = a.concentration_warning {
        texts_hold_their_parts(d + "\n\nAlert concentration: "@, w@, "\n\n"@);
    }
}

/// The commands of each pair of users come under that pair, with their number.
pub proof fn user_pairs_are_headed_by_their_number(
    out: Seq<char>,
    v: Seq<SudoEvent>,
    ps: Seq<(Seq<char>, Seq<char>)>,
    k: int,
) -> (head: Seq<char>)
    requires
        1 <= k <= ps.len(),
    ensures
        pair_lines(out, v, ps, k) == command_lines(head, v, ps[k - 1], v.len() as int),
        pair_lines(out, v, ps, k - 1).is_prefix_of(head),
        has(head.skip(pair_lines(out, v, ps, k - 1).len() as int), ps[k - 1].0),
        has(head.skip(pair_lines(out, v, ps, k - 1).len() as int), ps[k - 1].1),
        has(
            head.skip(pair_lines(out, v, ps, k - 1).len() as int),
            dec(pair_count(v, ps[k - 1], v.len() as int)),
        ),
{
    let front = pair_lines(out, v, ps, k - 1);
    let p = ps[k - 1];
    let n = pair_count(v, p, v.len() as int);
    let tail = if n == 1 {
        " event\n"@
    } else {
        " events\n"@
    };
    let x = p.0 + " → "@ + p.1 + "  "@ + dec(n) + tail;
    let head = front + p.0 + " → "@ + p.1 + "  "@ + dec(n) + tail;
    let e = Seq::<char>::empty();
    assert(head =~= front + x);
    assert(head.skip(front.len() as int) =~= x);
    texts_hold_their_parts(e, p.0, " → "@ + p.1 + "  "@ + dec(n) + tail);
    assert(e + p.0 + (" → "@ + p.1 + "  "@ + dec(n) + tail) =~= x);
    texts_hold_their_parts(p.0 + " → "@, p.1, "  "@ + dec(n) + tail);
    assert(p.0 + " → "@ + p.1 + ("  "@ + dec(n) + tail) =~= x);
    texts_hold_their_parts(p.0 + " → "@ + p.1 + "  "@, dec(n), tail);
    head
}

} // verus!
