//! What the sections of a digest list, told from the counts they are made of.
use vstd::prelude::*;

use crate::collections::{key_texts, GroupCounts};
use crate::digest::{
    above, flag_of, is_cold_start, is_new, is_row_of, is_shown_order, lag, named, named_groups,
    new_rows, shows_new, sources_of, unparsed_added, unparsed_app, value_at, with_silent, Change,
    NewDestination, Volume, VolumeRow,
};
use crate::groups::{groups_at, order_exists, ordered_groups, Group};
use crate::json::{bool_member, parsed_json, text_member};
use crate::trend::{count_in, label_of};
use crate::window::{Instant, NANOS, Window};

verus! {

// ── New destinations ─────────────────────────────────────────────────────────

proof fn lemma_new_row_is_new(
    keys: Seq<Group>,
    order: Seq<usize>,
    baseline: Map<Group, u64>,
    n: int,
    i: int,
) -> (k: int)
    requires
        0 <= n <= order.len(),
        0 <= i < new_rows(keys, order, baseline, n).len(),
    ensures
        0 <= k < n,
        new_rows(keys, order, baseline, n)[i] == order[k],
        is_new(keys[order[k] as int], baseline),
    decreases n,
{
    let front = new_rows(keys, order, baseline, n - 1);
    if i < front.len() {
        lemma_new_row_is_new(keys, order, baseline, n - 1, i)
    } else {
        n - 1
    }
}

proof fn lemma_new_rows_in_order(
    keys: Seq<Group>,
    order: Seq<usize>,
    baseline: Map<Group, u64>,
    n: int,
    i: int,
    j: int,
) -> (r: (int, int))
    requires
        0 <= n <= order.len(),
        0 <= i < j < new_rows(keys, order, baseline, n).len(),
    ensures
        0 <= r.0 < r.1 < n,
        new_rows(keys, order, baseline, n)[i] == order[r.0],
        new_rows(keys, order, baseline, n)[j] == order[r.1],
    decreases n,
{
    let front = new_rows(keys, order, baseline, n - 1);
    if j < front.len() {
        lemma_new_rows_in_order(keys, order, baseline, n - 1, i, j)
    } else {
        (lemma_new_row_is_new(keys, order, baseline, n - 1, i), n - 1)
    }
}

proof fn lemma_new_is_listed(
    keys: Seq<Group>,
    order: Seq<usize>,
    baseline: Map<Group, u64>,
    n: int,
    k: int,
) -> (i: int)
    requires
        0 <= k < n <= order.len(),
        is_new(keys[order[k] as int], baseline),
    ensures
        0 <= i < new_rows(keys, order, baseline, n).len(),
        new_rows(keys, order, baseline, n)[i] == order[k],
    decreases n,
{
    if k == n - 1 {
        new_rows(keys, order, baseline, n - 1).len() as int
    } else {
        lemma_new_is_listed(keys, order, baseline, n - 1, k)
    }
}

/// A destination whose address is the first value of some group of the baseline
/// is never among the new ones.
pub proof fn known_destinations_are_not_new(
    counts: GroupCounts,
    baseline: Map<Group, u64>,
    seen: Seq<Option<Instant>>,
    r: Seq<NewDestination>,
    known: Group,
    i: int,
)
    requires
        shows_new(counts, baseline, seen, r),
        baseline.dom().contains(known),
        known.len() > 0,
        0 <= i < r.len(),
    ensures
        r[i].dst_ip@ != known[0],
{
    let keys = key_texts(counts.keys@);
    let order = choose|order: Seq<usize>| #[trigger]
        is_shown_order(counts, order) && {
            let rows = new_rows(keys, order, baseline, order.len() as int);
            r.len() == rows.len() && forall|i: int|
                0 <= i < r.len() ==> (#[trigger] r[i]).dst_ip@ == value_at(keys[rows[i] as int], 0)
                    && r[i].dst_port@ == value_at(keys[rows[i] as int], 1) && r[i].count
                    == counts.counts@[rows[i] as int] && r[i].first_seen == seen[rows[i] as int]
        };
    let k = lemma_new_row_is_new(keys, order, baseline, order.len() as int, i);
    assert(baseline.dom().contains(known) && known.len() > 0 && known[0] == known[0]);
    assert(r[i].dst_ip@ == value_at(keys[order[k] as int], 0));
}

/// A counted destination whose address no group of the baseline has is among the
/// new ones, with its port and its count.
pub proof fn unknown_destinations_are_new(
    counts: GroupCounts,
    baseline: Map<Group, u64>,
    seen: Seq<Option<Instant>>,
    r: Seq<NewDestination>,
    g: Group,
)
    requires
        counts.wf(),
        shows_new(counts, baseline, seen, r),
        counts@.dom().contains(g),
        g.len() > 0,
        g[0].len() > 0,
        forall|b: Group| #[trigger] baseline.dom().contains(b) && b.len() > 0 ==> b[0] != g[0],
    ensures
        exists|i: int|
            0 <= i < r.len() && (#[trigger] r[i]).dst_ip@ == g[0] && r[i].count == counts@[g] && (
            g.len() > 1 ==> r[i].dst_port@ == g[1]),
{
    let keys = key_texts(counts.keys@);
    let order = choose|order: Seq<usize>| #[trigger]
        is_shown_order(counts, order) && {
            let rows = new_rows(keys, order, baseline, order.len() as int);
            r.len() == rows.len() && forall|i: int|
                0 <= i < r.len() ==> (#[trigger] r[i]).dst_ip@ == value_at(keys[rows[i] as int], 0)
                    && r[i].dst_port@ == value_at(keys[rows[i] as int], 1) && r[i].count
                    == counts.counts@[rows[i] as int] && r[i].first_seen == seen[rows[i] as int]
        };
    order_exists(counts);
    let gs = ordered_groups(counts@);
    let k = choose|k: int| 0 <= k < gs.len() && (#[trigger] gs[k]).0 == g;
    assert(groups_at(counts, order)[k] == gs[k]);
    assert(keys[order[k] as int] == g);
    assert(is_new(g, baseline));
    let i = lemma_new_is_listed(keys, order, baseline, order.len() as int, k);
    assert(r[i].dst_ip@ == value_at(g, 0));
}

/// Each new destination is one that was counted, with its address, its port, its
/// count and its own first sight; the more often it was seen, the earlier it
/// stands.
pub proof fn new_destinations_were_counted(
    counts: GroupCounts,
    baseline: Map<Group, u64>,
    seen: Seq<Option<Instant>>,
    r: Seq<NewDestination>,
    i: int,
)
    requires
        counts.wf(),
        shows_new(counts, baseline, seen, r),
        0 <= i < r.len(),
    ensures
        r[i].dst_ip@.len() > 0,
        exists|k: int|
            0 <= k < counts.keys@.len() && {
                let g = #[trigger] key_texts(counts.keys@)[k];
                &&& g.len() > 0
                &&& r[i].dst_ip@ == g[0]
                &&& g.len() > 1 ==> r[i].dst_port@ == g[1]
                &&& r[i].count == counts.counts@[k]
                &&& r[i].first_seen == seen[k]
            },
        forall|j: int| i < j < r.len() ==> r[i].count >= (#[trigger] r[j]).count,
{
    let keys = key_texts(counts.keys@);
    let order = choose|order: Seq<usize>| #[trigger]
        is_shown_order(counts, order) && {
            let rows = new_rows(keys, order, baseline, order.len() as int);
            r.len() == rows.len() && forall|i: int|
                0 <= i < r.len() ==> (#[trigger] r[i]).dst_ip@ == value_at(keys[rows[i] as int], 0)
                    && r[i].dst_port@ == value_at(keys[rows[i] as int], 1) && r[i].count
                    == counts.counts@[rows[i] as int] && r[i].first_seen == seen[rows[i] as int]
        };
    let n = order.len() as int;
    let k = lemma_new_row_is_new(keys, order, baseline, n, i);
    assert(r[i].dst_ip@ == value_at(keys[order[k] as int], 0));
    assert(keys[order[k] as int].len() > 0);
    order_exists(counts);
    let gs = ordered_groups(counts@);
    assert forall|j: int| i < j < r.len() implies r[i].count >= (#[trigger] r[j]).count by {
        let p = lemma_new_rows_in_order(keys, order, baseline, n, i, j);
        assert(groups_at(counts, order)[p.0] == gs[p.0]);
        assert(groups_at(counts, order)[p.1] == gs[p.1]);
        assert(gs[p.0].1 >= gs[p.1].1);
    }
}

// ── Groups that a list keeps ─────────────────────────────────────────────────

/// A source of lines that nothing parses is listed exactly if it has more than
/// the least number of them, the loudest first.
pub proof fn loud_sources_are_listed(counts: GroupCounts, min: u64, g: Group)
    requires
        counts.wf(),
        counts@.dom().contains(g),
    ensures
        ({
            let gs = ordered_groups(counts@);
            let kept = above(gs, min, gs.len() as int);
            &&& (exists|i: int| 0 <= i < kept.len() && (#[trigger] kept[i]).0 == g) == (counts@[g]
                > min)
            &&& forall|i: int|
                0 <= i < kept.len() ==> counts@.dom().contains((#[trigger] kept[i]).0)
                    && counts@[kept[i].0] == kept[i].1
            &&& forall|i: int, j: int|
                0 <= i < j < kept.len() ==> (#[trigger] kept[i]).1 >= (#[trigger] kept[j]).1
        }),
{
    order_exists(counts);
    let gs = ordered_groups(counts@);
    lemma_above(gs, min, gs.len() as int);
    let kept = above(gs, min, gs.len() as int);
    let k = choose|k: int| 0 <= k < gs.len() && (#[trigger] gs[k]).0 == g;
    assert(counts@[g] == gs[k].1);
    if gs[k].1 > min {
        assert(kept.contains(gs[k]));
        let i = choose|i: int| 0 <= i < kept.len() && kept[i] == gs[k];
        assert(kept[i].0 == g);
    }
    assert forall|i: int| 0 <= i < kept.len() implies counts@.dom().contains(
        (#[trigger] kept[i]).0,
    ) && counts@[kept[i].0] == kept[i].1 by {
        assert(gs.contains(kept[i]));
    }
    assert forall|i: int, j: int| 0 <= i < j < kept.len() implies (#[trigger] kept[i]).1 >= (
    #[trigger] kept[j]).1 by {
        lemma_above_in_order(gs, min, gs.len() as int, i, j);
    }
}

proof fn lemma_above(gs: Seq<(Group, u64)>, min: u64, n: int)
    requires
        0 <= n <= gs.len(),
    ensures
        forall|i: int|
            0 <= i < above(gs, min, n).len() ==> (#[trigger] above(gs, min, n)[i]).1 > min
                && gs.contains(above(gs, min, n)[i]),
        forall|k: int|
            0 <= k < n && (#[trigger] gs[k]).1 > min ==> above(gs, min, n).contains(gs[k]),
    decreases n,
{
    if n > 0 {
        lemma_above(gs, min, n - 1);
        let front = above(gs, min, n - 1);
        let all = above(gs, min, n);
        assert forall|k: int| 0 <= k < n && (#[trigger] gs[k]).1 > min implies all.contains(
            gs[k],
        ) by {
            if k == n - 1 {
                assert(all.last() == gs[k]);
            } else {
                assert(front.contains(gs[k]));
                let i = choose|i: int| 0 <= i < front.len() && front[i] == gs[k];
                assert(all[i] == gs[k]);
            }
        }
        assert forall|i: int| 0 <= i < all.len() implies (#[trigger] all[i]).1 > min
            && gs.contains(all[i]) by {
            if i < front.len() {
                assert(all[i] == front[i]);
            } else {
                assert(gs[n - 1] == all[i]);
            }
        }
    }
}

proof fn lemma_above_in_order(gs: Seq<(Group, u64)>, min: u64, n: int, i: int, j: int)
    requires
        0 <= n <= gs.len(),
        0 <= i < j < above(gs, min, n).len(),
        forall|a: int, b: int|
            0 <= a < b < gs.len() ==> (#[trigger] gs[a]).1 >= (#[trigger] gs[b]).1,
    ensures
        above(gs, min, n)[i].1 >= above(gs, min, n)[j].1,
    decreases n,
{
    let front = above(gs, min, n - 1);
    if j < front.len() {
        lemma_above_in_order(gs, min, n - 1, i, j);
    } else {
        lemma_above_from(gs, min, n - 1, i);
    }
}

proof fn lemma_above_from(gs: Seq<(Group, u64)>, min: u64, n: int, i: int) -> (k: int)
    requires
        0 <= n <= gs.len(),
        0 <= i < above(gs, min, n).len(),
    ensures
        0 <= k < n,
        gs[k] == above(gs, min, n)[i],
    decreases n,
{
    if i < above(gs, min, n - 1).len() {
        lemma_above_from(gs, min, n - 1, i)
    } else {
        n - 1
    }
}

proof fn lemma_named_from(gs: Seq<(Group, u64)>, n: int, i: int) -> (k: int)
    requires
        0 <= n <= gs.len(),
        0 <= i < named(gs, n).len(),
    ensures
        0 <= k < n,
        gs[k] == named(gs, n)[i],
        label_of(gs[k].0).len() > 0,
    decreases n,
{
    if i < named(gs, n - 1).len() {
        lemma_named_from(gs, n - 1, i)
    } else {
        n - 1
    }
}

proof fn lemma_named_in_order(gs: Seq<(Group, u64)>, n: int, i: int, j: int) -> (r: (int, int))
    requires
        0 <= n <= gs.len(),
        0 <= i < j < named(gs, n).len(),
    ensures
        0 <= r.0 < r.1 < n,
        gs[r.0] == named(gs, n)[i],
        gs[r.1] == named(gs, n)[j],
    decreases n,
{
    if j < named(gs, n - 1).len() {
        lemma_named_in_order(gs, n - 1, i, j)
    } else {
        (lemma_named_from(gs, n - 1, i), n - 1)
    }
}

proof fn lemma_named_holds(gs: Seq<(Group, u64)>, n: int, k: int) -> (i: int)
    requires
        0 <= k < n <= gs.len(),
        label_of(gs[k].0).len() > 0,
    ensures
        0 <= i < named(gs, n).len(),
        named(gs, n)[i] == gs[k],
    decreases n,
{
    if k == n - 1 {
        named(gs, n - 1).len() as int
    } else {
        lemma_named_holds(gs, n - 1, k)
    }
}

/// A group is listed by its address exactly if it has one, with its count, and
/// the larger counts come first.
pub proof fn addressed_groups_are_listed(counts: GroupCounts, g: Group)
    requires
        counts.wf(),
        counts@.dom().contains(g),
    ensures
        (exists|i: int|
            0 <= i < named_groups(counts@).len() && #[trigger] named_groups(counts@)[i] == (
                g,
                counts@[g],
            )) == (g.len() > 0 && g[0].len() > 0),
        forall|i: int|
            0 <= i < named_groups(counts@).len() ==> counts@.dom().contains(
                (#[trigger] named_groups(counts@)[i]).0,
            ) && counts@[named_groups(counts@)[i].0] == named_groups(counts@)[i].1,
        forall|i: int, j: int|
            0 <= i < j < named_groups(counts@).len() ==> (#[trigger] named_groups(counts@)[i]).1
                >= (#[trigger] named_groups(counts@)[j]).1,
{
    order_exists(counts);
    let gs = ordered_groups(counts@);
    let n = gs.len() as int;
    let kept = named_groups(counts@);
    let k = choose|k: int| 0 <= k < gs.len() && (#[trigger] gs[k]).0 == g;
    if g.len() > 0 && g[0].len() > 0 {
        let i = lemma_named_holds(gs, n, k);
        assert(kept[i] == (g, counts@[g]));
    }
    if exists|i: int| 0 <= i < kept.len() && #[trigger] kept[i] == (g, counts@[g]) {
        let i = choose|i: int| 0 <= i < kept.len() && #[trigger] kept[i] == (g, counts@[g]);
        let at = lemma_named_from(gs, n, i);
    }
    assert forall|i: int| 0 <= i < kept.len() implies counts@.dom().contains(
        (#[trigger] kept[i]).0,
    ) && counts@[kept[i].0] == kept[i].1 by {
        let at = lemma_named_from(gs, n, i);
    }
    assert forall|i: int, j: int| 0 <= i < j < kept.len() implies (#[trigger] kept[i]).1 >= (
    #[trigger] kept[j]).1 by {
        let at = lemma_named_in_order(gs, n, i, j);
    }
}

// ── Volumes and lines that nothing parses ────────────────────────────────────

/// Whether some group is of a source.
pub open spec fn reports(m: Map<Group, u64>, s: Seq<char>) -> bool {
    exists|g: Group| #[trigger] m.dom().contains(g) && g.len() > 0 && g[0] == s
}

proof fn lemma_reports(m: Map<Group, u64>, s: Seq<char>)
    requires
        s.len() > 0,
    ensures
        sources_of(m).contains(s) == reports(m, s),
        m.dom().contains(seq![s]) ==> reports(m, s),
{
    if sources_of(m).contains(s) {
        let g = choose|g: Group| #[trigger] m.dom().contains(g) && label_of(g) == s;
        assert(m.dom().contains(g) && g.len() > 0 && g[0] == s);
    }
    if reports(m, s) {
        let g = choose|g: Group| #[trigger] m.dom().contains(g) && g.len() > 0 && g[0] == s;
        assert(m.dom().contains(g) && label_of(g) == s);
    }
    assert(seq![s][0] == s);
}

/// A volume is shown for a source exactly if the window or the baseline has an
/// event of it, and it is the window's: zero for one that went silent.
pub proof fn volumes_are_of_the_window(
    window: Map<Group, u64>,
    baseline: Map<Group, u64>,
    s: Seq<char>,
)
    requires
        s.len() > 0,
    ensures
        with_silent(window, baseline).dom().contains(seq![s]) == (reports(window, s) || reports(
            baseline,
            s,
        )),
        window.dom().contains(seq![s]) ==> with_silent(window, baseline)[seq![s]]
            == window[seq![s]],
        baseline.dom().contains(seq![s]) && !window.dom().contains(seq![s]) ==> with_silent(
            window,
            baseline,
        )[seq![s]] == 0,
{
    lemma_reports(window, s);
    lemma_reports(baseline, s);
    assert(seq![s][0] == s);
}

/// Only a source that the baseline lacks can be new, and only one that it has
/// can spike or drop; a volume is flagged by at most one of them.
pub proof fn flags_need_their_ground(
    count: u64,
    baseline: u64,
    change: Change,
    cold_start: bool,
    always: bool,
)
    ensures
        flag_of(count, baseline, change, cold_start, always) == Some("new"@) <==> baseline == 0
            && count > 0 && always && !cold_start,
        flag_of(count, baseline, change, cold_start, always) == Some("spike"@) <==> baseline > 0
            && change is Spike,
        flag_of(count, baseline, change, cold_start, always) == Some("drop"@) <==> baseline > 0
            && change is Drop,
        flag_of(count, baseline, change, cold_start, always) is None <==> (baseline > 0 && change
            is Steady) || (baseline == 0 && (count == 0 || !always || cold_start)),
{
    reveal_strlit("new");
    reveal_strlit("spike");
    reveal_strlit("drop");
    assert("new"@.len() == 3 && "spike"@.len() == 5 && "drop"@.len() == 4);
}

/// A line counts as one that nothing parses exactly if it is a record that says
/// so, under its application's name where it gives one.
pub proof fn unparsed_lines_say_so(line: Seq<char>)
    ensures
        unparsed_app(line) is Some <==> (parsed_json(line) matches Some(j) && bool_member(
            j,
            "_normalized"@,
        ) == Some(false)),
        unparsed_app(line) is Some ==> (text_member(parsed_json(line)->Some_0, "app_name"@) matches
        Some(a) ==> unparsed_app(line) == Some(a)),
        unparsed_app(line) is Some && text_member(parsed_json(line)->Some_0, "app_name"@) is None
            ==> unparsed_app(line) == Some("(unknown)"@),
{
}

/// The number of the first `n` lines that an application left unparsed.
pub open spec fn unparsed_of(ls: Seq<Seq<char>>, app: Seq<char>, n: int) -> int
    decreases n,
{
    if n <= 0 {
        0
    } else {
        unparsed_of(ls, app, n - 1) + if unparsed_app(ls[n - 1]) == Some(app) {
            1int
        } else {
            0
        }
    }
}

/// Counting a file adds to each application the number of its unparsed lines.
pub proof fn unparsed_lines_are_counted(
    m: Map<Group, u64>,
    ls: Seq<Seq<char>>,
    app: Seq<char>,
    n: int,
)
    requires
        0 <= n <= ls.len(),
        forall|g: Group| #[trigger] count_in(m, g) + ls.len() <= u64::MAX,
    ensures
        0 <= unparsed_of(ls, app, n) <= n,
        count_in(unparsed_added(m, ls, n), seq![app]) == count_in(m, seq![app]) + unparsed_of(
            ls,
            app,
            n,
        ),
    decreases n,
{
    if n > 0 {
        unparsed_lines_are_counted(m, ls, app, n - 1);
        assert(count_in(m, seq![app]) + ls.len() <= u64::MAX);
        match unparsed_app(ls[n - 1]) {
            Some(a) => {
                assert(seq![a][0] == a && seq![app][0] == app);
                if a != app {
                    assert(seq![a] != seq![app]);
                }
            },
            None => {},
        }
    }
}

/// The index lags by the seconds between the newest raw event and the newest
/// indexed one: by none if they are of one moment, by one more for each second
/// that the raw events are ahead, and by less than none where it is ahead.
pub proof fn lag_is_in_seconds(raw: int, indexed: int)
    ensures
        lag(indexed, indexed) == 0,
        raw >= indexed ==> lag(raw + NANOS, indexed) == lag(raw, indexed) + 1,
        lag(indexed, raw) == -lag(raw, indexed),
        raw >= indexed ==> lag(raw, indexed) >= 0,
{
    assert((raw + NANOS - indexed) / NANOS as int == (raw - indexed) / NANOS as int + 1)
        by (nonlinear_arith)
        requires
            NANOS == 1_000_000_000,
    ;
    if raw >= indexed {
        assert((raw - indexed) / NANOS as int >= 0) by (nonlinear_arith)
            requires
                raw >= indexed,
                NANOS == 1_000_000_000,
        ;
    }
}

/// A row of the volumes is of its source, with its counts and its change; there
/// is no change to tell where there is no baseline.
pub proof fn rows_tell_their_volume(
    r: VolumeRow,
    v: Volume,
    change: Change,
    delta: Seq<char>,
    cold_start: bool,
    always: bool,
)
    requires
        is_row_of(r, v, change, delta, cold_start, always),
    ensures
        r.source@ == v.source@,
        r.count == v.count,
        r.baseline == v.baseline,
        r.delta is None <==> v.baseline == 0,
        r.delta matches Some(d) ==> d@ == delta,
        r.flag matches Some(f) ==> (v.baseline == 0 <==> f@ == "new"@),
{
    flags_need_their_ground(v.count, v.baseline, change, cold_start, always);
    reveal_strlit("new");
    reveal_strlit("spike");
    reveal_strlit("drop");
    assert("new"@.len() == 3 && "spike"@.len() == 5 && "drop"@.len() == 4);
}

/// A baseline is no comparison exactly if the events that are there reach back
/// over less than half of it; without any event there is nothing to doubt.
pub proof fn half_a_baseline_is_enough(e: Instant, baseline: Window)
    requires
        baseline.start.nanos <= e.nanos <= baseline.end.nanos,
        baseline.end.nanos - baseline.start.nanos >= NANOS,
    ensures
        is_cold_start(Some(e), baseline) <==> 2 * ((baseline.end.nanos - e.nanos) / NANOS as int) < (
        baseline.end.nanos - baseline.start.nanos) / NANOS as int,
        !is_cold_start(None, baseline),
{
    let len = baseline.end.nanos - baseline.start.nanos;
    assert(len / NANOS as int >= 1) by (nonlinear_arith)
        requires
            len >= NANOS,
            NANOS == 1_000_000_000,
    ;
    if e.nanos == baseline.end.nanos {
        assert(0int / NANOS as int == 0) by (nonlinear_arith)
            requires
                NANOS == 1_000_000_000,
        ;
    }
}

} // verus!
