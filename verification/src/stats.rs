//! Event counts and field coverage, as `stats` shows them.
use vstd::prelude::*;

use crate::collections::{key_texts, GroupCounts};
use crate::figures::{fmt_n, grouped};
use crate::groups::{groups_at, groups_by_count, ordered_groups, Group};
use crate::number::dec;
use crate::status::byte_width;
use crate::text::{fill, join, joined, left_aligned, list_of_one, opt_view, pad_left, pad_right};
use crate::text::{repeat, right_aligned, same, views};
use crate::trend::{count_in, sum_grows, sum_of};

verus! {

// ── Statements ───────────────────────────────────────────────────────────────

/// The statement that counts a bucket's events by source, or one source's by
/// kind.
pub open spec fn counts_sql(of_source: bool) -> Seq<char> {
    if of_source {
        "SELECT event_type, COUNT(*) FROM events WHERE _source_type = ? GROUP BY event_type ORDER BY COUNT(*) DESC"@
    } else {
        "SELECT _source_type, COUNT(*) FROM events GROUP BY _source_type"@
    }
}

/// The statement that counts a bucket's events by source, or one source's by
/// kind.
pub fn counts_statement(of_source: bool) -> (r: String)
    ensures
        r@ == counts_sql(of_source),
{
    if of_source {
        "SELECT event_type, COUNT(*) FROM events WHERE _source_type = ? GROUP BY event_type ORDER BY COUNT(*) DESC".to_owned()
    } else {
        "SELECT _source_type, COUNT(*) FROM events GROUP BY _source_type".to_owned()
    }
}

/// The statement of a trend's columns.
pub open spec fn trend_sql(of_source: bool) -> Seq<char> {
    if of_source {
        "SELECT event_type, COUNT(*) FROM events WHERE _source_type = ? GROUP BY event_type"@
    } else {
        "SELECT _source_type, COUNT(*) FROM events GROUP BY _source_type"@
    }
}

/// The statement of a trend's columns.
pub fn trend_statement(of_source: bool) -> (r: String)
    ensures
        r@ == trend_sql(of_source),
{
    if of_source {
        "SELECT event_type, COUNT(*) FROM events WHERE _source_type = ? GROUP BY event_type".to_owned()
    } else {
        "SELECT _source_type, COUNT(*) FROM events GROUP BY _source_type".to_owned()
    }
}

/// The fields, among the first `n`, that a bucket has a column for.
pub open spec fn columns_of(fields: Seq<Seq<char>>, cols: Seq<Seq<char>>, n: int) -> Seq<Seq<char>>
    decreases n,
{
    if n <= 0 {
        Seq::empty()
    } else if cols.contains(fields[n - 1]) {
        columns_of(fields, cols, n - 1).push(fields[n - 1])
    } else {
        columns_of(fields, cols, n - 1)
    }
}

/// The fields that a bucket has a column for.
pub fn existing_fields(fields: &Vec<String>, cols: &Vec<String>) -> (r: Vec<String>)
    ensures
        views(r@) == columns_of(views(fields@), views(cols@), fields@.len() as int),
{
    let ghost fv = views(fields@);
    let ghost cv = views(cols@);
    let mut r: Vec<String> = Vec::new();
    let mut i: usize = 0;
    assert(views(r@) =~= Seq::<Seq<char>>::empty());
    while i < fields.len()
        invariant
            i <= fields@.len(),
            fv == views(fields@),
            cv == views(cols@),
            views(r@) == columns_of(fv, cv, i as int),
        decreases fields@.len() - i,
    {
        let mut found = false;
        let mut k: usize = 0;
        while k < cols.len()
            invariant
                i < fields@.len(),
                fv == views(fields@),
                cv == views(cols@),
                k <= cols@.len(),
                found == exists|j: int| 0 <= j < k && #[trigger] cv[j] == fv[i as int],
            decreases cols@.len() - k,
        {
            if same(cols[k].as_str(), fields[i].as_str()) {
                assert(cv[k as int] == fv[i as int]);
                found = true;
            }
            k = k + 1;
        }
        assert(found == cv.contains(fv[i as int]));
        if found {
            let ghost before = views(r@);
            r.push(fields[i].clone());
            assert(views(r@) =~= before.push(fv[i as int]));
        }
        i = i + 1;
    }
    r
}

/// The expression that counts the events in which a field is not empty.
pub open spec fn filled_sql(f: Seq<char>) -> Seq<char> {
    "SUM(CASE WHEN "@ + f + " IS NOT NULL AND "@ + f + " != '' THEN 1 ELSE 0 END)"@
}

/// The statement that counts a bucket's events, and those in which each field is
/// not empty.
pub open spec fn coverage_sql(fields: Seq<Seq<char>>, of_source: bool) -> Seq<char> {
    "SELECT "@ + joined(
        seq!["COUNT(*)"@] + fields.map_values(|f: Seq<char>| filled_sql(f)),
        ", "@,
    ) + " FROM events"@ + if of_source {
        " WHERE _source_type = ?"@
    } else {
        ""@
    }
}

/// The statement that counts a bucket's events, and those in which each field is
/// not empty.
pub fn coverage_statement(fields: &Vec<String>, of_source: bool) -> (r: String)
    ensures
        r@ == coverage_sql(views(fields@), of_source),
{
    let ghost fv = views(fields@);
    let ghost target = seq!["COUNT(*)"@] + fv.map_values(|f: Seq<char>| filled_sql(f));
    let mut selects = list_of_one("COUNT(*)");
    let mut i: usize = 0;
    assert(views(selects@) =~= target.take(1));
    while i < fields.len()
        invariant
            i <= fields@.len(),
            fv == views(fields@),
            target == seq!["COUNT(*)"@] + fv.map_values(|f: Seq<char>| filled_sql(f)),
            views(selects@) == target.take(i + 1),
        decreases fields@.len() - i,
    {
        let ghost before = views(selects@);
        let mut s = "SUM(CASE WHEN ".to_owned();
        s.append(fields[i].as_str());
        s.append(" IS NOT NULL AND ");
        s.append(fields[i].as_str());
        s.append(" != '' THEN 1 ELSE 0 END)");
        let ghost text = s@;
        selects.push(s);
        assert(views(selects@) =~= before.push(text));
        assert(target[i + 1] == filled_sql(fv[i as int]));
        assert(target.take(i + 2) =~= target.take(i + 1).push(target[i + 1]));
        i = i + 1;
    }
    assert(target.take(i + 1) =~= target);
    let mut r = "SELECT ".to_owned();
    r.append(join(&selects, ", ").as_str());
    r.append(" FROM events");
    if of_source {
        r.append(" WHERE _source_type = ?");
    } else {
        r.append("");
    }
    r
}

// ── Counts ───────────────────────────────────────────────────────────────────

/// The name of a group, or what stands for one without a name.
pub open spec fn name_of_group(g: Group, missing: Seq<char>) -> Seq<char> {
    if g.len() > 0 {
        g[0]
    } else {
        missing
    }
}

/// A name and a count in columns.
pub open spec fn count_line(name: Seq<char>, width: int, count: nat) -> Seq<char> {
    "  "@ + left_aligned(name, width) + "  "@ + right_aligned(grouped(dec(count)), 10) + "\n"@
}

/// The lines of the first `n` groups.
pub open spec fn group_lines(
    out: Seq<char>,
    gs: Seq<(Group, u64)>,
    missing: Seq<char>,
    width: int,
    n: int,
) -> Seq<char>
    decreases n,
{
    if n <= 0 {
        out
    } else {
        group_lines(out, gs, missing, width, n - 1) + count_line(
            name_of_group(gs[n - 1].0, missing),
            width,
            gs[n - 1].1 as nat,
        )
    }
}

/// A line across the columns.
pub open spec fn rule_line(n: int) -> Seq<char> {
    "  "@ + fill('─', n) + "\n"@
}

fn write_count(name: &str, width: usize, count: u64) -> (r: String)
    ensures
        r@ == count_line(name@, width as int, count as nat),
{
    let mut r = "  ".to_owned();
    r.append(pad_right(name, width).as_str());
    r.append("  ");
    r.append(pad_left(fmt_n(count).as_str(), 10).as_str());
    r.append("\n");
    r
}

fn write_rule(n: usize) -> (r: String)
    ensures
        r@ == rule_line(n as int),
{
    let mut r = "  ".to_owned();
    r.append(repeat('─', n).as_str());
    r.append("\n");
    r
}

fn write_groups(out: &mut String, counts: &GroupCounts, missing: &str, width: usize)
    requires
        counts.wf(),
    ensures
        final(out)@ == group_lines(
            old(out)@,
            ordered_groups(counts@),
            missing@,
            width as int,
            ordered_groups(counts@).len() as int,
        ),
{
    let order = groups_by_count(counts);
    let ghost gs = groups_at(*counts, order@);
    let ghost start = out@;
    assert(gs.len() == order@.len());
    let mut i: usize = 0;
    while i < order.len()
        invariant
            counts.wf(),
            forall|k: int| 0 <= k < order@.len() ==> (#[trigger] order@[k]) < counts.keys@.len(),
            gs == groups_at(*counts, order@),
            i <= order@.len(),
            out@ == group_lines(start, gs, missing@, width as int, i as int),
        decreases order@.len() - i,
    {
        let at: usize = order[i];
        let key = &counts.keys[at];
        assert(gs[i as int].0 == views(key@));
        let line = if key.len() > 0 {
            write_count(key[0].as_str(), width, counts.counts[at])
        } else {
            write_count(missing, width, counts.counts[at])
        };
        out.append(line.as_str());
        i = i + 1;
    }
}

fn total_of(counts: &GroupCounts) -> (r: u64)
    requires
        sum_of(counts.counts@, counts.counts@.len() as int) <= u64::MAX,
    ensures
        r == sum_of(counts.counts@, counts.counts@.len() as int),
{
    let n: usize = counts.counts.len();
    let mut r: u64 = 0;
    let mut i: usize = 0;
    while i < n
        invariant
            n == counts.counts@.len(),
            sum_of(counts.counts@, n as int) <= u64::MAX,
            i <= n,
            r == sum_of(counts.counts@, i as int),
        decreases n - i,
    {
        proof {
            sum_grows(counts.counts@, i + 1, n as int);
        }
        r = r + counts.counts[i];
        i = i + 1;
    }
    r
}

/// The difference, zero where it would be negative.
pub open spec fn less(a: int, b: int) -> int {
    if a > b {
        a - b
    } else {
        0
    }
}

fn rest_of(width: usize, s: &str) -> (r: usize)
    ensures
        r == less(width as int, byte_width(s@)),
{
    let n: usize = s.len();
    if width > n {
        width - n
    } else {
        0
    }
}

/// The counts by source: the most first, then all together.
pub open spec fn by_source_text(m: Map<Group, u64>, total: int) -> Seq<char> {
    let head = "── Event counts by source "@ + fill('─', 25) + "\n"@;
    let gs = ordered_groups(m);
    if gs.len() == 0 {
        head + "  (no data)\n"@
    } else {
        group_lines(head, gs, "?"@, 24, gs.len() as int) + rule_line(37) + count_line(
            "total"@,
            24,
            total as nat,
        )
    }
}

/// The counts by source: the most first, then all together.
pub fn counts_by_source(counts: &GroupCounts) -> (r: String)
    requires
        counts.wf(),
        sum_of(counts.counts@, counts.counts@.len() as int) <= u64::MAX,
    ensures
        r@ == by_source_text(
            counts@,
            sum_of(counts.counts@, counts.counts@.len() as int),
        ),
{
    let mut r = "── Event counts by source ".to_owned();
    r.append(repeat('─', 25).as_str());
    r.append("\n");
    proof {
        sum_grows(counts.counts@, 0, counts.counts@.len() as int);
        counts_are_listed(*counts);
    }
    if counts.len() == 0 {
        r.append("  (no data)\n");
        return r;
    }
    let total: u64 = total_of(counts);
    write_groups(&mut r, counts, "?", 24);
    r.append(write_rule(37).as_str());
    r.append(write_count("total", 24, total).as_str());
    r
}

/// As many groups are listed as there are.
pub proof fn counts_are_listed(counts: GroupCounts)
    requires
        counts.wf(),
    ensures
        counts.keys@.len() == 0 ==> ordered_groups(counts@).len() == 0,
        counts.keys@.len() > 0 ==> ordered_groups(counts@).len() > 0,
{
    crate::groups::order_exists(counts);
    let gs = ordered_groups(counts@);
    if gs.len() > 0 {
        assert(counts@.dom().contains(gs[0].0));
    }
    if counts.keys@.len() > 0 {
        counts.entry_at(0);
        let g = key_texts(counts.keys@)[0];
        assert(counts@.dom().contains(g));
        let i = choose|i: int| 0 <= i < gs.len() && (#[trigger] gs[i]).0 == g;
    }
}

/// The counts of one source by kind: the most first, then all its events.
pub open spec fn by_kind_text(source: Seq<char>, m: Map<Group, u64>, total: int) -> Seq<char> {
    let head = "── "@ + source + " — event types "@ + fill('─', less(30, byte_width(source)))
        + "\n"@;
    let gs = ordered_groups(m);
    if gs.len() == 0 {
        head + "  (no data for source '"@ + source + "')\n"@
    } else {
        group_lines(head, gs, "(none)"@, 30, gs.len() as int) + rule_line(43) + count_line(
            "total ("@ + source + ")"@,
            30,
            total as nat,
        )
    }
}

/// The counts of one source by kind: the most first, then all its events.
pub fn counts_by_kind(source: &str, counts: &GroupCounts, total_events: u64) -> (r: String)
    requires
        counts.wf(),
    ensures
        r@ == by_kind_text(source@, counts@, total_events as int),
{
    let mut r = "── ".to_owned();
    r.append(source);
    r.append(" — event types ");
    r.append(repeat('─', rest_of(30, source)).as_str());
    r.append("\n");
    proof {
        counts_are_listed(*counts);
    }
    if counts.len() == 0 {
        r.append("  (no data for source '");
        r.append(source);
        r.append("')\n");
        return r;
    }
    write_groups(&mut r, counts, "(none)", 30);
    r.append(write_rule(43).as_str());
    let mut label = "total (".to_owned();
    label.append(source);
    label.append(")");
    r.append(write_count(label.as_str(), 30, total_events).as_str());
    r
}

/// The exit code: one if there is nothing at all, else zero.
pub fn counts_exit_code(total_events: u64, counts: &GroupCounts) -> (r: i32)
    ensures
        r == if total_events == 0 && counts.keys@.len() == 0 {
            1int
        } else {
            0
        },
{
    if total_events == 0 && counts.len() == 0 {
        1
    } else {
        0
    }
}

// ── Sums ─────────────────────────────────────────────────────────────────────

/// Counts with the first `n` named counts added, each to the group of its name.
pub open spec fn names_added(m: Map<Group, u64>, named: Seq<(String, u64)>, n: int) -> Map<
    Group,
    u64,
>
    decreases n,
{
    if n <= 0 {
        m
    } else {
        let front = names_added(m, named, n - 1);
        let g = seq![named[n - 1].0@];
        front.insert(g, (count_in(front, g) + named[n - 1].1) as u64)
    }
}

/// The sum of the first `n` named counts.
pub open spec fn named_sum(named: Seq<(String, u64)>, n: int) -> int
    decreases n,
{
    if n <= 0 {
        0
    } else {
        named_sum(named, n - 1) + named[n - 1].1
    }
}

proof fn lemma_names_added(m: Map<Group, u64>, named: Seq<(String, u64)>, g: Group, n: int)
    requires
        forall|h: Group| #[trigger] count_in(m, h) + named_sum(named, n) <= u64::MAX,
    ensures
        count_in(names_added(m, named, n), g) <= count_in(m, g) + named_sum(named, n),
        n >= 0 ==> named_sum(named, n) >= 0,
    decreases n,
{
    if n > 0 {
        assert forall|h: Group| #[trigger] count_in(m, h) + named_sum(named, n - 1)
            <= u64::MAX by {
            assert(count_in(m, h) + named_sum(named, n) <= u64::MAX);
        }
        lemma_names_added(m, named, g, n - 1);
        assert(count_in(m, g) + named_sum(named, n) <= u64::MAX);
    }
}

proof fn lemma_named_sum_grows(named: Seq<(String, u64)>, m: int, n: int)
    requires
        m <= n,
    ensures
        named_sum(named, m) <= named_sum(named, n),
    decreases n - m,
{
    if m < n {
        lemma_named_sum_grows(named, m, n - 1);
    }
}

/// Adds named counts, such as those of a bucket's fields or of raw files.
pub fn add_named(acc: &mut GroupCounts, named: &Vec<(String, u64)>)
    requires
        old(acc).wf(),
        forall|g: Group|
            #[trigger] count_in(old(acc)@, g) + named_sum(named@, named@.len() as int) <= u64::MAX,
    ensures
        final(acc).wf(),
        final(acc)@ == names_added(old(acc)@, named@, named@.len() as int),
{
    let ghost m = acc@;
    let n: usize = named.len();
    let mut i: usize = 0;
    while i < n
        invariant
            n == named@.len(),
            i <= n,
            m == old(acc)@,
            acc.wf(),
            acc@ == names_added(m, named@, i as int),
            forall|g: Group| #[trigger] count_in(m, g) + named_sum(named@, n as int) <= u64::MAX,
        decreases n - i,
    {
        let key = list_of_one(named[i].0.as_str());
        proof {
            assert forall|g: Group| #[trigger]
                count_in(m, g) + named_sum(named@, i as int) <= u64::MAX by {
                lemma_named_sum_grows(named@, i as int, n as int);
                assert(count_in(m, g) + named_sum(named@, n as int) <= u64::MAX);
            }
            lemma_names_added(m, named@, views(key@), i as int);
            lemma_named_sum_grows(named@, i + 1, n as int);
            assert(count_in(m, views(key@)) + named_sum(named@, n as int) <= u64::MAX);
        }
        acc.add_count(&key, named[i].1);
        i = i + 1;
    }
}

// ── Coverage ─────────────────────────────────────────────────────────────────

/// The number of events in which each field is not empty.
pub open spec fn field_counts(fields: Seq<Seq<char>>, sums: Map<Group, u64>) -> Map<Group, u64> {
    Map::new(
        |g: Group| g.len() == 1 && fields.contains(g[0]),
        |g: Group| count_in(sums, g) as u64,
    )
}

/// The fields with the number of events in which they are not empty, the most
/// first, then by name.
pub fn coverage_rows(fields: &Vec<String>, sums: &GroupCounts) -> (r: Vec<(String, u64)>)
    requires
        sums.wf(),
    ensures
        ({
            let gs = ordered_groups(field_counts(views(fields@), sums@));
            &&& r@.len() == gs.len()
            &&& forall|i: int|
                0 <= i < r@.len() ==> (#[trigger] r@[i]).0@ == name_of_group(gs[i].0, Seq::empty())
                    && r@[i].1 == gs[i].1
        }),
{
    let ghost fv = views(fields@);
    let mut all = GroupCounts::new();
    let mut i: usize = 0;
    while i < fields.len()
        invariant
            sums.wf(),
            i <= fields@.len(),
            fv == views(fields@),
            all.wf(),
            forall|g: Group| #[trigger]
                all@.dom().contains(g) <==> g.len() == 1 && fv.take(i as int).contains(g[0]),
            forall|g: Group| #[trigger] all@.dom().contains(g) ==> all@[g] == count_in(sums@, g),
        decreases fields@.len() - i,
    {
        let ghost t = fv.take(i as int);
        let ghost u = fv.take(i + 1);
        let ghost x = fv[i as int];
        let ghost mid = all@;
        let key = list_of_one(fields[i].as_str());
        let c: u64 = match sums.get(&key) {
            Some(c) => c,
            None => 0,
        };
        all.set_count(&key, c);
        proof {
            assert(u =~= t.push(x));
            assert forall|s: Seq<char>| u.contains(s) <==> t.contains(s) || s == x by {
                if t.contains(s) {
                    let k = choose|k: int| 0 <= k < t.len() && t[k] == s;
                    assert(u[k] == s);
                }
                assert(u[i as int] == x);
                if u.contains(s) {
                    let k = choose|k: int| 0 <= k < u.len() && u[k] == s;
                    if k < i {
                        assert(t[k] == s);
                    }
                }
            }
            assert(all@ == mid.insert(seq![x], c));
            assert forall|g: Group| g.len() == 1 && g[0] == x implies g == seq![x] by {
                assert(g =~= seq![x]);
            }
        }
        i = i + 1;
    }
    proof {
        assert(fv.take(i as int) =~= fv);
        assert(all@ =~= field_counts(fv, sums@));
    }
    let order = groups_by_count(&all);
    let ghost gs = groups_at(all, order@);
    let mut r: Vec<(String, u64)> = Vec::new();
    let mut i: usize = 0;
    while i < order.len()
        invariant
            all.wf(),
            forall|k: int| 0 <= k < order@.len() ==> (#[trigger] order@[k]) < all.keys@.len(),
            gs == groups_at(all, order@),
            i <= order@.len(),
            r@.len() == i,
            forall|k: int|
                0 <= k < i ==> (#[trigger] r@[k]).0@ == name_of_group(gs[k].0, Seq::empty())
                    && r@[k].1 == gs[k].1,
        decreases order@.len() - i,
    {
        let at: usize = order[i];
        let key = &all.keys[at];
        assert(gs[i as int].0 == views(key@));
        let name = if key.len() > 0 {
            key[0].clone()
        } else {
            String::new()
        };
        assert(name@ =~= name_of_group(gs[i as int].0, Seq::empty()));
        r.push((name, all.counts[at]));
        i = i + 1;
    }
    r
}

/// The lines of the first `n` fields; each share is given as it is shown.
pub open spec fn coverage_lines(
    out: Seq<char>,
    rows: Seq<(String, u64)>,
    shares: Seq<Seq<char>>,
    n: int,
) -> Seq<char>
    decreases n,
{
    if n <= 0 {
        out
    } else {
        coverage_lines(out, rows, shares, n - 1) + "  "@ + left_aligned(rows[n - 1].0@, 24) + "  "@
            + right_aligned(grouped(dec(rows[n - 1].1 as nat)), 10) + "  "@ + shares[n - 1]
            + "\n"@
    }
}

/// The heading of the coverage.
pub open spec fn coverage_title(source: Option<Seq<char>>) -> Seq<char> {
    match source {
        Some(s) => s + " — field coverage"@,
        None => "Field coverage"@,
    }
}

/// The coverage of fields.
pub open spec fn coverage_text(
    source: Option<Seq<char>>,
    rows: Seq<(String, u64)>,
    shares: Seq<Seq<char>>,
) -> Seq<char> {
    let title = coverage_title(source);
    coverage_lines(
        "\n── "@ + title + " "@ + fill('─', less(40, byte_width(title))) + "\n  "@ + left_aligned(
            "Field"@,
            24,
        ) + "  "@ + right_aligned("Events"@, 10) + "  "@ + right_aligned("Coverage"@, 8) + "\n"@
            + rule_line(47),
        rows,
        shares,
        rows.len() as int,
    )
}

/// The coverage of fields. `shares` holds each field's share of all events as it
/// is shown.
pub fn show_coverage(
    source: &Option<String>,
    rows: &Vec<(String, u64)>,
    shares: &Vec<String>,
) -> (r: String)
    requires
        shares@.len() == rows@.len(),
    ensures
        r@ == coverage_text(opt_view(*source), rows@, views(shares@)),
{
    let title = match source {
        Some(s) => {
            let mut t = s.clone();
            t.append(" — field coverage");
            t
        },
        None => "Field coverage".to_owned(),
    };
    let mut r = "\n── ".to_owned();
    r.append(title.as_str());
    r.append(" ");
    r.append(repeat('─', rest_of(40, title.as_str())).as_str());
    r.append("\n  ");
    r.append(pad_right("Field", 24).as_str());
    r.append("  ");
    r.append(pad_left("Events", 10).as_str());
    r.append("  ");
    r.append(pad_left("Coverage", 8).as_str());
    r.append("\n");
    r.append(write_rule(47).as_str());
    let ghost head = r@;
    let mut i: usize = 0;
    while i < rows.len()
        invariant
            shares@.len() == rows@.len(),
            i <= rows@.len(),
            r@ == coverage_lines(head, rows@, views(shares@), i as int),
        decreases rows@.len() - i,
    {
        r.append("  ");
        r.append(pad_right(rows[i].0.as_str(), 24).as_str());
        r.append("  ");
        r.append(pad_left(fmt_n(rows[i].1).as_str(), 10).as_str());
        r.append("  ");
        r.append(shares[i].as_str());
        r.append("\n");
        i = i + 1;
    }
    r
}

// ── Counts of raw files ──────────────────────────────────────────────────────

/// The counts of raw files.
pub open spec fn raw_text(source: Option<Seq<char>>, m: Map<Group, u64>, total: int) -> Seq<char> {
    match source {
        Some(s) => "\n── "@ + s + " — event count (raw files) "@ + fill(
            '─',
            less(18, byte_width(s)),
        ) + "\n"@ + count_line(s, 24, total as nat),
        None => {
            let gs = ordered_groups(m);
            group_lines(
                "\n── Event counts by source (raw files) "@ + fill('─', 13) + "\n"@,
                gs,
                "?"@,
                24,
                gs.len() as int,
            ) + rule_line(37) + count_line("total"@, 24, total as nat)
        },
    }
}

/// The counts of raw files, for want of an index: of one source all together, or
/// by source.
pub fn raw_file_counts(source: &Option<String>, counts: &GroupCounts) -> (r: String)
    requires
        counts.wf(),
        sum_of(counts.counts@, counts.counts@.len() as int) <= u64::MAX,
    ensures
        r@ == raw_text(
            opt_view(*source),
            counts@,
            sum_of(counts.counts@, counts.counts@.len() as int),
        ),
{
    let total: u64 = total_of(counts);
    match source {
        Some(s) => {
            let mut r = "\n── ".to_owned();
            r.append(s.as_str());
            r.append(" — event count (raw files) ");
            r.append(repeat('─', rest_of(18, s.as_str())).as_str());
            r.append("\n");
            r.append(write_count(s.as_str(), 24, total).as_str());
            r
        },
        None => {
            let mut r = "\n── Event counts by source (raw files) ".to_owned();
            r.append(repeat('─', 13).as_str());
            r.append("\n");
            write_groups(&mut r, counts, "?", 24);
            r.append(write_rule(37).as_str());
            r.append(write_count("total", 24, total).as_str());
            r
        },
    }
}

} // verus!
