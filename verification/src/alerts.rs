//! Alerts: loading them from their lines, hiding those that were acknowledged,
//! and searching them.
//!
//! Alerts of rules and correlated alerts differ in shape (`rule_id`/`event`
//! against `correlation_id`/`sample_events`). Every loaded record carries a
//! `type` field, `"ruled"` or `"correlated"`, so that a query can tell them
//! apart.
use vstd::prelude::*;

use crate::alerts_laws::{lines_hold_no_feed, lines_read_back, written_log_reads_back};
use crate::collections::GroupCounts;
use crate::groups::{emit_groups, shows_groups, Group};
use crate::json::{all_wf, compact_text};
use crate::json::{int_member, json_views, parse_tagged, parsed_json, text_member};
use crate::json::{with_member, Json, JsonV};
use crate::paths::{join_path, joined_path};
use crate::query::{ExprV, Query};
use crate::query_eval::{expr_holds, field_text, json_field_text, resolve_json_field, resolved};
use crate::render::{after_line, after_record, done, json_to_val, record_view, val_of};
use crate::render::{Record, RecordV, Renderer, RendererV, Val, ValV};
use crate::text::{join, joined, line_seq, lines, pieces, same, string_of, to_chars, views};
use crate::text::without_cr;
use crate::time::{hour_dir, hour_lt, hours_after, HourBucket};
use crate::window::{candidate_dirs, range_is_valid};

verus! {

// ── Loading ──────────────────────────────────────────────────────────────────

/// The records of the first `n` lines: every line that is a JSON object, tagged;
/// empty and malformed lines are skipped.
pub open spec fn tagged_records(ls: Seq<Seq<char>>, tag: Seq<char>, n: int) -> Seq<JsonV>
    decreases n,
{
    if n <= 0 {
        Seq::empty()
    } else {
        let front = tagged_records(ls, tag, n - 1);
        if ls[n - 1].len() == 0 {
            front
        } else {
            match parsed_json(ls[n - 1]) {
                Some(j) => if j is Object {
                    front.push(with_member(j, "type"@, JsonV::Str(tag)))
                } else {
                    front
                },
                None => front,
            }
        }
    }
}

/// Adds the records of a file's content, each tagged with its type.
pub fn load_records(content: &str, type_tag: &str, out: &mut Vec<Json>)
    requires
        all_wf(old(out)@),
    ensures
        json_views(final(out)@) == json_views(old(out)@) + tagged_records(
            line_seq(content@),
            type_tag@,
            line_seq(content@).len() as int,
        ),
        all_wf(final(out)@),
{
    let ls = lines(&to_chars(content));
    let ghost lv = line_seq(content@);
    let ghost start = json_views(out@);
    let n: usize = ls.len();
    let mut i: usize = 0;
    assert(start + Seq::<JsonV>::empty() =~= start);
    while i < n
        invariant
            n == ls@.len(),
            pieces(ls@) == lv,
            i <= n,
            all_wf(out@),
            start == json_views(old(out)@),
            json_views(out@) == start + tagged_records(lv, type_tag@, i as int),
        decreases n - i,
    {
        assert(lv[i as int] == ls@[i as int]@);
        let ghost before = json_views(out@);
        let ghost so_far = tagged_records(lv, type_tag@, i as int);
        if ls[i].len() > 0 {
            let line = string_of(&ls[i]);
            match parse_tagged(line.as_str(), "type", type_tag) {
                Some(j) => {
                    let ghost jv = j.view();
                    out.push(j);
                    assert(json_views(out@) =~= before.push(jv));
                    assert(before.push(jv) =~= start + so_far.push(jv));
                },
                None => {},
            }
        }
        i = i + 1;
    }
    assert(pieces(ls@).len() == n);
}

/// Where to look for a tree's files: with a bound on both sides, one candidate
/// file per hour of the range, in order; else nothing, and the tree is walked.
pub fn candidate_files(
    root: &str,
    filename: &str,
    after: Option<HourBucket>,
    before: Option<HourBucket>,
) -> (r: Option<Vec<String>>)
    requires
        range_is_valid(after, before),
    ensures
        (after is None || before is None) <==> r is None,
        r matches Some(v) ==> {
            let (a, b) = (after->0, before->0);
            &&& hour_lt(b, a) ==> v@.len() == 0
            &&& !hour_lt(b, a) ==> v@.len() == b.number() - a.number() + 1
            &&& forall|k: int|
                0 <= k < v@.len() ==> (#[trigger] v@[k])@ == joined_path(
                    hour_dir(hours_after(a, k as nat), root@),
                    filename@,
                )
        },
{
    let dirs = match candidate_dirs(root, after, before) {
        Some(dirs) => dirs,
        None => return None,
    };
    let ghost a = after->0;
    let mut v: Vec<String> = Vec::new();
    let mut i: usize = 0;
    while i < dirs.len()
        invariant
            i <= dirs@.len(),
            v@.len() == i,
            forall|k: int|
                0 <= k < dirs@.len() ==> (#[trigger] dirs@[k])@ == hour_dir(
                    hours_after(a, k as nat),
                    root@,
                ),
            forall|k: int|
                0 <= k < i ==> (#[trigger] v@[k])@ == joined_path(
                    hour_dir(hours_after(a, k as nat), root@),
                    filename@,
                ),
        decreases dirs@.len() - i,
    {
        v.push(join_path(dirs[i].as_str(), filename));
        i = i + 1;
    }
    Some(v)
}

// ── Acknowledgements ─────────────────────────────────────────────────────────
//
// One line per acknowledgement: `{"rule_id","timestamp","note"}`. The timestamp
// is a watermark: it hides every alert of the rule up to that moment, and no
// later one.

/// The latest acknowledged moment (epoch seconds) of each rule.
pub struct Watermarks {
    pub entries: Vec<(String, i64)>,
}

/// The watermark of a rule among entries.
pub open spec fn mark_of(e: Seq<(String, i64)>, rule: Seq<char>) -> Option<int>
    decreases e.len(),
{
    if e.len() == 0 {
        None
    } else if e[0].0@ == rule {
        Some(e[0].1 as int)
    } else {
        mark_of(e.skip(1), rule)
    }
}

/// The later of a watermark and another moment.
pub open spec fn raised(mark: Option<int>, ts: int) -> int {
    match mark {
        Some(m) => if m >= ts {
            m
        } else {
            ts
        },
        None => ts,
    }
}

/// The acknowledgement that a line holds: a rule and a moment.
pub open spec fn ack_in(line: Seq<char>) -> Option<(Seq<char>, int)> {
    if line.len() == 0 {
        None
    } else {
        match parsed_json(line) {
            Some(j) => match (text_member(j, "rule_id"@), int_member(j, "timestamp"@)) {
                (Some(rule), Some(ts)) => Some((rule, ts)),
                _ => None,
            },
            None => None,
        }
    }
}

/// The watermark of a rule after the first `n` lines: the latest moment of its
/// acknowledgements.
pub open spec fn watermark(ls: Seq<Seq<char>>, rule: Seq<char>, n: int) -> Option<int>
    decreases n,
{
    if n <= 0 {
        None
    } else {
        let front = watermark(ls, rule, n - 1);
        match ack_in(ls[n - 1]) {
            Some((r, ts)) => if r == rule {
                Some(raised(front, ts))
            } else {
                front
            },
            None => front,
        }
    }
}

impl Watermarks {
    /// The watermark of a rule.
    pub open spec fn of(&self, rule: Seq<char>) -> Option<int> {
        mark_of(self.entries@, rule)
    }

    /// No watermarks.
    pub fn new() -> (r: Watermarks)
        ensures
            forall|rule: Seq<char>| r.of(rule) is None,
    {
        Watermarks { entries: Vec::new() }
    }

    fn find(&self, rule: &str) -> (r: Option<usize>)
        ensures
            match r {
                Some(i) => i < self.entries@.len() && self.entries@[i as int].0@ == rule@
                    && self.of(rule@) == Some(self.entries@[i as int].1 as int) && forall|k: int|
                    0 <= k < i ==> (#[trigger] self.entries@[k]).0@ != rule@,
                None => self.of(rule@) is None && forall|k: int|
                    0 <= k < self.entries@.len() ==> (#[trigger] self.entries@[k]).0@ != rule@,
            },
    {
        let n: usize = self.entries.len();
        let mut i: usize = 0;
        assert(self.entries@.skip(0) =~= self.entries@);
        while i < n
            invariant
                n == self.entries@.len(),
                i <= n,
                self.of(rule@) == mark_of(self.entries@.skip(i as int), rule@),
                forall|k: int| 0 <= k < i ==> (#[trigger] self.entries@[k]).0@ != rule@,
            decreases n - i,
        {
            assert(self.entries@.skip(i as int)[0] == self.entries@[i as int]);
            if same(self.entries[i].0.as_str(), rule) {
                return Some(i);
            }
            assert(self.entries@.skip(i as int).skip(1) =~= self.entries@.skip(i + 1));
            i = i + 1;
        }
        None
    }

    /// The watermark of a rule.
    pub fn get(&self, rule: &str) -> (r: Option<i64>)
        ensures
            match r {
                Some(m) => self.of(rule@) == Some(m as int),
                None => self.of(rule@) is None,
            },
    {
        match self.find(rule) {
            Some(i) => Some(self.entries[i].1),
            None => None,
        }
    }

    /// Takes an acknowledgement in: the rule's watermark is the later of the two.
    pub fn raise(&mut self, rule: &str, ts: i64)
        ensures
            final(self).of(rule@) == Some(raised(old(self).of(rule@), ts as int)),
            forall|other: Seq<char>|
                other != rule@ ==> #[trigger] final(self).of(other) == old(self).of(other),
    {
        let ghost before = self.entries@;
        match self.find(rule) {
            Some(i) => {
                let m: i64 = self.entries[i].1;
                let name = self.entries[i].0.clone();
                if m < ts {
                    self.entries.set(i, (name, ts));
                    proof {
                        lemma_mark_update(before, i as int, self.entries@[i as int]);
                    }
                }
            },
            None => {
                self.entries.push((rule.to_owned(), ts));
                proof {
                    assert forall|other: Seq<char>| #[trigger]
                        mark_of(self.entries@, other) == match mark_of(before, other) {
                            Some(m) => Some(m),
                            None => if other == rule@ {
                                Some(ts as int)
                            } else {
                                None
                            },
                        } by {
                        lemma_mark_push(before, self.entries@.last(), other);
                    }
                }
            },
        }
    }
}

proof fn lemma_mark_push(e: Seq<(String, i64)>, x: (String, i64), rule: Seq<char>)
    ensures
        mark_of(e.push(x), rule) == match mark_of(e, rule) {
            Some(m) => Some(m),
            None => if rule == x.0@ {
                Some(x.1 as int)
            } else {
                None
            },
        },
    decreases e.len(),
{
    if e.len() == 0 {
        assert(e.push(x).skip(1) =~= Seq::empty());
        assert(mark_of(e.push(x).skip(1), rule) is None);
    } else {
        lemma_mark_push(e.skip(1), x, rule);
        assert(e.push(x).skip(1) =~= e.skip(1).push(x));
    }
}

proof fn lemma_mark_update(e: Seq<(String, i64)>, i: int, x: (String, i64))
    requires
        0 <= i < e.len(),
        x.0@ == e[i].0@,
        forall|k: int| 0 <= k < i ==> (#[trigger] e[k]).0@ != x.0@,
    ensures
        mark_of(e.update(i, x), x.0@) == Some(x.1 as int),
        forall|other: Seq<char>|
            other != x.0@ ==> #[trigger] mark_of(e.update(i, x), other) == mark_of(e, other),
    decreases e.len(),
{
    let u = e.update(i, x);
    if i == 0 {
        assert(u.skip(1) =~= e.skip(1));
    } else {
        lemma_mark_update(e.skip(1), i - 1, x);
        assert(u.skip(1) =~= e.skip(1).update(i - 1, x));
        assert(u[0] == e[0]);
        assert forall|other: Seq<char>| other != x.0@ implies #[trigger] mark_of(u, other)
            == mark_of(e, other) by {
            assert(mark_of(e.skip(1).update(i - 1, x), other) == mark_of(e.skip(1), other));
        }
    }
}

/// The latest watermark of each rule among the lines of the acknowledgement
/// log. A malformed line contributes none.
pub fn load_ack_watermarks(content: &str) -> (r: Watermarks)
    ensures
        forall|rule: Seq<char>| #[trigger]
            r.of(rule) == watermark(
                line_seq(content@),
                rule,
                line_seq(content@).len() as int,
            ),
{
    let ls = lines(&to_chars(content));
    let ghost lv = line_seq(content@);
    let mut w = Watermarks::new();
    let n: usize = ls.len();
    let mut i: usize = 0;
    while i < n
        invariant
            n == ls@.len(),
            pieces(ls@) == lv,
            i <= n,
            forall|rule: Seq<char>| #[trigger] w.of(rule) == watermark(lv, rule, i as int),
        decreases n - i,
    {
        assert(lv[i as int] == ls@[i as int]@);
        if ls[i].len() > 0 {
            let line = string_of(&ls[i]);
            if let Some(j) = Json::parse(line.as_str()) {
                if let Some(rule) = j.get_text("rule_id") {
                    if let Some(ts) = j.get_int("timestamp") {
                        w.raise(rule.as_str(), ts);
                    }
                }
            }
        }
        i = i + 1;
    }
    assert(pieces(ls@).len() == n);
    w
}

/// Whether an alert is hidden: it names a rule that was acknowledged, and is
/// not later than the rule's watermark. An alert without a rule, without a
/// timestamp or of a rule never acknowledged is not hidden.
pub open spec fn hidden(j: JsonV, w: Watermarks) -> bool {
    match (text_member(j, "rule_id"@), int_member(j, "timestamp"@)) {
        (Some(rule), Some(ts)) => w.of(rule) matches Some(m) && ts <= m,
        _ => false,
    }
}

/// The records from position `i` on that are not hidden, in order.
pub open spec fn shown_from(s: Seq<Json>, w: Watermarks, i: int) -> Seq<Json>
    decreases s.len() - i,
{
    if i < 0 || i >= s.len() {
        Seq::empty()
    } else if hidden(s[i].view(), w) {
        shown_from(s, w, i + 1)
    } else {
        seq![s[i]] + shown_from(s, w, i + 1)
    }
}

fn is_hidden(j: &Json, w: &Watermarks) -> (r: bool)
    ensures
        r == hidden(j.view(), *w),
{
    match j.get_text("rule_id") {
        None => false,
        Some(rule) => match w.get(rule.as_str()) {
            None => false,
            Some(m) => match j.get_int("timestamp") {
                None => false,
                Some(ts) => ts <= m,
            },
        },
    }
}

/// Drops the alerts that are not later than the watermark of their rule.
pub fn filter_acked(records: &mut Vec<Json>, watermarks: &Watermarks)
    ensures
        final(records)@ == shown_from(old(records)@, *watermarks, 0),
{
    let ghost all = records@;
    let mut back: Vec<Json> = Vec::new();
    assert(all.take(all.len() as int) =~= all);
    assert(shown_from(all, *watermarks, all.len() as int) =~= back@.reverse());
    while records.len() > 0
        invariant
            all == old(records)@,
            records@.len() <= all.len(),
            records@ == all.take(records@.len() as int),
            back@.reverse() == shown_from(all, *watermarks, records@.len() as int),
        decreases records@.len(),
    {
        let ghost n = records@.len() as int;
        let ghost kept = back@;
        match records.pop() {
            Some(j) => {
                assert(j == all[n - 1]);
                assert(records@ =~= all.take(n - 1));
                if !is_hidden(&j, watermarks) {
                    back.push(j);
                    assert(back@.reverse() =~= seq![j] + kept.reverse());
                }
            },
            None => {},
        }
    }
    assert(records@ + back@.reverse() =~= back@.reverse());
    while back.len() > 0
        invariant
            records@ + back@.reverse() == shown_from(all, *watermarks, 0),
        decreases back@.len(),
    {
        let ghost front = records@;
        let ghost kept = back@;
        match back.pop() {
            Some(j) => {
                records.push(j);
                assert(records@ + back@.reverse() =~= front + kept.reverse());
            },
            None => {},
        }
    }
    assert(records@ + back@.reverse() =~= records@);
}

/// Whether an alert is a correlated one.
pub open spec fn is_correlated(j: JsonV) -> bool {
    text_member(j, "type"@) == Some("correlated"@)
}

/// The correlated alerts from position `i` on, in order.
pub open spec fn correlated_from(s: Seq<Json>, i: int) -> Seq<Json>
    decreases s.len() - i,
{
    if i < 0 || i >= s.len() {
        Seq::empty()
    } else if is_correlated(s[i].view()) {
        seq![s[i]] + correlated_from(s, i + 1)
    } else {
        correlated_from(s, i + 1)
    }
}

/// Drops all but the correlated alerts.
pub fn keep_correlated(records: &mut Vec<Json>)
    ensures
        final(records)@ == correlated_from(old(records)@, 0),
{
    let ghost all = records@;
    let mut back: Vec<Json> = Vec::new();
    assert(all.take(all.len() as int) =~= all);
    assert(correlated_from(all, all.len() as int) =~= back@.reverse());
    while records.len() > 0
        invariant
            all == old(records)@,
            records@.len() <= all.len(),
            records@ == all.take(records@.len() as int),
            back@.reverse() == correlated_from(all, records@.len() as int),
        decreases records@.len(),
    {
        let ghost n = records@.len() as int;
        let ghost kept = back@;
        match records.pop() {
            Some(j) => {
                assert(j == all[n - 1]);
                assert(records@ =~= all.take(n - 1));
                let wanted = match j.get_text("type") {
                    Some(t) => same(t.as_str(), "correlated"),
                    None => false,
                };
                if wanted {
                    back.push(j);
                    assert(back@.reverse() =~= seq![j] + kept.reverse());
                }
            },
            None => {},
        }
    }
    assert(records@ + back@.reverse() =~= back@.reverse());
    while back.len() > 0
        invariant
            records@ + back@.reverse() == correlated_from(all, 0),
        decreases back@.len(),
    {
        let ghost front = records@;
        let ghost kept = back@;
        match back.pop() {
            Some(j) => {
                records.push(j);
                assert(records@ + back@.reverse() =~= front + kept.reverse());
            },
            None => {},
        }
    }
    assert(records@ + back@.reverse() =~= records@);
}

/// Whether a line of the acknowledgement log is kept: it is unless it holds a
/// timestamp before the cutoff.
pub open spec fn line_stays(line: Seq<char>, cutoff: int) -> bool {
    match parsed_json(line) {
        Some(j) => match int_member(j, "timestamp"@) {
            Some(ts) => ts >= cutoff,
            None => true,
        },
        None => true,
    }
}

/// The lines among the first `n` that are kept; empty lines are not.
pub open spec fn lines_kept(ls: Seq<Seq<char>>, cutoff: int, n: int) -> Seq<Seq<char>>
    decreases n,
{
    if n <= 0 {
        Seq::empty()
    } else if ls[n - 1].len() > 0 && line_stays(ls[n - 1], cutoff) {
        lines_kept(ls, cutoff, n - 1).push(ls[n - 1])
    } else {
        lines_kept(ls, cutoff, n - 1)
    }
}

/// How many of the first `n` lines are stale.
pub open spec fn lines_dropped(ls: Seq<Seq<char>>, cutoff: int, n: int) -> int
    decreases n,
{
    if n <= 0 {
        0
    } else {
        lines_dropped(ls, cutoff, n - 1) + if ls[n - 1].len() > 0 && !line_stays(
            ls[n - 1],
            cutoff,
        ) {
            1int
        } else {
            0int
        }
    }
}

/// Whether no line is stale.
pub open spec fn none_stale(ls: Seq<Seq<char>>, cutoff: int) -> bool {
    forall|i: int| 0 <= i < ls.len() ==> (#[trigger] ls[i]).len() == 0 || line_stays(ls[i], cutoff)
}

/// What becomes of the acknowledgement log.
#[derive(Debug, PartialEq, Eq)]
pub enum AckLog {
    /// It stays as it is.
    Keep,
    /// Nothing survives: the file is removed.
    Remove,
    /// The file is replaced by this text.
    Write(String),
}

/// The model of what becomes of the log.
pub ghost enum AckLogV {
    Keep,
    Remove,
    Write(Seq<char>),
}

impl View for AckLog {
    type V = AckLogV;

    open spec fn view(&self) -> AckLogV {
        match self {
            AckLog::Keep => AckLogV::Keep,
            AckLog::Remove => AckLogV::Remove,
            AckLog::Write(t) => AckLogV::Write(t@),
        }
    }
}

/// How many lines of a log are stale.
pub open spec fn stale_lines(content: Seq<char>, cutoff: int) -> int {
    lines_dropped(line_seq(content), cutoff, line_seq(content).len() as int)
}

/// What becomes of a log: it stays if nothing is stale, and in a dry run; it is
/// removed if nothing survives; else the lines that survive are written, each
/// with a line feed.
pub open spec fn compacted(content: Seq<char>, cutoff: int, dry_run: bool) -> AckLogV {
    let kept = lines_kept(line_seq(content), cutoff, line_seq(content).len() as int);
    if stale_lines(content, cutoff) == 0 || dry_run {
        AckLogV::Keep
    } else if kept.len() == 0 {
        AckLogV::Remove
    } else {
        AckLogV::Write(joined(kept, "\n"@) + "\n"@)
    }
}

/// Compacts the acknowledgement log: lines older than the cutoff (epoch
/// seconds) are dropped, except in a dry run. A line whose timestamp is missing
/// or cannot be read is always kept. The result is how many lines are stale, and
/// what becomes of the file. What is written holds no stale line, so that a
/// second compaction leaves it as it is.
pub fn compact_ack_log(content: &str, cutoff_epoch: i64, dry_run: bool) -> (r: (usize, AckLog))
    ensures
        r.0 == stale_lines(content@, cutoff_epoch as int),
        r.1@ == compacted(content@, cutoff_epoch as int, dry_run),
        r.1@ matches AckLogV::Write(t) ==> stale_lines(t, cutoff_epoch as int) == 0,
{
    let ls = lines(&to_chars(content));
    let ghost lv = line_seq(content@);
    let n: usize = ls.len();
    let mut survivors: Vec<String> = Vec::new();
    let mut dropped: usize = 0;
    let mut i: usize = 0;
    assert(views(survivors@) =~= Seq::<Seq<char>>::empty());
    while i < n
        invariant
            n == ls@.len(),
            pieces(ls@) == lv,
            lv == line_seq(content@),
            i <= n,
            views(survivors@) == lines_kept(lv, cutoff_epoch as int, i as int),
            dropped == lines_dropped(lv, cutoff_epoch as int, i as int),
            dropped <= i,
            forall|k: int|
                0 <= k < survivors@.len() ==> !(#[trigger] survivors@[k])@.contains('\n')
                    && line_stays(without_cr(survivors@[k]@), cutoff_epoch as int),
        decreases n - i,
    {
        assert(lv[i as int] == ls@[i as int]@);
        let ghost before = views(survivors@);
        if ls[i].len() > 0 {
            let line = string_of(&ls[i]);
            proof {
                lines_hold_no_feed(content@, i as int);
            }
            let keep = match Json::parse(line.as_str()) {
                Some(j) => match j.get_int("timestamp") {
                    Some(ts) => ts >= cutoff_epoch,
                    None => true,
                },
                None => true,
            };
            if keep {
                survivors.push(line);
                assert(views(survivors@) =~= before.push(line@));
            } else {
                dropped = dropped + 1;
            }
        }
        i = i + 1;
    }
    assert(pieces(ls@).len() == n);
    assert(views(survivors@).len() == survivors@.len());
    if dropped > 0 && !dry_run {
        if survivors.len() == 0 {
            (dropped, AckLog::Remove)
        } else {
            let mut text = join(&survivors, "\n");
            text.append("\n");
            proof {
                lemma_written_stays(views(survivors@), cutoff_epoch as int);
            }
            (dropped, AckLog::Write(text))
        }
    } else {
        (dropped, AckLog::Keep)
    }
}

proof fn lemma_none_dropped(ls: Seq<Seq<char>>, cutoff: int, n: int)
    requires
        n <= ls.len(),
        none_stale(ls, cutoff),
    ensures
        lines_dropped(ls, cutoff, n) == 0,
    decreases n,
{
    if n > 0 {
        lemma_none_dropped(ls, cutoff, n - 1);
    }
}

proof fn lemma_written_stays(ls: Seq<Seq<char>>, cutoff: int)
    requires
        ls.len() > 0,
        forall|k: int|
            0 <= k < ls.len() ==> !(#[trigger] ls[k]).contains('\n') && line_stays(
                without_cr(ls[k]),
                cutoff,
            ),
    ensures
        stale_lines(joined(ls, "\n"@) + "\n"@, cutoff) == 0,
{
    written_log_reads_back(ls);
    let back = lines_read_back(ls);
    assert(none_stale(back, cutoff));
    lemma_none_dropped(back, cutoff, back.len() as int);
}

// ── Searching ────────────────────────────────────────────────────────────────

/// Whether a record is a hit.
pub open spec fn is_hit(expr: Option<ExprV>, j: JsonV) -> bool {
    match expr {
        Some(e) => expr_holds(e, j),
        None => true,
    }
}

/// The hits among the first `n` records.
pub open spec fn hits(rs: Seq<JsonV>, expr: Option<ExprV>, n: int) -> Seq<JsonV>
    decreases n,
{
    if n <= 0 {
        Seq::empty()
    } else if is_hit(expr, rs[n - 1]) {
        hits(rs, expr, n - 1).push(rs[n - 1])
    } else {
        hits(rs, expr, n - 1)
    }
}

/// The chosen fields of a record, `null` where it has none.
pub open spec fn projected(j: JsonV, fields: Seq<Seq<char>>) -> RecordV {
    fields.map_values(
        |f: Seq<char>|
            (
                f,
                match resolved(j, f) {
                    Some(x) => val_of(x),
                    None => ValV::Null,
                },
            ),
    )
}

/// The renderer after one hit: the chosen fields, or the whole record as a line.
pub open spec fn after_hit(s: RendererV, j: JsonV, select: Option<Seq<Seq<char>>>) -> RendererV {
    match select {
        Some(fields) => after_record(s, projected(j, fields)),
        None => after_line(s, compact_text(j), parsed_json(compact_text(j))),
    }
}

/// The renderer after the first `n` hits.
pub open spec fn hits_after(
    s: RendererV,
    hs: Seq<JsonV>,
    select: Option<Seq<Seq<char>>>,
    n: int,
) -> RendererV
    decreases n,
{
    if n <= 0 {
        s
    } else {
        after_hit(hits_after(s, hs, select, n - 1), hs[n - 1], select)
    }
}

/// The group that a record belongs to: the texts of its fields, empty where it
/// has none.
pub open spec fn group_of(j: JsonV, fields: Seq<Seq<char>>) -> Group {
    fields.map_values(
        |f: Seq<char>|
            match field_text(j, f) {
                Some(s) => s,
                None => Seq::empty(),
            },
    )
}

/// How often each group occurs among the first `n` records.
pub open spec fn tally(hs: Seq<JsonV>, fields: Seq<Seq<char>>, n: int) -> Map<Group, u64>
    decreases n,
{
    if n <= 0 {
        Map::empty()
    } else {
        let front = tally(hs, fields, n - 1);
        let g = group_of(hs[n - 1], fields);
        front.insert(
            g,
            if front.dom().contains(g) {
                (front[g] + 1) as u64
            } else {
                1
            },
        )
    }
}

proof fn lemma_hits_done(
    s: RendererV,
    hs: Seq<JsonV>,
    select: Option<Seq<Seq<char>>>,
    m: int,
    n: int,
)
    requires
        0 <= m <= n,
        done(hits_after(s, hs, select, m)),
    ensures
        hits_after(s, hs, select, n) == hits_after(s, hs, select, m),
    decreases n - m,
{
    if m < n {
        lemma_hits_done(s, hs, select, m, n - 1);
    }
}

/// The records at the given positions.
pub open spec fn picked(rs: Seq<JsonV>, at: Seq<usize>) -> Seq<JsonV> {
    at.map_values(|i: usize| rs[i as int])
}

proof fn lemma_tally_bound(hs: Seq<JsonV>, fields: Seq<Seq<char>>, n: int, g: Group)
    requires
        n <= i64::MAX,
        tally(hs, fields, n).dom().contains(g),
    ensures
        tally(hs, fields, n)[g] <= n,
    decreases n,
{
    if n > 0 {
        let front = tally(hs, fields, n - 1);
        if front.dom().contains(g) {
            lemma_tally_bound(hs, fields, n - 1, g);
        }
    }
}

/// The positions of the hits among the records.
fn matching(records: &Vec<Json>, query: &Query) -> (r: Vec<usize>)
    requires
        all_wf(records@),
    ensures
        r@.len() <= records@.len(),
        forall|k: int| 0 <= k < r@.len() ==> (#[trigger] r@[k]) < records@.len(),
        hits(json_views(records@), query@.expr, records@.len() as int) == picked(
            json_views(records@),
            r@,
        ),
{
    let ghost rv = json_views(records@);
    let mut r: Vec<usize> = Vec::new();
    let n: usize = records.len();
    let mut i: usize = 0;
    assert(picked(rv, r@) =~= Seq::<JsonV>::empty());
    while i < n
        invariant
            n == records@.len(),
            all_wf(records@),
            rv == json_views(records@),
            i <= n,
            r@.len() <= i,
            forall|k: int| 0 <= k < r@.len() ==> (#[trigger] r@[k]) < records@.len(),
            hits(rv, query@.expr, i as int) == picked(rv, r@),
        decreases n - i,
    {
        let ghost before = r@;
        assert(records@[i as int].wf());
        assert(rv[i as int] == records@[i as int].view());
        let hit = match &query.expr {
            Some(e) => e.eval_json(&records[i]),
            None => true,
        };
        if hit {
            r.push(i);
            assert(picked(rv, r@) =~= picked(rv, before).push(rv[i as int]));
        }
        i = i + 1;
    }
    r
}

fn project(record: &Json, fields: &Vec<String>) -> (r: Record)
    requires
        record.wf(),
    ensures
        record_view(r@) == projected(record.view(), views(fields@)),
{
    let ghost target = projected(record.view(), views(fields@));
    let mut rec: Record = Vec::new();
    let mut i: usize = 0;
    while i < fields.len()
        invariant
            i <= fields@.len(),
            record.wf(),
            rec@.len() == i,
            target == projected(record.view(), views(fields@)),
            forall|k: int| 0 <= k < i ==> ((#[trigger] rec@[k]).0@, rec@[k].1@) == target[k],
        decreases fields@.len() - i,
    {
        let val = match resolve_json_field(record, fields[i].as_str()) {
            Some(x) => json_to_val(x),
            None => Val::Null,
        };
        rec.push((fields[i].clone(), val));
        i = i + 1;
    }
    assert(record_view(rec@) =~= target);
    rec
}

fn run_rows(records: &Vec<Json>, at: &Vec<usize>, query: &Query, renderer: &mut Renderer) -> (r:
    i32)
    requires
        all_wf(records@),
        forall|k: int| 0 <= k < at@.len() ==> (#[trigger] at@[k]) < records@.len(),
        old(renderer).emitted + at@.len() <= usize::MAX,
    ensures
        ({
            let hs = picked(json_views(records@), at@);
            &&& r == if hs.len() == 0 || done(old(renderer)@) {
                1int
            } else {
                0int
            }
            &&& final(renderer)@ == hits_after(
                old(renderer)@,
                hs,
                query@.select,
                hs.len() as int,
            )
        }),
{
    let ghost hs = picked(json_views(records@), at@);
    let ghost start = renderer@;
    let n: usize = at.len();
    let mut i: usize = 0;
    while i < n
        invariant
            n == at@.len(),
            all_wf(records@),
            hs == picked(json_views(records@), at@),
            forall|k: int| 0 <= k < at@.len() ==> (#[trigger] at@[k]) < records@.len(),
            i <= n,
            start == old(renderer)@,
            i > 0 ==> !done(start),
            renderer@ == hits_after(start, hs, query@.select, i as int),
            renderer.emitted <= old(renderer).emitted + i,
            old(renderer).emitted + n <= usize::MAX,
        decreases n - i,
    {
        if renderer.is_done() {
            proof {
                lemma_hits_done(start, hs, query@.select, i as int, n as int);
            }
            return if i == 0 {
                1
            } else {
                0
            };
        }
        let record = &records[at[i]];
        assert(records@[at@[i as int] as int].wf());
        assert(hs[i as int] == record.view());
        match &query.select {
            Some(fields) => {
                let rec = project(record, fields);
                renderer.emit_record(&rec);
            },
            None => {
                renderer.emit_raw_line(record.text.as_str());
            },
        }
        i = i + 1;
    }
    if n == 0 {
        1
    } else {
        0
    }
}

fn group_key(record: &Json, fields: &Vec<String>) -> (r: Vec<String>)
    ensures
        views(r@) == group_of(record.view(), views(fields@)),
{
    let ghost target = group_of(record.view(), views(fields@));
    let mut key: Vec<String> = Vec::new();
    let mut i: usize = 0;
    while i < fields.len()
        invariant
            i <= fields@.len(),
            key@.len() == i,
            target == group_of(record.view(), views(fields@)),
            forall|k: int| 0 <= k < i ==> (#[trigger] key@[k])@ == target[k],
        decreases fields@.len() - i,
    {
        let v = match json_field_text(record, fields[i].as_str()) {
            Some(s) => s,
            None => String::new(),
        };
        key.push(v);
        i = i + 1;
    }
    assert(views(key@) =~= target);
    key
}

fn run_group(
    records: &Vec<Json>,
    at: &Vec<usize>,
    fields: &Vec<String>,
    renderer: &mut Renderer,
) -> (r: i32)
    requires
        forall|k: int| 0 <= k < at@.len() ==> (#[trigger] at@[k]) < records@.len(),
        at@.len() <= i64::MAX,
        old(renderer).emitted + at@.len() <= usize::MAX,
    ensures
        ({
            let hs = picked(json_views(records@), at@);
            let m = tally(hs, views(fields@), hs.len() as int);
            &&& hs.len() == 0 ==> r == 1 && final(renderer)@ == old(renderer)@
            &&& hs.len() > 0 ==> r == 0 && shows_groups(
                old(renderer)@,
                final(renderer)@,
                views(fields@),
                m,
            )
        }),
{
    let ghost hs = picked(json_views(records@), at@);
    let ghost fv = views(fields@);
    let mut acc = GroupCounts::new();
    let n: usize = at.len();
    let mut i: usize = 0;
    while i < n
        invariant
            n == at@.len(),
            n <= i64::MAX,
            hs == picked(json_views(records@), at@),
            fv == views(fields@),
            forall|k: int| 0 <= k < at@.len() ==> (#[trigger] at@[k]) < records@.len(),
            i <= n,
            acc.wf(),
            acc@ == tally(hs, fv, i as int),
            acc.keys@.len() <= i,
            i > 0 ==> acc.keys@.len() > 0,
        decreases n - i,
    {
        let record = &records[at[i]];
        assert(hs[i as int] == record.view());
        let key = group_key(record, fields);
        let ghost g = views(key@);
        proof {
            if acc@.dom().contains(g) {
                lemma_tally_bound(hs, fv, i as int, g);
            }
        }
        acc.add_count(&key, 1);
        i = i + 1;
    }
    assert forall|k: int| 0 <= k < acc.counts@.len() implies (#[trigger] acc.counts@[k])
        <= i64::MAX by {
        acc.entry_at(k);
        lemma_tally_bound(hs, fv, n as int, crate::collections::key_texts(acc.keys@)[k]);
    }
    emit_groups(&acc, fields, renderer)
}

/// Searches loaded alerts and writes the result. Returns the exit code: 0 for
/// hits, 1 for none.
pub fn run_query(records: &Vec<Json>, query: &Query, renderer: &mut Renderer) -> (r: i32)
    requires
        all_wf(records@),
        records@.len() <= i64::MAX,
        old(renderer).emitted + records@.len() <= usize::MAX,
    ensures
        ({
            let hs = hits(json_views(records@), query@.expr, records@.len() as int);
            match query@.group_by {
                None => {
                    &&& r == if hs.len() == 0 || done(old(renderer)@) {
                        1int
                    } else {
                        0int
                    }
                    &&& final(renderer)@ == hits_after(
                        old(renderer)@,
                        hs,
                        query@.select,
                        hs.len() as int,
                    )
                },
                Some(fields) => {
                    &&& hs.len() == 0 ==> r == 1 && final(renderer)@ == old(renderer)@
                    &&& hs.len() > 0 ==> r == 0 && shows_groups(
                        old(renderer)@,
                        final(renderer)@,
                        fields,
                        tally(hs, fields, hs.len() as int),
                    )
                },
            }
        }),
{
    let at = matching(records, query);
    match &query.group_by {
        Some(fields) => run_group(records, &at, fields, renderer),
        None => run_rows(records, &at, query, renderer),
    }
}

} // verus!
