//! What acknowledgements promise, and what the type of an alert is good for.
use vstd::prelude::*;

use crate::alerts::{ack_in, compacted, correlated_from, hidden, hits, is_correlated, is_hit};
use crate::alerts::{line_stays, lines_kept, raised, shown_from, stale_lines, tagged_records};
use crate::alerts::{watermark, Watermarks};
use crate::json::{ack_object, entry, inserted, inserted_is_found, int_member};
use crate::json::{json_views, parsed_json, text_member, Json, JsonV};
use crate::query::ExprV;
use crate::query_eval::{expr_holds, resolved};
use crate::query_laws::{correlated_joins_the_predicate, equals, is_predicate, of_correlated};
use crate::query_parser::field_error;
use crate::text::{char_from, char_from_is_first, joined, line_seq, without_cr};

verus! {

proof fn lemma_ack_names()
    ensures
        "rule_id"@ != "timestamp"@,
        "rule_id"@ != "note"@,
        "timestamp"@ != "note"@,
{
    reveal_strlit("rule_id");
    reveal_strlit("timestamp");
    reveal_strlit("note");
    assert("rule_id"@.len() == 7);
    assert("timestamp"@.len() == 9);
    assert("note"@.len() == 4);
}

/// A written acknowledgement reads as what it says: its rule, its moment, and
/// its note if it has one.
pub proof fn ack_reads_back(rule: Seq<char>, ts: int, note: Option<Seq<char>>)
    ensures
        text_member(ack_object(rule, ts, note), "rule_id"@) == Some(rule),
        int_member(ack_object(rule, ts, note), "timestamp"@) == Some(ts),
        text_member(ack_object(rule, ts, note), "note"@) == note,
{
    lemma_ack_names();
    let e0 = Seq::<(Seq<char>, JsonV)>::empty();
    let r = JsonV::Str(rule);
    let t = JsonV::Int(ts);
    let e1 = inserted(e0, "rule_id"@, r);
    let e2 = inserted(e1, "timestamp"@, t);
    inserted_is_found(e0, "rule_id"@, r, "note"@);
    inserted_is_found(e1, "timestamp"@, t, "rule_id"@);
    inserted_is_found(e1, "timestamp"@, t, "note"@);
    assert(entry(e0, "note"@) is None);
    if let Some(n) = note {
        let x = JsonV::Str(n);
        inserted_is_found(e2, "note"@, x, "rule_id"@);
        inserted_is_found(e2, "note"@, x, "timestamp"@);
    }
}

/// A log with one more acknowledgement: the watermark of its rule is the later
/// of the old one and the new moment, and every other rule's stays.
pub proof fn ack_raises_its_watermark(
    ls: Seq<Seq<char>>,
    line: Seq<char>,
    rule: Seq<char>,
    ts: int,
    note: Option<Seq<char>>,
    other: Seq<char>,
)
    requires
        line.len() > 0,
        parsed_json(line) == Some(ack_object(rule, ts, note)),
        other != rule,
    ensures
        watermark(ls.push(line), rule, ls.len() as int + 1) == Some(
            raised(watermark(ls, rule, ls.len() as int), ts),
        ),
        watermark(ls.push(line), other, ls.len() as int
            + 1) == watermark(ls, other, ls.len() as int),
{
    ack_reads_back(rule, ts, note);
    lemma_watermark_prefix(ls, line, rule, ls.len() as int);
    lemma_watermark_prefix(ls, line, other, ls.len() as int);
    assert(ack_in(line) == Some((rule, ts)));
}

proof fn lemma_watermark_prefix(ls: Seq<Seq<char>>, line: Seq<char>, rule: Seq<char>, n: int)
    requires
        n <= ls.len(),
    ensures
        watermark(ls.push(line), rule, n) == watermark(ls, rule, n),
    decreases n,
{
    if n > 0 {
        lemma_watermark_prefix(ls, line, rule, n - 1);
        assert(ls.push(line)[n - 1] == ls[n - 1]);
    }
}

/// An alert of a rule is hidden exactly when it is not later than the rule's
/// watermark; a later alert of the same rule is shown.
pub proof fn watermark_decides(j: JsonV, w: Watermarks, rule: Seq<char>, ts: int, m: int)
    requires
        text_member(j, "rule_id"@) == Some(rule),
        int_member(j, "timestamp"@) == Some(ts),
        w.of(rule) == Some(m),
    ensures
        hidden(j, w) <==> ts <= m,
{
}

/// What can be in doubt is shown: an alert without a rule (a correlated one),
/// without a timestamp, or of a rule that was never acknowledged.
pub proof fn doubtful_alerts_are_shown(j: JsonV, w: Watermarks)
    requires
        text_member(j, "rule_id"@) is None || int_member(j, "timestamp"@) is None || (text_member(
            j,
            "rule_id"@,
        ) matches Some(rule) && w.of(rule) is None),
    ensures
        !hidden(j, w),
{
}

/// Compacting the log keeps every watermark at or after the cutoff, and drops
/// every earlier one.
pub proof fn compaction_keeps_watermarks(
    ls: Seq<Seq<char>>,
    cutoff: int,
    rule: Seq<char>,
    n: int,
)
    requires
        0 <= n <= ls.len(),
    ensures
        ({
            let kept = lines_kept(ls, cutoff, n);
            watermark(kept, rule, kept.len() as int) == match watermark(ls, rule, n) {
                Some(m) => if m >= cutoff {
                    Some(m)
                } else {
                    None
                },
                None => None,
            }
        }),
    decreases n,
{
    if n > 0 {
        compaction_keeps_watermarks(ls, cutoff, rule, n - 1);
        let front = lines_kept(ls, cutoff, n - 1);
        let line = ls[n - 1];
        if line.len() > 0 && line_stays(line, cutoff) {
            lemma_watermark_prefix(front, line, rule, front.len() as int);
            assert(front.push(line)[front.len() as int] == line);
        }
    }
}

/// Compacting the log changes nothing for an alert at or after the cutoff: it is
/// hidden afterwards exactly if it was before.
pub proof fn compaction_hides_and_shows_nothing(
    ls: Seq<Seq<char>>,
    cutoff: int,
    before: Watermarks,
    after: Watermarks,
    j: JsonV,
)
    requires
        forall|rule: Seq<char>|
            #[trigger] before.of(rule) == watermark(ls, rule, ls.len() as int),
        forall|rule: Seq<char>|
            #[trigger] after.of(rule) == watermark(
                lines_kept(ls, cutoff, ls.len() as int),
                rule,
                lines_kept(ls, cutoff, ls.len() as int).len() as int,
            ),
        int_member(j, "timestamp"@) matches Some(ts) ==> ts >= cutoff,
    ensures
        hidden(j, after) == hidden(j, before),
{
    if let Some(rule) = text_member(j, "rule_id"@) {
        compaction_keeps_watermarks(ls, cutoff, rule, ls.len() as int);
        assert(before.of(rule) == watermark(ls, rule, ls.len() as int));
        assert(after.of(rule) == watermark(
            lines_kept(ls, cutoff, ls.len() as int),
            rule,
            lines_kept(ls, cutoff, ls.len() as int).len() as int,
        ));
    }
}

/// Acknowledging a rule hides its alerts up to that moment. A later alert of the
/// rule is hidden only if an earlier acknowledgement hid it already, and so is
/// every alert of another rule.
pub proof fn ack_hides_up_to_its_moment(
    content: Seq<char>,
    line: Seq<char>,
    rule: Seq<char>,
    ts: int,
    note: Option<Seq<char>>,
    before: Watermarks,
    after: Watermarks,
    j: JsonV,
)
    requires
        content.len() == 0 || content.last() == '\n',
        line.len() > 0,
        is_one_line(line),
        parsed_json(line) == Some(ack_object(rule, ts, note)),
        forall|x: Seq<char>|
            #[trigger] before.of(x) == watermark(
                line_seq(content),
                x,
                line_seq(content).len() as int,
            ),
        forall|x: Seq<char>|
            #[trigger] after.of(x) == watermark(
                line_seq(content + line + seq!['\n']),
                x,
                line_seq(content + line + seq!['\n']).len() as int,
            ),
    ensures
        text_member(j, "rule_id"@) == Some(rule) && (int_member(j, "timestamp"@) matches Some(t)
            && t <= ts) ==> hidden(j, after),
        !(text_member(j, "rule_id"@) == Some(rule) && (int_member(j, "timestamp"@) matches Some(t)
            && t <= ts)) ==> hidden(j, after) == hidden(j, before),
{
    appended_line_is_last(content, line);
    let ls = line_seq(content);
    assert(ls.push(line).len() == ls.len() + 1);
    let other = rule.push('x');
    assert(other.len() != rule.len());
    ack_raises_its_watermark(ls, line, rule, ts, note, other);
    assert(before.of(rule) == watermark(ls, rule, ls.len() as int));
    assert(after.of(rule) == watermark(ls.push(line), rule, ls.len() as int + 1));
    if let Some(x) = text_member(j, "rule_id"@) {
        if x != rule {
            ack_raises_its_watermark(ls, line, rule, ts, note, x);
            assert(before.of(x) == watermark(ls, x, ls.len() as int));
            assert(after.of(x) == watermark(ls.push(line), x, ls.len() as int + 1));
        }
    }
}

/// Whether a text is one line: it has no line feed in it and no carriage return
/// at its end.
pub open spec fn is_one_line(s: Seq<char>) -> bool {
    &&& !s.contains('\n')
    &&& s.len() > 0 ==> s.last() != '\r'
}

/// The lines of a log hold no line feed.
pub proof fn lines_hold_no_feed(content: Seq<char>, i: int)
    requires
        0 <= i < line_seq(content).len(),
    ensures
        !line_seq(content)[i].contains('\n'),
    decreases content.len(),
{
    char_from_is_first(content, '\n', 0);
    if let Some(k) = char_from(content, '\n', 0) {
        let rest = line_seq(content.skip(k + 1));
        if i == 0 {
            let front = content.take(k);
            assert forall|j: int| 0 <= j < front.len() implies #[trigger] front[j] != '\n' by {
                assert(content[j] != '\n');
            }
            assert(line_seq(content)[0] == without_cr(front));
        } else {
            lines_hold_no_feed(content.skip(k + 1), i - 1);
            assert(line_seq(content)[i] == rest[i - 1]);
        }
    } else {
        assert(line_seq(content)[0] == content);
    }
}

/// How lines that are written read back: a carriage return at the end of one
/// belongs to its line end.
pub open spec fn lines_read_back(ls: Seq<Seq<char>>) -> Seq<Seq<char>> {
    ls.map_values(|l: Seq<char>| without_cr(l))
}

/// A list of lines that is written, each with a line feed, reads back as that
/// list, but for a carriage return at the end of a line.
pub proof fn written_log_reads_back(ls: Seq<Seq<char>>)
    requires
        ls.len() > 0,
        forall|i: int| 0 <= i < ls.len() ==> !(#[trigger] ls[i]).contains('\n'),
    ensures
        line_seq(joined(ls, "\n"@) + "\n"@) == lines_read_back(ls),
    decreases ls.len(),
{
    reveal_strlit("\n");
    assert("\n"@ =~= seq!['\n']);
    let front = ls.drop_last();
    let last = ls.last();
    assert(!ls[ls.len() - 1].contains('\n'));
    if front.len() == 0 {
        appended_line_is_last(Seq::empty(), last);
        assert(joined(ls, "\n"@) == last);
        assert(Seq::<char>::empty() + last + seq!['\n'] =~= last + "\n"@);
        assert(line_seq(Seq::<char>::empty()) =~= Seq::<Seq<char>>::empty());
        assert(line_seq(Seq::<char>::empty()).push(without_cr(last)) =~= lines_read_back(ls));
    } else {
        assert forall|i: int| 0 <= i < front.len() implies !(#[trigger] front[i]).contains(
            '\n',
        ) by {
            assert(front[i] == ls[i]);
        }
        written_log_reads_back(front);
        let content = joined(front, "\n"@) + "\n"@;
        assert(content.last() == '\n');
        appended_line_is_last(content, last);
        assert(content + last + seq!['\n'] =~= joined(ls, "\n"@) + "\n"@);
        assert(lines_read_back(front).push(without_cr(last)) =~= lines_read_back(ls));
    }
}

/// A line appended to a log that ends in a line feed is the log's last line, but
/// for a carriage return at its end.
pub proof fn appended_line_is_last(content: Seq<char>, line: Seq<char>)
    requires
        content.len() == 0 || content.last() == '\n',
        !line.contains('\n'),
    ensures
        line_seq(content + line + seq!['\n']) == line_seq(content).push(without_cr(line)),
    decreases content.len(),
{
    let s = content + line + seq!['\n'];
    char_from_is_first(s, '\n', 0);
    char_from_is_first(content, '\n', 0);
    if content.len() == 0 {
        assert(s =~= line.push('\n'));
        assert(s[line.len() as int] == '\n');
        let i = char_from(s, '\n', 0)->0;
        assert(i == line.len()) by {
            if i < line.len() {
                assert(s[i] == line[i]);
            }
        }
        assert(s.take(i) =~= line);
        assert(s.skip(i + 1) =~= Seq::empty());
        assert(line_seq(s.skip(i + 1)) =~= Seq::<Seq<char>>::empty());
        assert(line_seq(s) =~= seq![without_cr(line)]);
        assert(line_seq(content).push(without_cr(line)) =~= seq![without_cr(line)]);
    } else {
        let i = char_from(content, '\n', 0)->0;
        assert(content[content.len() - 1] == '\n');
        assert(s[i] == '\n');
        let k = char_from(s, '\n', 0)->0;
        assert(k == i) by {
            if k < i {
                assert(content[k] == s[k]);
            }
        }
        let rest = content.skip(i + 1);
        assert(rest.len() == 0 || rest.last() == '\n');
        appended_line_is_last(rest, line);
        assert(s.take(i) =~= content.take(i));
        assert(s.skip(i + 1) =~= rest + line + seq!['\n']);
        let first = seq![without_cr(content.take(i))];
        assert(line_seq(s) =~= first + line_seq(rest).push(without_cr(line)));
        assert(line_seq(content).push(without_cr(line)) =~= first + line_seq(rest).push(
            without_cr(line),
        ));
    }
}

/// A dry run foretells the real one: it finds as many stale lines, and leaves the
/// log as it is. A log in which nothing is stale stays as it is too.
pub proof fn dry_run_foretells(content: Seq<char>, cutoff: int)
    ensures
        compacted(content, cutoff, true) is Keep,
        compacted(content, cutoff, false) is Keep <==> stale_lines(content, cutoff) == 0,
{
}

// ── The type of an alert ─────────────────────────────────────────────────────

/// Every loaded record carries its type.
pub proof fn loaded_records_are_tagged(ls: Seq<Seq<char>>, tag: Seq<char>, n: int, i: int)
    requires
        0 <= i < tagged_records(ls, tag, n).len(),
    ensures
        text_member(tagged_records(ls, tag, n)[i], "type"@) == Some(tag),
    decreases n,
{
    if n > 0 {
        let front = tagged_records(ls, tag, n - 1);
        if i < front.len() {
            loaded_records_are_tagged(ls, tag, n - 1, i);
        } else if let Some(JsonV::Object(e)) = parsed_json(ls[n - 1]) {
            inserted_is_found(e, "type"@, JsonV::Str(tag), "type"@);
        }
    }
}

proof fn lemma_correlated_filter(s: Seq<Json>, i: int)
    requires
        0 <= i <= s.len(),
    ensures
        json_views(correlated_from(s, i)) == json_views(s.skip(i)).filter(
            |j: JsonV| is_correlated(j),
        ),
    decreases s.len() - i,
{
    let p = |j: JsonV| is_correlated(j);
    if i < s.len() {
        lemma_correlated_filter(s, i + 1);
        let one = seq![s[i].view()];
        let rest = json_views(s.skip(i + 1));
        assert(json_views(s.skip(i)) =~= one + rest);
        Seq::filter_distributes_over_add(one, rest, p);
        lemma_filter_one(s[i].view(), p);
        assert(json_views(seq![s[i]] + correlated_from(s, i + 1)) =~= one + json_views(
            correlated_from(s, i + 1),
        ));
        assert(Seq::<JsonV>::empty() + rest.filter(p) =~= rest.filter(p));
    } else {
        assert(json_views(s.skip(i)) =~= Seq::<JsonV>::empty());
        assert(json_views(correlated_from(s, i)) =~= Seq::<JsonV>::empty());
    }
}

proof fn lemma_shown_filter(s: Seq<Json>, w: Watermarks, i: int)
    requires
        0 <= i <= s.len(),
    ensures
        json_views(shown_from(s, w, i)) == json_views(s.skip(i)).filter(
            |j: JsonV| !hidden(j, w),
        ),
    decreases s.len() - i,
{
    let p = |j: JsonV| !hidden(j, w);
    if i < s.len() {
        lemma_shown_filter(s, w, i + 1);
        let one = seq![s[i].view()];
        let rest = json_views(s.skip(i + 1));
        assert(json_views(s.skip(i)) =~= one + rest);
        Seq::filter_distributes_over_add(one, rest, p);
        lemma_filter_one(s[i].view(), p);
        assert(json_views(seq![s[i]] + shown_from(s, w, i + 1)) =~= one + json_views(
            shown_from(s, w, i + 1),
        ));
        assert(Seq::<JsonV>::empty() + rest.filter(p) =~= rest.filter(p));
    } else {
        assert(json_views(s.skip(i)) =~= Seq::<JsonV>::empty());
        assert(json_views(shown_from(s, w, i)) =~= Seq::<JsonV>::empty());
    }
}

proof fn lemma_filter_one(j: JsonV, p: spec_fn(JsonV) -> bool)
    ensures
        seq![j].filter(p) == if p(j) {
            seq![j]
        } else {
            Seq::empty()
        },
{
    reveal_with_fuel(Seq::filter, 2);
    assert(seq![j].drop_last() =~= Seq::<JsonV>::empty());
    assert(seq![j].filter(p) =~= if p(j) {
        seq![j]
    } else {
        Seq::empty()
    });
}

proof fn lemma_hits_filter(rs: Seq<JsonV>, expr: Option<ExprV>, n: int)
    requires
        0 <= n <= rs.len(),
    ensures
        hits(rs, expr, n) == rs.take(n).filter(|j: JsonV| is_hit(expr, j)),
    decreases n,
{
    reveal(Seq::filter);
    if n > 0 {
        lemma_hits_filter(rs, expr, n - 1);
        assert(rs.take(n).drop_last() =~= rs.take(n - 1));
        assert(rs.take(n).last() == rs[n - 1]);
    }
}

proof fn lemma_filter_twice(
    s: Seq<JsonV>,
    p: spec_fn(JsonV) -> bool,
    q: spec_fn(JsonV) -> bool,
    both: spec_fn(JsonV) -> bool,
)
    requires
        forall|i: int| 0 <= i < s.len() ==> both(#[trigger] s[i]) == (p(s[i]) && q(s[i])),
    ensures
        s.filter(p).filter(q) == s.filter(both),
    decreases s.len(),
{
    reveal(Seq::filter);
    if s.len() > 0 {
        let front = s.drop_last();
        assert forall|i: int| 0 <= i < front.len() implies both(#[trigger] front[i]) == (p(front[i])
            && q(front[i])) by {
            assert(front[i] == s[i]);
        }
        lemma_filter_twice(front, p, q, both);
        assert(both(s[s.len() - 1]) == (p(s.last()) && q(s.last())));
        if p(s.last()) {
            let kept = front.filter(p).push(s.last());
            assert(kept.drop_last() =~= front.filter(p));
        }
    }
}

/// The condition of a predicate's correlated alerts.
pub open spec fn correlated_and(e: ExprV) -> ExprV {
    ExprV::And(Box::new(equals("type"@, "correlated"@)), Box::new(e))
}

proof fn lemma_type_holds(j: JsonV, e: ExprV)
    requires
        text_member(j, "type"@) is Some,
    ensures
        expr_holds(correlated_and(e), j) == (is_correlated(j) && expr_holds(e, j)),
{
    reveal_with_fuel(expr_holds, 2);
    assert(resolved(j, "type"@) == Some(JsonV::Str(text_member(j, "type"@)->0)));
}

proof fn lemma_correlated_hits(rs: Seq<JsonV>, e: ExprV)
    requires
        forall|i: int| 0 <= i < rs.len() ==> text_member(#[trigger] rs[i], "type"@) is Some,
    ensures
        ({
            let kept = rs.filter(|j: JsonV| is_correlated(j));
            hits(kept, Some(e), kept.len() as int) == hits(
                rs,
                Some(correlated_and(e)),
                rs.len() as int,
            )
        }),
{
    let p = |j: JsonV| is_correlated(j);
    let q = |j: JsonV| is_hit(Some(e), j);
    let both = |j: JsonV| is_hit(Some(correlated_and(e)), j);
    let kept = rs.filter(p);
    lemma_hits_filter(kept, Some(e), kept.len() as int);
    lemma_hits_filter(rs, Some(correlated_and(e)), rs.len() as int);
    assert(kept.take(kept.len() as int) =~= kept);
    assert(rs.take(rs.len() as int) =~= rs);
    assert forall|i: int| 0 <= i < rs.len() implies both(#[trigger] rs[i]) == (p(rs[i]) && q(
        rs[i],
    )) by {
        lemma_type_holds(rs[i], e);
    }
    lemma_filter_twice(rs, p, q, both);
}

/// Keeping the correlated alerts and searching them gives the same hits as
/// searching all alerts with the type in the query, with acknowledged alerts
/// shown or hidden.
pub proof fn correlated_is_a_predicate(rs: Seq<Json>, w: Watermarks, t: Seq<char>, e: ExprV)
    requires
        forall|i: int|
            0 <= i < rs.len() ==> text_member((#[trigger] rs[i]).view(), "type"@) is Some,
        is_predicate(t, Seq::empty(), e),
    ensures
        is_predicate(of_correlated(t), Seq::empty(), correlated_and(e)),
        ({
            let kept = json_views(correlated_from(rs, 0));
            let all = json_views(rs);
            hits(kept, Some(e), kept.len() as int) == hits(
                all,
                Some(correlated_and(e)),
                all.len() as int,
            )
        }),
        ({
            let kept = json_views(shown_from(correlated_from(rs, 0), w, 0));
            let all = json_views(shown_from(rs, w, 0));
            hits(kept, Some(e), kept.len() as int) == hits(
                all,
                Some(correlated_and(e)),
                all.len() as int,
            )
        }),
{
    assert(field_error("type"@, Seq::empty()) is None) by {
        reveal_strlit("type");
    }
    correlated_joins_the_predicate(t, Seq::empty(), e);
    let p = |j: JsonV| is_correlated(j);
    let q = |j: JsonV| !hidden(j, w);
    let both = |j: JsonV| is_correlated(j) && !hidden(j, w);
    let all = json_views(rs);
    assert(rs.skip(0) =~= rs);
    lemma_correlated_filter(rs, 0);
    lemma_correlated_hits(all, e);
    let kept = correlated_from(rs, 0);
    assert(kept.skip(0) =~= kept);
    lemma_shown_filter(kept, w, 0);
    lemma_shown_filter(rs, w, 0);
    lemma_filter_twice(all, p, q, both);
    lemma_filter_twice(all, q, p, both);
    let shown = json_views(shown_from(rs, w, 0));
    assert forall|i: int| 0 <= i < shown.len() implies text_member(#[trigger] shown[i], "type"@) is
        Some by {
        lemma_filter_from(all, q, i);
        let k = choose|k: int| 0 <= k < all.len() && all[k] == all.filter(q)[i];
        assert(rs[k].view() == all[k]);
    }
    lemma_correlated_hits(shown, e);
}

proof fn lemma_filter_from(s: Seq<JsonV>, p: spec_fn(JsonV) -> bool, i: int)
    requires
        0 <= i < s.filter(p).len(),
    ensures
        exists|k: int| 0 <= k < s.len() && s[k] == s.filter(p)[i],
    decreases s.len(),
{
    reveal(Seq::filter);
    if s.len() > 0 {
        let front = s.drop_last();
        if i < front.filter(p).len() {
            lemma_filter_from(front, p, i);
            let k = choose|k: int| 0 <= k < front.len() && front[k] == front.filter(p)[i];
            assert(s[k] == s.filter(p)[i]);
        } else {
            assert(s[s.len() - 1] == s.filter(p)[i]);
        }
    }
}

/// Every line that is an object gives a record, tagged; other lines give none.
pub proof fn objects_give_records(ls: Seq<Seq<char>>, tag: Seq<char>, n: int)
    requires
        1 <= n <= ls.len(),
    ensures
        ls[n - 1].len() > 0 && (parsed_json(ls[n - 1]) matches Some(j) && j is Object)
            ==> tagged_records(ls, tag, n) == tagged_records(ls, tag, n - 1).push(
            crate::json::with_member(parsed_json(ls[n - 1])->0, "type"@, JsonV::Str(tag)),
        ),
        !(ls[n - 1].len() > 0 && (parsed_json(ls[n - 1]) matches Some(j) && j is Object))
            ==> tagged_records(ls, tag, n) == tagged_records(ls, tag, n - 1),
        tagged_records(ls, tag, 0) == Seq::<JsonV>::empty(),
{
}

} // verus!
