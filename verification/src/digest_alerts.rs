//! The digest's alerts section: what fired in the window, and what never had
//! before.
use vstd::prelude::*;

use crate::collections::FieldSet;
use crate::json::{int_member, parsed_json, text_member, Json, JsonV};
use crate::order::{is_stable_order, key_views, row_numbers, stable_order, stable_order_of};
use crate::order::SortKey;
use crate::paths::{file_stem, stem};
use crate::text::{line_seq, lines, opt_view, pieces, same, string_of, to_chars, views};

verus! {

/// Whether a file holds alerts, by its name: every JSONL file does but the log of
/// acknowledgements.
pub fn is_alert_file(name: &str) -> (r: bool)
    ensures
        r == (stem(name@, ".jsonl"@) is Some && name@ != "ack.jsonl"@),
{
    file_stem(name, ".jsonl").is_some() && !same(name, "ack.jsonl")
}

/// Whether a directory can hold alerts of rules, by its name: that of the
/// correlations does not.
pub fn is_alert_dir(name: &str) -> (r: bool)
    ensures
        r == (name@ != "correlated"@),
{
    !same(name, "correlated")
}

/// How often a rule fired, with the title and level of its first alert.
#[derive(Debug)]
pub struct AlertRuleCount {
    pub rule_id: String,
    pub rule_title: String,
    pub level: String,
    pub count: u64,
}

/// The alerts of the window.
#[derive(Debug)]
pub struct AlertsSection {
    pub total: u64,
    pub by_rule: Vec<AlertRuleCount>,
    pub first_time_rules: Vec<String>,
    pub concentration_warning: Option<String>,
}

/// The model of a rule's count.
pub ghost struct RuleV {
    pub id: Seq<char>,
    pub title: Seq<char>,
    pub level: Seq<char>,
    pub count: int,
}

/// The model of a rule's count.
pub open spec fn rule_view(r: AlertRuleCount) -> RuleV {
    RuleV { id: r.rule_id@, title: r.rule_title@, level: r.level@, count: r.count as int }
}

/// The models of rules' counts.
pub open spec fn rule_views(v: Seq<AlertRuleCount>) -> Seq<RuleV> {
    v.map_values(|r: AlertRuleCount| rule_view(r))
}

// ── Counting ─────────────────────────────────────────────────────────────────

/// What was counted so far: the rules in the order in which they first fired,
/// and those that fired before the window.
pub struct AlertTally {
    pub rules: Vec<AlertRuleCount>,
    pub before: FieldSet,
    pub total: u64,
}

/// The model of a tally.
pub ghost struct TallyV {
    pub rules: Seq<RuleV>,
    pub before: Set<Seq<char>>,
    pub total: int,
}

impl View for AlertTally {
    type V = TallyV;

    open spec fn view(&self) -> TallyV {
        TallyV { rules: rule_views(self.rules@), before: self.before@, total: self.total as int }
    }
}

/// The place of a rule, from `i` on.
pub open spec fn rule_at(rules: Seq<RuleV>, id: Seq<char>, i: int) -> Option<int>
    decreases rules.len() - i,
{
    if i >= rules.len() {
        None
    } else if rules[i].id == id {
        Some(i)
    } else {
        rule_at(rules, id, i + 1)
    }
}

/// A text that is empty where there is none.
pub open spec fn text_or_empty(o: Option<Seq<char>>) -> Seq<char> {
    match o {
        Some(s) => s,
        None => Seq::empty(),
    }
}

/// The rules after one more alert.
pub open spec fn fired(rules: Seq<RuleV>, id: Seq<char>, j: JsonV) -> Seq<RuleV> {
    match rule_at(rules, id, 0) {
        Some(k) => rules.update(k, RuleV { count: rules[k].count + 1, ..rules[k] }),
        None => rules.push(
            RuleV {
                id,
                title: text_or_empty(text_member(j, "rule_title"@)),
                level: text_or_empty(text_member(j, "level"@)),
                count: 1,
            },
        ),
    }
}

/// The tally after one more record. A record without a rule does not count; one
/// without a time is as old as time. An alert from before the window makes its
/// rule a known one; one from after it is ignored.
pub open spec fn after_alert(t: TallyV, j: JsonV, start: int, end: int) -> TallyV {
    match text_member(j, "rule_id"@) {
        None => t,
        Some(id) => {
            let at = match int_member(j, "timestamp"@) {
                Some(n) => n,
                None => 0,
            };
            if at < start {
                TallyV { before: t.before.insert(id), ..t }
            } else if at >= end {
                t
            } else {
                TallyV { rules: fired(t.rules, id, j), total: t.total + 1, ..t }
            }
        },
    }
}

/// The tally after the first `n` lines; lines that are not JSON are skipped.
pub open spec fn after_lines(t: TallyV, ls: Seq<Seq<char>>, start: int, end: int, n: int) -> TallyV
    decreases n,
{
    if n <= 0 {
        t
    } else {
        let front = after_lines(t, ls, start, end, n - 1);
        match parsed_json(ls[n - 1]) {
            Some(j) => after_alert(front, j, start, end),
            None => front,
        }
    }
}

/// The counts' sum over the first `n` rules.
pub open spec fn rules_sum(rules: Seq<RuleV>, n: int) -> int
    decreases n,
{
    if n <= 0 {
        0
    } else {
        rules_sum(rules, n - 1) + rules[n - 1].count
    }
}

/// Whether every rule stands once, has fired, and the counts add up.
pub open spec fn tally_ok(t: TallyV) -> bool {
    &&& forall|i: int, j: int|
        0 <= i < j < t.rules.len() ==> (#[trigger] t.rules[i]).id != (#[trigger] t.rules[j]).id
    &&& forall|i: int| 0 <= i < t.rules.len() ==> (#[trigger] t.rules[i]).count >= 1
    &&& t.total == rules_sum(t.rules, t.rules.len() as int)
}

proof fn lemma_sum_pointwise(a: Seq<RuleV>, b: Seq<RuleV>, n: int)
    requires
        n <= a.len(),
        n <= b.len(),
        forall|i: int| 0 <= i < n ==> a[i].count == b[i].count,
    ensures
        rules_sum(a, n) == rules_sum(b, n),
    decreases n,
{
    if n > 0 {
        lemma_sum_pointwise(a, b, n - 1);
    }
}

proof fn lemma_sum_update(a: Seq<RuleV>, k: int, x: RuleV, n: int)
    requires
        0 <= k < a.len(),
        0 <= n <= a.len(),
    ensures
        rules_sum(a.update(k, x), n) == rules_sum(a, n) + if k < n {
            x.count - a[k].count
        } else {
            0
        },
    decreases n,
{
    if n > 0 {
        lemma_sum_update(a, k, x, n - 1);
    }
}

proof fn lemma_count_bounded(a: Seq<RuleV>, k: int, n: int)
    requires
        0 <= n <= a.len(),
        forall|i: int| 0 <= i < a.len() ==> (#[trigger] a[i]).count >= 1,
    ensures
        rules_sum(a, n) >= n,
        0 <= k < n ==> a[k].count <= rules_sum(a, n),
    decreases n,
{
    if n > 0 {
        lemma_count_bounded(a, k, n - 1);
        assert(a[n - 1].count >= 1);
    }
}

proof fn lemma_rule_at(rules: Seq<RuleV>, id: Seq<char>, i: int)
    requires
        0 <= i <= rules.len(),
    ensures
        match rule_at(rules, id, i) {
            Some(k) => i <= k < rules.len() && rules[k].id == id,
            None => forall|k: int| i <= k < rules.len() ==> (#[trigger] rules[k]).id != id,
        },
    decreases rules.len() - i,
{
    if i < rules.len() {
        lemma_rule_at(rules, id, i + 1);
    }
}

/// Every alert keeps the tally in order.
pub proof fn alerts_add_up(t: TallyV, j: JsonV, start: int, end: int)
    requires
        tally_ok(t),
    ensures
        tally_ok(after_alert(t, j, start, end)),
{
    if let Some(id) = text_member(j, "rule_id"@) {
        lemma_rule_at(t.rules, id, 0);
        let after = fired(t.rules, id, j);
        match rule_at(t.rules, id, 0) {
            Some(k) => {
                let x = RuleV { count: t.rules[k].count + 1, ..t.rules[k] };
                lemma_sum_update(t.rules, k, x, t.rules.len() as int);
            },
            None => {
                lemma_sum_pointwise(t.rules, after, t.rules.len() as int);
            },
        }
    }
}

impl AlertTally {
    /// The tally is in order.
    pub open spec fn wf(&self) -> bool {
        self.before.wf() && tally_ok(self@)
    }

    /// Nothing was counted yet.
    pub fn new() -> (r: AlertTally)
        ensures
            r.wf(),
            r@ == (TallyV { rules: seq![], before: Set::empty(), total: 0 }),
    {
        let r = AlertTally { rules: Vec::new(), before: FieldSet::new(), total: 0 };
        assert(rule_views(r.rules@) =~= Seq::<RuleV>::empty());
        r
    }

    fn find_rule(&self, id: &str) -> (r: Option<usize>)
        ensures
            match r {
                Some(k) => rule_at(self@.rules, id@, 0) == Some(k as int) && k < self.rules@.len(),
                None => rule_at(self@.rules, id@, 0) is None,
            },
    {
        let ghost rv = self@.rules;
        let n: usize = self.rules.len();
        let mut i: usize = 0;
        while i < n
            invariant
                n == self.rules@.len(),
                rv == rule_views(self.rules@),
                i <= n,
                rule_at(rv, id@, 0) == rule_at(rv, id@, i as int),
            decreases n - i,
        {
            assert(rv[i as int].id == self.rules@[i as int].rule_id@);
            if same(self.rules[i].rule_id.as_str(), id) {
                return Some(i);
            }
            i = i + 1;
        }
        None
    }

    /// Counts one record.
    pub fn count(&mut self, j: &Json, start: i64, end: i64)
        requires
            old(self).wf(),
            old(self).total < u64::MAX,
        ensures
            final(self).wf(),
            final(self)@ == after_alert(old(self)@, j.view(), start as int, end as int),
    {
        proof {
            alerts_add_up(self@, j.view(), start as int, end as int);
        }
        match j.get_text("rule_id") {
            None => {},
            Some(id) => {
                let at: i64 = match j.get_int("timestamp") {
                    Some(n) => n,
                    None => 0,
                };
                if at < start {
                    self.before.insert(id.as_str());
                } else if at < end {
                    let ghost rv = self@.rules;
                    match self.find_rule(id.as_str()) {
                        Some(k) => {
                            proof {
                                lemma_count_bounded(rv, k as int, rv.len() as int);
                                assert(rv[k as int].count == self.rules@[k as int].count);
                            }
                            let c: u64 = self.rules[k].count + 1;
                            self.rules[k].count = c;
                            assert(rule_views(self.rules@) =~= fired(rv, id@, j.view()));
                        },
                        None => {
                            let rule_title = match j.get_text("rule_title") {
                                Some(s) => s.clone(),
                                None => String::new(),
                            };
                            let level = match j.get_text("level") {
                                Some(s) => s.clone(),
                                None => String::new(),
                            };
                            assert(rule_title@ =~= text_or_empty(
                                text_member(j.view(), "rule_title"@),
                            ));
                            assert(level@ =~= text_or_empty(text_member(j.view(), "level"@)));
                            self.rules.push(
                                AlertRuleCount { rule_id: id.clone(), rule_title, level, count: 1 },
                            );
                            assert(rule_views(self.rules@) =~= fired(rv, id@, j.view()));
                        },
                    }
                    self.total = self.total + 1;
                }
            },
        }
    }

    /// Counts the alerts of a file. The window's bounds are given in seconds.
    pub fn count_file(&mut self, content: &str, start: i64, end: i64)
        requires
            old(self).wf(),
            old(self).total + line_seq(content@).len() <= u64::MAX,
        ensures
            final(self).wf(),
            final(self)@ == after_lines(
                old(self)@,
                line_seq(content@),
                start as int,
                end as int,
                line_seq(content@).len() as int,
            ),
    {
        let ls = lines(&to_chars(content));
        let ghost lv = line_seq(content@);
        let n: usize = ls.len();
        let mut i: usize = 0;
        assert(pieces(ls@).len() == n);
        while i < n
            invariant
                n == ls@.len(),
                pieces(ls@) == lv,
                lv.len() == n,
                i <= n,
                self.wf(),
                old(self).total + n <= u64::MAX,
                self.total <= old(self).total + i,
                self@ == after_lines(old(self)@, lv, start as int, end as int, i as int),
            decreases n - i,
        {
            assert(lv[i as int] == ls@[i as int]@);
            let line = string_of(&ls[i]);
            match Json::parse(line.as_str()) {
                Some(j) => {
                    self.count(&j, start, end);
                },
                None => {},
            }
            i = i + 1;
        }
    }
}

// ── The section ──────────────────────────────────────────────────────────────

/// The keys by which rules are put in order: the most alerts first, then by name.
pub open spec fn rule_keys(rules: Seq<RuleV>) -> Seq<(int, Seq<char>)> {
    rules.map_values(|r: RuleV| (-r.count, r.id))
}

/// The rules, the most alerts first, then by name.
pub open spec fn rules_in_order(rules: Seq<RuleV>) -> Seq<RuleV> {
    stable_order_of(rule_keys(rules)).map_values(|i: int| rules[i])
}

/// The names, among the first `n` rules, that are not in `before`.
pub open spec fn unseen(rules: Seq<RuleV>, before: Set<Seq<char>>, n: int) -> Seq<Seq<char>>
    decreases n,
{
    if n <= 0 {
        Seq::empty()
    } else if before.contains(rules[n - 1].id) {
        unseen(rules, before, n - 1)
    } else {
        unseen(rules, before, n - 1).push(rules[n - 1].id)
    }
}

/// The warning that one rule makes up most alerts.
pub open spec fn concentration_text(id: Seq<char>, pct: Seq<char>) -> Seq<char> {
    "rule '"@ + id + "' accounts for "@ + pct + "% of alerts this window"@
}

/// The rules in order, as rows.
fn rows_in_order(rules: &Vec<AlertRuleCount>) -> (r: Vec<AlertRuleCount>)
    ensures
        rule_views(r@) == rules_in_order(rule_views(rules@)),
        r@.len() == rules@.len(),
{
    let ghost rv = rule_views(rules@);
    let mut keys: Vec<SortKey> = Vec::new();
    let n: usize = rules.len();
    let mut i: usize = 0;
    while i < n
        invariant
            n == rules@.len(),
            rv == rule_views(rules@),
            i <= n,
            keys@.len() == i,
            forall|k: int|
                0 <= k < i ==> (#[trigger] keys@[k]).num == -rv[k].count && keys@[k].text@
                    == rv[k].id,
        decreases n - i,
    {
        assert(rv[i as int] == rule_view(rules@[i as int]));
        keys.push(SortKey { num: -(rules[i].count as i128), text: rules[i].rule_id.clone() });
        i = i + 1;
    }
    let order = stable_order(&keys);
    let ghost kv = key_views(keys@);
    let ghost rn = row_numbers(order@);
    assert(kv =~= rule_keys(rv));
    assert(rn.len() == order@.len());
    let mut r: Vec<AlertRuleCount> = Vec::new();
    let mut i: usize = 0;
    while i < order.len()
        invariant
            rv == rule_views(rules@),
            rn == row_numbers(order@),
            is_stable_order(kv, rn),
            kv.len() == rules@.len(),
            i <= order@.len(),
            r@.len() == i,
            forall|k: int| 0 <= k < i ==> rule_view(#[trigger] r@[k]) == rv[rn[k]],
        decreases order@.len() - i,
    {
        assert(rn[i as int] == order@[i as int]);
        let at: usize = order[i];
        assert(0 <= rn[i as int] < kv.len());
        assert(rv[at as int] == rule_view(rules@[at as int]));
        r.push(
            AlertRuleCount {
                rule_id: rules[at].rule_id.clone(),
                rule_title: rules[at].rule_title.clone(),
                level: rules[at].level.clone(),
                count: rules[at].count,
            },
        );
        i = i + 1;
    }
    assert(rule_views(r@) =~= rules_in_order(rv));
    r
}

impl AlertTally {
    /// The most frequent rule's alerts and all alerts, if there are any.
    pub fn top_share(&self) -> (r: Option<(u64, u64)>)
        ensures
            match r {
                Some(p) => self.rules@.len() > 0 && p.0 == rules_in_order(self@.rules)[0].count
                    && p.1 == self@.total,
                None => self.rules@.len() == 0,
            },
    {
        if self.rules.len() == 0 {
            return None;
        }
        let rows = rows_in_order(&self.rules);
        assert(rule_views(rows@)[0] == rule_view(rows@[0]));
        Some((rows[0].count, self.total))
    }

    /// The alerts section. `concentration` is the most frequent rule's share in
    /// per cent, as it is shown, if it exceeds the threshold.
    pub fn section(&self, concentration: Option<String>) -> (r: AlertsSection)
        requires
            self.wf(),
        ensures
            ({
                let rows = rules_in_order(self@.rules);
                &&& r.total == self@.total
                &&& rule_views(r.by_rule@) == rows
                &&& views(r.first_time_rules@) == unseen(rows, self@.before, rows.len() as int)
                &&& opt_view(r.concentration_warning) == match opt_view(concentration) {
                    Some(pct) => if rows.len() > 0 {
                        Some(concentration_text(rows[0].id, pct))
                    } else {
                        None
                    },
                    None => None,
                }
            }),
    {
        let by_rule = rows_in_order(&self.rules);
        let ghost rows = rules_in_order(self@.rules);
        assert(rows == rule_views(by_rule@));
        let mut first_time_rules: Vec<String> = Vec::new();
        let n: usize = by_rule.len();
        let mut i: usize = 0;
        assert(views(first_time_rules@) =~= Seq::<Seq<char>>::empty());
        while i < n
            invariant
                n == by_rule@.len(),
                rows == rule_views(by_rule@),
                self.before.wf(),
                i <= n,
                views(first_time_rules@) == unseen(rows, self.before@, i as int),
            decreases n - i,
        {
            assert(rows[i as int].id == by_rule@[i as int].rule_id@);
            if !self.before.contains(by_rule[i].rule_id.as_str()) {
                let ghost prior = views(first_time_rules@);
                first_time_rules.push(by_rule[i].rule_id.clone());
                assert(views(first_time_rules@) =~= prior.push(rows[i as int].id));
            }
            i = i + 1;
        }
        let concentration_warning: Option<String> = match concentration {
            Some(pct) => if n > 0 {
                assert(rows[0].id == by_rule@[0].rule_id@);
                let mut w = "rule '".to_owned();
                w.append(by_rule[0].rule_id.as_str());
                w.append("' accounts for ");
                w.append(pct.as_str());
                w.append("% of alerts this window");
                Some(w)
            } else {
                None
            },
            None => None,
        };
        AlertsSection { total: self.total, by_rule, first_time_rules, concentration_warning }
    }
}

/// A rule counts as firing for the first time exactly if it fired in the window
/// and never before.
pub proof fn first_time_means_never_before(
    rules: Seq<RuleV>,
    before: Set<Seq<char>>,
    id: Seq<char>,
    n: int,
)
    requires
        0 <= n <= rules.len(),
    ensures
        unseen(rules, before, n).contains(id) <==> !before.contains(id) && exists|i: int|
            0 <= i < n && (#[trigger] rules[i]).id == id,
    decreases n,
{
    if n > 0 {
        first_time_means_never_before(rules, before, id, n - 1);
        let t = unseen(rules, before, n - 1);
        let s = unseen(rules, before, n);
        if !before.contains(rules[n - 1].id) {
            if s.contains(id) {
                let k = choose|k: int| 0 <= k < s.len() && s[k] == id;
                if k < t.len() {
                    assert(t[k] == id);
                }
            }
            if t.contains(id) {
                let k = choose|k: int| 0 <= k < t.len() && t[k] == id;
                assert(s[k] == id);
            }
            assert(s[t.len() as int] == rules[n - 1].id);
        }
    }
}

} // verus!
