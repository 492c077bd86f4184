//! A trial of normalization and rules on a file: what the two programs are given,
//! and what their output tells.
use vstd::prelude::*;

use crate::collections::FieldSet;
use crate::number::{dec, dec_u64};
use crate::text::{char_from, char_from_is_first, find, find_char, find_from, find_from_is_first};
use crate::text::{line_seq, lines, list_of_two, opt_view, pieces, string_from, to_chars, views};

verus! {

/// The arguments of the normalizer.
pub open spec fn normalizer_args(source: Option<Seq<char>>, config: Option<Seq<char>>) -> Seq<
    Seq<char>,
> {
    let a = seq!["--stdin"@, "--dry-run"@];
    let b = match source {
        Some(s) => a.push("--source"@).push(s),
        None => a,
    };
    match config {
        Some(c) => b.push("--config"@).push(c),
        None => b,
    }
}

/// The arguments of the normalizer: it reads from standard input and writes
/// nothing.
pub fn args_for_normalizer(source: &Option<String>, config: &Option<String>) -> (r: Vec<String>)
    ensures
        views(r@) == normalizer_args(opt_view(*source), opt_view(*config)),
{
    let mut r = list_of_two("--stdin", "--dry-run");
    if let Some(s) = source {
        let ghost before = views(r@);
        r.push("--source".to_owned());
        r.push(s.clone());
        assert(views(r@) =~= before.push("--source"@).push(s@));
    }
    if let Some(c) = config {
        let ghost before = views(r@);
        r.push("--config".to_owned());
        r.push(c.clone());
        assert(views(r@) =~= before.push("--config"@).push(c@));
    }
    r
}

/// How often a text occurs from position `from` on, without overlaps.
pub open spec fn occurrences(s: Seq<char>, pat: Seq<char>, from: int) -> nat
    decreases s.len() - from,
{
    match find_from(s, pat, from) {
        Some(i) => if pat.len() > 0 && from <= i && i + pat.len() <= s.len() {
            occurrences(s, pat, i + pat.len()) + 1
        } else {
            0
        },
        None => 0,
    }
}

/// The number of lines, and how many of them were normalized.
pub fn normalized_counts(output: &str) -> (r: (usize, usize))
    ensures
        r.0 == line_seq(output@).len(),
        r.1 == occurrences(output@, "\"_normalized\":true"@, 0),
{
    let v = to_chars(output);
    let ls = lines(&v);
    assert(pieces(ls@).len() == ls@.len());
    let pat = to_chars("\"_normalized\":true");
    let k: usize = pat.len();
    proof {
        reveal_strlit("\"_normalized\":true");
    }
    assert(k > 0);
    let n: usize = v.len();
    let mut count: usize = 0;
    let mut from: usize = 0;
    let mut more = true;
    while more
        invariant
            n == v@.len(),
            v@ == output@,
            pat@ == "\"_normalized\":true"@,
            k == pat@.len(),
            k > 0,
            from <= n,
            count <= from,
            occurrences(v@, pat@, 0) == count + if more {
                occurrences(v@, pat@, from as int)
            } else {
                0
            },
        decreases n - from + if more {
            1int
        } else {
            0
        },
    {
        proof {
            find_from_is_first(v@, pat@, from as int);
        }
        match find(&v, &pat, from) {
            Some(i) => {
                count = count + 1;
                from = i + k;
            },
            None => {
                more = false;
            },
        }
    }
    (ls.len(), count)
}

/// What the normalization made of a file.
pub open spec fn normalization_lines(total: nat, matched: nat, rate: Seq<char>) -> Seq<char> {
    "=== Normalization ===\n  Lines processed: "@ + dec(total) + "\n  Matched:         "@ + dec(
        matched,
    ) + "  ("@ + rate + "%)\n  Unmatched:       "@ + dec((total - matched) as nat) + "\n"@
}

/// What the normalization made of a file. `rate` is the share of normalized lines
/// in per cent, as it is shown.
pub fn normalization_text(total: usize, matched: usize, rate: &str) -> (r: String)
    requires
        matched <= total,
    ensures
        r@ == normalization_lines(total as nat, matched as nat, rate@),
{
    let mut r = "=== Normalization ===\n  Lines processed: ".to_owned();
    r.append(dec_u64(total as u64).as_str());
    r.append("\n  Matched:         ");
    r.append(dec_u64(matched as u64).as_str());
    r.append("  (");
    r.append(rate);
    r.append("%)\n  Unmatched:       ");
    r.append(dec_u64((total - matched) as u64).as_str());
    r.append("\n");
    r
}

/// The rule that a line of alerts names.
pub open spec fn rule_in(line: Seq<char>) -> Option<Seq<char>> {
    match find_from(line, "\"rule_id\":\""@, 0) {
        None => None,
        Some(i) => match char_from(line, '"', i + 11) {
            Some(j) => Some(line.subrange(i + 11, j)),
            None => None,
        },
    }
}

/// The rules that the first `n` lines name.
pub open spec fn rules_in(ls: Seq<Seq<char>>, n: int) -> Set<Seq<char>>
    decreases n,
{
    if n <= 0 {
        Set::empty()
    } else {
        match rule_in(ls[n - 1]) {
            Some(id) => rules_in(ls, n - 1).insert(id),
            None => rules_in(ls, n - 1),
        }
    }
}

fn find_rule(line: &Vec<char>) -> (r: Option<String>)
    ensures
        opt_view(r) == rule_in(line@),
{
    let pat = to_chars("\"rule_id\":\"");
    proof {
        reveal_strlit("\"rule_id\":\"");
        find_from_is_first(line@, pat@, 0);
    }
    match find(line, &pat, 0) {
        None => None,
        Some(i) => {
            assert(pat@.len() == 11);
            let n: usize = line.len();
            assert(i + 11 <= n);
            proof {
                char_from_is_first(line@, '"', i + 11);
            }
            match find_char(line, '"', i + 11) {
                Some(j) => Some(string_from(line, i + 11, j)),
                None => None,
            }
        },
    }
}

/// The number of alerts in an output, and the rules that fired.
pub fn triggered_rules(output: &str) -> (r: (usize, FieldSet))
    ensures
        r.0 == line_seq(output@).len(),
        r.1.wf(),
        r.1@ == rules_in(line_seq(output@), line_seq(output@).len() as int),
{
    let ls = lines(&to_chars(output));
    let ghost lv = line_seq(output@);
    let n: usize = ls.len();
    assert(pieces(ls@).len() == n);
    let mut ids = FieldSet::new();
    let mut i: usize = 0;
    while i < n
        invariant
            n == ls@.len(),
            pieces(ls@) == lv,
            i <= n,
            ids.wf(),
            ids@ == rules_in(lv, i as int),
        decreases n - i,
    {
        assert(lv[i as int] == ls@[i as int]@);
        if let Some(id) = find_rule(&ls[i]) {
            ids.insert(id.as_str());
        }
        i = i + 1;
    }
    (n, ids)
}

/// The lines of the first `n` rules.
pub open spec fn id_lines(out: Seq<char>, ids: Seq<Seq<char>>, n: int) -> Seq<char>
    decreases n,
{
    if n <= 0 {
        out
    } else {
        id_lines(out, ids, n - 1) + "    "@ + ids[n - 1] + "\n"@
    }
}

/// What the rules made of a file, the rules by name.
pub fn rules_text(alerts: usize, ids: &FieldSet) -> (r: String)
    requires
        ids.wf(),
    ensures
        r@ == id_lines(
            "\n=== Rule Evaluation ===\n  Alerts generated: "@ + dec(alerts as nat)
                + "\n  Rules triggered:  "@ + dec(views(ids.items@).len()) + "\n"@,
            views(ids.items@),
            views(ids.items@).len() as int,
        ),
{
    let mut r = "\n=== Rule Evaluation ===\n  Alerts generated: ".to_owned();
    r.append(dec_u64(alerts as u64).as_str());
    r.append("\n  Rules triggered:  ");
    r.append(dec_u64(ids.items.len() as u64).as_str());
    r.append("\n");
    let ghost head = r@;
    let mut i: usize = 0;
    while i < ids.items.len()
        invariant
            i <= ids.items@.len(),
            r@ == id_lines(head, views(ids.items@), i as int),
        decreases ids.items@.len() - i,
    {
        r.append("    ");
        r.append(ids.items[i].as_str());
        r.append("\n");
        i = i + 1;
    }
    r
}

} // verus!
