//! What following, deleting and trying out do.
use vstd::prelude::*;

use crate::dry_run::{normalizer_args, occurrences, rule_in, rules_in};
use crate::groups::Group;
use crate::retention::{confirms, cutoff_of, plan_of, preview, sizes, written_before, OldFile};
use crate::tail::{at_their_ends, discovered, place_in, tailed};
use crate::text::{
    char_from, char_from_is_first, find_from, find_from_is_first, has, is_space, lower, occurs_at,
    stripped_end, trimmed, trimmed_end, trimmed_start,
};
use crate::window::NANOS;

verus! {

// ── Following ────────────────────────────────────────────────────────────────

/// A complete line is shown without its line end; one that is still being
/// written is not shown.
pub proof fn only_complete_lines_are_tailed(line: Seq<char>)
    requires
        line.len() > 0 ==> line.last() != '\n' && line.last() != '\r',
    ensures
        tailed(line.push('\n')) == Some(line),
        tailed(line.push('\r').push('\n')) == Some(line),
        tailed(line) is None,
        tailed(line.push('\r')) is None,
{
    reveal_with_fuel(stripped_end, 3);
    let a = line.push('\n');
    let b = line.push('\r').push('\n');
    assert(a.drop_last() =~= line);
    assert(b.drop_last() =~= line.push('\r'));
    assert(line.push('\r').drop_last() =~= line);
    assert(a.last() == '\n' && b.last() == '\n' && line.push('\r').last() == '\r');
    assert(stripped_end(a, '\n') == line);
    assert(stripped_end(b, '\n') == line.push('\r'));
}

/// A file that is there when following begins is followed from its end.
pub proof fn files_are_followed_from_their_end(
    paths: Seq<Seq<char>>,
    ends: Seq<u64>,
    n: int,
    i: int,
)
    requires
        0 <= i < n <= paths.len(),
        n <= ends.len(),
        forall|k: int| i < k < n ==> #[trigger] paths[k] != paths[i],
    ensures
        place_in(at_their_ends(paths, ends, n), paths[i]) == ends[i],
        at_their_ends(paths, ends, n).dom().contains(seq![paths[i]]),
    decreases n,
{
    assert(seq![paths[i]][0] == paths[i] && seq![paths[n - 1]][0] == paths[n - 1]);
    if i < n - 1 {
        assert(paths[n - 1] != paths[i]);
        files_are_followed_from_their_end(paths, ends, n - 1, i);
    }
}

/// A file that turns up later is followed from its start.
pub proof fn later_files_are_followed_from_their_start(
    places: Map<Group, u64>,
    paths: Seq<Seq<char>>,
    i: int,
)
    requires
        0 <= i < paths.len(),
        !places.dom().contains(seq![paths[i]]),
    ensures
        discovered(places, paths, paths.len() as int).dom().contains(seq![paths[i]]),
        place_in(discovered(places, paths, paths.len() as int), paths[i]) == 0,
{
    let n = paths.len() as int;
    crate::tail::discovery_moves_nothing(places, paths, n, paths[i]);
    assert(paths.take(n)[i] == paths[i]);
}

// ── Retention ────────────────────────────────────────────────────────────────

/// Each day of retention moves the cutoff back by a day, and without any it is
/// now.
pub proof fn cutoff_is_days_back(now: int, days: u32)
    requires
        days < u32::MAX,
    ensures
        cutoff_of(now, 0) == now,
        cutoff_of(now, (days + 1) as u32) == cutoff_of(now, days) - 24 * 60 * 60 * NANOS,
{
    let d = crate::retention::DAY_NANOS as int;
    assert((days + 1) * d == days * d + d) by (nonlinear_arith);
}

/// A file is old exactly if it was last written before the cutoff; one that does
/// not say when it was is kept.
pub proof fn files_written_since_are_kept(m: i128, cutoff: int)
    ensures
        written_before(Some(m), cutoff) <==> m < cutoff,
        !written_before(None, cutoff),
        !written_before(Some(m), m as int),
{
}

/// Files are deleted exactly if there is something to delete, no preview was
/// asked for, and some data is kept or the wipe was agreed to; a wipe that was
/// not agreed to is asked about on a terminal and refused elsewhere.
pub proof fn deletion_needs_its_reasons(
    days: int,
    dry_run: bool,
    yes: bool,
    terminal: bool,
    files: Seq<OldFile>,
    stale: nat,
    data_dir: Seq<char>,
    ack_path: Seq<char>,
)
    ensures
        ({
            let p = plan_of(days, dry_run, yes, terminal, files, stale, data_dir, ack_path);
            let some = files.len() > 0 || stale > 0;
            &&& p is Delete <==> some && !dry_run && (days != 0 || yes)
            &&& p is Ask <==> some && !dry_run && days == 0 && !yes && terminal
            &&& p is Refuse <==> some && !dry_run && days == 0 && !yes && !terminal
            &&& p is Tell <==> !some || dry_run
        }),
{
}

/// The sizes of two lists of files add up.
pub proof fn sizes_add_up(a: Seq<OldFile>, b: Seq<OldFile>)
    ensures
        sizes(a + b, (a.len() + b.len()) as int) == sizes(a, a.len() as int) + sizes(
            b,
            b.len() as int,
        ),
    decreases b.len(),
{
    if b.len() == 0 {
        assert(a + b =~= a);
    } else {
        let c = b.drop_last();
        sizes_add_up(a, c);
        lemma_sizes_front(a + b, a + c, (a.len() + c.len()) as int);
        lemma_sizes_front(b, c, c.len() as int);
        assert((a + b)[a.len() + b.len() - 1] == b.last());
    }
}

proof fn lemma_sizes_front(a: Seq<OldFile>, b: Seq<OldFile>, n: int)
    requires
        0 <= n <= a.len(),
        n <= b.len(),
        forall|i: int| 0 <= i < n ==> a[i] == b[i],
    ensures
        sizes(a, n) == sizes(b, n),
    decreases n,
{
    if n > 0 {
        lemma_sizes_front(a, b, n - 1);
    }
}

/// Only `yes` confirms, in any case, with or without the line end behind it.
pub proof fn only_yes_confirms(word: Seq<char>)
    requires
        word.len() > 0 ==> !is_space(word[0]) && !is_space(word.last()),
    ensures
        confirms(word) == (lower(word) == "yes"@),
        confirms(word.push('\n')) == confirms(word),
        confirms(word.push('\r').push('\n')) == confirms(word),
{
    let a = word.push('\n');
    let b = word.push('\r').push('\n');
    assert(a.drop_last() =~= word);
    assert(b.drop_last() =~= word.push('\r'));
    assert(word.push('\r').drop_last() =~= word);
    reveal_with_fuel(trimmed_end, 4);
    if word.len() > 0 {
        assert(a[0] == word[0] && b[0] == word[0]);
        assert(trimmed_start(a) == a);
        assert(trimmed_start(b) == b);
        assert(trimmed_start(word) == word);
        assert(trimmed_end(word) == word);
        assert(trimmed(a) == word);
        assert(trimmed(b) == word);
    } else {
        reveal_strlit("yes");
        reveal_with_fuel(trimmed_start, 4);
        assert(a.skip(1) =~= word);
        assert(b.skip(1) =~= seq!['\n']);
        assert(seq!['\n'].skip(1) =~= word);
        assert(trimmed_start(a) == word);
        assert(trimmed_start(seq!['\n']) == word);
        assert(trimmed_start(b) == word);
    }
}

// ── Trying out ───────────────────────────────────────────────────────────────

/// The normalizer reads standard input without writing, for the source and with
/// the configuration that are given, and for no others.
pub proof fn normalizer_gets_what_is_given(source: Option<Seq<char>>, config: Option<Seq<char>>)
    ensures
        ({
            let a = normalizer_args(source, config);
            &&& a.len() == 2 + if source is Some {
                2int
            } else {
                0
            } + if config is Some {
                2int
            } else {
                0
            }
            &&& a[0] == "--stdin"@ && a[1] == "--dry-run"@
            &&& source matches Some(s) ==> a[2] == "--source"@ && a[3] == s
            &&& config matches Some(c) ==> a[a.len() - 2] == "--config"@ && a.last() == c
        }),
{
}

proof fn lemma_find_behind(a: Seq<char>, r: Seq<char>, pat: Seq<char>, i: int)
    requires
        0 <= i,
    ensures
        match find_from(r, pat, i) {
            Some(k) => find_from(a + r, pat, a.len() + i) == Some(a.len() + k),
            None => find_from(a + r, pat, a.len() + i) is None,
        },
    decreases r.len() - i + 1,
{
    let s = a + r;
    let n = a.len() as int;
    if i + pat.len() <= r.len() {
        assert(s.subrange(n + i, n + i + pat.len()) =~= r.subrange(i, i + pat.len()));
        if !occurs_at(r, pat, i) {
            lemma_find_behind(a, r, pat, i + 1);
        }
    }
}

proof fn lemma_occurrences_behind(a: Seq<char>, r: Seq<char>, pat: Seq<char>, i: int)
    requires
        0 <= i,
        pat.len() > 0,
    ensures
        occurrences(a + r, pat, a.len() + i) == occurrences(r, pat, i),
    decreases r.len() - i,
{
    lemma_find_behind(a, r, pat, i);
    find_from_is_first(r, pat, i);
    if let Some(k) = find_from(r, pat, i) {
        lemma_occurrences_behind(a, r, pat, k + pat.len());
    }
}

/// A text that begins with the mark has one occurrence more than the rest of it,
/// and one without the mark has none.
pub proof fn marks_are_counted(pat: Seq<char>, rest: Seq<char>)
    requires
        pat.len() > 0,
    ensures
        occurrences(pat + rest, pat, 0) == occurrences(rest, pat, 0) + 1,
        (occurrences(rest, pat, 0) == 0) == (has(rest, pat) == false),
{
    let s = pat + rest;
    assert(s.subrange(0, pat.len() as int) =~= pat);
    assert(occurs_at(s, pat, 0));
    find_from_is_first(s, pat, 0);
    assert(find_from(s, pat, 0) == Some(0int)) by {
        let i = find_from(s, pat, 0)->0;
        if i > 0 {
            assert(!occurs_at(s, pat, 0));
        }
    }
    lemma_occurrences_behind(pat, rest, pat, 0);
    find_from_is_first(rest, pat, 0);
    if has(rest, pat) {
        let i = choose|i: int| #[trigger] occurs_at(rest, pat, i);
        assert(find_from(rest, pat, 0) is Some);
    }
    if let Some(i) = find_from(rest, pat, 0) {
        assert(occurs_at(rest, pat, i));
    }
}

proof fn lemma_first_mark(a: Seq<char>, pat: Seq<char>, tail: Seq<char>)
    requires
        pat.len() > 0,
        has(a + pat.drop_last(), pat) == false,
    ensures
        find_from(a + pat + tail, pat, 0) == Some(a.len() as int),
{
    let s = a + pat + tail;
    let p = a.len() as int;
    let m = pat.len() as int;
    assert(s.subrange(p, p + m) =~= pat);
    assert(occurs_at(s, pat, p));
    find_from_is_first(s, pat, 0);
    let i = find_from(s, pat, 0)->0;
    if i < p {
        let t = a + pat.drop_last();
        assert(t.subrange(i, i + m) =~= s.subrange(i, i + m));
        assert(occurs_at(t, pat, i));
    }
}

proof fn lemma_to_the_quote(front: Seq<char>, id: Seq<char>, b: Seq<char>)
    requires
        !id.contains('"'),
    ensures
        ({
            let s = front + (id + (seq!['"'] + b));
            let i = front.len() as int;
            &&& char_from(s, '"', i) == Some(i + id.len())
            &&& s.subrange(i, i + id.len()) == id
        }),
{
    let s = front + (id + (seq!['"'] + b));
    let i = front.len() as int;
    let q = i + id.len();
    assert(s[q] == '"');
    char_from_is_first(s, '"', i);
    let j = char_from(s, '"', i)->0;
    assert(j == q) by {
        if j < q {
            assert(s[j] == id[j - i]);
        }
    }
    assert(s.subrange(i, q) =~= id);
}

/// The rule of an alert is what stands in quotes behind the first `rule_id`.
pub proof fn rule_stands_in_its_quotes(a: Seq<char>, id: Seq<char>, b: Seq<char>)
    requires
        has(a + "\"rule_id\":"@, "\"rule_id\":\""@) == false,
        !id.contains('"'),
    ensures
        rule_in(a + "\"rule_id\":\""@ + (id + (seq!['"'] + b))) == Some(id),
{
    let pat = "\"rule_id\":\""@;
    assert(pat.len() == 11 && pat.drop_last() =~= "\"rule_id\":"@) by {
        reveal_strlit("\"rule_id\":\"");
        reveal_strlit("\"rule_id\":");
    }
    lemma_first_mark(a, pat, id + (seq!['"'] + b));
    lemma_to_the_quote(a + pat, id, b);
}

/// A rule was triggered exactly if some line is an alert of it.
pub proof fn triggered_rules_have_alerts(ls: Seq<Seq<char>>, id: Seq<char>, n: int)
    requires
        0 <= n <= ls.len(),
    ensures
        rules_in(ls, n).contains(id) == (exists|i: int|
            0 <= i < n && rule_in(#[trigger] ls[i]) == Some(id)),
    decreases n,
{
    if n > 0 {
        triggered_rules_have_alerts(ls, id, n - 1);
        if rule_in(ls[n - 1]) == Some(id) {
            assert(exists|i: int| 0 <= i < n && rule_in(#[trigger] ls[i]) == Some(id));
        }
    }
}

} // verus!
