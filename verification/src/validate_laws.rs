//! What counts as a finding in a rule or a source list, and what does not.
use vstd::prelude::*;

use crate::collections::{ascending, ascending_is_unique, ascending_list};
use crate::number::dec;
use crate::paths::stem;
use crate::sources::core_names;
use crate::text::{
    char_from, char_from_is_first, fill, has, is_prefix, is_space, joined, line_seq, occurs_at,
    trimmed, trimmed_end, trimmed_start, without_cr,
};
use crate::text_laws::{lists_hold_their_texts, longer_texts_hold_more, texts_hold_their_parts};
use crate::validate::{
    crosscheck_text, deprecates, direction_text, gives, has_condition, has_key, is_condition,
    issues_of, opened, rules_among, scanned, sources_in,
};

verus! {

// ── Indentation ──────────────────────────────────────────────────────────────

proof fn lemma_space_before(line: Seq<char>, c: char)
    requires
        is_space(c),
    ensures
        trimmed_start(seq![c] + line) == trimmed_start(line),
{
    let s = seq![c] + line;
    assert(s.skip(1) =~= line);
    assert(s[0] == c);
}

proof fn lemma_spaces_before(line: Seq<char>, k: int)
    requires
        k >= 0,
    ensures
        trimmed_start(fill(' ', k) + line) == trimmed_start(line),
    decreases k,
{
    if k > 0 {
        lemma_spaces_before(line, k - 1);
        lemma_space_before(fill(' ', k - 1) + line, ' ');
        assert(fill(' ', k) + line =~= seq![' '] + (fill(' ', k - 1) + line));
    } else {
        assert(fill(' ', k) + line =~= line);
    }
}

/// A line of spaces and then `condition:` is an indented condition exactly if
/// there are two spaces or more, however many; one behind a tab is as well.
pub proof fn indented_conditions_count(k: int, rest: Seq<char>)
    requires
        k >= 0,
    ensures
        is_condition(fill(' ', k) + ("condition:"@ + rest)) == (k >= 2),
        is_condition(seq!['\t'] + (fill(' ', k) + ("condition:"@ + rest))),
{
    reveal_strlit("condition:");
    reveal_strlit("  ");
    let t = "condition:"@ + rest;
    let s = fill(' ', k) + t;
    lemma_spaces_before(t, k);
    assert(t[0] == 'c');
    assert(trimmed_start(t) == t);
    assert(t.subrange(0, 10) =~= "condition:"@);
    assert(is_prefix("condition:"@, t));
    if k >= 2 {
        assert(s.subrange(0, 2) =~= "  "@);
    } else {
        assert(s[k] == 'c');
        if is_prefix("  "@, s) {
            assert(s.subrange(0, 2)[k] == "  "@[k]);
        }
    }
    lemma_space_before(s, '\t');
    assert((seq!['\t'] + s)[0] == '\t');
}

/// A line that says something else behind its indentation is no condition.
pub proof fn only_conditions_count(line: Seq<char>)
    ensures
        is_condition(line) ==> is_prefix("condition:"@, trimmed_start(line)),
        is_condition(line) ==> line.len() > 0 && (line[0] == ' ' || line[0] == '\t'),
{
    reveal_strlit("  ");
    if is_prefix("  "@, line) {
        assert(line.subrange(0, 2)[0] == ' ');
    }
}

/// Whether a text begins with two spaces.
pub open spec fn is_indented(s: Seq<char>) -> bool {
    s.len() >= 2 && s[0] == ' ' && s[1] == ' '
}

proof fn lemma_deeper_line(l: Seq<char>)
    requires
        is_indented(l),
    ensures
        is_condition(seq![' '] + l) == is_condition(l),
        forall|key: Seq<char>| #[trigger] gives(seq![' '] + l, key) == gives(l, key),
{
    reveal_strlit("  ");
    lemma_space_before(l, ' ');
    let d = seq![' '] + l;
    assert(d.subrange(0, 2) =~= "  "@);
    assert(l.subrange(0, 2) =~= "  "@);
}

/// The lines before a place where a line begins, and those from it on, are the
/// lines of the whole.
pub proof fn lines_split_where_one_begins(a: Seq<char>, b: Seq<char>)
    requires
        a.len() == 0 || a.last() == '\n',
    ensures
        line_seq(a + b) == line_seq(a) + line_seq(b),
    decreases a.len(),
{
    if a.len() == 0 {
        assert(a + b =~= b);
        assert(line_seq(a) + line_seq(b) =~= line_seq(b));
    } else {
        let s = a + b;
        char_from_is_first(a, '\n', 0);
        char_from_is_first(s, '\n', 0);
        assert(a[a.len() - 1] == '\n');
        let i = char_from(a, '\n', 0)->0;
        assert(s[i] == '\n');
        let j = char_from(s, '\n', 0)->0;
        assert(i == j) by {
            if j < i {
                assert(a[j] == s[j]);
            }
        }
        let rest = a.skip(i + 1);
        if rest.len() > 0 {
            assert(rest.last() == a.last());
        }
        lines_split_where_one_begins(rest, b);
        assert(s.skip(i + 1) =~= rest + b);
        assert(s.take(i) =~= a.take(i));
        assert(line_seq(s) =~= line_seq(a) + line_seq(b));
    }
}

proof fn lemma_first_line_deeper(b: Seq<char>)
    requires
        is_indented(b),
    ensures
        line_seq(b).len() > 0,
        is_indented(line_seq(b)[0]),
        line_seq(seq![' '] + b) == line_seq(b).update(0, seq![' '] + line_seq(b)[0]),
{
    let d = seq![' '] + b;
    char_from_is_first(b, '\n', 0);
    char_from_is_first(d, '\n', 0);
    match char_from(b, '\n', 0) {
        Some(i) => {
            assert(d[i + 1] == '\n');
            let j = char_from(d, '\n', 0)->0;
            assert(j == i + 1) by {
                if j < i + 1 {
                    if j > 0 {
                        assert(d[j] == b[j - 1]);
                    }
                }
            }
            assert(i >= 2) by {
                assert(b[i] == '\n');
            }
            assert(d.take(j) =~= seq![' '] + b.take(i));
            assert(d.skip(j + 1) =~= b.skip(i + 1));
            let l = b.take(i);
            assert(without_cr(seq![' '] + l) =~= seq![' '] + without_cr(l)) by {
                assert((seq![' '] + l).last() == l.last());
            }
            assert(is_indented(without_cr(l))) by {
                if l.last() == '\r' {
                    assert(i >= 3) by {
                        if i == 2 {
                            assert(l.last() == b[1]);
                        }
                    }
                }
            }
            assert(line_seq(b)[0] == without_cr(l));
            assert(line_seq(d) =~= line_seq(b).update(0, seq![' '] + line_seq(b)[0]));
        },
        None => {
            assert(char_from(d, '\n', 0) is None) by {
                if let Some(j) = char_from(d, '\n', 0) {
                    if j > 0 {
                        assert(d[j] == b[j - 1]);
                    }
                }
            }
            assert(line_seq(d) =~= seq![d]);
            assert(line_seq(b) =~= seq![b]);
            assert(line_seq(d) =~= line_seq(b).update(0, seq![' '] + line_seq(b)[0]));
        },
    }
}

proof fn lemma_same_findings(a: Seq<Seq<char>>, b: Seq<Seq<char>>)
    requires
        a.len() == b.len(),
        forall|i: int| 0 <= i < a.len() ==> is_condition(#[trigger] a[i]) == is_condition(b[i]),
        forall|i: int, key: Seq<char>|
            0 <= i < a.len() ==> #[trigger] gives(a[i], key) == gives(b[i], key),
    ensures
        has_condition(a, a.len() as int) == has_condition(b, b.len() as int),
        forall|key: Seq<char>|
            #[trigger] has_key(a, key, a.len() as int) == has_key(b, key, b.len() as int),
{
    let n = a.len() as int;
    if has_condition(a, n) {
        let i = choose|i: int| 0 <= i < n && is_condition(#[trigger] a[i]);
        assert(is_condition(b[i]));
    }
    if has_condition(b, n) {
        let i = choose|i: int| 0 <= i < n && is_condition(#[trigger] b[i]);
        assert(is_condition(a[i]));
    }
    assert forall|key: Seq<char>| #[trigger] has_key(a, key, n) == has_key(b, key, n) by {
        if has_key(a, key, n) {
            let i = choose|i: int| 0 <= i < n && gives(#[trigger] a[i], key);
            assert(gives(b[i], key));
        }
        if has_key(b, key, n) {
            let i = choose|i: int| 0 <= i < n && gives(#[trigger] b[i], key);
            assert(gives(a[i], key));
        }
    }
}

proof fn lemma_word_apart(pre: Seq<char>, post: Seq<char>, word: Seq<char>)
    requires
        post.len() > 0,
        post[0] == ' ',
        word.len() > 0,
        !word.contains(' '),
    ensures
        has(pre + seq![' '] + post, word) == has(pre + post, word),
{
    let a = pre + post;
    let b = pre + seq![' '] + post;
    let p = pre.len() as int;
    let m = word.len() as int;
    if has(a, word) {
        let i = choose|i: int| #[trigger] occurs_at(a, word, i);
        if i <= p < i + m {
            assert(a.subrange(i, i + m)[p - i] == ' ');
            assert(word[p - i] == ' ');
        }
        if i + m <= p {
            assert(b.subrange(i, i + m) =~= a.subrange(i, i + m));
            assert(occurs_at(b, word, i));
        } else {
            assert(b.subrange(i + 1, i + 1 + m) =~= a.subrange(i, i + m));
            assert(occurs_at(b, word, i + 1));
        }
    }
    if has(b, word) {
        let i = choose|i: int| #[trigger] occurs_at(b, word, i);
        if i <= p < i + m {
            assert(b.subrange(i, i + m)[p - i] == ' ');
            assert(word[p - i] == ' ');
        }
        if i == p + 1 {
            assert(b.subrange(i, i + m)[0] == ' ');
            assert(word[0] == ' ');
        }
        if i + m <= p {
            assert(b.subrange(i, i + m) =~= a.subrange(i, i + m));
            assert(occurs_at(a, word, i));
        } else {
            assert(a.subrange(i - 1, i - 1 + m) =~= b.subrange(i, i + m));
            assert(occurs_at(a, word, i - 1));
        }
    }
}

proof fn lemma_one_deeper(pre: Seq<char>, post: Seq<char>)
    requires
        pre.len() == 0 || pre.last() == '\n',
        is_indented(post),
    ensures
        issues_of(pre + (seq![' '] + post)) == issues_of(pre + post),
{
    let a = pre + post;
    let b = pre + (seq![' '] + post);
    assert(b =~= pre + seq![' '] + post);
    assert(!"detection:"@.contains(' ') && "detection:"@.len() > 0) by {
        reveal_strlit("detection:");
    }
    lemma_word_apart(pre, post, "detection:"@);
    lines_split_where_one_begins(pre, post);
    lines_split_where_one_begins(pre, seq![' '] + post);
    lemma_first_line_deeper(post);
    let p = line_seq(pre).len() as int;
    let l = line_seq(post)[0];
    lemma_deeper_line(l);
    let la = line_seq(a);
    let lb = line_seq(b);
    assert(la[p] == l && lb[p] == seq![' '] + l);
    assert forall|i: int| 0 <= i < la.len() && i != p implies #[trigger] la[i] == lb[i] by {}
    assert forall|i: int| 0 <= i < la.len() implies is_condition(#[trigger] la[i]) == is_condition(
        lb[i],
    ) by {
        if i != p {
            assert(la[i] == lb[i]);
        }
    }
    assert forall|i: int, key: Seq<char>| 0 <= i < la.len() implies #[trigger] gives(la[i], key)
        == gives(lb[i], key) by {
        if i != p {
            assert(la[i] == lb[i]);
        }
    }
    lemma_same_findings(la, lb);
    let n = la.len() as int;
    assert(has_key(la, "id:"@, n) == has_key(lb, "id:"@, n));
    assert(has_key(la, "title:"@, n) == has_key(lb, "title:"@, n));
}

/// Putting more spaces before an indented line never changes the issues of a
/// rule.
pub proof fn deeper_indentation_changes_nothing(pre: Seq<char>, post: Seq<char>, k: int)
    requires
        pre.len() == 0 || pre.last() == '\n',
        is_indented(post),
        k >= 0,
    ensures
        issues_of(pre + (fill(' ', k) + post)) == issues_of(pre + post),
    decreases k,
{
    if k > 0 {
        deeper_indentation_changes_nothing(pre, post, k - 1);
        let d = fill(' ', k - 1) + post;
        assert(is_indented(d)) by {
            assert(d[0] == ' ');
            assert(d[1] == ' ');
        }
        lemma_one_deeper(pre, d);
        assert(fill(' ', k) + post =~= seq![' '] + d);
    } else {
        assert(fill(' ', k) + post =~= post);
    }
}

// ── Issues ───────────────────────────────────────────────────────────────────

/// A rule has an issue exactly for each part that it lacks: a line with an id, a
/// line with a title, the detection, and an indented condition where there is a
/// detection. A complete rule has none.
pub proof fn issues_name_what_is_missing(content: Seq<char>)
    ensures
        ({
            let ls = line_seq(content);
            let id = exists|i: int| 0 <= i < ls.len() && gives(#[trigger] ls[i], "id:"@);
            let title = exists|i: int| 0 <= i < ls.len() && gives(#[trigger] ls[i], "title:"@);
            let cond = exists|i: int| 0 <= i < ls.len() && is_condition(#[trigger] ls[i]);
            let det = has(content, "detection:"@);
            let issues = issues_of(content);
            &&& issues.contains("missing 'id' field"@) == !id
            &&& issues.contains("missing 'title' field"@) == !title
            &&& issues.contains("missing 'detection' block"@) == !det
            &&& issues.contains("missing 'condition' inside detection block"@) == (det && !cond)
            &&& (issues.len() == 0) == (id && title && det && cond)
            &&& issues.no_duplicates()
        }),
{
    reveal_strlit("missing 'id' field");
    reveal_strlit("missing 'title' field");
    reveal_strlit("missing 'detection' block");
    reveal_strlit("missing 'condition' inside detection block");
    let i1 = "missing 'id' field"@;
    let i2 = "missing 'title' field"@;
    let i3 = "missing 'detection' block"@;
    let i4 = "missing 'condition' inside detection block"@;
    assert(i1.len() != i2.len() && i1.len() != i3.len() && i1.len() != i4.len() && i2.len()
        != i3.len() && i2.len() != i4.len() && i3.len() != i4.len());
    let ls = line_seq(content);
    let n = ls.len() as int;
    let issues = issues_of(content);
    let id = has_key(ls, "id:"@, n);
    let title = has_key(ls, "title:"@, n);
    let det = has(content, "detection:"@);
    let cond = has_condition(ls, n);
    let a = if id {
        Seq::<Seq<char>>::empty()
    } else {
        seq![i1]
    };
    let b = if title {
        a
    } else {
        a.push(i2)
    };
    assert(issues == if det && cond {
        b
    } else if det {
        b.push(i4)
    } else {
        b.push(i3)
    });
    if !id {
        assert(a[0] == i1);
        assert(b[0] == i1);
        assert(issues[0] == i1);
    }
    if !title {
        assert(b.last() == i2);
        assert(issues[b.len() - 1] == i2);
    }
    if !det || !cond {
        assert(issues.last() == if det {
            i4
        } else {
            i3
        });
    }
}

/// A key is given by a line that has it and a value behind it, whatever the
/// indentation; blanks alone are no value.
pub proof fn keys_need_a_value(key: Seq<char>, value: Seq<char>, k: int)
    requires
        k >= 0,
        key.len() > 0,
        !is_space(key[0]),
    ensures
        gives(fill(' ', k) + (key + value), key) == (trimmed(value).len() > 0),
{
    let t = key + value;
    lemma_spaces_before(t, k);
    assert(t[0] == key[0]);
    assert(trimmed_start(t) == t);
    assert(t.subrange(0, key.len() as int) =~= key);
    assert(t.skip(key.len() as int) =~= value);
}

/// A line that has another word where the key would be does not give the key.
pub proof fn other_keys_do_not_count(key: Seq<char>, line: Seq<char>)
    requires
        gives(line, key),
    ensures
        exists|v: Seq<char>| trimmed_start(line) == #[trigger] (key + v) && trimmed(v).len() > 0,
{
    let t = trimmed_start(line);
    let v = t.skip(key.len() as int);
    assert(t =~= key + v) by {
        assert(t.subrange(0, key.len() as int) == key);
        assert(t =~= t.subrange(0, key.len() as int) + v);
    }
}

proof fn lemma_trimmed_end_stays(s: Seq<char>)
    requires
        s.len() > 0,
        !is_space(s.last()),
    ensures
        trimmed_end(s) == s,
{
}

/// A rule whose status says so is deprecated, whatever the indentation; a status
/// that does not say so deprecates nothing.
pub proof fn status_deprecates(k: int, value: Seq<char>)
    requires
        k >= 0,
        value.len() > 0,
        !is_space(value.last()),
    ensures
        deprecates(fill(' ', k) + ("status:"@ + value)) == has("status:"@ + value, "deprecated"@),
{
    reveal_strlit("status:");
    let t = "status:"@ + value;
    lemma_spaces_before(t, k);
    assert(t[0] == 's');
    assert(trimmed_start(t) == t);
    assert(t.last() == value.last());
    lemma_trimmed_end_stays(t);
    assert(t.subrange(0, 7) =~= "status:"@);
}

// ── Rule files and sources ───────────────────────────────────────────────────

/// The files of a directory that are rules are those named `.yml` or `.yaml`, in
/// their order.
pub proof fn rules_are_named_so(names: Seq<Seq<char>>, n: int, i: int)
    requires
        0 <= i < n <= names.len(),
    ensures
        (stem(names[i], ".yml"@) is Some || stem(names[i], ".yaml"@) is Some) ==> rules_among(
            names,
            n,
        ).contains(names[i]),
        forall|j: int|
            0 <= j < rules_among(names, n).len() ==> names.contains(
                #[trigger] rules_among(names, n)[j],
            ) && (stem(rules_among(names, n)[j], ".yml"@) is Some || stem(
                rules_among(names, n)[j],
                ".yaml"@,
            ) is Some),
    decreases n,
{
    let all = rules_among(names, n);
    let front = rules_among(names, n - 1);
    if n > 1 {
        rules_are_named_so(names, n - 1, if i < n - 1 {
            i
        } else {
            0
        });
    }
    if stem(names[i], ".yml"@) is Some || stem(names[i], ".yaml"@) is Some {
        if i == n - 1 {
            assert(all.last() == names[i]);
        } else {
            let j = choose|j: int| 0 <= j < front.len() && front[j] == names[i];
            assert(all[j] == names[i]);
        }
    }
    assert forall|j: int| 0 <= j < all.len() implies names.contains(#[trigger] all[j]) && (stem(
        all[j],
        ".yml"@,
    ) is Some || stem(all[j], ".yaml"@) is Some) by {
        if j < front.len() {
            assert(all[j] == front[j]);
        } else {
            assert(all[j] == names[n - 1]);
        }
    }
}

proof fn lemma_scanned_front(a: Seq<Seq<char>>, b: Seq<Seq<char>>, n: int)
    requires
        0 <= n <= a.len(),
        n <= b.len(),
        forall|i: int| 0 <= i < n ==> a[i] == b[i],
    ensures
        scanned(a, n) == scanned(b, n),
    decreases n,
{
    if n > 0 {
        lemma_scanned_front(a, b, n - 1);
    }
}

/// Blank lines and comments add nothing to the sources.
pub proof fn comments_list_nothing(ls: Seq<Seq<char>>, line: Seq<char>)
    requires
        trimmed(line).len() == 0 || trimmed(line)[0] == '#',
    ensures
        sources_in(ls.push(line)) == sources_in(ls),
{
    lemma_scanned_front(ls.push(line), ls, ls.len() as int);
    assert(ls.push(line)[ls.len() as int] == line);
}

/// A table header lists one source more, with no fields yet; the sources before
/// it stay as they are.
pub proof fn headers_list_a_source(ls: Seq<Seq<char>>, name: Seq<char>)
    ensures
        sources_in(ls.push("[source."@ + name + "]"@)) == sources_in(ls).push(
            (name, Seq::<Seq<char>>::empty()),
        ),
{
    reveal_strlit("[source.");
    reveal_strlit("]");
    let line = "[source."@ + name + "]"@;
    let more = ls.push(line);
    lemma_scanned_front(more, ls, ls.len() as int);
    assert(more[ls.len() as int] == line);
    assert(line[0] == '[');
    assert(line.last() == ']');
    assert(trimmed_start(line) == line);
    assert(trimmed(line) == line);
    assert(line.subrange(0, 8) =~= "[source."@);
    assert(line.subrange(8, line.len() - 1) =~= name);
    assert(opened(line) == Some(Some(name)));
}

// ── Cross-check ──────────────────────────────────────────────────────────────

proof fn lemma_direction_holds(
    out: Seq<char>,
    names: Seq<Seq<char>>,
    fine: Seq<char>,
    warning: Seq<char>,
    advice: Seq<char>,
    p: Seq<char>,
)
    ensures
        has(out, p) ==> has(direction_text(out, names, fine, warning, advice), p),
        names.contains(p) ==> has(direction_text(out, names, fine, warning, advice), p),
        names.len() == 0 ==> has(direction_text(out, names, fine, warning, advice), fine),
{
    let e = Seq::<char>::empty();
    let t = direction_text(out, names, fine, warning, advice);
    if names.len() == 0 {
        texts_hold_their_parts(out, fine, e);
        assert(out + fine + e =~= t);
        if has(out, p) {
            longer_texts_hold_more(e, out, fine, p);
        }
    } else {
        let j = joined(names, ", "@);
        let a = out + warning + dec(names.len()) + "):\n         "@;
        if has(out, p) {
            longer_texts_hold_more(
                e,
                out,
                warning + dec(names.len()) + "):\n         "@ + j + advice,
                p,
            );
            assert(out + (warning + dec(names.len()) + "):\n         "@ + j + advice) =~= t);
        }
        if names.contains(p) {
            let i = choose|i: int| 0 <= i < names.len() && names[i] == p;
            lists_hold_their_texts(names, ", "@, i);
            longer_texts_hold_more(a, j, advice, p);
        }
    }
}

/// The cross-check names every field that a rule produces and no source indexes,
/// and every field that a source indexes and no rule produces, core fields aside.
pub proof fn crosscheck_names_the_differences(
    output: Set<Seq<char>>,
    all: Set<Seq<char>>,
    declared: Set<Seq<char>>,
    unindexed: Seq<Seq<char>>,
    unproduced: Seq<Seq<char>>,
    f: Seq<char>,
)
    requires
        ascending(unindexed),
        ascending(unproduced),
        forall|x: Seq<char>|
            unindexed.contains(x) <==> output.contains(x) && !declared.contains(x)
                && !core_names().contains(x),
        forall|x: Seq<char>|
            unproduced.contains(x) <==> declared.contains(x) && !all.contains(x)
                && !core_names().contains(x),
    ensures
        output.contains(f) && !declared.contains(f) && !core_names().contains(f) ==> has(
            crosscheck_text(output, all, declared),
            f,
        ),
        declared.contains(f) && !all.contains(f) && !core_names().contains(f) ==> has(
            crosscheck_text(output, all, declared),
            f,
        ),
        unindexed.len() == 0 ==> has(
            crosscheck_text(output, all, declared),
            "  OK   every producible output field is indexed (or is a core field)\n"@,
        ),
        unproduced.len() == 0 ==> has(
            crosscheck_text(output, all, declared),
            "  OK   every declared index_field is produced by a rule (or is a core field)\n"@,
        ),
{
    let x = output.difference(declared.union(core_names()));
    let y = declared.difference(all.union(core_names()));
    assert(unindexed.to_set() =~= x);
    assert(unproduced.to_set() =~= y);
    ascending_is_unique(unindexed, ascending_list(x));
    ascending_is_unique(unproduced, ascending_list(y));
    let fine1 = "  OK   every producible output field is indexed (or is a core field)\n"@;
    let warn1 = "  WARN produced but indexed by no source ("@;
    let adv1
        = "\n       → add to a source's index_fields in sources.toml to search/group on them\n"@;
    let fine2 = "  OK   every declared index_field is produced by a rule (or is a core field)\n"@;
    let warn2 = "  WARN index_fields not produced by any normalized.toml rule ("@;
    let adv2
        = "\n       → check for a typo, or a field supplied by a structured-format\n         parser (CEF/LEEF/JSON) that this config scan can't see\n"@;
    let a = "  declared index_fields (union): "@ + dec(ascending_list(declared).len())
        + "\n  producible output fields:      "@ + dec(ascending_list(output).len()) + "\n"@;
    let b = direction_text(a, unindexed, fine1, warn1, adv1);
    let c = direction_text(b, unproduced, fine2, warn2, adv2);
    let last = "  (advisory — these findings do not affect the exit code)\n"@;
    let e = Seq::<char>::empty();
    assert(crosscheck_text(output, all, declared) == c + last);
    lemma_direction_holds(a, unindexed, fine1, warn1, adv1, f);
    lemma_direction_holds(b, unproduced, fine2, warn2, adv2, f);
    lemma_direction_holds(b, unproduced, fine2, warn2, adv2, fine1);
    if has(c, f) {
        longer_texts_hold_more(e, c, last, f);
    }
    if has(c, fine1) {
        longer_texts_hold_more(e, c, last, fine1);
    }
    if has(c, fine2) {
        longer_texts_hold_more(e, c, last, fine2);
    }
    if output.contains(f) && !declared.contains(f) && !core_names().contains(f) {
        assert(unindexed.contains(f));
    }
    if declared.contains(f) && !all.contains(f) && !core_names().contains(f) {
        assert(unproduced.contains(f));
    }
}

} // verus!
