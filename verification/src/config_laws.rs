//! What the configuration files list, told from their lines.
use vstd::prelude::*;

use crate::digest_config::or_default;
use crate::normconfig::{
    app_in, assigned_key, assigned_keys, braces_end, captures_from, condition_name, conditions,
    counts, fields_of, free_names, keys_in, line_fields, per_source, produced, reserved, set_names,
};
use crate::paths::{holds_events, joined_path, stem, with_extension};
use crate::query_parser::sql_ident;
use crate::sources::{listed, listed_by_source, quoted_from, source_header};
use crate::text::{
    char_from, char_from_is_first, find_from, find_from_is_first, has, is_prefix, is_space,
    occurs_at, split, split_front, split_whole, stripped_end, stripped_start, trimmed,
    trimmed_start,
};

verus! {

// ── Quoted names ─────────────────────────────────────────────────────────────

proof fn lemma_char_behind(a: Seq<char>, r: Seq<char>, c: char, i: int)
    requires
        0 <= i,
    ensures
        match char_from(r, c, i) {
            Some(k) => char_from(a + r, c, a.len() + i) == Some(a.len() + k),
            None => char_from(a + r, c, a.len() + i) is None,
        },
    decreases r.len() - i,
{
    if i < r.len() {
        assert((a + r)[a.len() + i] == r[i]);
        if r[i] != c {
            lemma_char_behind(a, r, c, i + 1);
        }
    }
}

proof fn lemma_quoted_behind(a: Seq<char>, r: Seq<char>, i: int)
    requires
        0 <= i,
    ensures
        quoted_from(a + r, a.len() + i) == quoted_from(r, i),
    decreases r.len() - i,
{
    let s = a + r;
    let n = a.len() as int;
    lemma_char_behind(a, r, '"', i);
    char_from_is_first(r, '"', i);
    if let Some(x) = char_from(r, '"', i) {
        lemma_char_behind(a, r, '"', x + 1);
        char_from_is_first(r, '"', x + 1);
        if let Some(y) = char_from(r, '"', x + 1) {
            lemma_quoted_behind(a, r, y + 1);
            assert(s.subrange(n + x + 1, n + y) =~= r.subrange(x + 1, y));
        }
    }
}

/// The names in quotes are read one after the other; an empty one is left out.
pub proof fn quoted_names_are_read_in_order(pre: Seq<char>, name: Seq<char>, rest: Seq<char>)
    requires
        !pre.contains('"'),
        !name.contains('"'),
    ensures
        name.len() > 0 ==> quoted_from(pre + seq!['"'] + name + seq!['"'] + rest, 0) == seq![name]
            + quoted_from(rest, 0),
        name.len() == 0 ==> quoted_from(pre + seq!['"'] + name + seq!['"'] + rest, 0)
            == quoted_from(rest, 0),
        quoted_from(pre, 0) == Seq::<Seq<char>>::empty(),
{
    let a = pre + seq!['"'] + name + seq!['"'];
    let s = a + rest;
    let x = pre.len() as int;
    let y = x + 1 + name.len();
    char_from_is_first(s, '"', 0);
    assert(s[x] == '"' && s[y] == '"');
    assert(char_from(s, '"', 0) == Some(x)) by {
        let k = char_from(s, '"', 0)->0;
        if k < x {
            assert(s[k] == pre[k]);
        }
    }
    char_from_is_first(s, '"', x + 1);
    assert(char_from(s, '"', x + 1) == Some(y)) by {
        let k = char_from(s, '"', x + 1)->0;
        if k < y {
            assert(s[k] == name[k - x - 1]);
        }
    }
    assert(s.subrange(x + 1, y) =~= name);
    lemma_quoted_behind(a, rest, 0);
    assert(a.len() == y + 1);
    char_from_is_first(pre, '"', 0);
}

// ── Indexed fields ───────────────────────────────────────────────────────────

proof fn lemma_listed_front(a: Seq<Seq<char>>, b: Seq<Seq<char>>, n: int)
    requires
        0 <= n <= a.len(),
        n <= b.len(),
        forall|i: int| 0 <= i < n ==> a[i] == b[i],
    ensures
        listed(a, n) == listed(b, n),
        listed_by_source(a, n) == listed_by_source(b, n),
    decreases n,
{
    if n > 0 {
        lemma_listed_front(a, b, n - 1);
    }
}

/// A line adds fields to the list exactly if it belongs to one: it begins a
/// list, or one that began before is still open. A list stays open up to its
/// bracket. Comments and blank lines do nothing.
pub proof fn lists_hold_their_lines(ls: Seq<Seq<char>>, line: Seq<char>)
    ensures
        ({
            let n = ls.len() as int;
            let before = listed(ls, n);
            let after = listed(ls.push(line), n + 1);
            let t = trimmed(line);
            let blank = t.len() == 0 || t[0] == '#';
            let part = before.0 || (is_prefix("index_fields"@, t) && t.contains('='));
            &&& blank ==> after == before
            &&& !blank && part ==> after.1 == before.1.union(quoted_from(t, 0).to_set()) && after.0
                == !t.contains(']')
            &&& !blank && !part ==> after == before
        }),
{
    let n = ls.len() as int;
    lemma_listed_front(ls.push(line), ls, n);
    assert(ls.push(line)[n] == line);
    let t = trimmed(line);
    char_from_is_first(t, '=', 0);
    char_from_is_first(t, ']', 0);
    if let Some(i) = char_from(t, '=', 0) {
        assert(t[i] == '=');
        assert(t.contains('='));
    }
    if let Some(i) = char_from(t, ']', 0) {
        assert(t[i] == ']');
        assert(t.contains(']'));
    }
}

/// A header begins the fields of its source, and keeps what was listed.
pub proof fn headers_begin_their_source(ls: Seq<Seq<char>>, name: Seq<char>, other: Seq<char>)
    requires
        name.len() > 0,
        other != name,
    ensures
        ({
            let n = ls.len() as int;
            let before = listed_by_source(ls, n);
            let after = listed_by_source(ls.push("[source."@ + name + "]"@), n + 1);
            &&& after.0 == Some(name)
            &&& !after.1
            &&& after.2.dom().contains(name)
            &&& fields_of(after.2, name) == fields_of(before.2, name)
            &&& fields_of(after.2, other) == fields_of(before.2, other)
        }),
{
    reveal_strlit("[source.");
    reveal_strlit("]");
    let line = "[source."@ + name + "]"@;
    let n = ls.len() as int;
    lemma_listed_front(ls.push(line), ls, n);
    assert(ls.push(line)[n] == line);
    assert(line[0] == '[' && line.last() == ']');
    assert(trimmed_start(line) == line);
    assert(trimmed(line) == line);
    assert(line.subrange(0, 8) =~= "[source."@);
    assert(line.subrange(8, line.len() - 1) =~= name);
    assert(source_header(line) == Some(name));
}

/// Fields are listed for the source whose header came last, and for no other.
pub proof fn fields_belong_to_the_last_header(
    ls: Seq<Seq<char>>,
    line: Seq<char>,
    name: Seq<char>,
    other: Seq<char>,
)
    requires
        listed_by_source(ls, ls.len() as int).0 == Some(name),
        other != name,
        is_prefix("[source."@, trimmed(line)) == false,
    ensures
        ({
            let n = ls.len() as int;
            let before = listed_by_source(ls, n);
            let after = listed_by_source(ls.push(line), n + 1);
            let t = trimmed(line);
            let part = t.len() > 0 && t[0] != '#' && (before.1 || (is_prefix("index_fields"@, t)
                && t.contains('=')));
            &&& after.0 == Some(name)
            &&& part ==> fields_of(after.2, name) == fields_of(before.2, name).union(
                quoted_from(t, 0).to_set(),
            ) && after.1 == !t.contains(']')
            &&& !part ==> after == before
            &&& fields_of(after.2, other) == fields_of(before.2, other)
        }),
{
    let n = ls.len() as int;
    lemma_listed_front(ls.push(line), ls, n);
    assert(ls.push(line)[n] == line);
    let t = trimmed(line);
    char_from_is_first(t, '=', 0);
    char_from_is_first(t, ']', 0);
    if let Some(i) = char_from(t, '=', 0) {
        assert(t[i] == '=');
        assert(t.contains('='));
    }
    if let Some(i) = char_from(t, ']', 0) {
        assert(t[i] == ']');
        assert(t.contains(']'));
    }
}

// ── Fields that rules produce ────────────────────────────────────────────────

proof fn lemma_find_behind(a: Seq<char>, r: Seq<char>, pat: Seq<char>, i: int)
    requires
        0 <= i,
    ensures
        match find_from(r, pat, i) {
            Some(k) => find_from(a + r, pat, a.len() + i) == Some(a.len() + k),
            None => find_from(a + r, pat, a.len() + i) is None,
        },
    decreases r.len() - i + 1,
{
    let s = a + r;
    let n = a.len() as int;
    if i + pat.len() <= r.len() {
        assert(s.subrange(n + i, n + i + pat.len()) =~= r.subrange(i, i + pat.len()));
        if !occurs_at(r, pat, i) {
            lemma_find_behind(a, r, pat, i + 1);
        }
    }
}

proof fn lemma_captures_behind(a: Seq<char>, r: Seq<char>, i: int)
    requires
        0 <= i,
    ensures
        captures_from(a + r, a.len() + i) == captures_from(r, i),
    decreases r.len() - i,
{
    let s = a + r;
    let n = a.len() as int;
    assert("(?P<"@.len() == 4) by {
        reveal_strlit("(?P<");
    }
    lemma_find_behind(a, r, "(?P<"@, i);
    find_from_is_first(r, "(?P<"@, i);
    if let Some(x) = find_from(r, "(?P<"@, i) {
        lemma_char_behind(a, r, '>', x + 4);
        char_from_is_first(r, '>', x + 4);
        if let Some(y) = char_from(r, '>', x + 4) {
            lemma_captures_behind(a, r, y + 1);
            assert(s.subrange(n + x + 4, n + y) =~= r.subrange(x + 4, y));
        }
    }
}

/// A named capture of a pattern gives its name, and what is behind it is read on
/// its own; a name that is no identifier is left out.
pub proof fn captures_are_read_in_order(name: Seq<char>, rest: Seq<char>)
    requires
        !name.contains('>'),
    ensures
        sql_ident(name) ==> captures_from("(?P<"@ + name + seq!['>'] + rest, 0) == seq![name]
            + captures_from(rest, 0),
        !sql_ident(name) ==> captures_from("(?P<"@ + name + seq!['>'] + rest, 0) == captures_from(
            rest,
            0,
        ),
        has(rest, "(?P<"@) == false ==> captures_from(rest, 0) == Seq::<Seq<char>>::empty(),
{
    let open = "(?P<"@;
    assert(open.len() == 4) by {
        reveal_strlit("(?P<");
    }
    let a = open + name + seq!['>'];
    let s = a + rest;
    assert(s.subrange(0, 4) =~= open);
    assert(occurs_at(s, open, 0));
    assert(find_from(s, open, 0) == Some(0int));
    let y = 4 + name.len();
    assert(s[y as int] == '>');
    char_from_is_first(s, '>', 4);
    assert(char_from(s, '>', 4) == Some(y as int)) by {
        let k = char_from(s, '>', 4)->0;
        if k < y {
            assert(s[k] == name[k - 4]);
        }
    }
    assert(s.subrange(4, y as int) =~= name);
    lemma_captures_behind(a, rest, 0);
    assert(a.len() == y + 1);
    find_from_is_first(rest, open, 0);
    if let Some(i) = find_from(rest, open, 0) {
        assert(occurs_at(rest, open, i));
    }
}

proof fn lemma_assigned_front(a: Seq<Seq<char>>, b: Seq<Seq<char>>, n: int)
    requires
        0 <= n <= a.len(),
        n <= b.len(),
        forall|i: int| 0 <= i < n ==> a[i] == b[i],
    ensures
        assigned_keys(a, n) == assigned_keys(b, n),
    decreases n,
{
    if n > 0 {
        lemma_assigned_front(a, b, n - 1);
    }
}

proof fn lemma_assigned_split(a: Seq<char>, rest: Seq<Seq<char>>, n: int)
    requires
        0 <= n <= rest.len(),
    ensures
        assigned_keys(seq![a] + rest, n + 1) == assigned_keys(seq![a], 1) + assigned_keys(rest, n),
    decreases n,
{
    let whole = seq![a] + rest;
    if n == 0 {
        lemma_assigned_front(whole, seq![a], 1);
        assert(assigned_keys(seq![a], 1) + assigned_keys(rest, 0) =~= assigned_keys(seq![a], 1));
    } else {
        lemma_assigned_split(a, rest, n - 1);
        assert(whole[n] == rest[n - 1]);
        assert(assigned_keys(whole, n + 1) =~= assigned_keys(seq![a], 1) + assigned_keys(rest, n));
    }
}

/// The fields of a table in braces are what stands before the equals signs, one
/// for each part between commas.
pub proof fn assigned_fields_are_read_in_order(key: Seq<char>, value: Seq<char>, rest: Seq<char>)
    requires
        sql_ident(key),
        !key.contains('=') && !key.contains(','),
        !value.contains(','),
    ensures
        keys_in(key + (seq!['='] + value)) == seq![key],
        keys_in(key + (seq!['='] + value) + (seq![','] + rest)) == seq![key] + keys_in(rest),
{
    let part = key + (seq!['='] + value);
    assert(!part.contains(',')) by {
        if part.contains(',') {
            let i = choose|i: int| 0 <= i < part.len() && part[i] == ',';
            if i < key.len() {
                assert(key[i] == ',');
            } else if i > key.len() {
                assert(value[i - key.len() - 1] == ',');
            }
        }
    }
    split_whole(part, ',');
    split_front(part, ',', rest);
    split_front(key, '=', value);
    assert(split(part, '=')[0] == key);
    lemma_ident_trimmed(key);
    assert(assigned_key(part) == key);
    assert(seq![part][0] == part);
    reveal_with_fuel(assigned_keys, 2);
    assert(assigned_keys(seq![part], 1) =~= seq![key]);
    lemma_assigned_split(part, split(rest, ','), split(rest, ',').len() as int);
}

proof fn lemma_ident_trimmed(s: Seq<char>)
    requires
        sql_ident(s),
    ensures
        trimmed(s) == s,
{
    assert(!is_space(s[0]));
    assert(!is_space(s[s.len() - 1]));
}

/// A table that is set gives the fields assigned in it; a table of another kind
/// gives none.
pub proof fn set_tables_give_their_fields(before: Seq<char>, inner: Seq<char>, behind: Seq<char>)
    requires
        !before.contains('{'),
        !inner.contains('}'),
    ensures
        has(before, "set"@) ==> set_names(before + (seq!['{'] + (inner + (seq!['}'] + behind))))
            == keys_in(inner),
        has(before, "set"@) == false ==> set_names(
            before + (seq!['{'] + (inner + (seq!['}'] + behind))),
        ) == Seq::<Seq<char>>::empty(),
{
    let t = inner + (seq!['}'] + behind);
    let s = before + (seq!['{'] + t);
    let p = before.len() as int;
    char_from_is_first(s, '{', 0);
    assert(s[p] == '{');
    assert(char_from(s, '{', 0) == Some(p)) by {
        let k = char_from(s, '{', 0)->0;
        if k < p {
            assert(s[k] == before[k]);
        }
    }
    assert(s.subrange(0, p) =~= before);
    assert(s.subrange(p + 1, s.len() as int) =~= t);
    split_front(inner, '}', behind);
    assert(split(t, '}')[0] == inner);
}

/// A line that compares a field with a text is a condition on it, unless the
/// name has another meaning; one with a table is none.
pub proof fn conditions_name_their_field(key: Seq<char>, value: Seq<char>)
    requires
        sql_ident(key),
        !key.contains('='),
        !value.contains('{'),
    ensures
        condition_name(key + (seq!['='] + (seq!['"'] + value))) == if reserved(key) {
            None
        } else {
            Some(key)
        },
{
    let v = seq!['"'] + value;
    let s = key + (seq!['='] + v);
    let p = key.len() as int;
    char_from_is_first(s, '{', 0);
    if let Some(k) = char_from(s, '{', 0) {
        if k < p {
            assert(s[k] == key[k]);
        } else if k > p + 1 {
            assert(s[k] == value[k - p - 2]);
        }
    }
    char_from_is_first(s, '=', 0);
    assert(s[p] == '=');
    assert(char_from(s, '=', 0) == Some(p)) by {
        let k = char_from(s, '=', 0)->0;
        if k < p {
            assert(s[k] == key[k]);
        }
    }
    assert(s.subrange(0, p) =~= key);
    assert(s.subrange(p + 1, s.len() as int) =~= v);
    lemma_ident_trimmed(key);
    assert(v[0] == '"');
    assert(trimmed_start(v) == v);
}

/// A field is produced exactly if some line that counts captures or sets it.
pub proof fn produced_by_some_line(ls: Seq<Seq<char>>, f: Seq<char>, n: int)
    requires
        0 <= n <= ls.len(),
    ensures
        produced(ls, n).contains(f) == (exists|i: int|
            0 <= i < n && {
                let t = trimmed(#[trigger] ls[i]);
                t.len() > 0 && t[0] != '#' && (captures_from(t, 0).contains(f) || set_names(
                    t,
                ).contains(f))
            }),
    decreases n,
{
    if n > 0 {
        produced_by_some_line(ls, f, n - 1);
        let t = trimmed(ls[n - 1]);
        let here = t.len() > 0 && t[0] != '#' && (captures_from(t, 0).contains(f) || set_names(
            t,
        ).contains(f));
        assert(captures_from(t, 0).to_set().contains(f) == captures_from(t, 0).contains(f));
        assert(set_names(t).to_set().contains(f) == set_names(t).contains(f));
        assert(produced(ls, n).contains(f) == (produced(ls, n - 1).contains(f) || here));
        if here {
            let i = n - 1;
            assert(0 <= i < n && {
                let t = trimmed(ls[i]);
                t.len() > 0 && t[0] != '#' && (captures_from(t, 0).contains(f) || set_names(
                    t,
                ).contains(f))
            });
        }
    }
}

/// A field is a condition exactly if some line that counts says so.
pub proof fn conditions_are_on_some_line(ls: Seq<Seq<char>>, f: Seq<char>, n: int)
    requires
        0 <= n <= ls.len(),
    ensures
        conditions(ls, n).contains(f) == (exists|i: int|
            0 <= i < n && {
                let t = trimmed(#[trigger] ls[i]);
                t.len() > 0 && t[0] != '#' && condition_name(t) == Some(f)
            }),
    decreases n,
{
    if n > 0 {
        conditions_are_on_some_line(ls, f, n - 1);
        let t = trimmed(ls[n - 1]);
        if t.len() > 0 && t[0] != '#' && condition_name(t) == Some(f) {
            let i = n - 1;
            assert(0 <= i < n && {
                let t = trimmed(ls[i]);
                t.len() > 0 && t[0] != '#' && condition_name(t) == Some(f)
            });
        }
    }
}

// ── Fields by application ────────────────────────────────────────────────────

proof fn lemma_per_source_front(a: Seq<Seq<char>>, b: Seq<Seq<char>>, n: int)
    requires
        0 <= n <= a.len(),
        n <= b.len(),
        forall|i: int| 0 <= i < n ==> a[i] == b[i],
    ensures
        per_source(a, n) == per_source(b, n),
    decreases n,
{
    if n > 0 {
        lemma_per_source_front(a, b, n - 1);
    }
}

/// Fields belong to the application named last in their rule, and to no other; a
/// new rule has none until it is named, and its fields before that belong to
/// nobody.
pub proof fn fields_belong_to_their_application(
    ls: Seq<Seq<char>>,
    line: Seq<char>,
    app: Seq<char>,
    other: Seq<char>,
)
    requires
        other != app,
    ensures
        ({
            let n = ls.len() as int;
            let before = per_source(ls, n);
            let after = per_source(ls.push(line), n + 1);
            let t = trimmed(line);
            let blank = t.len() == 0 || t[0] == '#';
            &&& blank ==> after == before
            &&& !blank && is_prefix("[["@, t) ==> after.0 is None && after.1 == before.1
            &&& !blank && is_prefix("[["@, t) == false && is_prefix("app_name"@, t) ==> after.1
                == before.1 && (app_in(t) is Some ==> after.0 == app_in(t))
            &&& !blank && is_prefix("[["@, t) == false && is_prefix("app_name"@, t) == false
                && before.0 == Some(app) ==> after.0 == Some(app) && fields_of(after.1, app)
                == fields_of(before.1, app).union(line_fields(t).to_set()) && fields_of(
                after.1,
                other,
            ) == fields_of(before.1, other)
            &&& !blank && is_prefix("[["@, t) == false && is_prefix("app_name"@, t) == false
                && before.0 is None ==> after == before
        }),
{
    let n = ls.len() as int;
    lemma_per_source_front(ls.push(line), ls, n);
    assert(ls.push(line)[n] == line);
    let t = trimmed(line);
    let before = per_source(ls, n);
    if before.0 == Some(app) && line_fields(t).len() == 0 {
        assert(line_fields(t).to_set() =~= Set::<Seq<char>>::empty());
        assert(fields_of(before.1, app).union(line_fields(t).to_set()) =~= fields_of(
            before.1,
            app,
        ));
    }
}

/// The application is what is assigned, without its quotes.
pub proof fn applications_are_named_in_quotes(key: Seq<char>, name: Seq<char>)
    requires
        !key.contains('='),
        name.len() > 0,
        !name.contains('"') && !name.contains('\''),
    ensures
        app_in(key + (seq!['='] + (seq!['"'] + name + seq!['"']))) == Some(name),
{
    let v = seq!['"'] + name + seq!['"'];
    let s = key + (seq!['='] + v);
    let p = key.len() as int;
    char_from_is_first(s, '=', 0);
    assert(s[p] == '=');
    assert(char_from(s, '=', 0) == Some(p)) by {
        let k = char_from(s, '=', 0)->0;
        if k < p {
            assert(s[k] == key[k]);
        }
    }
    assert(s.subrange(p + 1, s.len() as int) =~= v);
    assert(v[0] == '"' && v.last() == '"');
    assert(trimmed_start(v) == v);
    assert(trimmed(v) == v);
    let w = name + seq!['"'];
    assert(v.skip(1) =~= w);
    assert(name[0] != '"' && name[0] != '\'') by {
        if name[0] == '"' {
            assert(name.contains('"'));
        }
        if name[0] == '\'' {
            assert(name.contains('\''));
        }
    }
    let z = name[name.len() - 1];
    assert(z != '"' && z != '\'') by {
        if z == '"' {
            assert(name.contains('"'));
        }
        if z == '\'' {
            assert(name.contains('\''));
        }
    }
    reveal_with_fuel(stripped_start, 2);
    reveal_with_fuel(stripped_end, 2);
    assert(w[0] == name[0]);
    assert(stripped_start(v, '"') == w);
    assert(w.drop_last() =~= name);
    assert(stripped_end(w, '"') == name);
    assert(stripped_start(name, '\'') == name);
    assert(stripped_end(name, '\'') == name);
}

// ── Names of files ───────────────────────────────────────────────────────────

/// The stem of a file is its name without the extension; a name without the
/// extension, or with nothing before it, has none.
pub proof fn stems_come_before_their_extension(s: Seq<char>, ext: Seq<char>, name: Seq<char>)
    ensures
        s.len() > 0 ==> stem(s + ext, ext) == Some(s),
        stem(ext, ext) is None,
        stem(name, ext) matches Some(t) ==> name == t + ext && t.len() > 0,
{
    let n = s + ext;
    assert(n.subrange(n.len() - ext.len(), n.len() as int) =~= ext);
    assert(n.take(n.len() - ext.len()) =~= s);
    if let Some(t) = stem(name, ext) {
        assert(name =~= t + name.subrange(name.len() - ext.len(), name.len() as int));
    }
}

/// A file of events is named after its source; without one given any will do.
pub proof fn event_files_are_named_after_their_source(s: Seq<char>, other: Seq<char>)
    requires
        s.len() > 0,
        other != s,
    ensures
        holds_events(s + ".jsonl"@, None),
        holds_events(s + ".jsonl"@, Some(s)),
        !holds_events(s + ".jsonl"@, Some(other)),
{
    stems_come_before_their_extension(s, ".jsonl"@, s);
}

/// The files with an extension are kept, in their order, and no others.
pub proof fn extensions_decide(a: Seq<Seq<char>>, ext: Seq<char>, name: Seq<char>)
    ensures
        with_extension(a.push(name), ext, (a.len()
            + 1) as int) == with_extension(a, ext, a.len() as int) + (
        if stem(name, ext) is Some {
            seq![name]
        } else {
            seq![]
        }),
        with_extension(Seq::empty(), ext, 0) == Seq::<Seq<char>>::empty(),
{
    let whole = a.push(name);
    let n = a.len() as int;
    lemma_extension_front(whole, a, ext, n);
    assert(whole[n] == name);
    assert(with_extension(whole, ext, n + 1) =~= with_extension(a, ext, n) + (if stem(
        name,
        ext,
    ) is Some {
        seq![name]
    } else {
        seq![]
    }));
}

proof fn lemma_extension_front(a: Seq<Seq<char>>, b: Seq<Seq<char>>, ext: Seq<char>, n: int)
    requires
        0 <= n <= a.len(),
        n <= b.len(),
        forall|i: int| 0 <= i < n ==> a[i] == b[i],
    ensures
        with_extension(a, ext, n) == with_extension(b, ext, n),
    decreases n,
{
    if n > 0 {
        lemma_extension_front(a, b, ext, n - 1);
    }
}

/// A relative path is joined by one slash, and an absolute one stays as it is.
pub proof fn paths_are_joined_by_one_slash(base: Seq<char>, part: Seq<char>)
    requires
        base.len() > 0,
        part.len() > 0,
    ensures
        part[0] == '/' ==> joined_path(base, part) == part,
        part[0] != '/' && base.last() != '/' ==> joined_path(base, part) == base + seq!['/'] + part,
        part[0] != '/' ==> joined_path(base.push('/'), part) == base + seq!['/'] + part,
{
    assert(base.push('/') =~= base + seq!['/']);
}

/// What is given counts, and the default where nothing is.
pub proof fn given_values_count<A>(x: A, default: A)
    ensures
        or_default(Some(x), default) == x,
        or_default(None, default) == default,
{
}

/// The fields of a line are its captures and the fields of its table, but for
/// the names that have another meaning.
pub proof fn lines_give_captures_and_set_fields(
    before: Seq<char>,
    inner: Seq<char>,
    f: Seq<char>,
)
    requires
        !before.contains('{'),
        !inner.contains('}'),
        has(before, "set"@),
    ensures
        ({
            let line = before + (seq!['{'] + (inner + seq!['}']));
            line_fields(line).contains(f) <==> !reserved(f) && (captures_from(line, 0).contains(f)
                || keys_in(inner).contains(f))
        }),
{
    let line = before + (seq!['{'] + (inner + seq!['}']));
    let p = before.len() as int;
    let n = line.len() as int;
    char_from_is_first(line, '{', 0);
    assert(line[p] == '{');
    assert(char_from(line, '{', 0) == Some(p)) by {
        let k = char_from(line, '{', 0)->0;
        if k < p {
            assert(line[k] == before[k]);
        }
    }
    assert(line.subrange(0, p) =~= before);
    assert(line[n - 1] == '}');
    assert(braces_end(line) == n - 1);
    assert(line.subrange(p + 1, n - 1) =~= inner);
    let c = captures_from(line, 0);
    let s = keys_in(inner);
    lemma_free_names(c, c.len() as int, f);
    lemma_free_names(s, s.len() as int, f);
    let a = free_names(c, c.len() as int);
    let b = free_names(s, s.len() as int);
    assert(line_fields(line) == a + b);
    if a.contains(f) {
        let i = choose|i: int| 0 <= i < a.len() && a[i] == f;
        assert((a + b)[i] == f);
    }
    if b.contains(f) {
        let i = choose|i: int| 0 <= i < b.len() && b[i] == f;
        assert((a + b)[a.len() + i] == f);
    }
    if (a + b).contains(f) {
        let i = choose|i: int| 0 <= i < (a + b).len() && (a + b)[i] == f;
        if i < a.len() {
            assert(a[i] == f);
        } else {
            assert(b[i - a.len()] == f);
        }
    }
}

proof fn lemma_free_names(v: Seq<Seq<char>>, n: int, f: Seq<char>)
    requires
        0 <= n <= v.len(),
    ensures
        free_names(v, n).contains(f) <==> !reserved(f) && exists|i: int|
            0 <= i < n && #[trigger] v[i] == f,
    decreases n,
{
    if n > 0 {
        lemma_free_names(v, n - 1, f);
        let front = free_names(v, n - 1);
        let all = free_names(v, n);
        if !reserved(v[n - 1]) {
            assert(all.last() == v[n - 1]);
            if front.contains(f) {
                let i = choose|i: int| 0 <= i < front.len() && front[i] == f;
                assert(all[i] == f);
            }
            if all.contains(f) {
                let i = choose|i: int| 0 <= i < all.len() && all[i] == f;
                if i < front.len() {
                    assert(front[i] == f);
                }
            }
        }
    }
}

} // verus!
