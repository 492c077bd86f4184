//! A light scan of `normalized.toml`: which fields the normalizer can emit.
//!
//! It sees only what the configuration extracts; fields of self-describing
//! formats are invisible to it, so its findings are advisory.
use vstd::prelude::*;

use crate::collections::{ascending, insert_all, FieldSet};
use crate::order::{compare_text, text_lt, text_lt_asymmetric, text_lt_transitive, Rel};
use crate::query_parser::{is_sql_ident, sql_ident};
use crate::text::{char_from, find, find_char, find_from, find_from_is_first, has, is_prefix};
use crate::text::{last_char, line_seq, lines, matches_at, piece, pieces, rfind_char, same, split};
use crate::text::{split_on, string_from, string_of, strip_both, stripped, to_chars, trim};
use crate::text::{trim_start, trimmed, trimmed_start, views};

verus! {

/// The keys of the rule grammar, which are no extracted fields.
pub open spec fn reserved(s: Seq<char>) -> bool {
    ||| s == "app_name"@
    ||| s == "from"@
    ||| s == "pattern"@
    ||| s == "set"@
    ||| s == "contains"@
    ||| s == "source"@
    ||| s == "data_dir"@
    ||| s == "udp_port"@
    ||| s == "tcp_port"@
    ||| s == "equals"@
    ||| s == "starts_with"@
    ||| s == "ends_with"@
    ||| s == "rename"@
    ||| s == "second_pass"@
    ||| s == "force_parser"@
}

/// Whether a key belongs to the rule grammar.
pub fn is_reserved(s: &str) -> (r: bool)
    ensures
        r == reserved(s@),
{
    same(s, "app_name") || same(s, "from") || same(s, "pattern") || same(s, "set") || same(
        s,
        "contains",
    ) || same(s, "source") || same(s, "data_dir") || same(s, "udp_port") || same(s, "tcp_port")
        || same(s, "equals") || same(s, "starts_with") || same(s, "ends_with") || same(s, "rename")
        || same(s, "second_pass") || same(s, "force_parser")
}

/// Whether a trimmed line counts: it is neither empty nor a comment.
pub open spec fn counts(line: Seq<char>) -> bool {
    line.len() > 0 && line[0] != '#'
}

/// The names of the captures `(?P<name>` of a line from position `from` on.
pub open spec fn captures_from(s: Seq<char>, from: int) -> Seq<Seq<char>>
    decreases s.len() - from,
{
    match find_from(s, "(?P<"@, from) {
        None => Seq::empty(),
        Some(i) => match char_from(s, '>', i + 4) {
            None => Seq::empty(),
            Some(j) => if from <= i && i + 4 <= j < s.len() {
                let name = s.subrange(i + 4, j);
                let rest = captures_from(s, j + 1);
                if sql_ident(name) {
                    seq![name] + rest
                } else {
                    rest
                }
            } else {
                Seq::empty()
            },
        },
    }
}

/// The names of the captures of a line.
fn capture_names(line: &Vec<char>) -> (r: Vec<String>)
    ensures
        views(r@) == captures_from(line@, 0),
{
    let open = to_chars("(?P<");
    proof {
        reveal_strlit("(?P<");
    }
    let n: usize = line.len();
    let mut r: Vec<String> = Vec::new();
    let mut from: usize = 0;
    assert(views(r@) + captures_from(line@, 0) =~= captures_from(line@, 0));
    loop
        invariant
            n == line@.len(),
            open@ == "(?P<"@,
            "(?P<"@.len() == 4,
            from <= n,
            captures_from(line@, 0) == views(r@) + captures_from(line@, from as int),
        decreases n - from,
    {
        let ghost before = views(r@);
        proof {
            find_from_is_first(line@, "(?P<"@, from as int);
        }
        match find(line, &open, from) {
            None => {
                assert(before + Seq::<Seq<char>>::empty() =~= before);
                return r;
            },
            Some(i) => match find_char(line, '>', i + 4) {
                None => {
                    assert(before + Seq::<Seq<char>>::empty() =~= before);
                    return r;
                },
                Some(j) => {
                    let name = string_from(line, i + 4, j);
                    let ghost rest = captures_from(line@, j + 1);
                    if is_sql_ident(name.as_str()) {
                        r.push(name);
                        assert(views(r@) =~= before.push(name@));
                        assert(before + (seq![name@] + rest) =~= views(r@) + rest);
                    }
                    from = j + 1;
                },
            },
        }
    }
}

/// The key of one assignment: what stands before its first `=`.
pub open spec fn assigned_key(part: Seq<char>) -> Seq<char> {
    trimmed(split(part, '=')[0])
}

/// The keys among the first `n` assignments.
pub open spec fn assigned_keys(parts: Seq<Seq<char>>, n: int) -> Seq<Seq<char>>
    decreases n,
{
    if n <= 0 {
        Seq::empty()
    } else {
        let front = assigned_keys(parts, n - 1);
        let k = assigned_key(parts[n - 1]);
        if sql_ident(k) {
            front.push(k)
        } else {
            front
        }
    }
}

/// The keys assigned inside braces.
pub open spec fn keys_in(inner: Seq<char>) -> Seq<Seq<char>> {
    assigned_keys(split(inner, ','), split(inner, ',').len() as int)
}

fn key_names(inner: &Vec<char>) -> (r: Vec<String>)
    ensures
        views(r@) == keys_in(inner@),
{
    let parts = split_on(inner, ',');
    let ghost pv = split(inner@, ',');
    let n: usize = parts.len();
    let mut r: Vec<String> = Vec::new();
    let mut i: usize = 0;
    assert(views(r@) =~= Seq::<Seq<char>>::empty());
    while i < n
        invariant
            n == parts@.len(),
            pieces(parts@) == pv,
            i <= n,
            views(r@) == assigned_keys(pv, i as int),
        decreases n - i,
    {
        let ghost before = views(r@);
        assert(pv[i as int] == parts@[i as int]@);
        let halves = split_on(&parts[i], '=');
        assert(pieces(halves@)[0] == halves@[0]@);
        let k = string_of(&trim(&halves[0]));
        if is_sql_ident(k.as_str()) {
            r.push(k);
            assert(views(r@) =~= before.push(k@));
        }
        i = i + 1;
    }
    assert(pieces(parts@).len() == n);
    r
}

/// The fields that a line `set = { … }` assigns, up to its first closing brace.
pub open spec fn set_names(line: Seq<char>) -> Seq<Seq<char>> {
    match char_from(line, '{', 0) {
        Some(open) => if has(line.subrange(0, open), "set"@) {
            keys_in(split(line.subrange(open + 1, line.len() as int), '}')[0])
        } else {
            Seq::empty()
        },
        None => Seq::empty(),
    }
}

/// The field that a line `field = "…"` takes as a condition.
pub open spec fn condition_name(line: Seq<char>) -> Option<Seq<char>> {
    if char_from(line, '{', 0) is Some {
        None
    } else {
        match char_from(line, '=', 0) {
            Some(eq) => {
                let key = trimmed(line.subrange(0, eq));
                let val = trimmed_start(line.subrange(eq + 1, line.len() as int));
                if sql_ident(key) && !reserved(key) && val.len() > 0 && val[0] == '"' {
                    Some(key)
                } else {
                    None
                }
            },
            None => None,
        }
    }
}

fn set_line_names(line: &Vec<char>) -> (r: Vec<String>)
    ensures
        views(r@) == set_names(line@),
{
    let n: usize = line.len();
    if let Some(open) = find_char(line, '{', 0) {
        let head = string_from(line, 0, open);
        if crate::text::contains(head.as_str(), "set") {
            let tail = piece(line, open + 1, n);
            let parts = split_on(&tail, '}');
            assert(pieces(parts@)[0] == parts@[0]@);
            return key_names(&parts[0]);
        }
    }
    let r: Vec<String> = Vec::new();
    assert(views(r@) =~= Seq::<Seq<char>>::empty());
    r
}

fn condition_line_name(line: &Vec<char>) -> (r: Option<String>)
    ensures
        crate::text::opt_view(r) == condition_name(line@),
{
    let n: usize = line.len();
    if find_char(line, '{', 0).is_some() {
        return None;
    }
    match find_char(line, '=', 0) {
        None => None,
        Some(eq) => {
            let key = string_of(&trim(&piece(line, 0, eq)));
            let val = trim_start(&piece(line, eq + 1, n));
            if is_sql_ident(key.as_str()) && !is_reserved(key.as_str()) && val.len() > 0 && val[0]
                == '"' {
                Some(key)
            } else {
                None
            }
        },
    }
}

/// The fields that the first `n` lines produce: captures and assigned fields.
pub open spec fn produced(ls: Seq<Seq<char>>, n: int) -> Set<Seq<char>>
    decreases n,
{
    if n <= 0 {
        Set::empty()
    } else {
        let line = trimmed(ls[n - 1]);
        if counts(line) {
            produced(ls, n - 1).union(captures_from(line, 0).to_set()).union(
                set_names(line).to_set(),
            )
        } else {
            produced(ls, n - 1)
        }
    }
}

/// The fields that the first `n` lines take as conditions.
pub open spec fn conditions(ls: Seq<Seq<char>>, n: int) -> Set<Seq<char>>
    decreases n,
{
    if n <= 0 {
        Set::empty()
    } else {
        let line = trimmed(ls[n - 1]);
        if counts(line) && condition_name(line) is Some {
            conditions(ls, n - 1).insert(condition_name(line)->0)
        } else {
            conditions(ls, n - 1)
        }
    }
}

/// What a configuration can produce.
pub struct Producible {
    /// Fields that a user would plausibly want to search: captures and assigned
    /// fields, without those that only serve as a later rule's condition.
    pub output_fields: FieldSet,
    /// Every capture and assigned field.
    pub all_fields: FieldSet,
}

/// Scans a configuration.
pub fn parse(content: &str) -> (r: Producible)
    ensures
        r.all_fields.wf(),
        r.output_fields.wf(),
        ({
            let ls = line_seq(content@);
            let n = ls.len() as int;
            &&& r.all_fields@ == produced(ls, n)
            &&& r.output_fields@ == Set::new(
                |f: Seq<char>|
                    produced(ls, n).contains(f) && !conditions(ls, n).contains(f) && !reserved(f),
            )
        }),
{
    let ls = lines(&to_chars(content));
    let ghost lv = line_seq(content@);
    let n: usize = ls.len();
    let mut all = FieldSet::new();
    let mut conds = FieldSet::new();
    let mut i: usize = 0;
    while i < n
        invariant
            n == ls@.len(),
            pieces(ls@) == lv,
            i <= n,
            all.wf(),
            conds.wf(),
            all@ == produced(lv, i as int),
            conds@ == conditions(lv, i as int),
        decreases n - i,
    {
        assert(lv[i as int] == ls@[i as int]@);
        let line = trim(&ls[i]);
        if line.len() > 0 && line[0] != '#' {
            insert_all(&mut all, &capture_names(&line));
            insert_all(&mut all, &set_line_names(&line));
            if let Some(k) = condition_line_name(&line) {
                conds.insert(k.as_str());
            }
        }
        i = i + 1;
    }
    assert(pieces(ls@).len() == n);
    let output = without(&all, &conds);
    Producible { output_fields: output, all_fields: all }
}

/// The names of a set that are in no other set and no grammar keys.
fn without(all: &FieldSet, conds: &FieldSet) -> (r: FieldSet)
    requires
        all.wf(),
        conds.wf(),
    ensures
        r.wf(),
        r@ == Set::new(
            |f: Seq<char>| all@.contains(f) && !conds@.contains(f) && !reserved(f),
        ),
{
    let ghost av = views(all.items@);
    let mut r = FieldSet::new();
    let mut i: usize = 0;
    while i < all.items.len()
        invariant
            i <= all.items@.len(),
            all.wf(),
            conds.wf(),
            av == views(all.items@),
            r.wf(),
            forall|f: Seq<char>| #[trigger]
                r@.contains(f) <==> av.take(i as int).contains(f) && !conds@.contains(f)
                    && !reserved(f),
        decreases all.items@.len() - i,
    {
        let f = &all.items[i];
        let ghost rv = r@;
        if !conds.contains(f.as_str()) && !is_reserved(f.as_str()) {
            r.insert(f.as_str());
        }
        proof {
            let t = av.take(i as int);
            let u = av.take(i + 1);
            assert(u =~= t.push(f@));
            assert forall|g: Seq<char>| #[trigger] r@.contains(g) <==> u.contains(g)
                && !conds@.contains(g) && !reserved(g) by {
                assert(rv.contains(g) <==> t.contains(g) && !conds@.contains(g) && !reserved(g));
                if t.contains(g) {
                    let k = choose|k: int| 0 <= k < t.len() && t[k] == g;
                    assert(u[k] == g);
                }
                if u.contains(g) && g != f@ {
                    let k = choose|k: int| 0 <= k < u.len() && u[k] == g;
                    assert(t[k] == g);
                }
                assert(u[i as int] == f@);
            }
        }
        i = i + 1;
    }
    assert(av.take(i as int) =~= av);
    assert(r@ =~= Set::new(
        |f: Seq<char>| all@.contains(f) && !conds@.contains(f) && !reserved(f),
    ));
    r
}

// ── Fields per source ────────────────────────────────────────────────────────

/// Field sets by source name, in ascending order of the names.
pub struct SourceFields {
    pub names: Vec<String>,
    pub sets: Vec<FieldSet>,
}

impl View for SourceFields {
    type V = Map<Seq<char>, Set<Seq<char>>>;

    open spec fn view(&self) -> Map<Seq<char>, Set<Seq<char>>> {
        let k = views(self.names@);
        Map::new(|s: Seq<char>| k.contains(s), |s: Seq<char>| self.sets@[k.index_of(s)]@)
    }
}

/// The fields of a source, none if it is not there.
pub open spec fn fields_of(m: Map<Seq<char>, Set<Seq<char>>>, name: Seq<char>) -> Set<Seq<char>> {
    if m.dom().contains(name) {
        m[name]
    } else {
        Set::empty()
    }
}

impl SourceFields {
    /// One set per name, and the names in ascending order.
    pub open spec fn wf(&self) -> bool {
        &&& self.names@.len() == self.sets@.len()
        &&& ascending(views(self.names@))
        &&& forall|i: int| 0 <= i < self.sets@.len() ==> (#[trigger] self.sets@[i]).wf()
    }

    /// No sources.
    pub fn new() -> (r: SourceFields)
        ensures
            r.wf(),
            r@ == Map::<Seq<char>, Set<Seq<char>>>::empty(),
    {
        let r = SourceFields { names: Vec::new(), sets: Vec::new() };
        assert(r@ =~= Map::<Seq<char>, Set<Seq<char>>>::empty());
        r
    }

    proof fn lemma_at(&self, a: int)
        requires
            self.wf(),
            0 <= a < self.names@.len(),
        ensures
            self@.dom().contains(views(self.names@)[a]),
            self@[views(self.names@)[a]] == self.sets@[a]@,
            views(self.names@).index_of(views(self.names@)[a]) == a,
    {
        let k = views(self.names@);
        assert(k.contains(k[a]));
        let b = k.index_of(k[a]);
        if a < b {
            text_lt_asymmetric(k[a], k[b]);
        } else if b < a {
            text_lt_asymmetric(k[b], k[a]);
        }
    }

    /// Where the source stands, or where it would be inserted.
    fn position(&self, name: &str) -> (r: (bool, usize))
        requires
            self.wf(),
        ensures
            r.1 <= self.names@.len(),
            forall|a: int| 0 <= a < r.1 ==> text_lt(#[trigger] views(self.names@)[a], name@),
            r.0 ==> r.1 < self.names@.len() && views(self.names@)[r.1 as int] == name@,
            !r.0 ==> forall|a: int|
                r.1 <= a < self.names@.len() ==> text_lt(name@, #[trigger] views(self.names@)[a]),
    {
        let ghost v = views(self.names@);
        let n: usize = self.names.len();
        let mut i: usize = 0;
        while i < n
            invariant
                n == self.names@.len(),
                v == views(self.names@),
                ascending(v),
                i <= n,
                forall|a: int| 0 <= a < i ==> text_lt(#[trigger] v[a], name@),
            decreases n - i,
        {
            assert(v[i as int] == self.names@[i as int]@);
            match compare_text(self.names[i].as_str(), name) {
                Rel::Less => {
                    i = i + 1;
                },
                Rel::Same => {
                    return (true, i);
                },
                Rel::Greater => {
                    assert forall|a: int| i <= a < v.len() implies text_lt(
                        name@,
                        #[trigger] v[a],
                    ) by {
                        if a > i {
                            text_lt_transitive(name@, v[i as int], v[a]);
                        }
                    }
                    return (false, i);
                },
            }
        }
        (false, n)
    }

    /// The position of a source's fields.
    pub fn find(&self, name: &str) -> (r: Option<usize>)
        requires
            self.wf(),
        ensures
            match r {
                Some(i) => i < self.names@.len() && self.names@[i as int]@ == name@
                    && self@.dom().contains(name@) && self@[name@] == self.sets@[i as int]@,
                None => !self@.dom().contains(name@),
            },
    {
        let (found, at) = self.position(name);
        proof {
            let k = views(self.names@);
            if found {
                self.lemma_at(at as int);
            } else if k.contains(name@) {
                let a = k.index_of(name@);
                text_lt_asymmetric(k[a], name@);
            }
        }
        if found {
            Some(at)
        } else {
            None
        }
    }

    /// Adds a source, if it is not there, and fields to it.
    pub fn add_fields(&mut self, name: &str, fields: &Vec<String>)
        requires
            old(self).wf(),
        ensures
            final(self).wf(),
            final(self)@ == old(self)@.insert(
                name@,
                fields_of(old(self)@, name@).union(views(fields@).to_set()),
            ),
    {
        let ghost k0 = views(self.names@);
        let ghost s0 = self.sets@;
        let (found, at) = self.position(name);
        let mut set = if found {
            proof {
                self.lemma_at(at as int);
            }
            self.names.remove(at);
            self.sets.remove(at)
        } else {
            proof {
                if k0.contains(name@) {
                    let a = k0.index_of(name@);
                    text_lt_asymmetric(k0[a], name@);
                }
            }
            FieldSet::new()
        };
        assert(set@ =~= fields_of(old(self)@, name@));
        let ghost k1 = views(self.names@);
        let ghost s1 = self.sets@;
        assert(found ==> k1 =~= k0.remove(at as int));
        insert_all(&mut set, fields);
        let ghost done = set@;
        self.names.insert(at, name.to_owned());
        self.sets.insert(at, set);
        proof {
            let k = views(self.names@);
            assert(k =~= k1.insert(at as int, name@));
            assert(self.sets@ =~= s1.insert(at as int, set));
            if found {
                assert(k =~= k0);
            }
            assert forall|a: int, b: int| 0 <= a < b < k.len() implies text_lt(
                #[trigger] k[a],
                #[trigger] k[b],
            ) by {
                if !found {
                    if a == at {
                        assert(k[b] == k0[b - 1]);
                    } else if b == at {
                        assert(k[a] == k0[a]);
                    } else {
                        assert(k[a] == k0[if a < at { a } else { a - 1 }]);
                        assert(k[b] == k0[if b < at { b } else { b - 1 }]);
                    }
                }
            }
            assert forall|i: int| 0 <= i < self.sets@.len() implies (#[trigger] self.sets@[i]).wf() by {
                if found {
                    if i != at {
                        assert(self.sets@[i] == s0[i]);
                    }
                } else if i < at {
                    assert(self.sets@[i] == s0[i]);
                } else if i > at {
                    assert(self.sets@[i] == s0[i - 1]);
                }
            }
            let target = old(self)@.insert(name@, done);
            assert forall|h: Seq<char>| #[trigger]
                target.dom().contains(h) <==> self@.dom().contains(h) by {
                if k.contains(h) {
                    let a = k.index_of(h);
                    if a != at {
                        if found {
                            assert(k0[a] == h);
                        } else {
                            assert(k0[if a < at { a } else { a - 1 }] == h);
                        }
                    }
                }
                if k0.contains(h) {
                    let a = k0.index_of(h);
                    if found {
                        assert(k[a] == h);
                    } else {
                        assert(k[if a < at { a } else { a + 1 }] == h);
                    }
                }
                assert(k[at as int] == name@);
            }
            assert forall|h: Seq<char>| self@.dom().contains(h) implies #[trigger] self@[h]
                == target[h] by {
                if h == name@ {
                    self.lemma_at(at as int);
                } else {
                    assert(k0.contains(h));
                    let a = k0.index_of(h);
                    old(self).lemma_at(a);
                    let b = if found || a < at {
                        a
                    } else {
                        a + 1
                    };
                    assert(k[b] == h);
                    self.lemma_at(b);
                }
            }
            assert(self@ =~= target);
        }
    }
}

/// The source that a line `app_name = "…"` names.
pub open spec fn app_in(line: Seq<char>) -> Option<Seq<char>> {
    match char_from(line, '=', 0) {
        Some(eq) => {
            let v = stripped(
                stripped(trimmed(line.subrange(eq + 1, line.len() as int)), '"'),
                '\'',
            );
            if v.len() > 0 {
                Some(v)
            } else {
                None
            }
        },
        None => None,
    }
}

/// The end of the braces of a line: its last closing brace, or its end.
pub open spec fn braces_end(line: Seq<char>) -> int {
    match last_char(line, '}', line.len() as int) {
        Some(i) => i,
        None => line.len() as int,
    }
}

/// The names of a list that are no grammar keys.
pub open spec fn free_names(v: Seq<Seq<char>>, n: int) -> Seq<Seq<char>>
    decreases n,
{
    if n <= 0 {
        Seq::empty()
    } else if !reserved(v[n - 1]) {
        free_names(v, n - 1).push(v[n - 1])
    } else {
        free_names(v, n - 1)
    }
}

/// The fields that a line gives its source: captures, and assigned fields up
/// to the last closing brace, without grammar keys.
pub open spec fn line_fields(line: Seq<char>) -> Seq<Seq<char>> {
    let c = captures_from(line, 0);
    let s = match char_from(line, '{', 0) {
        Some(open) => if has(line.subrange(0, open), "set"@) {
            keys_in(line.subrange(open + 1, braces_end(line)))
        } else {
            Seq::empty()
        },
        None => Seq::empty(),
    };
    free_names(c, c.len() as int) + free_names(s, s.len() as int)
}

/// Whether the braces of a line can be cut out: none closes before the first
/// one opens.
pub open spec fn line_is_scannable(line: Seq<char>) -> bool {
    match char_from(line, '{', 0) {
        Some(open) => has(line.subrange(0, open), "set"@) ==> open + 1 <= braces_end(line),
        None => true,
    }
}

/// The source in effect and the fields by source after the first `n` lines. A
/// new block `[[…]]` ends the source in effect.
pub open spec fn per_source(ls: Seq<Seq<char>>, n: int) -> (
    Option<Seq<char>>,
    Map<Seq<char>, Set<Seq<char>>>,
)
    decreases n,
{
    if n <= 0 {
        (None, Map::empty())
    } else {
        let (app, m) = per_source(ls, n - 1);
        let line = trimmed(ls[n - 1]);
        if !counts(line) {
            (app, m)
        } else if is_prefix("[["@, line) {
            (None, m)
        } else if is_prefix("app_name"@, line) {
            match app_in(line) {
                Some(a) => (Some(a), m),
                None => (app, m),
            }
        } else {
            match app {
                None => (app, m),
                Some(a) => if line_fields(line).len() == 0 {
                    (app, m)
                } else {
                    (app, m.insert(a, fields_of(m, a).union(line_fields(line).to_set())))
                },
            }
        }
    }
}

/// Whether a line's fields are asked for: it counts, is no header and no
/// `app_name` line, and a source is in effect.
pub open spec fn line_gives_fields(ls: Seq<Seq<char>>, i: int) -> bool {
    let line = trimmed(ls[i]);
    counts(line) && !is_prefix("[["@, line) && !is_prefix("app_name"@, line) && per_source(
        ls,
        i,
    ).0 is Some
}

/// Whether every line whose fields are asked for can be scanned.
pub open spec fn is_scannable(content: Seq<char>) -> bool {
    let ls = line_seq(content);
    forall|i: int|
        0 <= i < ls.len() && #[trigger] line_gives_fields(ls, i) ==> line_is_scannable(
            trimmed(ls[i]),
        )
}

fn is_line_scannable(line: &Vec<char>) -> (r: bool)
    ensures
        r == line_is_scannable(line@),
{
    let n: usize = line.len();
    if let Some(open) = find_char(line, '{', 0) {
        let head = string_from(line, 0, open);
        if crate::text::contains(head.as_str(), "set") {
            let end: usize = match rfind_char(line, '}') {
                Some(i) => i,
                None => n,
            };
            return open + 1 <= end;
        }
    }
    true
}

fn keep_free(v: &Vec<String>, r: &mut Vec<String>)
    ensures
        views(final(r)@) == views(old(r)@) + free_names(views(v@), v@.len() as int),
{
    let ghost start = views(r@);
    let mut i: usize = 0;
    assert(start + Seq::<Seq<char>>::empty() =~= start);
    while i < v.len()
        invariant
            i <= v@.len(),
            start == views(old(r)@),
            views(r@) == start + free_names(views(v@), i as int),
        decreases v@.len() - i,
    {
        let ghost before = views(r@);
        let ghost so_far = free_names(views(v@), i as int);
        assert(views(v@)[i as int] == v@[i as int]@);
        if !is_reserved(v[i].as_str()) {
            r.push(v[i].clone());
            assert(views(r@) =~= before.push(v@[i as int]@));
            assert(before.push(v@[i as int]@) =~= start + so_far.push(v@[i as int]@));
        }
        i = i + 1;
    }
}

fn fields_in_line(line: &Vec<char>) -> (r: Vec<String>)
    requires
        line_is_scannable(line@),
    ensures
        views(r@) == line_fields(line@),
{
    let n: usize = line.len();
    let mut r: Vec<String> = Vec::new();
    let caps = capture_names(line);
    assert(views(r@) + free_names(views(caps@), caps@.len() as int) =~= free_names(
        views(caps@),
        caps@.len() as int,
    ));
    assert(views(caps@).len() == caps@.len());
    keep_free(&caps, &mut r);
    let mut keys: Vec<String> = Vec::new();
    assert(views(keys@) =~= Seq::<Seq<char>>::empty());
    if let Some(open) = find_char(line, '{', 0) {
        let head = string_from(line, 0, open);
        if crate::text::contains(head.as_str(), "set") {
            let end: usize = match rfind_char(line, '}') {
                Some(i) => i,
                None => n,
            };
            keys = key_names(&piece(line, open + 1, end));
        }
    }
    assert(views(keys@).len() == keys@.len());
    keep_free(&keys, &mut r);
    r
}

/// Scans a configuration for the fields of each source; nothing when a line
/// whose fields are asked for cannot be scanned.
pub fn try_per_source(content: &str) -> (r: Option<SourceFields>)
    ensures
        match r {
            Some(f) => is_scannable(content@) && f.wf() && f@ == per_source(
                line_seq(content@),
                line_seq(content@).len() as int,
            ).1,
            None => !is_scannable(content@),
        },
{
    let ls = lines(&to_chars(content));
    let ghost lv = line_seq(content@);
    let n: usize = ls.len();
    let mut result = SourceFields::new();
    let mut app: Option<String> = None;
    let block = to_chars("[[");
    let key = to_chars("app_name");
    let mut i: usize = 0;
    while i < n
        invariant
            n == ls@.len(),
            pieces(ls@) == lv,
            lv == line_seq(content@),
            block@ == "[["@,
            key@ == "app_name"@,
            i <= n,
            result.wf(),
            per_source(lv, i as int) == (crate::text::opt_view(app), result@),
            forall|k: int|
                0 <= k < i && #[trigger] line_gives_fields(lv, k) ==> line_is_scannable(
                    trimmed(lv[k]),
                ),
        decreases n - i,
    {
        assert(lv[i as int] == ls@[i as int]@);
        let line = trim(&ls[i]);
        let m: usize = line.len();
        if line.len() > 0 && line[0] != '#' {
            if matches_at(&line, &block, 0) {
                app = None;
            } else if matches_at(&line, &key, 0) {
                if let Some(eq) = find_char(&line, '=', 0) {
                    let v = strip_both(&strip_both(&trim(&piece(&line, eq + 1, m)), '"'), '\'');
                    if v.len() > 0 {
                        app = Some(string_of(&v));
                    }
                }
            } else {
                match &app {
                    None => {},
                    Some(a) => {
                        assert(line_gives_fields(lv, i as int));
                        if !is_line_scannable(&line) {
                            assert(pieces(ls@).len() == n);
                            return None;
                        }
                        let fields = fields_in_line(&line);
                        assert(views(fields@).len() == fields@.len());
                        if fields.len() > 0 {
                            result.add_fields(a.as_str(), &fields);
                        }
                    },
                }
            }
        }
        i = i + 1;
    }
    assert(pieces(ls@).len() == n);
    Some(result)
}

/// Scans a configuration for the fields of each source.
pub fn parse_per_source(content: &str) -> (r: SourceFields)
    requires
        is_scannable(content@),
    ensures
        r.wf(),
        r@ == per_source(line_seq(content@), line_seq(content@).len() as int).1,
{
    match try_per_source(content) {
        Some(f) => f,
        None => SourceFields::new(),
    }
}

} // verus!
