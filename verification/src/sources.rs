//! Which fields the index holds, by `sources.toml`.
use vstd::prelude::*;

use crate::collections::{insert_all, FieldSet};
use crate::normconfig::{counts, fields_of, SourceFields};
use crate::text::{char_from, find_char, is_prefix, line_seq, lines, matches_at, pieces};
use crate::text::{opt_view, string_from, to_chars, trim, trimmed, views};

verus! {

/// The non-empty quoted strings of a line from position `from` on.
pub open spec fn quoted_from(s: Seq<char>, from: int) -> Seq<Seq<char>>
    decreases s.len() - from,
{
    match char_from(s, '"', from) {
        None => Seq::empty(),
        Some(i) => match char_from(s, '"', i + 1) {
            None => Seq::empty(),
            Some(j) => if from <= i < j < s.len() {
                let rest = quoted_from(s, j + 1);
                if i + 1 < j {
                    seq![s.subrange(i + 1, j)] + rest
                } else {
                    rest
                }
            } else {
                Seq::empty()
            },
        },
    }
}

/// Whether a line begins a list of index fields.
pub open spec fn begins_list(line: Seq<char>) -> bool {
    is_prefix("index_fields"@, line) && char_from(line, '=', 0) is Some
}

/// Whether a list is open behind the first `n` lines, and the fields listed in
/// them.
pub open spec fn listed(ls: Seq<Seq<char>>, n: int) -> (bool, Set<Seq<char>>)
    decreases n,
{
    if n <= 0 {
        (false, Set::empty())
    } else {
        let (open, fields) = listed(ls, n - 1);
        let line = trimmed(ls[n - 1]);
        if !counts(line) {
            (open, fields)
        } else if open || begins_list(line) {
            (
                char_from(line, ']', 0) is None,
                fields.union(quoted_from(line, 0).to_set()),
            )
        } else {
            (open, fields)
        }
    }
}

pub(crate) fn quoted_names(line: &Vec<char>) -> (r: Vec<String>)
    ensures
        views(r@) == quoted_from(line@, 0),
{
    let n: usize = line.len();
    let mut r: Vec<String> = Vec::new();
    let mut from: usize = 0;
    assert(views(r@) + quoted_from(line@, 0) =~= quoted_from(line@, 0));
    loop
        invariant
            n == line@.len(),
            from <= n,
            quoted_from(line@, 0) == views(r@) + quoted_from(line@, from as int),
        decreases n - from,
    {
        let ghost before = views(r@);
        match find_char(line, '"', from) {
            None => {
                assert(before + Seq::<Seq<char>>::empty() =~= before);
                return r;
            },
            Some(i) => match find_char(line, '"', i + 1) {
                None => {
                    assert(before + Seq::<Seq<char>>::empty() =~= before);
                    return r;
                },
                Some(j) => {
                    let ghost rest = quoted_from(line@, j + 1);
                    if i + 1 < j {
                        let f = string_from(line, i + 1, j);
                        r.push(f);
                        assert(views(r@) =~= before.push(f@));
                        assert(before + (seq![f@] + rest) =~= views(r@) + rest);
                    }
                    from = j + 1;
                },
            },
        }
    }
}

/// The fields that a configuration lists in its `index_fields`, without the
/// core fields.
pub fn load_index_fields(content: &str) -> (r: FieldSet)
    ensures
        r.wf(),
        r@ == listed(line_seq(content@), line_seq(content@).len() as int).1,
{
    let ls = lines(&to_chars(content));
    let ghost lv = line_seq(content@);
    let n: usize = ls.len();
    let head = to_chars("index_fields");
    let mut fields = FieldSet::new();
    let mut in_array = false;
    let mut i: usize = 0;
    while i < n
        invariant
            n == ls@.len(),
            pieces(ls@) == lv,
            head@ == "index_fields"@,
            i <= n,
            fields.wf(),
            listed(lv, i as int) == (in_array, fields@),
        decreases n - i,
    {
        assert(lv[i as int] == ls@[i as int]@);
        let line = trim(&ls[i]);
        if line.len() > 0 && line[0] != '#' {
            if matches_at(&line, &head, 0) && find_char(&line, '=', 0).is_some() {
                in_array = true;
            }
            if in_array {
                insert_all(&mut fields, &quoted_names(&line));
                if find_char(&line, ']', 0).is_some() {
                    in_array = false;
                }
            }
        }
        i = i + 1;
    }
    assert(pieces(ls@).len() == n);
    fields
}

/// The fields that every bucket holds.
pub open spec fn core_names() -> Set<Seq<char>> {
    set![
        "timestamp"@,
        "source"@,
        "src_ip"@,
        "dst_ip"@,
        "src_port"@,
        "dst_port"@,
        "event_type"@,
        "username"@,
        "severity"@,
    ]
}

/// The fields that every bucket holds, whatever the configuration lists: always
/// searchable, never missing from the index.
pub fn always_valid() -> (r: FieldSet)
    ensures
        r.wf(),
        r@ == core_names(),
{
    let mut f = FieldSet::new();
    f.insert("timestamp");
    f.insert("source");
    f.insert("src_ip");
    f.insert("dst_ip");
    f.insert("src_port");
    f.insert("dst_port");
    f.insert("event_type");
    f.insert("username");
    f.insert("severity");
    assert(f@ =~= core_names());
    f
}

/// The fields that a search can name: the core fields and those that the
/// configuration lists.
pub fn load_valid_fields(content: &str) -> (r: FieldSet)
    ensures
        r.wf(),
        r@ == core_names().union(
            listed(line_seq(content@), line_seq(content@).len() as int).1,
        ),
{
    let mut fields = always_valid();
    let listed = load_index_fields(content);
    insert_all(&mut fields, &listed.items);
    fields
}

// ── Fields per source ────────────────────────────────────────────────────────

/// The source that a line `[source.NAME]` begins; nothing where its bracket is
/// missing.
pub open spec fn source_header(line: Seq<char>) -> Option<Seq<char>> {
    if line.len() > 8 && line.last() == ']' {
        Some(line.subrange(8, line.len() - 1))
    } else {
        None
    }
}

/// The source in effect, whether a list is open, and the fields by source,
/// behind the first `n` lines.
pub open spec fn listed_by_source(ls: Seq<Seq<char>>, n: int) -> (
    Option<Seq<char>>,
    bool,
    Map<Seq<char>, Set<Seq<char>>>,
)
    decreases n,
{
    if n <= 0 {
        (None, false, Map::empty())
    } else {
        let (src, open, m) = listed_by_source(ls, n - 1);
        let line = trimmed(ls[n - 1]);
        if !counts(line) {
            (src, open, m)
        } else if is_prefix("[source."@, line) {
            match source_header(line) {
                Some(name) => (Some(name), false, m.insert(name, fields_of(m, name))),
                None => (None, false, m),
            }
        } else if open || begins_list(line) {
            (
                src,
                char_from(line, ']', 0) is None,
                match src {
                    Some(name) => m.insert(
                        name,
                        fields_of(m, name).union(quoted_from(line, 0).to_set()),
                    ),
                    None => m,
                },
            )
        } else {
            (src, open, m)
        }
    }
}

/// The fields that a configuration lists for each source, core fields aside. A
/// source without a list is there with no fields.
pub fn load_per_source_fields(content: &str) -> (r: SourceFields)
    ensures
        r.wf(),
        r@ == listed_by_source(line_seq(content@), line_seq(content@).len() as int).2,
{
    let ls = lines(&to_chars(content));
    let ghost lv = line_seq(content@);
    let n: usize = ls.len();
    let list = to_chars("index_fields");
    let head = to_chars("[source.");
    proof {
        reveal_strlit("[source.");
    }
    let none: Vec<String> = Vec::new();
    assert(views(none@).to_set() =~= Set::<Seq<char>>::empty());
    let mut result = SourceFields::new();
    let mut src: Option<String> = None;
    let mut in_array = false;
    let mut i: usize = 0;
    while i < n
        invariant
            n == ls@.len(),
            pieces(ls@) == lv,
            list@ == "index_fields"@,
            head@ == "[source."@,
            head@.len() == 8,
            views(none@).to_set() == Set::<Seq<char>>::empty(),
            i <= n,
            result.wf(),
            listed_by_source(lv, i as int) == (opt_view(src), in_array, result@),
        decreases n - i,
    {
        assert(lv[i as int] == ls@[i as int]@);
        let line = trim(&ls[i]);
        let m: usize = line.len();
        if m > 0 && line[0] != '#' {
            if matches_at(&line, &head, 0) {
                in_array = false;
                if m > 8 && line[m - 1] == ']' {
                    let name = string_from(&line, 8, m - 1);
                    let ghost before = fields_of(result@, name@);
                    result.add_fields(name.as_str(), &none);
                    assert(before.union(Set::empty()) =~= before);
                    src = Some(name);
                } else {
                    src = None;
                }
            } else {
                if matches_at(&line, &list, 0) && find_char(&line, '=', 0).is_some() {
                    in_array = true;
                }
                if in_array {
                    if let Some(name) = &src {
                        result.add_fields(name.as_str(), &quoted_names(&line));
                    }
                    if find_char(&line, ']', 0).is_some() {
                        in_array = false;
                    }
                }
            }
        }
        i = i + 1;
    }
    assert(pieces(ls@).len() == n);
    result
}

} // verus!
