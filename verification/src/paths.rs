//! Paths as text.
use vstd::prelude::*;

use crate::text::{ends_with, is_suffix, opt_view, same, string_from, to_chars, views};

verus! {

/// `part` below `base`: a slash between them unless `base` is empty or ends in
/// one; an absolute `part` stands for itself.
pub open spec fn joined_path(base: Seq<char>, part: Seq<char>) -> Seq<char> {
    if part.len() > 0 && part[0] == '/' {
        part
    } else if base.len() == 0 || base.last() == '/' {
        base + part
    } else {
        base.push('/') + part
    }
}

/// `part` below `base`.
pub fn join_path(base: &str, part: &str) -> (r: String)
    ensures
        r@ == joined_path(base@, part@),
{
    let b = to_chars(base);
    let p = to_chars(part);
    if p.len() > 0 && p[0] == '/' {
        return part.to_owned();
    }
    let mut r = base.to_owned();
    if b.len() > 0 && b[b.len() - 1] != '/' {
        r.push('/');
    }
    r.append(part);
    r
}

// ── Files ────────────────────────────────────────────────────────────────────

/// The name of a file without its extension `ext`, a dot and what follows it;
/// nothing for a file with another extension or with no name before it.
pub open spec fn stem(name: Seq<char>, ext: Seq<char>) -> Option<Seq<char>> {
    if name.len() > ext.len() && is_suffix(ext, name) {
        Some(name.take(name.len() - ext.len()))
    } else {
        None
    }
}

/// The name of a file without its extension.
pub fn file_stem(name: &str, ext: &str) -> (r: Option<String>)
    ensures
        opt_view(r) == stem(name@, ext@),
{
    let v = to_chars(name);
    let e = to_chars(ext);
    if v.len() > e.len() && ends_with(name, ext) {
        let s = string_from(&v, 0, v.len() - e.len());
        assert(s@ =~= name@.take(name@.len() - ext@.len()));
        Some(s)
    } else {
        None
    }
}

/// The files, among the first `n`, that have an extension.
pub open spec fn with_extension(names: Seq<Seq<char>>, ext: Seq<char>, n: int) -> Seq<Seq<char>>
    decreases n,
{
    if n <= 0 {
        Seq::empty()
    } else if stem(names[n - 1], ext) is Some {
        with_extension(names, ext, n - 1).push(names[n - 1])
    } else {
        with_extension(names, ext, n - 1)
    }
}

/// The files that have an extension.
pub fn files_with_extension(names: &Vec<String>, ext: &str) -> (r: Vec<String>)
    ensures
        views(r@) == with_extension(views(names@), ext@, names@.len() as int),
{
    let ghost nv = views(names@);
    let mut r: Vec<String> = Vec::new();
    let mut i: usize = 0;
    assert(views(r@) =~= Seq::<Seq<char>>::empty());
    while i < names.len()
        invariant
            i <= names@.len(),
            nv == views(names@),
            views(r@) == with_extension(nv, ext@, i as int),
        decreases names@.len() - i,
    {
        if file_stem(names[i].as_str(), ext).is_some() {
            let ghost before = views(r@);
            r.push(names[i].clone());
            assert(views(r@) =~= before.push(nv[i as int]));
        }
        i = i + 1;
    }
    r
}

/// Whether a file holds events, of a source if one is asked for.
pub open spec fn holds_events(name: Seq<char>, source: Option<Seq<char>>) -> bool {
    match stem(name, ".jsonl"@) {
        Some(s) => source matches Some(x) ==> s == x,
        None => false,
    }
}

/// Whether a file holds events, of a source if one is asked for: `<source>.jsonl`.
pub fn is_event_file(name: &str, source: &Option<String>) -> (r: bool)
    ensures
        r == holds_events(name@, opt_view(*source)),
{
    match file_stem(name, ".jsonl") {
        Some(s) => match source {
            Some(x) => same(s.as_str(), x.as_str()),
            None => true,
        },
        None => false,
    }
}

} // verus!
