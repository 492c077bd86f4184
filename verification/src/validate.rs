//! Checks of the configuration: the sources' index fields, the Sigma rules, and
//! whether the fields that are produced are those that are indexed.
use vstd::prelude::*;

use crate::collections::{ascending_list, FieldSet};
use crate::normconfig::Producible;
use crate::number::{dec, dec_u64};
use crate::order::{sort_texts, sorted_texts};
use crate::paths::{file_stem, stem};
use crate::sources::{always_valid, core_names, quoted_from, quoted_names};
use crate::text::{contains, has, is_prefix, join, joined, line_seq, lines, pieces, string_from};
use crate::text::{to_chars, trim, trim_start, trimmed, trimmed_start, views};

verus! {

// ── Sources ──────────────────────────────────────────────────────────────────

/// A source with the fields that its list names.
#[derive(Debug)]
pub struct Listed {
    pub name: String,
    pub fields: Vec<String>,
}

/// The models of sources with their fields.
pub open spec fn listed_views(v: Seq<Listed>) -> Seq<(Seq<char>, Seq<Seq<char>>)> {
    v.map_values(|l: Listed| (l.name@, views(l.fields@)))
}

/// A line that opens a source, with the source's name; a line that does not close
/// its bracket opens one without a name.
pub open spec fn opened(line: Seq<char>) -> Option<Option<Seq<char>>> {
    if !is_prefix("[source."@, line) {
        None
    } else if line.last() == ']' {
        Some(Some(line.subrange(8, line.len() - 1)))
    } else {
        Some(None)
    }
}

/// The sources with their fields, and the one that is still open, after the first
/// `n` lines.
pub open spec fn scanned(ls: Seq<Seq<char>>, n: int) -> (
    Seq<(Seq<char>, Seq<Seq<char>>)>,
    Option<Seq<char>>,
    Seq<Seq<char>>,
)
    decreases n,
{
    if n <= 0 {
        (seq![], None, seq![])
    } else {
        let (done, name, fields) = scanned(ls, n - 1);
        let line = trimmed(ls[n - 1]);
        if line.len() == 0 || line[0] == '#' {
            (done, name, fields)
        } else {
            match opened(line) {
                Some(next) => (closed_source(done, name, fields), next, seq![]),
                None => if is_prefix("index_fields"@, line) {
                    (done, name, fields + quoted_from(line, 0))
                } else {
                    (done, name, fields)
                },
            }
        }
    }
}

/// The sources after the open one was closed.
pub open spec fn closed_source(
    done: Seq<(Seq<char>, Seq<Seq<char>>)>,
    name: Option<Seq<char>>,
    fields: Seq<Seq<char>>,
) -> Seq<(Seq<char>, Seq<Seq<char>>)> {
    match name {
        Some(n) => done.push((n, fields)),
        None => done,
    }
}

/// The sources of a configuration with their fields, in order.
pub open spec fn sources_in(ls: Seq<Seq<char>>) -> Seq<(Seq<char>, Seq<Seq<char>>)> {
    let s = scanned(ls, ls.len() as int);
    closed_source(s.0, s.1, s.2)
}

fn close_source(done: &mut Vec<Listed>, name: Option<String>, fields: Vec<String>)
    ensures
        listed_views(final(done)@) == closed_source(
            listed_views(old(done)@),
            crate::text::opt_view(name),
            views(fields@),
        ),
{
    let ghost before = listed_views(done@);
    let ghost fv = views(fields@);
    if let Some(n) = name {
        let ghost nv = n@;
        done.push(Listed { name: n, fields });
        assert(listed_views(done@) =~= before.push((nv, fv)));
    }
}

fn append_all(fields: &mut Vec<String>, more: Vec<String>)
    ensures
        views(final(fields)@) == views(old(fields)@) + views(more@),
{
    let ghost start = views(fields@);
    let ghost mv = views(more@);
    let mut i: usize = 0;
    assert(start + mv.take(0) =~= start);
    while i < more.len()
        invariant
            i <= more@.len(),
            mv == views(more@),
            views(fields@) == start + mv.take(i as int),
        decreases more@.len() - i,
    {
        let ghost before = views(fields@);
        fields.push(more[i].clone());
        assert(views(fields@) =~= before.push(mv[i as int]));
        assert(mv.take(i + 1) =~= mv.take(i as int).push(mv[i as int]));
        assert(start + mv.take(i + 1) =~= (start + mv.take(i as int)).push(mv[i as int]));
        i = i + 1;
    }
    assert(mv.take(i as int) =~= mv);
}

/// The sources of a configuration with the fields that their lists name. Lists
/// are read on one line only.
pub fn scan_sources(content: &str) -> (r: Vec<Listed>)
    ensures
        listed_views(r@) == sources_in(line_seq(content@)),
{
    let ls = lines(&to_chars(content));
    let ghost lv = line_seq(content@);
    let n: usize = ls.len();
    assert(pieces(ls@).len() == n);
    let mut done: Vec<Listed> = Vec::new();
    let mut name: Option<String> = None;
    let mut fields: Vec<String> = Vec::new();
    let head = to_chars("[source.");
    let list = to_chars("index_fields");
    let mut i: usize = 0;
    proof {
        assert(listed_views(done@) =~= Seq::<(Seq<char>, Seq<Seq<char>>)>::empty());
        assert(views(fields@) =~= Seq::<Seq<char>>::empty());
        reveal_strlit("[source.");
    }
    while i < n
        invariant
            n == ls@.len(),
            pieces(ls@) == lv,
            head@ == "[source."@,
            head@.len() == 8,
            list@ == "index_fields"@,
            i <= n,
            scanned(lv, i as int) == (
                listed_views(done@),
                crate::text::opt_view(name),
                views(fields@),
            ),
        decreases n - i,
    {
        assert(lv[i as int] == ls@[i as int]@);
        let line = trim(&ls[i]);
        let m: usize = line.len();
        if m > 0 && line[0] != '#' {
            if crate::text::matches_at(&line, &head, 0) {
                close_source(&mut done, name, fields);
                if line[m - 1] == ']' {
                    assert(m > 8) by {
                        if m == 8 {
                            reveal_strlit("[source.");
                            assert(line@.subrange(0, 8)[7] == "[source."@[7]);
                        }
                    }
                    name = Some(string_from(&line, 8, m - 1));
                } else {
                    name = None;
                }
                fields = Vec::new();
                assert(views(fields@) =~= Seq::<Seq<char>>::empty());
            } else if crate::text::matches_at(&line, &list, 0) {
                append_all(&mut fields, quoted_names(&line));
            }
        }
        i = i + 1;
    }
    close_source(&mut done, name, fields);
    done
}

/// The lines of the first `n` sources that have fields.
pub open spec fn source_lines(v: Seq<(Seq<char>, Seq<Seq<char>>)>, n: int) -> Seq<char>
    decreases n,
{
    if n <= 0 {
        Seq::empty()
    } else if v[n - 1].1.len() == 0 {
        source_lines(v, n - 1)
    } else {
        source_lines(v, n - 1) + "  OK   ["@ + v[n - 1].0 + "] index_fields: ["@ + joined(
            v[n - 1].1,
            ", "@,
        ) + "]\n"@
    }
}

/// The warnings of the first `n` sources that have none.
pub open spec fn source_warnings(v: Seq<(Seq<char>, Seq<Seq<char>>)>, n: int) -> Seq<char>
    decreases n,
{
    if n <= 0 {
        Seq::empty()
    } else if v[n - 1].1.len() == 0 {
        source_warnings(v, n - 1) + "  WARN ["@ + v[n - 1].0 + "] no index_fields defined\n"@
    } else {
        source_warnings(v, n - 1)
    }
}

/// What a check tells, and how many errors it found.
#[derive(Debug)]
pub struct Findings {
    pub told: String,
    pub warned: String,
    pub errors: usize,
}

/// The check of a configuration's sources.
pub fn check_sources(content: &str) -> (r: Findings)
    ensures
        ({
            let v = sources_in(line_seq(content@));
            let n = v.len() as int;
            &&& r.told@ == source_lines(v, n) + if n == 0 {
                Seq::empty()
            } else {
                "  Total: "@ + dec(n as nat) + " source(s)\n"@
            }
            &&& r.warned@ == source_warnings(v, n) + if n == 0 {
                "  ERROR: no [source.*] entries found\n"@
            } else {
                Seq::empty()
            }
            &&& r.errors == if n == 0 {
                1int
            } else {
                0
            }
        }),
{
    let found = scan_sources(content);
    let ghost v = sources_in(line_seq(content@));
    let n: usize = found.len();
    assert(v.len() == n);
    let mut told = String::new();
    let mut warned = String::new();
    let mut i: usize = 0;
    proof {
        assert(told@ =~= Seq::<char>::empty());
        assert(warned@ =~= Seq::<char>::empty());
    }
    while i < n
        invariant
            n == found@.len(),
            v == listed_views(found@),
            i <= n,
            told@ == source_lines(v, i as int),
            warned@ == source_warnings(v, i as int),
        decreases n - i,
    {
        assert(v[i as int] == (found@[i as int].name@, views(found@[i as int].fields@)));
        assert(views(found@[i as int].fields@).len() == found@[i as int].fields@.len());
        if found[i].fields.len() == 0 {
            warned.append("  WARN [");
            warned.append(found[i].name.as_str());
            warned.append("] no index_fields defined\n");
        } else {
            told.append("  OK   [");
            told.append(found[i].name.as_str());
            told.append("] index_fields: [");
            told.append(join(&found[i].fields, ", ").as_str());
            told.append("]\n");
        }
        i = i + 1;
    }
    if n == 0 {
        warned.append("  ERROR: no [source.*] entries found\n");
        assert(told@ + Seq::<char>::empty() =~= told@);
        Findings { told, warned, errors: 1 }
    } else {
        let mut total = "  Total: ".to_owned();
        total.append(dec_u64(n as u64).as_str());
        total.append(" source(s)\n");
        told.append(total.as_str());
        assert(warned@ + Seq::<char>::empty() =~= warned@);
        Findings { told, warned, errors: 0 }
    }
}

// ── Sigma rules ──────────────────────────────────────────────────────────────

/// Whether a line gives a value under a key at its beginning.
pub open spec fn gives(line: Seq<char>, key: Seq<char>) -> bool {
    let t = trimmed_start(line);
    is_prefix(key, t) && trimmed(t.skip(key.len() as int)).len() > 0
}

/// Whether one of the first `n` lines gives a value under a key.
pub open spec fn has_key(ls: Seq<Seq<char>>, key: Seq<char>, n: int) -> bool {
    exists|i: int| 0 <= i < n && gives(#[trigger] ls[i], key)
}

/// Whether a line is an indented condition.
pub open spec fn is_condition(line: Seq<char>) -> bool {
    (is_prefix("  "@, line) || (line.len() > 0 && line[0] == '\t')) && is_prefix(
        "condition:"@,
        trimmed_start(line),
    )
}

/// Whether one of the first `n` lines is an indented condition.
pub open spec fn has_condition(ls: Seq<Seq<char>>, n: int) -> bool {
    exists|i: int| 0 <= i < n && is_condition(#[trigger] ls[i])
}

/// What a rule lacks.
pub open spec fn issues_of(content: Seq<char>) -> Seq<Seq<char>> {
    let ls = line_seq(content);
    let n = ls.len() as int;
    let a = if has_key(ls, "id:"@, n) {
        Seq::empty()
    } else {
        seq!["missing 'id' field"@]
    };
    let b = if has_key(ls, "title:"@, n) {
        a
    } else {
        a.push("missing 'title' field"@)
    };
    if has(content, "detection:"@) {
        if has_condition(ls, n) {
            b
        } else {
            b.push("missing 'condition' inside detection block"@)
        }
    } else {
        b.push("missing 'detection' block"@)
    }
}

fn line_gives(line: &Vec<char>, key: &Vec<char>) -> (r: bool)
    ensures
        r == gives(line@, key@),
{
    let t = trim_start(line);
    let k: usize = key.len();
    let n: usize = t.len();
    if k > n || !crate::text::matches_at(&t, key, 0) {
        return false;
    }
    let rest = crate::text::piece(&t, k, n);
    assert(rest@ =~= t@.skip(k as int));
    trim(&rest).len() > 0
}

fn any_gives(ls: &Vec<Vec<char>>, key: &str) -> (r: bool)
    ensures
        r == has_key(pieces(ls@), key@, ls@.len() as int),
{
    let k = to_chars(key);
    let ghost lv = pieces(ls@);
    let mut i: usize = 0;
    while i < ls.len()
        invariant
            i <= ls@.len(),
            lv == pieces(ls@),
            k@ == key@,
            !has_key(lv, key@, i as int),
        decreases ls@.len() - i,
    {
        assert(lv[i as int] == ls@[i as int]@);
        if line_gives(&ls[i], &k) {
            return true;
        }
        i = i + 1;
    }
    false
}

fn any_condition(ls: &Vec<Vec<char>>) -> (r: bool)
    ensures
        r == has_condition(pieces(ls@), ls@.len() as int),
{
    let two = to_chars("  ");
    let cond = to_chars("condition:");
    let ghost lv = pieces(ls@);
    let mut i: usize = 0;
    while i < ls.len()
        invariant
            i <= ls@.len(),
            lv == pieces(ls@),
            two@ == "  "@,
            cond@ == "condition:"@,
            !has_condition(lv, i as int),
        decreases ls@.len() - i,
    {
        let line = &ls[i];
        assert(lv[i as int] == line@);
        if crate::text::matches_at(line, &two, 0) || (line.len() > 0 && line[0] == '\t') {
            let t = trim_start(line);
            if crate::text::matches_at(&t, &cond, 0) {
                return true;
            }
        }
        i = i + 1;
    }
    false
}

/// What a rule lacks: an id, a title, a detection, or a condition in that.
pub fn validate_sigma_rule(content: &str) -> (r: Vec<String>)
    ensures
        views(r@) == issues_of(content@),
{
    let ls = lines(&to_chars(content));
    assert(pieces(ls@).len() == ls@.len());
    let mut r: Vec<String> = Vec::new();
    assert(views(r@) =~= Seq::<Seq<char>>::empty());
    if !any_gives(&ls, "id:") {
        r.push("missing 'id' field".to_owned());
        assert(views(r@) =~= seq!["missing 'id' field"@]);
    }
    let ghost a = views(r@);
    if !any_gives(&ls, "title:") {
        r.push("missing 'title' field".to_owned());
        assert(views(r@) =~= a.push("missing 'title' field"@));
    }
    let ghost b = views(r@);
    if !contains(content, "detection:") {
        r.push("missing 'detection' block".to_owned());
        assert(views(r@) =~= b.push("missing 'detection' block"@));
    } else if !any_condition(&ls) {
        r.push("missing 'condition' inside detection block".to_owned());
        assert(views(r@) =~= b.push("missing 'condition' inside detection block"@));
    }
    r
}

/// Whether a line gives a deprecated status.
pub open spec fn deprecates(line: Seq<char>) -> bool {
    let t = trimmed(line);
    is_prefix("status:"@, t) && has(t, "deprecated"@)
}

/// Whether one of the first `n` lines gives a deprecated status.
pub open spec fn any_deprecates(ls: Seq<Seq<char>>, n: int) -> bool {
    exists|i: int| 0 <= i < n && deprecates(#[trigger] ls[i])
}

/// Whether a rule is deprecated.
pub fn is_sigma_deprecated(content: &str) -> (r: bool)
    ensures
        r == any_deprecates(line_seq(content@), line_seq(content@).len() as int),
{
    let ls = lines(&to_chars(content));
    let ghost lv = line_seq(content@);
    let n: usize = ls.len();
    assert(pieces(ls@).len() == n);
    let status = to_chars("status:");
    let mut i: usize = 0;
    while i < n
        invariant
            n == ls@.len(),
            pieces(ls@) == lv,
            lv == line_seq(content@),
            lv.len() == n,
            status@ == "status:"@,
            i <= n,
            !any_deprecates(lv, i as int),
        decreases n - i,
    {
        assert(lv[i as int] == ls@[i as int]@);
        let t = trim(&ls[i]);
        let s = crate::text::string_of(&t);
        if crate::text::matches_at(&t, &status, 0) && contains(s.as_str(), "deprecated") {
            return true;
        }
        i = i + 1;
    }
    false
}

/// The errors of the first `n` issues.
pub open spec fn issue_lines(name: Seq<char>, issues: Seq<Seq<char>>, n: int) -> Seq<char>
    decreases n,
{
    if n <= 0 {
        Seq::empty()
    } else {
        issue_lines(name, issues, n - 1) + "  ERROR ["@ + name + "] "@ + issues[n - 1] + "\n"@
    }
}

/// What the check of a rule tells, and whether it is deprecated.
pub fn check_rule(name: &str, content: &str) -> (r: (Findings, bool))
    ensures
        ({
            let issues = issues_of(content@);
            let old = any_deprecates(line_seq(content@), line_seq(content@).len() as int);
            &&& r.0.errors == issues.len()
            &&& r.0.warned@ == issue_lines(name@, issues, issues.len() as int)
            &&& r.0.told@ == if issues.len() > 0 {
                Seq::empty()
            } else if old {
                "  SKIP ["@ + name@ + "] deprecated\n"@
            } else {
                "  OK   ["@ + name@ + "]\n"@
            }
            &&& r.1 == (issues.len() == 0 && old)
        }),
{
    let issues = validate_sigma_rule(content);
    let old = is_sigma_deprecated(content);
    let ghost iv = views(issues@);
    let n: usize = issues.len();
    assert(iv.len() == n);
    let mut warned = String::new();
    let mut told = String::new();
    proof {
        assert(warned@ =~= Seq::<char>::empty());
        assert(told@ =~= Seq::<char>::empty());
    }
    let mut i: usize = 0;
    while i < n
        invariant
            n == issues@.len(),
            iv == views(issues@),
            i <= n,
            warned@ == issue_lines(name@, iv, i as int),
        decreases n - i,
    {
        warned.append("  ERROR [");
        warned.append(name);
        warned.append("] ");
        warned.append(issues[i].as_str());
        warned.append("\n");
        i = i + 1;
    }
    if n == 0 {
        if old {
            told = "  SKIP [".to_owned();
            told.append(name);
            told.append("] deprecated\n");
        } else {
            told = "  OK   [".to_owned();
            told.append(name);
            told.append("]\n");
        }
    }
    (Findings { told, warned, errors: n }, n == 0 && old)
}

/// The rules among the first `n` files: `.yml` and `.yaml`.
pub open spec fn rules_among(names: Seq<Seq<char>>, n: int) -> Seq<Seq<char>>
    decreases n,
{
    if n <= 0 {
        Seq::empty()
    } else if stem(names[n - 1], ".yml"@) is Some || stem(names[n - 1], ".yaml"@) is Some {
        rules_among(names, n - 1).push(names[n - 1])
    } else {
        rules_among(names, n - 1)
    }
}

/// The rules among the files of a directory, in ascending order.
pub fn rule_files(names: &Vec<String>) -> (r: Vec<String>)
    ensures
        views(r@) == sorted_texts(rules_among(views(names@), names@.len() as int)),
{
    let ghost nv = views(names@);
    let mut found: Vec<String> = Vec::new();
    let mut i: usize = 0;
    assert(views(found@) =~= Seq::<Seq<char>>::empty());
    while i < names.len()
        invariant
            i <= names@.len(),
            nv == views(names@),
            views(found@) == rules_among(nv, i as int),
        decreases names@.len() - i,
    {
        let name = names[i].as_str();
        if file_stem(name, ".yml").is_some() || file_stem(name, ".yaml").is_some() {
            let ghost before = views(found@);
            found.push(names[i].clone());
            assert(views(found@) =~= before.push(nv[i as int]));
        }
        i = i + 1;
    }
    sort_texts(&found)
}

/// The end of a validation, and the exit code.
pub fn validation_summary(files: usize, errors: usize, warnings: usize) -> (r: (String, i32))
    ensures
        r.0@ == "\nValidation complete: "@ + dec(files as nat) + " rule file(s), "@ + dec(
            errors as nat,
        ) + " error(s), "@ + dec(warnings as nat) + " warning(s).\n"@,
        r.1 == if errors > 0 {
            1int
        } else {
            0
        },
{
    let mut r = "\nValidation complete: ".to_owned();
    r.append(dec_u64(files as u64).as_str());
    r.append(" rule file(s), ");
    r.append(dec_u64(errors as u64).as_str());
    r.append(" error(s), ");
    r.append(dec_u64(warnings as u64).as_str());
    r.append(" warning(s).\n");
    (
        r,
        if errors > 0 {
            1
        } else {
            0
        },
    )
}

// ── Produced against indexed ─────────────────────────────────────────────────

/// The findings of one direction of the comparison.
pub open spec fn direction_text(
    out: Seq<char>,
    names: Seq<Seq<char>>,
    fine: Seq<char>,
    warning: Seq<char>,
    advice: Seq<char>,
) -> Seq<char> {
    if names.len() == 0 {
        out + fine
    } else {
        out + warning + dec(names.len()) + "):\n         "@ + joined(names, ", "@) + advice
    }
}

/// The comparison of the fields that are produced with those that are indexed.
pub open spec fn crosscheck_text(
    output: Set<Seq<char>>,
    all: Set<Seq<char>>,
    declared: Set<Seq<char>>,
) -> Seq<char> {
    let a = "  declared index_fields (union): "@ + dec(ascending_list(declared).len())
        + "\n  producible output fields:      "@ + dec(ascending_list(output).len()) + "\n"@;
    let b = direction_text(
        a,
        ascending_list(output.difference(declared.union(core_names()))),
        "  OK   every producible output field is indexed (or is a core field)\n"@,
        "  WARN produced but indexed by no source ("@,
        "\n       → add to a source's index_fields in sources.toml to search/group on them\n"@,
    );
    direction_text(
        b,
        ascending_list(declared.difference(all.union(core_names()))),
        "  OK   every declared index_field is produced by a rule (or is a core field)\n"@,
        "  WARN index_fields not produced by any normalized.toml rule ("@,
        "\n       → check for a typo, or a field supplied by a structured-format\n         parser (CEF/LEEF/JSON) that this config scan can't see\n"@,
    ) + "  (advisory — these findings do not affect the exit code)\n"@
}

fn write_direction(out: &mut String, names: &Vec<String>, fine: &str, warning: &str, advice: &str)
    ensures
        final(out)@ == direction_text(old(out)@, views(names@), fine@, warning@, advice@),
{
    assert(views(names@).len() == names@.len());
    if names.len() == 0 {
        out.append(fine);
    } else {
        out.append(warning);
        out.append(dec_u64(names.len() as u64).as_str());
        out.append("):\n         ");
        out.append(join(names, ", ").as_str());
        out.append(advice);
    }
}

/// The names that are in neither of two sets besides.
fn names_beyond(a: &FieldSet, b: &FieldSet, core: &FieldSet) -> (r: Vec<String>)
    requires
        a.wf(),
        b.wf(),
        core.wf(),
    ensures
        views(r@) == ascending_list(a@.difference(b@.union(core@))),
{
    let mut known = FieldSet::new();
    crate::collections::insert_all(&mut known, &b.items);
    crate::collections::insert_all(&mut known, &core.items);
    proof {
        assert(known@ =~= b@.union(core@));
    }
    let r = crate::digest::names_only_in(a, &known);
    proof {
        crate::collections::ascending_is_unique(
            views(r@),
            ascending_list(a@.difference(known@)),
        );
    }
    r
}

/// Compares the fields that the rules produce with those that the index holds, in
/// both directions. The findings are advice: formats that need no rule produce
/// fields as well.
pub fn validate_config_crosscheck(prod: &Producible, declared: &FieldSet) -> (r: String)
    requires
        prod.output_fields.wf(),
        prod.all_fields.wf(),
        declared.wf(),
    ensures
        r@ == crosscheck_text(prod.output_fields@, prod.all_fields@, declared@),
{
    let core = always_valid();
    proof {
        declared.items_in_order();
        prod.output_fields.items_in_order();
        assert(views(declared.items@).len() == declared.items@.len());
        assert(views(prod.output_fields.items@).len() == prod.output_fields.items@.len());
    }
    let mut r = "  declared index_fields (union): ".to_owned();
    r.append(dec_u64(declared.items.len() as u64).as_str());
    r.append("\n  producible output fields:      ");
    r.append(dec_u64(prod.output_fields.items.len() as u64).as_str());
    r.append("\n");
    let gap = names_beyond(&prod.output_fields, declared, &core);
    write_direction(
        &mut r,
        &gap,
        "  OK   every producible output field is indexed (or is a core field)\n",
        "  WARN produced but indexed by no source (",
        "\n       → add to a source's index_fields in sources.toml to search/group on them\n",
    );
    let dead = names_beyond(declared, &prod.all_fields, &core);
    write_direction(
        &mut r,
        &dead,
        "  OK   every declared index_field is produced by a rule (or is a core field)\n",
        "  WARN index_fields not produced by any normalized.toml rule (",
        "\n       → check for a typo, or a field supplied by a structured-format\n         parser (CEF/LEEF/JSON) that this config scan can't see\n",
    );
    r.append("  (advisory — these findings do not affect the exit code)\n");
    r
}

} // verus!
