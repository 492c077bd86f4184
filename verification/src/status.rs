//! What `status` shows.
use vstd::prelude::*;
use vstd::utf8::encode_utf8;

use crate::buckets::{bucket_files, buckets_among};
use crate::collections::{insert_all, key_texts, FieldSet, GroupCounts};
use crate::figures::{human_bytes, size_text};
use crate::normconfig::SourceFields;
use crate::number::{dec, dec_u64};
use crate::sources::{always_valid, core_names};
use crate::text::{fill, join, joined, left_aligned, pad_left, pad_right, piece};
use crate::text::{repeat, right_aligned, string_of, to_chars, trim_start, trimmed_start, views};

verus! {

/// The number of bytes of a text.
pub open spec fn byte_width(s: Seq<char>) -> int {
    encode_utf8(s).len() as usize as int
}

// ── Field lists ──────────────────────────────────────────────────────────────

/// One field of a list, with its separator unless it is the last.
pub open spec fn list_chunk(fields: Seq<Seq<char>>, i: int) -> Seq<char> {
    fields[i] + if i + 1 < fields.len() {
        ", "@
    } else {
        ""@
    }
}

/// The text and the width of its last line after the first `n` fields, broken
/// before a field that would not fit.
pub open spec fn wrapped(fields: Seq<Seq<char>>, indent: int, width: int, n: int) -> (
    Seq<char>,
    int,
)
    decreases n,
{
    if n <= 0 {
        (fill(' ', indent), indent)
    } else {
        let (out, len) = wrapped(fields, indent, width, n - 1);
        let chunk = list_chunk(fields, n - 1);
        if len + byte_width(chunk) > width && len > indent {
            (out + "\n"@ + fill(' ', indent) + chunk, indent + byte_width(chunk))
        } else {
            (out + chunk, len + byte_width(chunk))
        }
    }
}

/// A list of fields, wrapped at a width, every line indented.
pub open spec fn wrapped_list(fields: Seq<Seq<char>>, indent: int, width: int) -> Seq<char> {
    wrapped(fields, indent, width, fields.len() as int).0
}

/// A list of fields, wrapped at a width, every line indented.
pub fn wrap_field_list(fields: &Vec<String>, indent: usize, width: usize) -> (r: String)
    ensures
        r@ == wrapped_list(views(fields@), indent as int, width as int),
{
    let ghost fv = views(fields@);
    let pad = repeat(' ', indent);
    let mut out = repeat(' ', indent);
    let mut len: u128 = indent as u128;
    let n: usize = fields.len();
    let mut i: usize = 0;
    while i < n
        invariant
            n == fields@.len(),
            fv == views(fields@),
            pad@ == fill(' ', indent as int),
            i <= n,
            (out@, len as int) == wrapped(fv, indent as int, width as int, i as int),
            len <= 0x4_0000_0000_0000_0000,
        decreases n - i,
    {
        let mut chunk = fields[i].clone();
        if i + 1 < n {
            chunk.append(", ");
        } else {
            chunk.append("");
        }
        assert(chunk@ == list_chunk(fv, i as int));
        let w: u128 = chunk.as_str().len() as u128;
        if len + w > width as u128 && len > indent as u128 {
            out.append("\n");
            out.append(pad.as_str());
            len = indent as u128;
        }
        out.append(chunk.as_str());
        len = len + w;
        i = i + 1;
    }
    out
}

/// A list behind a prefix, its further lines indented to the prefix's width.
pub open spec fn hanging_list(prefix: Seq<char>, fields: Seq<Seq<char>>) -> Seq<char> {
    let indent = byte_width(prefix);
    prefix + trimmed_start(wrapped_list(fields, indent, 76).skip(indent))
}

/// The text begins with its indent.
proof fn lemma_wrapped_len(fields: Seq<Seq<char>>, indent: int, width: int, n: int)
    requires
        indent >= 0,
    ensures
        wrapped(fields, indent, width, n).0.len() >= indent,
    decreases n,
{
    if n > 0 {
        lemma_wrapped_len(fields, indent, width, n - 1);
    }
}

fn hang_list(prefix: &str, fields: &Vec<String>) -> (r: String)
    ensures
        r@ == hanging_list(prefix@, views(fields@)),
{
    let indent: usize = prefix.len();
    let w = to_chars(wrap_field_list(fields, indent, 76).as_str());
    proof {
        lemma_wrapped_len(views(fields@), indent as int, 76, fields@.len() as int);
    }
    let tail = piece(&w, indent, w.len());
    assert(tail@ =~= w@.skip(indent as int));
    let mut r = prefix.to_owned();
    r.append(string_of(&trim_start(&tail)).as_str());
    r
}

// ── Overview ─────────────────────────────────────────────────────────────────

/// A file of a source: the source's name, and when it was last written, in
/// seconds since the epoch.
pub struct SourceFile {
    pub source: String,
    pub modified: u64,
}

/// How many of the first `n` files each source has.
pub open spec fn file_counts(files: Seq<SourceFile>, n: int) -> Map<Seq<Seq<char>>, u64>
    decreases n,
{
    if n <= 0 {
        Map::empty()
    } else {
        let m = file_counts(files, n - 1);
        let k = seq![files[n - 1].source@];
        m.insert(
            k,
            if m.dom().contains(k) {
                (m[k] + 1) as u64
            } else {
                1
            },
        )
    }
}

/// When each source was last written, by the first `n` files.
pub open spec fn last_written(files: Seq<SourceFile>, n: int) -> Map<Seq<Seq<char>>, u64>
    decreases n,
{
    if n <= 0 {
        Map::empty()
    } else {
        let m = last_written(files, n - 1);
        let k = seq![files[n - 1].source@];
        let t = files[n - 1].modified;
        m.insert(
            k,
            if m.dom().contains(k) && m[k] > t {
                m[k]
            } else {
                t
            },
        )
    }
}

proof fn lemma_file_counts(files: Seq<SourceFile>, n: int, k: Seq<Seq<char>>)
    requires
        n <= u64::MAX,
    ensures
        file_counts(files, n).dom() == last_written(files, n).dom(),
        file_counts(files, n).dom().contains(k) ==> file_counts(files, n)[k] <= n,
    decreases n,
{
    if n > 0 {
        lemma_file_counts(files, n - 1, k);
        lemma_file_counts(files, n - 1, seq![files[n - 1].source@]);
    }
}

/// The files by source: how many, and when last written.
pub fn files_by_source(files: &Vec<SourceFile>) -> (r: (GroupCounts, GroupCounts))
    ensures
        r.0.wf(),
        r.1.wf(),
        r.0@ == file_counts(files@, files@.len() as int),
        r.1@ == last_written(files@, files@.len() as int),
        r.0@.dom() == r.1@.dom(),
{
    let mut counts = GroupCounts::new();
    let mut latest = GroupCounts::new();
    let n: usize = files.len();
    let mut i: usize = 0;
    while i < n
        invariant
            n == files@.len(),
            i <= n,
            counts.wf(),
            latest.wf(),
            counts@ == file_counts(files@, i as int),
            latest@ == last_written(files@, i as int),
        decreases n - i,
    {
        let mut key: Vec<String> = Vec::new();
        key.push(files[i].source.clone());
        assert(views(key@) =~= seq![files@[i as int].source@]);
        proof {
            lemma_file_counts(files@, i as int, views(key@));
        }
        let t: u64 = files[i].modified;
        counts.add_count(&key, 1);
        let newest: u64 = match latest.get(&key) {
            Some(m) => if m > t {
                m
            } else {
                t
            },
            None => t,
        };
        latest.set_count(&key, newest);
        i = i + 1;
    }
    proof {
        lemma_file_counts(files@, n as int, Seq::empty());
    }
    (counts, latest)
}

/// The first lines: the directory and its size.
pub open spec fn head_text(dir: Seq<char>, total: int) -> Seq<char> {
    "SIEM Status — "@ + dir + "\n"@ + fill('─', 48) + "\n  Total size:        "@ + size_text(total)
        + "\n"@
}

/// The first lines: the directory and its size.
pub fn status_head(dir: &str, total_bytes: u64) -> (r: String)
    ensures
        r@ == head_text(dir@, total_bytes as int),
{
    let mut r = "SIEM Status — ".to_owned();
    r.append(dir);
    r.append("\n");
    r.append(repeat('─', 48).as_str());
    r.append("\n  Total size:        ");
    r.append(human_bytes(total_bytes).as_str());
    r.append("\n");
    r
}

/// The lines of the first `n` sources.
pub open spec fn source_lines(
    keys: Seq<Seq<Seq<char>>>,
    counts: Seq<u64>,
    latest: Map<Seq<Seq<char>>, u64>,
    n: int,
) -> Seq<char>
    decreases n,
{
    if n <= 0 {
        "  Source file counts:\n"@
    } else {
        source_lines(keys, counts, latest, n - 1) + "    "@ + left_aligned(keys[n - 1][0], 20) + " "@
            + right_aligned(dec(counts[n - 1] as nat), 5) + " files  last="@ + dec(
            latest[keys[n - 1]] as nat,
        ) + "\n"@
    }
}

/// The lines of the sources: how many files, and when last written.
pub fn status_sources(counts: &GroupCounts, latest: &GroupCounts) -> (r: String)
    requires
        counts.wf(),
        latest.wf(),
        counts@.dom() == latest@.dom(),
        forall|i: int| 0 <= i < counts.keys@.len() ==> (#[trigger] counts.keys@[i])@.len() > 0,
    ensures
        r@ == if counts.keys@.len() == 0 {
            ""@
        } else {
            source_lines(
                key_texts(counts.keys@),
                counts.counts@,
                latest@,
                counts.keys@.len() as int,
            )
        },
{
    let n: usize = counts.len();
    if n == 0 {
        return "".to_owned();
    }
    let ghost kt = key_texts(counts.keys@);
    let mut r = "  Source file counts:\n".to_owned();
    let mut i: usize = 0;
    while i < n
        invariant
            n == counts.keys@.len(),
            counts.wf(),
            latest.wf(),
            counts@.dom() == latest@.dom(),
            kt == key_texts(counts.keys@),
            forall|i: int| 0 <= i < counts.keys@.len() ==> (#[trigger] counts.keys@[i])@.len() > 0,
            i <= n,
            r@ == source_lines(kt, counts.counts@, latest@, i as int),
        decreases n - i,
    {
        proof {
            counts.entry_at(i as int);
        }
        assert(counts.keys@[i as int]@.len() > 0);
        assert(kt[i as int][0] == counts.keys@[i as int]@[0]@);
        let last: u64 = match latest.get(&counts.keys[i]) {
            Some(t) => t,
            None => 0,
        };
        r.append("    ");
        r.append(pad_right(counts.keys[i][0].as_str(), 20).as_str());
        r.append(" ");
        r.append(pad_left(dec_u64(counts.counts[i]).as_str(), 5).as_str());
        r.append(" files  last=");
        r.append(dec_u64(last).as_str());
        r.append("\n");
        i = i + 1;
    }
    r
}

/// The lines of the first `n` buckets.
pub open spec fn bucket_lines(dbs: Seq<Seq<char>>, n: int) -> Seq<char>
    decreases n,
{
    if n <= 0 {
        "  Indexed buckets ("@ + dec(dbs.len() as nat) + "):\n"@
    } else {
        bucket_lines(dbs, n - 1) + "    "@ + dbs[n - 1] + "\n"@
    }
}

/// The lines of the index: the buckets among the files of its directory, in
/// ascending order, or that there is none.
pub fn status_index(index: &Option<Vec<String>>) -> (r: String)
    ensures
        r@ == match *index {
            Some(names) => bucket_lines(
                buckets_among(views(names@)),
                buckets_among(views(names@)).len() as int,
            ),
            None => "  Index: (no index/ directory)\n"@,
        },
{
    match index {
        None => "  Index: (no index/ directory)\n".to_owned(),
        Some(names) => {
            let dbs = bucket_files(names);
            let ghost dv = views(dbs@);
            assert(dv.len() == dbs@.len());
            let n: usize = dbs.len();
            let mut r = "  Indexed buckets (".to_owned();
            r.append(dec_u64(n as u64).as_str());
            r.append("):\n");
            let mut i: usize = 0;
            while i < n
                invariant
                    n == dbs@.len(),
                    dv == views(dbs@),
                    i <= n,
                    r@ == bucket_lines(dv, i as int),
                decreases n - i,
            {
                r.append("    ");
                r.append(dbs[i].as_str());
                r.append("\n");
                i = i + 1;
            }
            r
        },
    }
}

// ── Details ──────────────────────────────────────────────────────────────────

/// The names of a set in ascending order.
pub open spec fn items_of(s: FieldSet) -> Seq<Seq<char>> {
    views(s.items@)
}

/// The line of a source and its fields.
pub open spec fn source_line(name: Seq<char>, fields: Seq<Seq<char>>) -> Seq<char> {
    if fields.len() == 0 {
        "  "@ + left_aligned(name, 20) + " (no indexed fields)\n"@
    } else {
        hanging_list("    "@ + left_aligned(name, 20) + " "@, fields) + "\n"@
    }
}

/// The text before the lines of the sources.
pub open spec fn sources_intro(core: Seq<Seq<char>>) -> Seq<char> {
    "\n── sources.toml — indexed fields "@ + fill('─', 17)
        + "\n  Envelope (all sources — from the syslog transport layer):\n    source_addr  — sender IP (UDP source address, or \"stdin\")\n    hostname     — syslog header hostname\n    app_name     — syslog process name before override rules rewrite _source_type\n\n  Core (all sources, normalization pipeline):\n    "@
        + joined(core, ", "@) + "\n\n  Per-source indexed fields (from sources.toml):\n"@
}

/// The lines of the first `n` sources behind their intro.
pub open spec fn sources_lines(per: SourceFields, core: Seq<Seq<char>>, n: int) -> Seq<char>
    decreases n,
{
    if n <= 0 {
        sources_intro(core)
    } else {
        sources_lines(per, core, n - 1) + source_line(
            per.names@[n - 1]@,
            items_of(per.sets@[n - 1]),
        )
    }
}

/// The indexed fields by source.
pub fn sources_section(per: &SourceFields) -> (r: String)
    requires
        per.wf(),
    ensures
        exists|core: FieldSet|
            core.wf() && core@ == core_names() && r@ == if per.names@.len() == 0 {
                "\n── sources.toml — indexed fields "@ + fill('─', 17)
                    + "\n  (sources.toml not found or empty)\n"@
            } else {
                #[trigger] sources_lines(*per, items_of(core), per.names@.len() as int)
            },
{
    let core = always_valid();
    let n: usize = per.names.len();
    let mut r = "\n── sources.toml — indexed fields ".to_owned();
    r.append(repeat('─', 17).as_str());
    if n == 0 {
        r.append("\n  (sources.toml not found or empty)\n");
        assert(sources_lines(*per, items_of(core), 0) == sources_intro(items_of(core)));
        return r;
    }
    r.append(
        "\n  Envelope (all sources — from the syslog transport layer):\n    source_addr  — sender IP (UDP source address, or \"stdin\")\n    hostname     — syslog header hostname\n    app_name     — syslog process name before override rules rewrite _source_type\n\n  Core (all sources, normalization pipeline):\n    ",
    );
    r.append(join(&core.items, ", ").as_str());
    r.append("\n\n  Per-source indexed fields (from sources.toml):\n");
    let mut i: usize = 0;
    while i < n
        invariant
            n == per.names@.len(),
            per.wf(),
            i <= n,
            r@ == sources_lines(*per, items_of(core), i as int),
        decreases n - i,
    {
        let fields = &per.sets[i].items;
        let ghost before = r@;
        assert(views(fields@) == items_of(per.sets@[i as int]));
        assert(views(fields@).len() == fields@.len());
        let line = if fields.len() == 0 {
            let mut l = "  ".to_owned();
            l.append(pad_right(per.names[i].as_str(), 20).as_str());
            l.append(" (no indexed fields)\n");
            l
        } else {
            let mut prefix = "    ".to_owned();
            prefix.append(pad_right(per.names[i].as_str(), 20).as_str());
            prefix.append(" ");
            let mut l = hang_list(prefix.as_str(), fields);
            l.append("\n");
            l
        };
        r.append(line.as_str());
        i = i + 1;
    }
    r
}

/// The fields among `fields` that are not in `known`, in order.
pub open spec fn missing_from(fields: Seq<Seq<char>>, known: Set<Seq<char>>, n: int) -> Seq<
    Seq<char>,
>
    decreases n,
{
    if n <= 0 {
        Seq::empty()
    } else if known.contains(fields[n - 1]) {
        missing_from(fields, known, n - 1)
    } else {
        missing_from(fields, known, n - 1).push(fields[n - 1])
    }
}

/// The fields among `fields` that are not in `known`, in order.
pub fn fields_missing(fields: &Vec<String>, known: &FieldSet) -> (r: Vec<String>)
    requires
        known.wf(),
    ensures
        views(r@) == missing_from(views(fields@), known@, fields@.len() as int),
{
    let ghost fv = views(fields@);
    let mut r: Vec<String> = Vec::new();
    let mut i: usize = 0;
    assert(views(r@) =~= Seq::<Seq<char>>::empty());
    while i < fields.len()
        invariant
            i <= fields@.len(),
            known.wf(),
            fv == views(fields@),
            views(r@) == missing_from(fv, known@, i as int),
        decreases fields@.len() - i,
    {
        let ghost before = views(r@);
        assert(fv[i as int] == fields@[i as int]@);
        if !known.contains(fields[i].as_str()) {
            r.push(fields[i].clone());
            assert(views(r@) =~= before.push(fv[i as int]));
        }
        i = i + 1;
    }
    r
}

/// The lines of a normalizer source: its fields, and those that are not indexed.
pub open spec fn normalized_line(
    app: Seq<char>,
    fields: Seq<Seq<char>>,
    indexed: Set<Seq<char>>,
) -> Seq<char> {
    let prefix = "  "@ + left_aligned(app, 20) + " "@;
    let indent = byte_width(prefix);
    let missing = missing_from(fields, indexed, fields.len() as int);
    let first = hanging_list(prefix, fields) + "\n"@;
    if missing.len() == 0 {
        first
    } else {
        first + fill(' ', indent - 4) + "  → not indexed: "@ + trimmed_start(
            wrapped_list(missing, indent + 2, 76),
        ) + "\n"@
    }
}

/// The lines of the first `n` normalizer sources.
pub open spec fn normalized_lines(per: SourceFields, indexed: Set<Seq<char>>, n: int) -> Seq<char>
    decreases n,
{
    if n <= 0 {
        "\n── normalized.toml — fields by app_name "@ + fill('─', 10)
            + "\n  (override rules may relabel app_name to a different source in sources.toml)\n\n"@
    } else {
        normalized_lines(per, indexed, n - 1) + normalized_line(
            per.names@[n - 1]@,
            items_of(per.sets@[n - 1]),
            indexed,
        )
    }
}

/// The fields that some source or the core indexes, by the first `n` sources.
pub open spec fn indexed_by(per: SourceFields, n: int) -> Set<Seq<char>>
    decreases n,
{
    if n <= 0 {
        core_names()
    } else {
        indexed_by(per, n - 1).union(per.sets@[n - 1]@)
    }
}

/// The fields that some source or the core indexes.
pub fn indexed_fields(per: &SourceFields) -> (r: FieldSet)
    requires
        per.wf(),
    ensures
        r.wf(),
        r@ == indexed_by(*per, per.sets@.len() as int),
{
    let mut all = always_valid();
    let mut i: usize = 0;
    while i < per.sets.len()
        invariant
            i <= per.sets@.len(),
            all.wf(),
            all@ == indexed_by(*per, i as int),
        decreases per.sets@.len() - i,
    {
        insert_all(&mut all, &per.sets[i].items);
        i = i + 1;
    }
    all
}

/// The fields that the normalizer extracts, by source, and which of them are
/// not indexed.
pub fn normalized_section(norm: &SourceFields, found: bool, per: &SourceFields) -> (r: String)
    requires
        norm.wf(),
        per.wf(),
        forall|i: int|
            0 <= i < norm.names@.len() ==> byte_width(
                "  "@ + left_aligned((#[trigger] norm.names@[i])@, 20) + " "@,
            ) + 2 <= usize::MAX,
    ensures
        r@ == if norm.names@.len() > 0 {
            normalized_lines(
                *norm,
                indexed_by(*per, per.sets@.len() as int),
                norm.names@.len() as int,
            )
        } else if found {
            "\n── normalized.toml — fields by app_name "@ + fill('─', 10)
                + "\n  (no extract rules with app_name found)\n"@
        } else {
            ""@
        },
{
    let n: usize = norm.names.len();
    if n == 0 {
        if !found {
            return "".to_owned();
        }
        let mut r = "\n── normalized.toml — fields by app_name ".to_owned();
        r.append(repeat('─', 10).as_str());
        r.append("\n  (no extract rules with app_name found)\n");
        return r;
    }
    let all = indexed_fields(per);
    let mut r = "\n── normalized.toml — fields by app_name ".to_owned();
    r.append(repeat('─', 10).as_str());
    r.append(
        "\n  (override rules may relabel app_name to a different source in sources.toml)\n\n",
    );
    let mut i: usize = 0;
    while i < n
        invariant
            n == norm.names@.len(),
            norm.wf(),
            all.wf(),
            i <= n,
            r@ == normalized_lines(*norm, all@, i as int),
            forall|i: int|
                0 <= i < norm.names@.len() ==> byte_width(
                    "  "@ + left_aligned((#[trigger] norm.names@[i])@, 20) + " "@,
                ) + 2 <= usize::MAX,
        decreases n - i,
    {
        let line = normalized_entry(norm.names[i].as_str(), &norm.sets[i].items, &all);
        r.append(line.as_str());
        i = i + 1;
    }
    r
}

fn normalized_entry(app: &str, fields: &Vec<String>, all: &FieldSet) -> (r: String)
    requires
        all.wf(),
        byte_width("  "@ + left_aligned(app@, 20) + " "@) + 2 <= usize::MAX,
    ensures
        r@ == normalized_line(app@, views(fields@), all@),
{
    let mut prefix = "  ".to_owned();
    prefix.append(pad_right(app, 20).as_str());
    prefix.append(" ");
    let indent: usize = prefix.as_str().len();
    let mut r = hang_list(prefix.as_str(), fields);
    r.append("\n");
    let missing = fields_missing(fields, all);
    assert(views(fields@).len() == fields@.len());
    assert(views(missing@).len() == missing@.len());
    if missing.len() > 0 {
        r.append(
            repeat(
                ' ',
                if indent >= 4 {
                    indent - 4
                } else {
                    0
                },
            ).as_str(),
        );
        r.append("  → not indexed: ");
        let w = wrap_field_list(&missing, indent + 2, 76);
        r.append(string_of(&trim_start(&to_chars(w.as_str()))).as_str());
        r.append("\n");
    }
    r
}

/// The columns of the latest bucket, or why it could not be opened.
pub fn schema_section(name: &str, columns: &Result<Vec<String>, String>) -> (r: String)
    ensures
        r@ == "\n── Index schema (latest bucket) "@ + fill('─', 19) + "\n  "@ + name@
            + match *columns {
            Ok(cols) => "  — "@ + dec(cols@.len() as nat) + " columns:\n"@ + wrapped_list(
                views(cols@),
                4,
                76,
            ) + "\n"@,
            Err(e) => "  — (could not open: "@ + e@ + ")\n"@,
        },
{
    let mut r = "\n── Index schema (latest bucket) ".to_owned();
    r.append(repeat('─', 19).as_str());
    r.append("\n  ");
    r.append(name);
    let tail = match columns {
        Ok(cols) => {
            let mut t = "  — ".to_owned();
            t.append(dec_u64(cols.len() as u64).as_str());
            t.append(" columns:\n");
            t.append(wrap_field_list(cols, 4, 76).as_str());
            t.append("\n");
            t
        },
        Err(e) => {
            let mut t = "  — (could not open: ".to_owned();
            t.append(e.as_str());
            t.append(")\n");
            t
        },
    };
    r.append(tail.as_str());
    r
}

} // verus!
