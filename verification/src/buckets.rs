//! Running queries over the hour buckets of the index: which buckets they read,
//! what an error means, and what becomes of the rows.
use vstd::prelude::*;

use crate::collections::GroupCounts;
use crate::json::parsed_json;
use crate::number::{dec_i64, dec_int, dec_u64};
use crate::order::{sort_texts, sorted_texts};
use crate::paths::{files_with_extension, join_path, joined_path, with_extension};
use crate::query::Query;
use crate::render::{after_line, after_record, done, record_view, Record, RecordV, Renderer};
use crate::render::{RendererV, Val, ValV};
use crate::text::{contains, has, opt_view, same, to_chars, views};
use crate::time::{hour_in_filename, hour_lt, HourBucket};

verus! {

// ── Buckets ──────────────────────────────────────────────────────────────────

/// Whether a bucket lies outside a range of hours, by its file name. A name that
/// names no hour does not.
pub open spec fn is_pruned(
    name: Seq<char>,
    after: Option<HourBucket>,
    before: Option<HourBucket>,
) -> bool {
    match hour_in_filename(name) {
        None => false,
        Some(b) => (after matches Some(a) && hour_lt(b, a)) || (before matches Some(c) && hour_lt(
            c,
            b,
        )),
    }
}

/// Whether a bucket lies outside a range of hours, by its file name.
pub fn is_bucket_outside(
    name: &str,
    after: Option<HourBucket>,
    before: Option<HourBucket>,
) -> (r: bool)
    ensures
        r == is_pruned(name@, after, before),
{
    match HourBucket::from_filename(name) {
        None => false,
        Some(b) => {
            let early = match after {
                Some(a) => b.is_before(&a),
                None => false,
            };
            let late = match before {
                Some(c) => c.is_before(&b),
                None => false,
            };
            early || late
        },
    }
}

impl Query {
    /// Whether a bucket lies outside the query's range, by its file name.
    pub fn bucket_pruned(&self, name: &str) -> (r: bool)
        ensures
            r == is_pruned(name@, self.after, self.before),
    {
        is_bucket_outside(name, self.after, self.before)
    }
}

/// Why there are no buckets to read: without a directory, or with an empty one.
pub open spec fn no_index(has_dir: bool) -> Seq<char> {
    if has_dir {
        "index directory exists but contains no buckets — run 'indexd' to index your logs, or use --raw for a direct raw-file scan"@
    } else {
        "no index directory found — run 'indexd' to build the index first, or use --raw for a direct raw-file scan"@
    }
}

/// The buckets among the files of a directory, in ascending order.
pub open spec fn buckets_among(names: Seq<Seq<char>>) -> Seq<Seq<char>> {
    sorted_texts(with_extension(names, ".db"@, names.len() as int))
}

/// The buckets among the files of a directory, in ascending order.
pub fn bucket_files(names: &Vec<String>) -> (r: Vec<String>)
    ensures
        views(r@) == buckets_among(views(names@)),
{
    let dbs = files_with_extension(names, ".db");
    assert(views(names@).len() == names@.len());
    sort_texts(&dbs)
}

/// The buckets among the files of the index directory, or why there are none.
pub fn index_buckets(names: &Option<Vec<String>>) -> (r: Result<Vec<String>, String>)
    ensures
        match *names {
            None => r matches Err(m) && m@ == no_index(false),
            Some(v) => if buckets_among(views(v@)).len() == 0 {
                r matches Err(m) && m@ == no_index(true)
            } else {
                r matches Ok(dbs) && views(dbs@) == buckets_among(views(v@))
            },
        },
{
    match names {
        None => Err(
            "no index directory found — run 'indexd' to build the index first, or use --raw for a direct raw-file scan".to_owned(),
        ),
        Some(v) => {
            let dbs = bucket_files(v);
            assert(views(dbs@).len() == dbs@.len());
            if dbs.len() == 0 {
                return Err(
                    "index directory exists but contains no buckets — run 'indexd' to index your logs, or use --raw for a direct raw-file scan".to_owned(),
                );
            }
            Ok(dbs)
        },
    }
}

/// Whether an error only means that a bucket lacks what the query asks for.
pub open spec fn means_absence(msg: Seq<char>) -> bool {
    has(msg, "no such column"@) || has(msg, "no such table"@)
}

/// Whether an error only means that a bucket lacks what the query asks for: an
/// older bucket, or one of another configuration.
pub fn is_benign(msg: &str) -> (r: bool)
    ensures
        r == means_absence(msg@),
{
    contains(msg, "no such column") || contains(msg, "no such table")
}

/// The attempts to open a bucket.
pub const OPEN_BUCKET_MAX_ATTEMPTS: u32 = 3;

/// The pause before the second attempt, in milliseconds; it doubles each time.
pub const OPEN_BUCKET_INITIAL_DELAY_MS: u64 = 200;

/// What follows a failed attempt to open a bucket: a pause and the one after it,
/// or nothing. Only a file that cannot be opened is tried again.
pub fn next_attempt(attempt: u32, max_attempts: u32, delay_ms: u64, cannot_open: bool) -> (r: Option<
    (u64, u64),
>)
    requires
        2 * delay_ms <= u64::MAX,
    ensures
        r == if attempt < max_attempts && cannot_open {
            Some((delay_ms, (2 * delay_ms) as u64))
        } else {
            None
        },
{
    if attempt < max_attempts && cannot_open {
        Some((delay_ms, 2 * delay_ms))
    } else {
        None
    }
}

// ── Values ───────────────────────────────────────────────────────────────────

/// A value of the database. A text that is not UTF-8 has no `exact` form, only
/// one with replacement characters; a floating-point number is given as shown.
#[derive(Debug)]
pub enum Cell {
    Null,
    Int(i64),
    Real(String),
    Text { shown: String, exact: Option<String> },
    Blob,
}

/// A value as text: nothing for null and for binary data.
pub open spec fn cell_text(c: Cell) -> Seq<char> {
    match c {
        Cell::Null => Seq::empty(),
        Cell::Int(n) => dec_int(n as int),
        Cell::Real(s) => s@,
        Cell::Text { shown, exact } => shown@,
        Cell::Blob => Seq::empty(),
    }
}

/// A value as a field of a record.
pub open spec fn cell_val(c: Cell) -> ValV {
    match c {
        Cell::Null => ValV::Null,
        Cell::Int(n) => ValV::Int(n as int),
        Cell::Real(s) => ValV::Real(s@),
        Cell::Text { shown, exact } => ValV::Str(
            match exact {
                Some(s) => s@,
                None => Seq::empty(),
            },
        ),
        Cell::Blob => ValV::Null,
    }
}

impl Cell {
    /// The value as text: nothing for null and for binary data.
    pub fn to_text(&self) -> (r: String)
        ensures
            r@ == cell_text(*self),
    {
        match self {
            Cell::Int(n) => dec_i64(*n),
            Cell::Real(s) => s.clone(),
            Cell::Text { shown, exact } => shown.clone(),
            _ => {
                let r = String::new();
                assert(r@ =~= Seq::<char>::empty());
                r
            },
        }
    }

    /// The value as a field of a record.
    pub fn to_val(&self) -> (r: Val)
        ensures
            r@ == cell_val(*self),
    {
        match self {
            Cell::Int(n) => Val::Int(*n),
            Cell::Real(s) => Val::Real(s.clone()),
            Cell::Text { shown, exact } => match exact {
                Some(s) => Val::Str(s.clone()),
                None => {
                    let s = String::new();
                    assert(s@ =~= Seq::<char>::empty());
                    Val::Str(s)
                },
            },
            _ => Val::Null,
        }
    }
}

/// The texts of a row's values.
pub open spec fn cell_texts(v: Seq<Cell>) -> Seq<Seq<char>> {
    v.map_values(|c: Cell| cell_text(c))
}

/// Counts a row of a grouped query: its values are the group, and it stands for
/// `count` events.
pub fn fold_group_row(cells: &Vec<Cell>, count: u64, acc: &mut GroupCounts)
    requires
        old(acc).wf(),
        old(acc).count_of(cell_texts(cells@)) + count <= u64::MAX,
    ensures
        final(acc).wf(),
        final(acc)@ == old(acc)@.insert(
            cell_texts(cells@),
            (old(acc).count_of(cell_texts(cells@)) + count) as u64,
        ),
{
    let mut key: Vec<String> = Vec::new();
    let mut i: usize = 0;
    while i < cells.len()
        invariant
            i <= cells@.len(),
            key@.len() == i,
            forall|k: int| 0 <= k < i ==> (#[trigger] key@[k])@ == cell_text(cells@[k]),
        decreases cells@.len() - i,
    {
        key.push(cells[i].to_text());
        i = i + 1;
    }
    assert(views(key@) =~= cell_texts(cells@));
    acc.add_count(&key, count);
}

/// The record of a row: its columns with their values.
pub open spec fn row_record(cols: Seq<Seq<char>>, cells: Seq<Cell>) -> RecordV {
    Seq::new(
        cols.len(),
        |i: int|
            (
                cols[i],
                if i < cells.len() {
                    cell_val(cells[i])
                } else {
                    ValV::Null
                },
            ),
    )
}

/// The record of a row: its columns with their values.
pub fn row_to_record(cols: &Vec<String>, cells: &Vec<Cell>) -> (r: Record)
    ensures
        record_view(r@) == row_record(views(cols@), cells@),
{
    let ghost target = row_record(views(cols@), cells@);
    let mut r: Record = Vec::new();
    let mut i: usize = 0;
    while i < cols.len()
        invariant
            i <= cols@.len(),
            target == row_record(views(cols@), cells@),
            r@.len() == i,
            forall|k: int| 0 <= k < i ==> ((#[trigger] r@[k]).0@, r@[k].1@) == target[k],
        decreases cols@.len() - i,
    {
        let v = if i < cells.len() {
            cells[i].to_val()
        } else {
            Val::Null
        };
        r.push((cols[i].clone(), v));
        i = i + 1;
    }
    assert(record_view(r@) =~= target);
    r
}

// ── Raw lines ────────────────────────────────────────────────────────────────

/// The path of the file that holds a row's raw line, or why there is none.
pub fn raw_path(data_dir: &str, raw_file: &str) -> (r: Result<String, String>)
    ensures
        match r {
            Ok(path) => raw_file@.len() > 0 && path@ == joined_path(
                data_dir@,
                raw_file@,
            ),
            Err(m) => raw_file@.len() == 0 && m@ == "no raw_file stored (pre-T5 index row)"@,
        },
{
    if to_chars(raw_file).len() == 0 {
        return Err("no raw_file stored (pre-T5 index row)".to_owned());
    }
    Ok(join_path(data_dir, raw_file))
}

/// The text without line ends at its end.
pub open spec fn without_line_end(s: Seq<char>) -> Seq<char>
    decreases s.len(),
{
    if s.len() > 0 && (s.last() == '\n' || s.last() == '\r') {
        without_line_end(s.drop_last())
    } else {
        s
    }
}

/// The line that was read at an offset of a file, or why it is none.
pub fn raw_line_read(line: &str, byte_offset: u64, path: &str) -> (r: Result<String, String>)
    ensures
        match r {
            Ok(s) => s@ == without_line_end(line@) && s@.len() > 0,
            Err(m) => without_line_end(line@).len() == 0 && m@ == "empty line at offset "@
                + dec_int(byte_offset as int) + " in "@ + path@,
        },
{
    let v = to_chars(line);
    let mut n: usize = v.len();
    assert(v@.take(n as int) =~= v@);
    while n > 0 && (v[n - 1] == '\n' || v[n - 1] == '\r')
        invariant
            n <= v@.len(),
            v@ == line@,
            without_line_end(line@) == without_line_end(v@.take(n as int)),
        decreases n,
    {
        assert(v@.take(n as int).drop_last() =~= v@.take(n - 1));
        n = n - 1;
    }
    assert(without_line_end(v@.take(n as int)) == v@.take(n as int));
    if n == 0 {
        let mut m = "empty line at offset ".to_owned();
        m.append(dec_u64(byte_offset).as_str());
        m.append(" in ");
        m.append(path);
        return Err(m);
    }
    Ok(crate::text::string_from(&v, 0, n))
}

/// Where the raw line of a row stands: the file's name, empty if it is unknown,
/// and the offset, negative if it is unknown. Nothing without both columns.
pub open spec fn place_of(cols: Seq<Seq<char>>, cells: Seq<Cell>) -> Option<(Seq<char>, int)> {
    match (column_at(cols, "raw_file"@, 0), column_at(cols, "byte_offset"@, 0)) {
        (Some(f), Some(o)) => Some(
            (
                match cells[f] {
                    Cell::Text { shown, exact } => match exact {
                        Some(s) => s@,
                        None => Seq::empty(),
                    },
                    _ => Seq::empty(),
                },
                match cells[o] {
                    Cell::Int(n) => n as int,
                    _ => -1,
                },
            ),
        ),
        _ => None,
    }
}

/// The position of a column, from `i` on.
pub open spec fn column_at(cols: Seq<Seq<char>>, name: Seq<char>, i: int) -> Option<int>
    decreases cols.len() - i,
{
    if i >= cols.len() {
        None
    } else if cols[i] == name {
        Some(i)
    } else {
        column_at(cols, name, i + 1)
    }
}

fn find_column(cols: &Vec<String>, name: &str) -> (r: Option<usize>)
    ensures
        match r {
            Some(i) => column_at(views(cols@), name@, 0) == Some(i as int) && i < cols@.len(),
            None => column_at(views(cols@), name@, 0) is None,
        },
{
    let ghost cv = views(cols@);
    let n: usize = cols.len();
    let mut i: usize = 0;
    while i < n
        invariant
            n == cols@.len(),
            cv == views(cols@),
            i <= n,
            column_at(cv, name@, 0) == column_at(cv, name@, i as int),
        decreases n - i,
    {
        if same(cols[i].as_str(), name) {
            return Some(i);
        }
        i = i + 1;
    }
    None
}

/// Where the raw line of a row stands.
pub fn raw_place(cols: &Vec<String>, cells: &Vec<Cell>) -> (r: Option<(String, i64)>)
    requires
        cells@.len() == cols@.len(),
    ensures
        match r {
            Some(p) => place_of(views(cols@), cells@) == Some((p.0@, p.1 as int)),
            None => place_of(views(cols@), cells@) is None,
        },
{
    match (find_column(cols, "raw_file"), find_column(cols, "byte_offset")) {
        (Some(f), Some(o)) => {
            let file = match &cells[f] {
                Cell::Text { shown, exact } => match exact {
                    Some(s) => s.clone(),
                    None => String::new(),
                },
                _ => String::new(),
            };
            let offset: i64 = match &cells[o] {
                Cell::Int(n) => *n,
                _ => -1,
            };
            assert(file@ =~= (place_of(views(cols@), cells@)->0).0);
            Some((file, offset))
        },
        _ => None,
    }
}

/// What became of the search for a row's raw line.
#[derive(Debug)]
pub enum RawLine {
    /// The row does not say where its line stands.
    Unknown,
    /// The row says so, but the offset is not valid.
    NoOffset,
    Found(String),
    Lost(String),
}

/// The renderer after a row: its raw line if that was found, else the row itself.
pub open spec fn after_row(
    s: RendererV,
    cols: Seq<Seq<char>>,
    cells: Seq<Cell>,
    line: RawLine,
) -> RendererV {
    match line {
        RawLine::Found(l) => after_line(s, l@, parsed_json(l@)),
        _ => after_record(s, row_record(cols, cells)),
    }
}

/// The warning that goes with a row that is shown in place of its raw line.
pub open spec fn row_warning(line: RawLine) -> Option<Seq<char>> {
    match line {
        RawLine::NoOffset => Some(
            "siemctl: --full: no raw_file/offset in this row (pre-T5 index?); showing index row"@,
        ),
        RawLine::Lost(m) => Some(
            "siemctl: --full retrieval failed ("@ + m@ + "); showing index row"@,
        ),
        _ => None,
    }
}

/// Writes a row: its raw line if that was found, else the row itself, so that no
/// hit is dropped. The result is a warning to go with it.
pub fn emit_row(
    cols: &Vec<String>,
    cells: &Vec<Cell>,
    line: &RawLine,
    renderer: &mut Renderer,
) -> (r: Option<String>)
    requires
        done(old(renderer)@) || old(renderer).emitted < usize::MAX,
    ensures
        final(renderer)@ == after_row(old(renderer)@, views(cols@), cells@, *line),
        opt_view(r) == row_warning(*line),
{
    match line {
        RawLine::Found(l) => {
            renderer.emit_raw_line(l.as_str());
            return None;
        },
        _ => {},
    }
    renderer.emit_record(&row_to_record(cols, cells));
    match line {
        RawLine::NoOffset => Some(
            "siemctl: --full: no raw_file/offset in this row (pre-T5 index?); showing index row".to_owned(),
        ),
        RawLine::Lost(m) => {
            let mut w = "siemctl: --full retrieval failed (".to_owned();
            w.append(m.as_str());
            w.append("); showing index row");
            Some(w)
        },
        _ => None,
    }
}

/// Whether a row's raw line holds a text; not if the line cannot be read.
pub open spec fn line_holds(line: Option<Seq<char>>, needle: Seq<char>) -> bool {
    match line {
        Some(l) => has(l, needle),
        None => false,
    }
}

/// Whether a row's raw line holds a text; not if the line cannot be read.
pub fn raw_contains(line: &Option<String>, needle: &str) -> (r: bool)
    ensures
        r == line_holds(opt_view(*line), needle@),
{
    match line {
        Some(l) => contains(l.as_str(), needle),
        None => false,
    }
}

/// The exit code of a search for rows: zero with hits, one without.
pub fn hits_exit_code(hits: usize) -> (r: i32)
    ensures
        r == if hits == 0 {
            1int
        } else {
            0
        },
{
    if hits == 0 {
        1
    } else {
        0
    }
}

// ── Raw files ────────────────────────────────────────────────────────────────

/// Whether a line is among the hits: it holds the text, if one is asked for.
pub open spec fn is_raw_hit(line: Seq<char>, needle: Option<Seq<char>>) -> bool {
    match needle {
        Some(s) => has(line, s),
        None => true,
    }
}

/// The renderer after the hits among the first `n` lines.
pub open spec fn after_raw_lines(
    s: RendererV,
    ls: Seq<Seq<char>>,
    needle: Option<Seq<char>>,
    n: int,
) -> RendererV
    decreases n,
{
    if n <= 0 {
        s
    } else {
        let front = after_raw_lines(s, ls, needle, n - 1);
        if is_raw_hit(ls[n - 1], needle) {
            after_line(front, ls[n - 1], parsed_json(ls[n - 1]))
        } else {
            front
        }
    }
}

proof fn lemma_done_skips(
    s: RendererV,
    ls: Seq<Seq<char>>,
    needle: Option<Seq<char>>,
    m: int,
    n: int,
)
    requires
        0 <= m <= n,
        done(after_raw_lines(s, ls, needle, m)),
    ensures
        after_raw_lines(s, ls, needle, n) == after_raw_lines(s, ls, needle, m),
    decreases n - m,
{
    if m < n {
        lemma_done_skips(s, ls, needle, m, n - 1);
    }
}

/// Writes the lines of a raw file that hold a text, or all of them, as far as
/// the limit allows. The result tells whether a line was found.
pub fn search_lines(ls: &Vec<String>, needle: &Option<String>, renderer: &mut Renderer) -> (r: bool)
    requires
        old(renderer).emitted + ls@.len() <= usize::MAX,
        !done(old(renderer)@),
    ensures
        final(renderer)@ == after_raw_lines(
            old(renderer)@,
            views(ls@),
            opt_view(*needle),
            ls@.len() as int,
        ),
        r == exists|i: int|
            0 <= i < ls@.len() && is_raw_hit(#[trigger] views(ls@)[i], opt_view(*needle)),
{
    let ghost lv = views(ls@);
    let ghost nv = opt_view(*needle);
    let mut found = false;
    let n: usize = ls.len();
    let mut i: usize = 0;
    while i < n
        invariant
            n == ls@.len(),
            lv == views(ls@),
            nv == opt_view(*needle),
            i <= n,
            old(renderer).emitted + n <= usize::MAX,
            renderer.emitted <= old(renderer).emitted + i,
            renderer@ == after_raw_lines(old(renderer)@, lv, nv, i as int),
            found == exists|k: int| 0 <= k < i && is_raw_hit(#[trigger] lv[k], nv),
        decreases n - i,
    {
        let hit = match needle {
            Some(s) => contains(ls[i].as_str(), s.as_str()),
            None => true,
        };
        assert(hit == is_raw_hit(lv[i as int], nv));
        if hit {
            renderer.emit_raw_line(ls[i].as_str());
            found = true;
            assert(renderer@ == after_raw_lines(old(renderer)@, lv, nv, i + 1));
            if renderer.is_done() {
                proof {
                    lemma_done_skips(old(renderer)@, lv, nv, i + 1, n as int);
                }
                return true;
            }
        }
        i = i + 1;
    }
    found
}

} // verus!
