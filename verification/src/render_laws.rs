//! What is written out: records, tables and reports.
use vstd::prelude::*;

use crate::alerts::{hits_after, projected};
use crate::buckets::{
    after_raw_lines, after_row, buckets_among, cell_text, cell_texts, is_raw_hit, line_holds, Cell,
    RawLine,
};
use crate::dry_run::{id_lines, normalization_lines};
use crate::figures::{as_double, grouped, nearest, size_text, spacing, unit_index, unit_size};
use crate::groups::{group_record, groups_after, ordered_groups, Group};
use crate::json::{parsed_json, JsonV};
use crate::number::{dec, dec_int};
use crate::paths::{stem, with_extension};
use crate::query_eval::scalar_text;
use crate::render::{
    after_line, after_record, columns, done, escaped, escaped_text_reads_back, format_of, json_cell,
    json_object, json_pair, json_pairs, record_of, row_cells, tsv_cell, unescaped, val_of, Format,
    RecordV, RendererV, ValV,
};
use crate::retention::{file_lines, preview, sizes, summary_text, OldFile};
use crate::stats::{by_source_text, count_line, coverage_lines, group_lines, name_of_group};
use crate::status::{byte_width, source_lines};
use crate::text::{fill, has, joined, left_aligned, lower, right_aligned, split, upper};
use crate::text_laws::{joined_texts_split_again, longer_texts_hold_more, texts_hold_their_parts};
use crate::trend::{head_line, label_width, row_line};
use crate::validate::{direction_text, issue_lines};

verus! {

// ── Values ───────────────────────────────────────────────────────────────────

/// A scalar is compared by its text, and what is no scalar has none.
pub proof fn scalars_have_their_text(j: JsonV)
    ensures
        j matches JsonV::Str(s) ==> scalar_text(j) == Some(s),
        j matches JsonV::Int(n) ==> scalar_text(j) == Some(dec_int(n)),
        j matches JsonV::Bool(b) ==> scalar_text(j) == Some(
            if b {
                "true"@
            } else {
                "false"@
            },
        ),
        j is Null || j is Array || j is Object ==> scalar_text(j) is None,
{
}

/// A scalar is shown as what it is.
pub proof fn scalars_are_shown_as_they_are(j: JsonV)
    ensures
        j matches JsonV::Str(s) ==> val_of(j) == ValV::Str(s),
        j matches JsonV::Int(n) ==> val_of(j) == ValV::Int(n),
        j matches JsonV::Bool(b) ==> val_of(j) == ValV::Bool(b),
        j is Null ==> val_of(j) == ValV::Null,
        j is Array || j is Object ==> val_of(j) is Str,
{
}

/// The fields of an object are shown under their names, in their order; what is
/// no object has none.
pub proof fn objects_show_their_members(e: Seq<(Seq<char>, JsonV)>, i: int)
    requires
        0 <= i < e.len(),
    ensures
        record_of(Some(JsonV::Object(e))) matches Some(rec) && rec.len() == e.len() && rec[i].0
            == e[i].0 && rec[i].1 == val_of(e[i].1),
        record_of(None) is None,
{
}

/// A text is written in quotes, and reads back.
pub proof fn written_texts_read_back(s: Seq<char>)
    ensures
        json_cell(ValV::Str(s)).len() >= 2,
        json_cell(ValV::Str(s))[0] == '"',
        json_cell(ValV::Str(s)).last() == '"',
        unescaped(json_cell(ValV::Str(s)).subrange(1, json_cell(ValV::Str(s)).len() - 1)) == Some(
            s,
        ),
{
    reveal_strlit("\"");
    let t = json_cell(ValV::Str(s));
    assert(t =~= seq!['"'] + escaped(s) + seq!['"']);
    assert(t.subrange(1, t.len() - 1) =~= escaped(s));
    escaped_text_reads_back(s);
}

/// Numbers, truth values and nulls are written bare.
pub proof fn other_values_are_written_bare(n: int, b: bool, r: Seq<char>)
    ensures
        json_cell(ValV::Int(n)) == dec_int(n),
        tsv_cell(ValV::Int(n)) == dec_int(n),
        json_cell(ValV::Real(r)) == r,
        tsv_cell(ValV::Real(r)) == r,
        json_cell(ValV::Bool(b)) == if b {
            "true"@
        } else {
            "false"@
        },
        tsv_cell(ValV::Bool(b)) == json_cell(ValV::Bool(b)),
        json_cell(ValV::Null) == "null"@,
        tsv_cell(ValV::Null).len() == 0,
{
}

// ── Output ───────────────────────────────────────────────────────────────────

/// What was written stays, and each record adds one line at its end, unless the
/// limit is reached: then nothing is added.
pub proof fn records_are_added_at_the_end(s: RendererV, rec: RecordV)
    ensures
        done(s) ==> after_record(s, rec) == s,
        !done(s) ==> after_record(s, rec).emitted == s.emitted + 1 && s.out.is_prefix_of(
            after_record(s, rec).out,
        ) && after_record(s, rec).out.len() > s.out.len() && after_record(s, rec).out.last()
            == '\n',
        after_record(s, rec).format == s.format,
        after_record(s, rec).fields == s.fields,
        after_record(s, rec).limit == s.limit,
{
    reveal_strlit("\n");
}

/// A record is written as one object, with its fields or those that are asked
/// for.
pub proof fn records_are_written_as_objects(s: RendererV, rec: RecordV)
    requires
        !done(s),
        s.format is Json,
    ensures
        after_record(s, rec).out == s.out + json_object(s.fields, rec) + "\n"@,
{
}

/// A line that is found is written as it stands, unless it is to be taken apart:
/// into columns, or for the fields that are asked for.
pub proof fn lines_are_written_as_they_stand(s: RendererV, line: Seq<char>, j: Option<JsonV>)
    requires
        !done(s),
        s.format is Json,
    ensures
        s.fields is None ==> after_line(s, line, j).out == s.out + line + "\n"@,
        s.fields is None ==> after_line(s, line, j).emitted == s.emitted + 1,
        s.fields is Some && record_of(j) is Some ==> after_line(s, line, j) == after_record(
            s,
            record_of(j)->0,
        ),
        s.fields is Some && record_of(j) is None ==> after_line(s, line, j).out == s.out + line
            + "\n"@,
{
}

/// In columns a line is shown if it is an object, and left out if it is none.
pub proof fn columns_take_objects(s: RendererV, line: Seq<char>, j: Option<JsonV>)
    requires
        !done(s),
        s.format is Tsv,
    ensures
        record_of(j) is Some ==> after_line(s, line, j) == after_record(s, record_of(j)->0),
        record_of(j) is None ==> after_line(s, line, j) == s,
{
}

/// A row with its raw line at hand is shown as that line, and as itself
/// otherwise.
pub proof fn rows_are_shown_by_their_line(
    s: RendererV,
    cols: Seq<Seq<char>>,
    cells: Seq<Cell>,
    line: RawLine,
)
    ensures
        line matches RawLine::Found(l) ==> after_row(s, cols, cells, line) == after_line(
            s,
            l@,
            parsed_json(l@),
        ),
        !(line is Found) ==> after_row(s, cols, cells, line) == after_record(
            s,
            crate::buckets::row_record(cols, cells),
        ),
{
}

/// A raw search shows the lines that it finds, in their order, and no others.
pub proof fn raw_search_shows_what_it_finds(
    s: RendererV,
    ls: Seq<Seq<char>>,
    needle: Option<Seq<char>>,
    n: int,
)
    requires
        1 <= n <= ls.len(),
    ensures
        is_raw_hit(ls[n - 1], needle) ==> after_raw_lines(s, ls, needle, n) == after_line(
            after_raw_lines(s, ls, needle, n - 1),
            ls[n - 1],
            parsed_json(ls[n - 1]),
        ),
        !is_raw_hit(ls[n - 1], needle) ==> after_raw_lines(s, ls, needle, n) == after_raw_lines(
            s,
            ls,
            needle,
            n - 1,
        ),
        after_raw_lines(s, ls, needle, 0) == s,
{
}

/// A row without its raw line holds no text.
pub proof fn lost_lines_hold_nothing(line: Seq<char>, needle: Seq<char>)
    ensures
        !line_holds(None, needle),
        line_holds(Some(line), needle) == is_raw_hit(line, Some(needle)),
{
}

/// The formats are the three that have a name, and only the plain table has a
/// header.
pub proof fn formats_go_by_their_names(s: Seq<char>)
    ensures
        format_of(s) is Ok <==> s == "json"@ || s == "tsv"@ || s == "tsv-noheader"@,
        format_of("json"@) == Ok::<Format, Seq<char>>(Format::Json),
        format_of("tsv"@) == Ok::<Format, Seq<char>>(Format::Tsv { header: true }),
        format_of("tsv-noheader"@) == Ok::<Format, Seq<char>>(Format::Tsv { header: false }),
{
    reveal_strlit("json");
    reveal_strlit("tsv");
    reveal_strlit("tsv-noheader");
    assert("json"@.len() == 4 && "tsv"@.len() == 3 && "tsv-noheader"@.len() == 12);
}

/// The key of a group has one text for each cell, in their order.
pub proof fn keys_have_a_text_for_each_cell(v: Seq<Cell>, i: int)
    requires
        0 <= i < v.len(),
    ensures
        cell_texts(v).len() == v.len(),
        cell_texts(v)[i] == cell_text(v[i]),
{
}

/// The buckets of an index are its databases, the earliest name first.
pub proof fn buckets_are_databases(names: Seq<Seq<char>>, i: int)
    requires
        0 <= i < buckets_among(names).len(),
    ensures
        names.contains(buckets_among(names)[i]),
        stem(buckets_among(names)[i], ".db"@) is Some,
{
    let kept = with_extension(names, ".db"@, names.len() as int);
    crate::order::stable_order_exists(crate::order::text_keys(kept));
    let r = crate::order::stable_order_of(crate::order::text_keys(kept));
    assert(buckets_among(names)[i] == kept[r[i]]);
    lemma_kept_names(names, ".db"@, names.len() as int, r[i]);
}

proof fn lemma_kept_names(names: Seq<Seq<char>>, ext: Seq<char>, n: int, i: int)
    requires
        0 <= n <= names.len(),
        0 <= i < with_extension(names, ext, n).len(),
    ensures
        names.contains(with_extension(names, ext, n)[i]),
        stem(with_extension(names, ext, n)[i], ext) is Some,
    decreases n,
{
    let front = with_extension(names, ext, n - 1);
    if i < front.len() {
        lemma_kept_names(names, ext, n - 1, i);
        assert(with_extension(names, ext, n)[i] == front[i]);
    } else {
        assert(with_extension(names, ext, n)[i] == names[n - 1]);
    }
}

// ── Tables ───────────────────────────────────────────────────────────────────

/// A text that is aligned keeps its characters and fills its column with spaces.
pub proof fn columns_are_filled_with_spaces(s: Seq<char>, width: int)
    ensures
        left_aligned(s, width).len() == if s.len() < width {
            width
        } else {
            s.len() as int
        },
        right_aligned(s, width).len() == left_aligned(s, width).len(),
        s.is_prefix_of(left_aligned(s, width)),
        s.is_suffix_of(right_aligned(s, width)),
        forall|i: int|
            s.len() <= i < left_aligned(s, width).len() ==> #[trigger] left_aligned(s, width)[i]
                == ' ',
        forall|i: int|
            0 <= i < right_aligned(s, width).len() - s.len() ==> #[trigger] right_aligned(
                s,
                width,
            )[i] == ' ',
{
}

/// The name of a group is its first value.
pub proof fn groups_are_named_by_their_first_value(g: Group, missing: Seq<char>)
    ensures
        g.len() > 0 ==> name_of_group(g, missing) == g[0],
        g.len() == 0 ==> name_of_group(g, missing) == missing,
{
}

/// The groups are listed one after the other, each with its name and its count.
pub proof fn listed_groups_are_told(
    out: Seq<char>,
    gs: Seq<(Group, u64)>,
    missing: Seq<char>,
    width: int,
    n: int,
) -> (gaps: Seq<Seq<char>>)
    requires
        1 <= n <= gs.len(),
    ensures
        gaps.len() == 3,
        group_lines(out, gs, missing, width, n) == group_lines(out, gs, missing, width, n - 1)
            + (gaps[0] + name_of_group(gs[n - 1].0, missing) + gaps[1]
            + grouped(dec(gs[n - 1].1 as nat)) + gaps[2]),
        group_lines(out, gs, missing, width, 0) == out,
{
    let g0 = "  "@;
    let g1 = fill(' ', width - name_of_group(gs[n - 1].0, missing).len()) + "  "@
        + fill(' ', 10 - grouped(dec(gs[n - 1].1 as nat)).len());
    let g2 = "\n"@;
    let gaps = seq![g0, g1, g2];
    assert(group_lines(out, gs, missing, width, n) =~= group_lines(out, gs, missing, width, n - 1)
        + (g0 + name_of_group(gs[n - 1].0, missing) + g1 + grouped(dec(gs[n - 1].1 as nat)) + g2));
    gaps
}

/// The fields are listed one after the other, each with its number of events
/// and its share.
pub proof fn covered_fields_are_told(
    out: Seq<char>,
    rows: Seq<(String, u64)>,
    shares: Seq<Seq<char>>,
    n: int,
) -> (gaps: Seq<Seq<char>>)
    requires
        1 <= n <= rows.len(),
    ensures
        gaps.len() == 4,
        coverage_lines(out, rows, shares, n) == coverage_lines(out, rows, shares, n - 1)
            + (gaps[0] + rows[n - 1].0@ + gaps[1] + grouped(dec(rows[n - 1].1 as nat)) + gaps[2]
            + shares[n - 1] + gaps[3]),
        coverage_lines(out, rows, shares, 0) == out,
{
    let g0 = "  "@;
    let g1 = fill(' ', 24 - rows[n - 1].0@.len()) + "  "@
        + fill(' ', 10 - grouped(dec(rows[n - 1].1 as nat)).len());
    let g2 = "  "@;
    let g3 = "\n"@;
    let gaps = seq![g0, g1, g2, g3];
    assert(coverage_lines(out, rows, shares, n) =~= coverage_lines(out, rows, shares, n - 1)
        + (g0 + rows[n - 1].0@ + g1 + grouped(dec(rows[n - 1].1 as nat)) + g2 + shares[n - 1]
        + g3));
    gaps
}

/// The sources are listed one after the other, each with its number of files
/// and its last write.
pub proof fn source_files_are_told(
    keys: Seq<Seq<Seq<char>>>,
    counts: Seq<u64>,
    latest: Map<Seq<Seq<char>>, u64>,
    n: int,
) -> (gaps: Seq<Seq<char>>)
    requires
        1 <= n <= keys.len(),
    ensures
        gaps.len() == 4,
        source_lines(keys, counts, latest, n) == source_lines(keys, counts, latest, n - 1)
            + (gaps[0] + keys[n - 1][0] + gaps[1] + dec(counts[n - 1] as nat) + gaps[2]
            + dec(latest[keys[n - 1]] as nat) + gaps[3]),
{
    let g0 = "    "@;
    let g1 = fill(' ', 20 - keys[n - 1][0].len()) + " "@
        + fill(' ', 5 - dec(counts[n - 1] as nat).len());
    let g2 = " files  last="@;
    let g3 = "\n"@;
    let gaps = seq![g0, g1, g2, g3];
    assert(source_lines(keys, counts, latest, n) =~= source_lines(keys, counts, latest, n - 1)
        + (g0 + keys[n - 1][0] + g1 + dec(counts[n - 1] as nat) + g2
        + dec(latest[keys[n - 1]] as nat) + g3));
    gaps
}

/// The files to delete are listed one after the other, each with its size and
/// its path.
pub proof fn old_files_are_told(
    out: Seq<char>,
    files: Seq<OldFile>,
    n: int,
) -> (gaps: Seq<Seq<char>>)
    requires
        1 <= n <= files.len(),
    ensures
        gaps.len() == 3,
        file_lines(out, files, n) == file_lines(out, files, n - 1) + (gaps[0]
            + size_text(files[n - 1].size as int) + gaps[1] + files[n - 1].path@ + gaps[2]),
        file_lines(out, files, 0) == out,
{
    let g0 = "  "@ + fill(' ', 10 - size_text(files[n - 1].size as int).len());
    let g1 = "  "@;
    let g2 = "\n"@;
    let gaps = seq![g0, g1, g2];
    assert(file_lines(out, files, n) =~= file_lines(out, files, n - 1) + (g0
        + size_text(files[n - 1].size as int) + g1 + files[n - 1].path@ + g2));
    gaps
}

/// The issues of a rule are listed one after the other, each with the rule's
/// name.
pub proof fn issues_are_told(
    name: Seq<char>,
    issues: Seq<Seq<char>>,
    n: int,
) -> (gaps: Seq<Seq<char>>)
    requires
        1 <= n <= issues.len(),
    ensures
        gaps.len() == 3,
        issue_lines(name, issues, n) == issue_lines(name, issues, n - 1) + (gaps[0] + name
            + gaps[1] + issues[n - 1] + gaps[2]),
        issue_lines(name, issues, 0) == Seq::<char>::empty(),
{
    let g0 = "  ERROR ["@;
    let g1 = "] "@;
    let g2 = "\n"@;
    let gaps = seq![g0, g1, g2];
    assert(issue_lines(name, issues, n) =~= issue_lines(name, issues, n - 1) + (g0 + name + g1
        + issues[n - 1] + g2));
    gaps
}

/// The rules that were triggered are listed one after the other.
pub proof fn triggered_rules_are_told(
    out: Seq<char>,
    ids: Seq<Seq<char>>,
    n: int,
) -> (gaps: Seq<Seq<char>>)
    requires
        1 <= n <= ids.len(),
    ensures
        gaps.len() == 2,
        id_lines(out, ids, n) == id_lines(out, ids, n - 1) + (gaps[0] + ids[n - 1] + gaps[1]),
        id_lines(out, ids, 0) == out,
{
    let g0 = "    "@;
    let g1 = "\n"@;
    let gaps = seq![g0, g1];
    assert(id_lines(out, ids, n) =~= id_lines(out, ids, n - 1) + (g0 + ids[n - 1] + g1));
    gaps
}

/// The cells of a row are told one after the other.
pub proof fn trend_cells_are_told(
    out: Seq<char>,
    label: Seq<char>,
    width: int,
    cells: Seq<u64>,
    n: int,
) -> (gaps: Seq<Seq<char>>)
    requires
        1 <= n <= cells.len(),
    ensures
        gaps.len() == 2,
        row_line(out, label, width, cells, n) == row_line(out, label, width, cells, n - 1)
            + (gaps[0] + grouped(dec(cells[n - 1] as nat)) + gaps[1]),
{
    let g0 = "  "@ + fill(' ', 11 - grouped(dec(cells[n - 1] as nat)).len());
    let g1 = Seq::<char>::empty();
    let gaps = seq![g0, g1];
    assert(row_line(out, label, width, cells, n) =~= row_line(out, label, width, cells, n - 1)
        + (g0 + grouped(dec(cells[n - 1] as nat)) + g1));
    gaps
}

/// The columns are headed one after the other.
pub proof fn trend_columns_are_told(
    header: Seq<char>,
    width: int,
    labels: Seq<Seq<char>>,
    n: int,
) -> (gaps: Seq<Seq<char>>)
    requires
        1 <= n <= labels.len(),
    ensures
        gaps.len() == 2,
        head_line(header, width, labels, n) == head_line(header, width, labels, n - 1) + (gaps[0]
            + labels[n - 1] + gaps[1]),
{
    let g0 = "  "@ + fill(' ', 11 - labels[n - 1].len());
    let g1 = Seq::<char>::empty();
    let gaps = seq![g0, g1];
    assert(head_line(header, width, labels, n) =~= head_line(header, width, labels, n - 1) + (g0
        + labels[n - 1] + g1));
    gaps
}

/// A direction of the cross-check names the fields that it found, and says that
/// all is well exactly where it found none.
pub proof fn crosschecks_name_what_they_find(
    out: Seq<char>,
    names: Seq<Seq<char>>,
    fine: Seq<char>,
    warning: Seq<char>,
    advice: Seq<char>,
) -> (gaps: Seq<Seq<char>>)
    ensures
        gaps.len() == 2,
        names.len() == 0 ==> direction_text(out, names, fine, warning, advice) == out + fine,
        names.len() > 0 ==> direction_text(out, names, fine, warning, advice) == out + (gaps[0]
            + dec(
            names.len(),
        ) + gaps[1] + crate::text::joined(names, ", "@) + advice),
{
    let g0 = warning;
    let g1 = "):\n         "@;
    assert(names.len() > 0 ==> direction_text(out, names, fine, warning, advice) =~= out + (g0
        + dec(
        names.len(),
    ) + g1 + crate::text::joined(names, ", "@) + advice));
    seq![g0, g1]
}

// ── Sizes ────────────────────────────────────────────────────────────────────

proof fn lemma_unit_sizes()
    ensures
        unit_size(0) == 1,
        unit_size(1) == 1024,
        unit_size(2) == 1048576,
        unit_size(3) == 1073741824,
{
    reveal_with_fuel(unit_size, 4);
}

/// Sizes below a kilobyte are told in bytes.
pub proof fn small_sizes_are_told_in_bytes(n: nat)
    requires
        n < 1024,
    ensures
        size_text(n as int) == dec(n) + " B"@,
{
    lemma_exact(n as int);
    assert(unit_index(n as int, 0, 1) == 0);
}

proof fn lemma_exact(n: int)
    requires
        0 <= n < 0x20_0000_0000_0000,
    ensures
        as_double(n) == n,
{
    assert(spacing(n, 1) == 1);
    assert(n / 1 == n && n % 1 == 0);
}

/// Whole kilobytes, megabytes and gigabytes are told as that many of them.
pub proof fn whole_units_are_told_as_such(k: int)
    requires
        1 <= k < 1024,
    ensures
        size_text(k * 1024) == dec(k as nat) + "."@ + dec(0) + " "@ + "KB"@,
        size_text(k * 1024 * 1024) == dec(k as nat) + "."@ + dec(0) + " "@ + "MB"@,
        size_text(k * 1024 * 1024 * 1024) == dec(k as nat) + "."@ + dec(0) + " "@ + "GB"@,
{
    lemma_unit_sizes();
    reveal_with_fuel(unit_index, 5);
    lemma_exact(k * 1024);
    lemma_exact(k * 1024 * 1024);
    lemma_exact(k * 1024 * 1024 * 1024);
    assert(unit_index(k * 1024, 0, 1) == 1);
    assert(unit_index(k * 1024 * 1024, 0, 1) == 2);
    assert(unit_index(k * 1024 * 1024 * 1024, 0, 1) == 3);
    assert(nearest(10 * (k * 1024), 1024) == 10 * k) by {
        assert(10 * (k * 1024) / 1024 == 10 * k);
        assert(10 * (k * 1024) % 1024 == 0);
    }
    assert(nearest(10 * (k * 1024 * 1024), 1048576) == 10 * k) by {
        assert(10 * (k * 1024 * 1024) / 1048576 == 10 * k);
        assert(10 * (k * 1024 * 1024) % 1048576 == 0);
    }
    assert(nearest(10 * (k * 1024 * 1024 * 1024), 1073741824) == 10 * k) by {
        assert(10 * (k * 1024 * 1024 * 1024) / 1073741824 == 10 * k);
        assert(10 * (k * 1024 * 1024 * 1024) % 1073741824 == 0);
    }
    assert((10 * k) / 10 == k && (10 * k) % 10 == 0);
}

/// Case is all that upper and lower case change.
pub proof fn cases_differ_only_in_case(s: Seq<char>)
    ensures
        lower(upper(s)) == lower(s),
        upper(lower(s)) == upper(s),
        lower(s).len() == s.len(),
        lower(lower(s)) == lower(s),
{
    assert(lower(upper(s)) =~= lower(s));
    assert(upper(lower(s)) =~= upper(s));
    assert(lower(lower(s)) =~= lower(s));
}

// ── Reports ──────────────────────────────────────────────────────────────────

/// The counts by source end with the total; without any there is nothing to
/// count.
pub proof fn counts_by_source_end_with_the_total(m: Map<Group, u64>, total: nat)
    ensures
        ordered_groups(m).len() > 0 ==> count_line("total"@, 24, total).is_suffix_of(
            by_source_text(m, total as int),
        ),
        ordered_groups(m).len() == 0 ==> "  (no data)\n"@.is_suffix_of(
            by_source_text(m, total as int),
        ),
        has(count_line("total"@, 24, total), grouped(dec(total))),
{
    let line = count_line("total"@, 24, total);
    let g = grouped(dec(total));
    let a = "  "@ + left_aligned("total"@, 24) + "  "@ + fill(' ', 10 - g.len());
    texts_hold_their_parts(a, g, "\n"@);
    assert(a + g + "\n"@ =~= line);
}

/// A trend's table is as wide as its widest label.
pub proof fn labels_fit_their_column(header: Seq<char>, rows: Seq<Seq<char>>, n: int, i: int)
    requires
        0 <= i < n <= rows.len(),
    ensures
        byte_width(header) <= label_width(header, rows, n),
        byte_width(rows[i]) <= label_width(header, rows, n),
        label_width(header, rows, n) == byte_width(header) || exists|k: int|
            0 <= k < n && label_width(header, rows, n) == byte_width(#[trigger] rows[k]),
    decreases n,
{
    if n > 1 {
        labels_fit_their_column(header, rows, n - 1, if i < n - 1 {
            i
        } else {
            0
        });
    } else {
        assert(label_width(header, rows, 0) == byte_width(header));
    }
    if label_width(header, rows, n) == byte_width(rows[n - 1]) {
        assert(exists|k: int|
            0 <= k < n && label_width(header, rows, n) == byte_width(#[trigger] rows[k]));
    }
}

/// The lines that nothing matched are those processed and not matched.
pub proof fn unmatched_lines_are_the_rest(matched: nat, unmatched: nat, rate: Seq<char>) -> (gaps:
    Seq<Seq<char>>)
    ensures
        gaps.len() == 5,
        normalization_lines(matched + unmatched, matched, rate) == gaps[0] + dec(
            matched + unmatched,
        ) + gaps[1] + dec(matched) + gaps[2] + rate + gaps[3] + dec(unmatched) + gaps[4],
{
    let g0 = "=== Normalization ===\n  Lines processed: "@;
    let g1 = "\n  Matched:         "@;
    let g2 = "  ("@;
    let g3 = "%)\n  Unmatched:       "@;
    let g4 = "\n"@;
    seq![g0, g1, g2, g3, g4]
}

/// The summary of a deletion tells the files, their size, the directories and the
/// acknowledgements that went.
pub proof fn summaries_tell_what_went(deleted: nat, bytes: int, dirs: nat, dropped: nat) -> (gaps:
    Seq<Seq<char>>)
    ensures
        gaps.len() == 5,
        dropped > 0 ==> summary_text(deleted, bytes, dirs, dropped) == gaps[0] + dec(deleted)
            + gaps[1] + size_text(bytes) + gaps[2] + dec(dirs) + gaps[3] + dec(dropped) + gaps[4],
        dropped == 0 ==> summary_text(deleted, bytes, dirs, dropped) == gaps[0] + dec(deleted)
            + gaps[1] + size_text(bytes) + gaps[2] + dec(dirs) + gaps[3] + gaps[4],
{
    let g0 = "Retention complete: "@;
    let g1 = " file(s) deleted, "@;
    let g2 = ", "@;
    let g3 = if dropped > 0 {
        " empty dir(s) removed"@ + ", "@
    } else {
        " empty dir(s) removed"@
    };
    let g4 = if dropped > 0 {
        " stale ack line(s) compacted"@ + ".\n"@
    } else {
        ".\n"@
    };
    let head = g0 + dec(deleted) + g1 + size_text(bytes) + g2 + dec(dirs);
    if dropped > 0 {
        assert(head + " empty dir(s) removed"@ + (", "@ + dec(dropped)
            + " stale ack line(s) compacted"@) + ".\n"@ =~= head + g3 + dec(dropped) + g4);
    } else {
        assert(head + " empty dir(s) removed"@ + Seq::<char>::empty() + ".\n"@ =~= head + g3 + g4);
    }
    seq![g0, g1, g2, g3, g4]
}

/// The preview of a deletion tells the number of the files, and that of the
/// acknowledgements, where there are any.
pub proof fn previews_tell_what_would_go(files: Seq<OldFile>, stale: nat, path: Seq<char>)
    ensures
        stale > 0 ==> has(preview(files, stale, path), dec(stale)) && has(
            preview(files, stale, path),
            path,
        ),
        files.len() == 0 && stale == 0 ==> preview(files, stale, path).len() == 0,
        files.len() > 0 ==> has(preview(files, stale, path), dec(files.len())),
{
    let n = files.len() as int;
    let e = Seq::<char>::empty();
    let head = "DRY RUN — would delete "@ + dec(n as nat) + " file(s), "@ + size_text(
        sizes(files, n),
    ) + " total:\n"@;
    let a = if n == 0 {
        Seq::empty()
    } else {
        file_lines(head, files, n)
    };
    if n > 0 {
        texts_hold_their_parts(
            "DRY RUN — would delete "@,
            dec(n as nat),
            " file(s), "@ + size_text(sizes(files, n)) + " total:\n"@,
        );
        assert("DRY RUN — would delete "@ + dec(n as nat) + (" file(s), "@ + size_text(
            sizes(files, n),
        ) + " total:\n"@) =~= head);
        lemma_file_lines_hold(head, files, n, dec(n as nat));
    }
    if stale > 0 {
        let x = "DRY RUN — would drop "@;
        let y = " stale ack line(s) from "@;
        let whole = a + x + dec(stale) + y + path + "\n"@;
        texts_hold_their_parts(a + x, dec(stale), y + path + "\n"@);
        assert(a + x + dec(stale) + (y + path + "\n"@) =~= whole);
        texts_hold_their_parts(a + x + dec(stale) + y, path, "\n"@);
        if n > 0 {
            longer_texts_hold_more(e, a, x + dec(stale) + y + path + "\n"@, dec(n as nat));
            assert(a + (x + dec(stale) + y + path + "\n"@) =~= whole);
        }
    }
}

proof fn lemma_file_lines_hold(out: Seq<char>, files: Seq<OldFile>, n: int, p: Seq<char>)
    requires
        0 <= n <= files.len(),
        has(out, p),
    ensures
        has(file_lines(out, files, n), p),
    decreases n,
{
    if n > 0 {
        lemma_file_lines_hold(out, files, n - 1, p);
        let gaps = old_files_are_told(out, files, n);
        longer_texts_hold_more(
            Seq::empty(),
            file_lines(out, files, n - 1),
            gaps[0] + size_text(files[n - 1].size as int) + gaps[1] + files[n - 1].path@ + gaps[2],
            p,
        );
    }
}

/// The first record of a table comes under its header; the header splits at its
/// tabs into the columns, and the row into the cells.
pub proof fn tables_split_at_their_tabs(s: RendererV, rec: RecordV) -> (lines: (
    Seq<char>,
    Seq<char>,
))
    requires
        !done(s),
        s.format == (Format::Tsv { header: true }),
        !s.header_done,
        columns(s, rec).len() > 0,
        forall|i: int|
            0 <= i < columns(s, rec).len() ==> !(#[trigger] columns(s, rec)[i]).contains('\t'),
        forall|i: int|
            0 <= i < columns(s, rec).len() ==> !(#[trigger] row_cells(columns(s, rec), rec)[i]).contains(
                '\t',
            ),
    ensures
        after_record(s, rec).out == s.out + lines.0 + seq!['\n'] + lines.1 + seq!['\n'],
        split(lines.0, '\t') == columns(s, rec),
        split(lines.1, '\t') == row_cells(columns(s, rec), rec),
{
    let cols = columns(s, rec);
    let cells = row_cells(cols, rec);
    reveal_strlit("\t");
    reveal_strlit("\n");
    assert("\t"@ =~= seq!['\t']);
    assert("\n"@ =~= seq!['\n']);
    joined_texts_split_again(cols, '\t');
    joined_texts_split_again(cells, '\t');
    (joined(cols, "\t"@), joined(cells, "\t"@))
}

/// An object is its fields in braces, separated by commas, and a field its quoted
/// name, which reads back, a colon and its value.
pub proof fn objects_are_fields_in_braces(
    fields: Option<Seq<Seq<char>>>,
    rec: RecordV,
    name: Seq<char>,
    v: ValV,
) -> (x: Seq<char>)
    ensures
        json_object(fields, rec) == seq!['{'] + joined(json_pairs(fields, rec), seq![',']) + seq![
            '}',
        ],
        json_pair(name, v) == seq!['"'] + x + seq!['"', ':'] + json_cell(v),
        unescaped(x) == Some(name),
{
    reveal_strlit("{");
    reveal_strlit("}");
    reveal_strlit(",");
    reveal_strlit("\"");
    reveal_strlit("\":");
    assert("{"@ =~= seq!['{']);
    assert("}"@ =~= seq!['}']);
    assert(","@ =~= seq![',']);
    assert("\""@ =~= seq!['"']);
    assert("\":"@ =~= seq!['"', ':']);
    escaped_text_reads_back(name);
    escaped(name)
}

/// Without a limit each group is one record, and so is each hit that is projected
/// on fields.
pub proof fn groups_and_hits_are_one_record_each(
    s: RendererV,
    fields: Seq<Seq<char>>,
    gs: Seq<(Group, u64)>,
    hs: Seq<JsonV>,
    n: int,
)
    requires
        s.limit is None,
        0 <= n,
    ensures
        n <= gs.len() ==> groups_after(s, fields, gs, n).emitted == s.emitted + n && groups_after(
            s,
            fields,
            gs,
            n,
        ).limit is None && s.out.is_prefix_of(groups_after(s, fields, gs, n).out),
        n <= hs.len() ==> hits_after(s, hs, Some(fields), n).emitted == s.emitted + n && hits_after(
            s,
            hs,
            Some(fields),
            n,
        ).limit is None && s.out.is_prefix_of(hits_after(s, hs, Some(fields), n).out),
    decreases n,
{
    if n > 0 {
        groups_and_hits_are_one_record_each(s, fields, gs, hs, n - 1);
        if n <= gs.len() {
            let t = groups_after(s, fields, gs, n - 1);
            let rec = group_record(fields, gs[n - 1].0, gs[n - 1].1 as int);
            records_are_added_at_the_end(t, rec);
            lemma_prefix_chain(s.out, t.out, after_record(t, rec).out);
        }
        if n <= hs.len() {
            let t = hits_after(s, hs, Some(fields), n - 1);
            let rec = projected(hs[n - 1], fields);
            records_are_added_at_the_end(t, rec);
            lemma_prefix_chain(s.out, t.out, after_record(t, rec).out);
        }
    }
}

proof fn lemma_prefix_chain(a: Seq<char>, b: Seq<char>, c: Seq<char>)
    requires
        a.is_prefix_of(b),
        b.is_prefix_of(c),
    ensures
        a.is_prefix_of(c),
{
    assert(a =~= c.subrange(0, a.len() as int)) by {
        assert(b == c.subrange(0, b.len() as int));
        assert(a == b.subrange(0, a.len() as int));
    }
}

} // verus!
