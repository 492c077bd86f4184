//! What trends, status reports and figures say, told from what they count.
use vstd::prelude::*;

use crate::collections::GroupCounts;
use crate::figures::{as_double, grouped, nearest, spacing, unit_index, unit_size};
use crate::groups::{groups_in_order, Group};
use crate::normconfig::SourceFields;
use crate::sources::core_names;
use crate::stats::{columns_of, field_counts, names_added};
use crate::status::{
    byte_width, file_counts, hanging_list, indexed_by, last_written, list_chunk, missing_from,
    normalized_line, source_line, wrapped, wrapped_list, SourceFile,
};
use crate::text::{fill, has, is_space, joined, left_aligned, trimmed_start};
use crate::text_laws::{
    longer_texts_hold_more, skipping_spaces_loses_no_word, texts_hold_their_parts,
    texts_hold_what_they_begin_with, trimming_loses_no_word,
};
use crate::time::{hour_in_filename, hours_in_order, HourBucket};
use crate::trend::{
    are_columns, column_of, count_in, is_breakdown, label_of, loose_sum, rows_added, sum_of,
    TrendTable,
};

verus! {

// ── Trends ───────────────────────────────────────────────────────────────────

/// A bucket is counted in the column whose hours hold its hour, and in none
/// exactly if its name gives no hour or the hour lies outside the range.
pub proof fn buckets_fall_in_their_column(
    name: Seq<char>,
    b: HourBucket,
    after: HourBucket,
    before: HourBucket,
    hours: int,
)
    requires
        hours >= 1,
        hour_in_filename(name) == Some(b),
        b.on_calendar(),
        after.on_calendar(),
        before.on_calendar(),
    ensures
        column_of(name, after, before, hours) is Some <==> after.number() <= b.number()
            <= before.number(),
        column_of(name, after, before, hours) matches Some(k) ==> 0 <= k && after.number() + k
            * hours <= b.number() < after.number() + (k + 1) * hours,
{
    hours_in_order(b, after);
    hours_in_order(before, b);
    let d = b.number() - after.number();
    if d >= 0 {
        let k = d / hours;
        assert(0 <= k && k * hours <= d < (k + 1) * hours) by (nonlinear_arith)
            requires
                hours >= 1,
                d >= 0,
                k == d / hours,
        ;
    }
}

/// The sum of the counts of the first `n` groups that begin with a label.
pub open spec fn sum_with_label(keys: Seq<Group>, counts: Seq<u64>, s: Seq<char>, n: int) -> int
    decreases n,
{
    if n <= 0 {
        0
    } else {
        sum_with_label(keys, counts, s, n - 1) + if keys[n - 1].len() > 0 && keys[n - 1][0] == s {
            counts[n - 1] as int
        } else {
            0
        }
    }
}

/// Adding groups to a table adds to each row the counts of the groups with its
/// label, and nothing else.
pub proof fn rows_gain_their_counts(
    m: Map<Group, u64>,
    keys: Seq<Group>,
    counts: Seq<u64>,
    s: Seq<char>,
    n: int,
)
    requires
        0 <= n <= keys.len(),
        n <= counts.len(),
        s.len() > 0,
        count_in(m, seq![s]) + sum_with_label(keys, counts, s, n) <= u64::MAX,
    ensures
        sum_with_label(keys, counts, s, n) >= 0,
        count_in(rows_added(m, keys, counts, n), seq![s]) == count_in(m, seq![s]) + sum_with_label(
            keys,
            counts,
            s,
            n,
        ),
    decreases n,
{
    if n > 0 {
        rows_gain_their_counts(m, keys, counts, s, n - 1);
        let label = label_of(keys[n - 1]);
        assert(seq![label][0] == label && seq![s][0] == s);
    }
}

/// The counts without a label are those of the groups that have none, or an
/// empty one.
pub proof fn loose_counts_have_no_label(keys: Seq<Group>, counts: Seq<u64>, n: int)
    requires
        0 <= n <= keys.len(),
        n <= counts.len(),
    ensures
        (forall|k: int|
            0 <= k < n ==> (#[trigger] keys[k]).len() == 0 || keys[k][0].len() == 0) ==> loose_sum(
            keys,
            counts,
            n,
        ) == sum_of(counts, n),
        (forall|k: int| 0 <= k < n ==> (#[trigger] keys[k]).len() > 0 && keys[k][0].len() > 0)
            ==> loose_sum(keys, counts, n) == 0,
        0 <= loose_sum(keys, counts, n) <= sum_of(counts, n),
    decreases n,
{
    if n > 0 {
        loose_counts_have_no_label(keys, counts, n - 1);
    }
}

/// In a trend each row is a label, and its cells are the counts of that label in
/// the columns, in their order; the row with the larger total stands first.
pub proof fn trend_cells_are_counts(
    t: TrendTable,
    rows: Seq<Seq<char>>,
    cells: Seq<Seq<u64>>,
    i: int,
    c: int,
)
    requires
        t.wf(),
        is_breakdown(t, rows, cells),
        0 <= i < rows.len(),
        0 <= c < t.columns@.len(),
    ensures
        cells.len() == rows.len(),
        cells[i].len() == t.columns@.len(),
        cells[i][c] == count_in(t.columns@[c]@, seq![rows[i]]),
        t.totals@.dom().contains(seq![rows[i]]),
        forall|j: int|
            i < j < rows.len() ==> t.totals@[seq![rows[i]]] >= t.totals@[seq![#[trigger] rows[j]]],
{
    let gs = choose|gs: Seq<(Group, u64)>| #[trigger]
        groups_in_order(gs, t.totals@) && rows.len() == gs.len() && cells.len() == gs.len()
            && forall|i: int|
            0 <= i < gs.len() ==> #[trigger] rows[i] == gs[i].0[0] && cells[i]
                == t.columns@.map_values(|c: GroupCounts| count_in(c@, gs[i].0) as u64);
    assert forall|k: int| 0 <= k < rows.len() implies gs[k].0 == seq![#[trigger] rows[k]] by {
        assert(t.totals@.dom().contains(gs[k].0));
        assert(gs[k].0.len() == 1);
        assert(gs[k].0 =~= seq![rows[k]]);
    }
    assert(rows[i] == gs[i].0[0]);
    assert(t.totals@.dom().contains(gs[i].0));
    assert forall|j: int| i < j < rows.len() implies t.totals@[seq![rows[i]]]
        >= t.totals@[seq![#[trigger] rows[j]]] by {
        assert(gs[i].1 >= gs[j].1);
        assert(t.totals@[gs[i].0] == gs[i].1 && t.totals@[gs[j].0] == gs[j].1);
    }
}

/// Every label with events has a row.
pub proof fn trends_leave_no_label_out(
    t: TrendTable,
    rows: Seq<Seq<char>>,
    cells: Seq<Seq<u64>>,
    label: Seq<char>,
)
    requires
        is_breakdown(t, rows, cells),
        t.totals@.dom().contains(seq![label]),
    ensures
        rows.contains(label),
{
    let gs = choose|gs: Seq<(Group, u64)>| #[trigger]
        groups_in_order(gs, t.totals@) && rows.len() == gs.len() && cells.len() == gs.len()
            && forall|i: int|
            0 <= i < gs.len() ==> #[trigger] rows[i] == gs[i].0[0] && cells[i]
                == t.columns@.map_values(|c: GroupCounts| count_in(c@, gs[i].0) as u64);
    let k = choose|k: int| 0 <= k < gs.len() && (#[trigger] gs[k]).0 == seq![label];
    assert(rows[k] == gs[k].0[0]);
    assert(seq![label][0] == label);
}

// ── Field coverage ───────────────────────────────────────────────────────────

/// The fields asked for are those that a bucket has as columns, in their order:
/// one is kept exactly if the bucket has it.
pub proof fn existing_fields_are_columns(
    a: Seq<Seq<char>>,
    b: Seq<Seq<char>>,
    cols: Seq<Seq<char>>,
    f: Seq<char>,
)
    ensures
        columns_of(a.push(f) + b, cols, (a.len() + 1 + b.len()) as int) == columns_of(
            a,
            cols,
            a.len() as int,
        ) + (if cols.contains(f) {
            seq![f]
        } else {
            seq![]
        }) + columns_of(b, cols, b.len() as int),
    decreases b.len(),
{
    let whole = a.push(f) + b;
    let n = (a.len() + 1 + b.len()) as int;
    if b.len() == 0 {
        lemma_columns_front(whole, a, cols, a.len() as int);
        assert(whole[n - 1] == f);
        assert(columns_of(whole, cols, n) =~= columns_of(a, cols, a.len() as int)
            + (if cols.contains(
            f,
        ) {
            seq![f]
        } else {
            seq![]
        }) + columns_of(b, cols, b.len() as int));
    } else {
        let c = b.drop_last();
        existing_fields_are_columns(a, c, cols, f);
        lemma_columns_front(whole, a.push(f) + c, cols, n - 1);
        lemma_columns_front(b, c, cols, b.len() - 1);
        assert(whole[n - 1] == b.last());
        assert(columns_of(whole, cols, n) =~= columns_of(a, cols, a.len() as int)
            + (if cols.contains(
            f,
        ) {
            seq![f]
        } else {
            seq![]
        }) + columns_of(b, cols, b.len() as int));
    }
}

proof fn lemma_columns_front(a: Seq<Seq<char>>, b: Seq<Seq<char>>, cols: Seq<Seq<char>>, n: int)
    requires
        0 <= n <= a.len(),
        n <= b.len(),
        forall|i: int| 0 <= i < n ==> a[i] == b[i],
    ensures
        columns_of(a, cols, n) == columns_of(b, cols, n),
    decreases n,
{
    if n > 0 {
        lemma_columns_front(a, b, cols, n - 1);
    }
}

/// The sum of what the first `n` entries add to a name.
pub open spec fn sum_named(named: Seq<(String, u64)>, name: Seq<char>, n: int) -> int
    decreases n,
{
    if n <= 0 {
        0
    } else {
        sum_named(named, name, n - 1) + if named[n - 1].0@ == name {
            named[n - 1].1 as int
        } else {
            0
        }
    }
}

/// Adding counts by name adds to each name what is given for it.
pub proof fn names_gain_their_counts(
    m: Map<Group, u64>,
    named: Seq<(String, u64)>,
    name: Seq<char>,
    n: int,
)
    requires
        0 <= n <= named.len(),
        count_in(m, seq![name]) + sum_named(named, name, n) <= u64::MAX,
    ensures
        sum_named(named, name, n) >= 0,
        count_in(names_added(m, named, n), seq![name]) == count_in(m, seq![name]) + sum_named(
            named,
            name,
            n,
        ),
    decreases n,
{
    if n > 0 {
        names_gain_their_counts(m, named, name, n - 1);
        assert(seq![named[n - 1].0@][0] == named[n - 1].0@ && seq![name][0] == name);
    }
}

/// Every field has a coverage: its sum, or zero where no bucket has it.
pub proof fn every_field_has_a_coverage(fields: Seq<Seq<char>>, sums: Map<Group, u64>, f: Seq<char>)
    ensures
        field_counts(fields, sums).dom().contains(seq![f]) == fields.contains(f),
        fields.contains(f) && sums.dom().contains(seq![f]) ==> field_counts(fields, sums)[seq![f]]
            == sums[seq![f]],
        fields.contains(f) && !sums.dom().contains(seq![f]) ==> field_counts(
            fields,
            sums,
        )[seq![f]] == 0,
{
    assert(seq![f][0] == f);
}

// ── Status ───────────────────────────────────────────────────────────────────

/// The number of the first `n` files that are of a source.
pub open spec fn files_of(files: Seq<SourceFile>, s: Seq<char>, n: int) -> int
    decreases n,
{
    if n <= 0 {
        0
    } else {
        files_of(files, s, n - 1) + if files[n - 1].source@ == s {
            1int
        } else {
            0
        }
    }
}

/// A source has as many files as are named after it, and is listed if any is.
pub proof fn files_are_counted(files: Seq<SourceFile>, s: Seq<char>, n: int)
    requires
        0 <= n <= files.len(),
        n <= u64::MAX,
    ensures
        0 <= files_of(files, s, n) <= n,
        count_in(file_counts(files, n), seq![s]) == files_of(files, s, n),
        file_counts(files, n).dom().contains(seq![s]) == (files_of(files, s, n) > 0),
    decreases n,
{
    if n > 0 {
        files_are_counted(files, s, n - 1);
        assert(seq![files[n - 1].source@][0] == files[n - 1].source@ && seq![s][0] == s);
    }
}

/// The last write of a source is that of its latest file.
pub proof fn last_write_is_the_latest(files: Seq<SourceFile>, n: int, i: int)
    requires
        0 <= i < n <= files.len(),
    ensures
        ({
            let m = last_written(files, n);
            let k = seq![files[i].source@];
            &&& m.dom().contains(k)
            &&& files[i].modified <= m[k]
            &&& exists|a: int|
                0 <= a < n && (#[trigger] files[a]).source@ == files[i].source@
                    && files[a].modified == m[k]
        }),
    decreases n,
{
    let k = seq![files[i].source@];
    let last = seq![files[n - 1].source@];
    assert(k[0] == files[i].source@ && last[0] == files[n - 1].source@);
    let front = last_written(files, n - 1);
    if i < n - 1 {
        last_write_is_the_latest(files, n - 1, i);
        let a = choose|a: int|
            0 <= a < n - 1 && (#[trigger] files[a]).source@ == files[i].source@
                && files[a].modified == front[k];
        assert(files[a].source@ == files[i].source@);
        assert(files[n - 1].source@ == files[n - 1].source@);
    } else if front.dom().contains(k) {
        let b = lemma_last_written_has(files, n - 1, files[i].source@);
        last_write_is_the_latest(files, n - 1, b);
        let a = choose|a: int|
            0 <= a < n - 1 && (#[trigger] files[a]).source@ == files[b].source@
                && files[a].modified == front[k];
        assert(files[a].source@ == files[i].source@);
    }
    assert(files[n - 1].source@ == files[n - 1].source@);
}

proof fn lemma_last_written_has(files: Seq<SourceFile>, n: int, s: Seq<char>) -> (b: int)
    requires
        0 <= n <= files.len(),
        last_written(files, n).dom().contains(seq![s]),
    ensures
        0 <= b < n,
        files[b].source@ == s,
    decreases n,
{
    assert(seq![files[n - 1].source@][0] == files[n - 1].source@ && seq![s][0] == s);
    if files[n - 1].source@ == s {
        n - 1
    } else {
        lemma_last_written_has(files, n - 1, s)
    }
}

/// A field is told as missing exactly if it is not known; the others before and
/// behind it do not matter.
pub proof fn missing_fields_are_unknown(
    a: Seq<Seq<char>>,
    b: Seq<Seq<char>>,
    known: Set<Seq<char>>,
    f: Seq<char>,
)
    ensures
        missing_from(a.push(f) + b, known, (a.len() + 1 + b.len()) as int) == missing_from(
            a,
            known,
            a.len() as int,
        ) + (if known.contains(f) {
            seq![]
        } else {
            seq![f]
        }) + missing_from(b, known, b.len() as int),
    decreases b.len(),
{
    let whole = a.push(f) + b;
    let n = (a.len() + 1 + b.len()) as int;
    let mid = if known.contains(f) {
        seq![]
    } else {
        seq![f]
    };
    if b.len() == 0 {
        lemma_missing_front(whole, a, known, a.len() as int);
        assert(whole[n - 1] == f);
        assert(missing_from(whole, known, n) =~= missing_from(a, known, a.len() as int) + mid
            + missing_from(b, known, b.len() as int));
    } else {
        let c = b.drop_last();
        missing_fields_are_unknown(a, c, known, f);
        lemma_missing_front(whole, a.push(f) + c, known, n - 1);
        lemma_missing_front(b, c, known, b.len() - 1);
        assert(whole[n - 1] == b.last());
        assert(missing_from(whole, known, n) =~= missing_from(a, known, a.len() as int) + mid
            + missing_from(b, known, b.len() as int));
    }
}

proof fn lemma_missing_front(a: Seq<Seq<char>>, b: Seq<Seq<char>>, known: Set<Seq<char>>, n: int)
    requires
        0 <= n <= a.len(),
        n <= b.len(),
        forall|i: int| 0 <= i < n ==> a[i] == b[i],
    ensures
        missing_from(a, known, n) == missing_from(b, known, n),
    decreases n,
{
    if n > 0 {
        lemma_missing_front(a, b, known, n - 1);
    }
}

/// A field is indexed exactly if it is a core field or one of some source.
pub proof fn indexed_by_core_or_source(per: SourceFields, f: Seq<char>, n: int)
    requires
        0 <= n <= per.sets@.len(),
    ensures
        indexed_by(per, n).contains(f) == (core_names().contains(f) || exists|i: int|
            0 <= i < n && (#[trigger] per.sets@[i])@.contains(f)),
    decreases n,
{
    if n > 0 {
        indexed_by_core_or_source(per, f, n - 1);
        if per.sets@[n - 1]@.contains(f) {
            assert(exists|i: int| 0 <= i < n && (#[trigger] per.sets@[i])@.contains(f));
        }
    }
}

/// The width of the first `n` fields with their separators.
pub open spec fn width_of(fields: Seq<Seq<char>>, n: int) -> int
    decreases n,
{
    if n <= 0 {
        0
    } else {
        width_of(fields, n - 1) + byte_width(list_chunk(fields, n - 1))
    }
}

proof fn lemma_width_grows(fields: Seq<Seq<char>>, m: int, n: int)
    requires
        0 <= m <= n,
    ensures
        width_of(fields, m) <= width_of(fields, n),
    decreases n - m,
{
    if m < n {
        lemma_width_grows(fields, m, n - 1);
    }
}

/// A list of fields that fits stands on one line, its fields separated by a
/// comma and a space.
pub proof fn short_lists_are_not_wrapped(fields: Seq<Seq<char>>, indent: int, width: int)
    requires
        0 <= indent,
        fields.len() > 0,
        indent + width_of(fields, fields.len() as int) <= width,
    ensures
        wrapped_list(fields, indent, width) == fill(' ', indent) + joined(fields, ", "@),
{
    let n = fields.len() as int;
    lemma_on_one_line(fields, indent, width, n);
    reveal_strlit("");
    assert(fields.take(n) =~= fields);
    assert(joined(fields, ", "@) + ""@ =~= joined(fields, ", "@));
}

proof fn lemma_on_one_line(fields: Seq<Seq<char>>, indent: int, width: int, n: int)
    requires
        0 <= indent,
        1 <= n <= fields.len(),
        indent + width_of(fields, fields.len() as int) <= width,
    ensures
        wrapped(fields, indent, width, n).1 == indent + width_of(fields, n),
        wrapped(fields, indent, width, n).0 == fill(' ', indent) + (joined(fields.take(n), ", "@)
            + if n < fields.len() {
            ", "@
        } else {
            ""@
        }),
    decreases n,
{
    lemma_width_grows(fields, n, fields.len() as int);
    reveal_with_fuel(width_of, 2);
    reveal_with_fuel(wrapped, 2);
    let sep = if n < fields.len() {
        ", "@
    } else {
        ""@
    };
    if n == 1 {
        assert(fields.take(1) =~= seq![fields[0]]);
        assert(wrapped(fields, indent, width, 0).1 == indent);
        assert(wrapped(fields, indent, width, 1).0 =~= fill(' ', indent) + (joined(
            fields.take(1),
            ", "@,
        ) + sep));
    } else {
        lemma_on_one_line(fields, indent, width, n - 1);
        lemma_width_grows(fields, n - 1, n);
        assert(fields.take(n).drop_last() =~= fields.take(n - 1));
        assert(fields.take(n).last() == fields[n - 1]);
        let j = joined(fields.take(n - 1), ", "@);
        assert(fill(' ', indent) + (j + ", "@) + (fields[n - 1] + sep) =~= fill(' ', indent) + (j
            + ", "@ + fields[n - 1] + sep));
    }
}

/// No line of a wrapped list is wider than allowed, but for one that holds a
/// single field.
pub proof fn wrapped_lines_fit(fields: Seq<Seq<char>>, indent: int, width: int, n: int)
    requires
        1 <= n <= fields.len(),
        0 <= indent,
    ensures
        wrapped(fields, indent, width, n).1 <= width || wrapped(fields, indent, width, n).1
            == indent + byte_width(list_chunk(fields, n - 1)),
        wrapped(fields, indent, width, n).1 >= indent,
    decreases n,
{
    if n > 1 {
        wrapped_lines_fit(fields, indent, width, n - 1);
    } else {
        assert(wrapped(fields, indent, width, 0).1 == indent);
    }
}

// ── Figures ──────────────────────────────────────────────────────────────────

/// A numeral with its digits grouped has a comma at every fourth place from the
/// right, and nowhere else.
pub proof fn commas_stand_every_three_digits(s: Seq<char>, i: int)
    requires
        !s.contains(','),
        0 <= i < grouped(s).len(),
    ensures
        (grouped(s)[grouped(s).len() - 1 - i] == ',') == (i % 4 == 3),
    decreases s.len(),
{
    reveal_strlit(",");
    let n = s.len() as int;
    let g = grouped(s);
    if n <= 3 {
        let k = g.len() - 1 - i;
        assert(s[k] != ',') by {
            if s[k] == ',' {
                assert(s.contains(','));
            }
        }
    } else {
        let front = s.take(n - 3);
        let back = s.skip(n - 3);
        let f = grouped(front);
        assert(!front.contains(',')) by {
            if front.contains(',') {
                let k = choose|k: int| 0 <= k < front.len() && front[k] == ',';
                assert(s[k] == ',');
            }
        }
        assert(g == f + ","@ + back);
        if i < 3 {
            assert(g[g.len() - 1 - i] == s[n - 1 - i]);
            assert(s[n - 1 - i] != ',') by {
                if s[n - 1 - i] == ',' {
                    assert(s.contains(','));
                }
            }
        } else if i == 3 {
            assert(g[g.len() - 4] == ',');
        } else {
            commas_stand_every_three_digits(front, i - 4);
            assert(g[g.len() - 1 - i] == f[f.len() - 1 - (i - 4)]);
        }
    }
}

/// A text without its commas.
pub open spec fn without_commas(s: Seq<char>) -> Seq<char>
    decreases s.len(),
{
    if s.len() == 0 {
        Seq::empty()
    } else if s.last() == ',' {
        without_commas(s.drop_last())
    } else {
        without_commas(s.drop_last()).push(s.last())
    }
}

proof fn lemma_without_commas(a: Seq<char>, b: Seq<char>)
    ensures
        without_commas(a + b) == without_commas(a) + without_commas(b),
    decreases b.len(),
{
    if b.len() == 0 {
        assert(a + b =~= a);
        assert(without_commas(a) + without_commas(b) =~= without_commas(a));
    } else {
        lemma_without_commas(a, b.drop_last());
        assert((a + b).drop_last() =~= a + b.drop_last());
        assert((a + b).last() == b.last());
        assert(without_commas(a + b) =~= without_commas(a) + without_commas(b));
    }
}

proof fn lemma_no_commas(s: Seq<char>)
    requires
        !s.contains(','),
    ensures
        without_commas(s) == s,
    decreases s.len(),
{
    if s.len() > 0 {
        let t = s.drop_last();
        assert(!t.contains(',')) by {
            if t.contains(',') {
                let k = choose|k: int| 0 <= k < t.len() && t[k] == ',';
                assert(s[k] == ',');
            }
        }
        lemma_no_commas(t);
        assert(s.last() != ',') by {
            if s.last() == ',' {
                assert(s[s.len() - 1] == ',');
                assert(s.contains(','));
            }
        }
        assert(t.push(s.last()) =~= s);
    }
}

/// Without its commas a grouped numeral is the numeral.
pub proof fn commas_change_no_digit(s: Seq<char>)
    requires
        !s.contains(','),
    ensures
        without_commas(grouped(s)) == s,
    decreases s.len(),
{
    let n = s.len() as int;
    if n <= 3 {
        lemma_no_commas(s);
    } else {
        reveal_strlit(",");
        let front = s.take(n - 3);
        let back = s.skip(n - 3);
        assert(!front.contains(',')) by {
            if front.contains(',') {
                let k = choose|k: int| 0 <= k < front.len() && front[k] == ',';
                assert(s[k] == ',');
            }
        }
        assert(!back.contains(',')) by {
            if back.contains(',') {
                let k = choose|k: int| 0 <= k < back.len() && back[k] == ',';
                assert(s[k + n - 3] == ',');
            }
        }
        commas_change_no_digit(front);
        lemma_no_commas(back);
        lemma_without_commas(grouped(front) + ","@, back);
        lemma_without_commas(grouped(front), ","@);
        assert(","@.drop_last() =~= Seq::<char>::empty());
        assert(","@.last() == ',');
        reveal_with_fuel(without_commas, 2);
        assert(without_commas(","@) =~= Seq::<char>::empty());
        assert(front + Seq::<char>::empty() + back =~= s);
    }
}

/// The nearest whole number is at most a half away, and of two that are equally
/// near it is the even one.
pub proof fn nearest_is_near(a: int, b: int)
    requires
        a >= 0,
        b > 0,
    ensures
        2 * (nearest(a, b) * b - a) <= b,
        2 * (a - nearest(a, b) * b) <= b,
        2 * (nearest(a, b) * b - a) == b || 2 * (a - nearest(a, b) * b) == b ==> nearest(a, b) % 2
            == 0,
{
    let q = a / b;
    let r = a % b;
    assert(a == q * b + r && 0 <= r < b) by (nonlinear_arith)
        requires
            a >= 0,
            b > 0,
            q == a / b,
            r == a % b,
    ;
    assert((q + 1) * b == q * b + b) by (nonlinear_arith);
    assert(q % 2 == 0 || q % 2 == 1);
    if 2 * r == b && q % 2 == 1 {
        assert(nearest(a, b) == q + 1);
    }
}

/// A size is told in the largest unit that it reaches.
pub proof fn sizes_reach_their_unit(m: int)
    requires
        m >= 0,
    ensures
        0 <= unit_index(m, 0, 1) <= 6,
        unit_index(m, 0, 1) > 0 ==> m >= unit_size(unit_index(m, 0, 1)),
        unit_index(m, 0, 1) < 6 ==> m < 1024 * unit_size(unit_index(m, 0, 1)),
{
    lemma_unit_index(m, 0);
}

proof fn lemma_unit_index(m: int, i: int)
    requires
        0 <= i <= 6,
        i > 0 ==> m >= unit_size(i),
    ensures
        i <= unit_index(m, i, unit_size(i)) <= 6,
        unit_index(m, i, unit_size(i)) > 0 ==> m >= unit_size(unit_index(m, i, unit_size(i))),
        unit_index(m, i, unit_size(i)) < 6 ==> m < 1024 * unit_size(
            unit_index(m, i, unit_size(i)),
        ),
    decreases 6 - i,
{
    if i < 6 && m >= 1024 * unit_size(i) {
        assert(unit_size(i + 1) == 1024 * unit_size(i));
        lemma_unit_index(m, i + 1);
    }
}

/// Sizes below the precision of the figures are exact.
pub proof fn small_sizes_are_exact(n: int)
    requires
        0 <= n < 0x20_0000_0000_0000,
    ensures
        as_double(n) == n,
{
    assert(spacing(n, 1) == 1);
    assert(n / 1 == n && n % 1 == 0);
}

/// A column of a trend begins at the hour that its place gives, and a bucket that
/// falls in it is not earlier.
pub proof fn columns_begin_in_step(
    starts: Seq<HourBucket>,
    after: HourBucket,
    before: HourBucket,
    hours: int,
    k: int,
)
    requires
        are_columns(starts, after, before, hours),
        after.valid(),
        hours >= 1,
        0 <= k < starts.len(),
        after.number() + k * hours <= crate::time::last_hour_number(),
    ensures
        starts[k].number() == after.number() + k * hours,
{
    assert(k * hours >= 0) by (nonlinear_arith)
        requires
            k >= 0,
            hours >= 1,
    ;
    crate::time::advance_by_is_n_hours(after, (k * hours) as nat);
}

/// A wrapped list holds each of its fields.
pub proof fn wrapped_lists_hold_their_fields(
    fields: Seq<Seq<char>>,
    indent: int,
    width: int,
    n: int,
    i: int,
)
    requires
        0 <= i < n <= fields.len(),
    ensures
        has(wrapped(fields, indent, width, n).0, fields[i]),
    decreases n,
{
    let out = wrapped(fields, indent, width, n - 1).0;
    let chunk = list_chunk(fields, n - 1);
    if i < n - 1 {
        wrapped_lists_hold_their_fields(fields, indent, width, n - 1, i);
        lemma_still_holds(out, "\n"@, fill(' ', indent), chunk, fields[i]);
    } else {
        let sep = if n < fields.len() {
            ", "@
        } else {
            ""@
        };
        lemma_now_holds(out, "\n"@, fill(' ', indent), fields[i], sep);
    }
}

proof fn lemma_still_holds(
    out: Seq<char>,
    x: Seq<char>,
    y: Seq<char>,
    chunk: Seq<char>,
    f: Seq<char>,
)
    requires
        has(out, f),
    ensures
        has(out + chunk, f),
        has(out + x + y + chunk, f),
{
    let e = Seq::<char>::empty();
    longer_texts_hold_more(e, out, chunk, f);
    longer_texts_hold_more(e, out, x + y + chunk, f);
    assert(out + (x + y + chunk) =~= out + x + y + chunk);
}

proof fn lemma_now_holds(
    out: Seq<char>,
    x: Seq<char>,
    y: Seq<char>,
    f: Seq<char>,
    sep: Seq<char>,
)
    ensures
        has(out + (f + sep), f),
        has(out + x + y + (f + sep), f),
{
    texts_hold_their_parts(out, f, sep);
    assert(out + f + sep =~= out + (f + sep));
    texts_hold_their_parts(out + x + y, f, sep);
    assert(out + x + y + f + sep =~= out + x + y + (f + sep));
}

/// Whether a text is a word: it has characters, and the first is no white space.
pub open spec fn is_word(s: Seq<char>) -> bool {
    s.len() > 0 && !is_space(s[0])
}

proof fn lemma_wrapped_front(fields: Seq<Seq<char>>, indent: int, width: int, n: int)
    requires
        0 <= indent,
    ensures
        wrapped(fields, indent, width, n).0.len() >= indent,
        forall|k: int| 0 <= k < indent ==> is_space(#[trigger] wrapped(fields, indent, width, n).0[k]),
    decreases n,
{
    if n > 0 {
        lemma_wrapped_front(fields, indent, width, n - 1);
        let out = wrapped(fields, indent, width, n - 1).0;
        let whole = wrapped(fields, indent, width, n).0;
        assert forall|k: int| 0 <= k < indent implies is_space(#[trigger] whole[k]) by {
            assert(whole[k] == out[k]);
        }
    }
}

/// A hanging list begins with its prefix and holds each of its fields.
pub proof fn hanging_lists_hold_their_fields(prefix: Seq<char>, fields: Seq<Seq<char>>, i: int)
    requires
        0 <= i < fields.len(),
        is_word(fields[i]),
    ensures
        prefix.is_prefix_of(hanging_list(prefix, fields)),
        has(hanging_list(prefix, fields), fields[i]),
{
    let indent = byte_width(prefix);
    let n = fields.len() as int;
    let t = wrapped_list(fields, indent, 76);
    wrapped_lists_hold_their_fields(fields, indent, 76, n, i);
    lemma_wrapped_front(fields, indent, 76, n);
    skipping_spaces_loses_no_word(t, indent, fields[i]);
    trimming_loses_no_word(t.skip(indent), fields[i]);
    longer_texts_hold_more(prefix, trimmed_start(t.skip(indent)), Seq::empty(), fields[i]);
}

/// The status of a source names it and each of its indexed fields.
pub proof fn source_status_names_its_fields(name: Seq<char>, fields: Seq<Seq<char>>, i: int)
    requires
        0 <= i < fields.len(),
        is_word(fields[i]),
    ensures
        has(source_line(name, fields), name),
        has(source_line(name, fields), fields[i]),
{
    let prefix = "    "@ + left_aligned(name, 20) + " "@;
    let h = hanging_list(prefix, fields);
    hanging_lists_hold_their_fields(prefix, fields, i);
    texts_hold_their_parts("    "@, name, fill(' ', 20 - name.len()) + " "@);
    assert("    "@ + name + (fill(' ', 20 - name.len()) + " "@) =~= prefix);
    texts_hold_what_they_begin_with(prefix, h, name);
    longer_texts_hold_more(Seq::empty(), h, "\n"@, name);
    longer_texts_hold_more(Seq::empty(), h, "\n"@, fields[i]);
}

/// The status of an application names it, each of its fields, and those that no
/// source indexes once more.
pub proof fn application_status_names_its_fields(
    app: Seq<char>,
    fields: Seq<Seq<char>>,
    indexed: Set<Seq<char>>,
    i: int,
)
    requires
        0 <= i < fields.len(),
        is_word(fields[i]),
    ensures
        has(normalized_line(app, fields, indexed), app),
        has(normalized_line(app, fields, indexed), fields[i]),
{
    let prefix = "  "@ + left_aligned(app, 20) + " "@;
    let h = hanging_list(prefix, fields);
    let whole = normalized_line(app, fields, indexed);
    hanging_lists_hold_their_fields(prefix, fields, i);
    texts_hold_their_parts("  "@, app, fill(' ', 20 - app.len()) + " "@);
    assert("  "@ + app + (fill(' ', 20 - app.len()) + " "@) =~= prefix);
    texts_hold_what_they_begin_with(prefix, h, app);
    assert(h.is_prefix_of(whole));
    texts_hold_what_they_begin_with(h, whole, app);
    texts_hold_what_they_begin_with(h, whole, fields[i]);
}

} // verus!
