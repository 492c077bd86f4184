//! The volume-trend table: one column per interval of hours, one row per
//! source or event type.
use vstd::prelude::*;

use crate::collections::{key_texts, GroupCounts};
use crate::figures::{fmt_n, grouped};
use crate::groups::{groups_at, groups_by_count, groups_in_order, Group};
use crate::number::dec;
use crate::status::byte_width;
use crate::text::{left_aligned, opt_view, pad_left, pad_right, right_aligned, views};
use crate::time::{advance_by_is_n_hours, advance_raises_rank, advances_add_up, hour_in_filename};
use crate::time::{hour_lt, hour_number_in_range, hours_after, hours_in_order, ranks_in_order};
use crate::time::{HourBucket, LAST_SAFE_YEAR};

verus! {

/// Whether these are the first hours of columns of `hours` hours each: all that
/// come from one hour on and are not later than another.
pub open spec fn are_columns(
    starts: Seq<HourBucket>,
    after: HourBucket,
    before: HourBucket,
    hours: int,
) -> bool {
    &&& forall|k: int|
        0 <= k < starts.len() ==> #[trigger] starts[k] == hours_after(after, (k * hours) as nat)
    &&& forall|k: int| 0 <= k < starts.len() ==> !hour_lt(before, #[trigger] starts[k])
    &&& hour_lt(before, hours_after(after, (starts.len() * hours) as nat))
}

/// The first hours of the columns.
pub fn column_starts(after: HourBucket, before: HourBucket, hours: u32) -> (r: Vec<HourBucket>)
    requires
        after.in_bounds(),
        before.in_bounds(),
        before.year <= LAST_SAFE_YEAR,
        hours >= 1,
    ensures
        are_columns(r@, after, before, hours as int),
{
    let mut r: Vec<HourBucket> = Vec::new();
    let mut cur = after;
    assert(0 * hours == 0);
    while !before.is_before(&cur)
        invariant
            before.in_bounds(),
            before.year <= LAST_SAFE_YEAR,
            hours >= 1,
            cur.in_bounds(),
            cur == hours_after(after, (r@.len() * hours) as nat),
            forall|k: int|
                0 <= k < r@.len() ==> #[trigger] r@[k] == hours_after(after, (k * hours) as nat),
            forall|k: int| 0 <= k < r@.len() ==> !hour_lt(before, #[trigger] r@[k]),
        decreases before.rank() + 73 * u32::MAX - cur.rank(),
    {
        let ghost k = r@.len() as int;
        r.push(cur);
        proof {
            ranks_in_order(before, cur);
            assert((k + 1) * hours == k * hours + hours) by (nonlinear_arith);
            assert(k * hours >= 0) by (nonlinear_arith)
                requires
                    k >= 0,
                    hours >= 1,
            ;
            advance_raises_rank(cur, hours as nat);
            advances_add_up(after, (k * hours) as nat, hours as nat);
        }
        cur = cur.advance_by(hours);
    }
    r
}

/// The column of a bucket by its file name, if it names an hour in the range.
pub open spec fn column_of(
    name: Seq<char>,
    after: HourBucket,
    before: HourBucket,
    hours: int,
) -> Option<int> {
    match hour_in_filename(name) {
        Some(b) => if hour_lt(b, after) || hour_lt(before, b) {
            None
        } else {
            Some((b.number() - after.number()) / hours)
        },
        None => None,
    }
}

/// The column of a bucket by its file name, if it names an hour in the range. It
/// is among the columns of that range.
pub fn bucket_column(name: &str, after: HourBucket, before: HourBucket, hours: u32) -> (r: Option<
    u64,
>)
    requires
        hours >= 1,
        column_of(name@, after, before, hours as int) is Some ==> after.valid() && hour_in_filename(
            name@,
        )->0.valid(),
    ensures
        match r {
            Some(k) => column_of(name@, after, before, hours as int) == Some(k as int) && forall|
                starts: Seq<HourBucket>,
            | #[trigger]
                are_columns(starts, after, before, hours as int) ==> k < starts.len(),
            None => column_of(name@, after, before, hours as int) is None,
        },
{
    match HourBucket::from_filename(name) {
        None => None,
        Some(b) => {
            if b.is_before(&after) || before.is_before(&b) {
                return None;
            }
            proof {
                hours_in_order(b, after);
                hour_number_in_range(b);
                crate::time::first_hour_number(after);
            }
            let h: i128 = hours as i128;
            let since: i128 = (b.to_datetime().nanos - after.to_datetime().nanos) / (3600
                * crate::window::NANOS);
            assert(since == b.number() - after.number());
            let k: i128 = since / h;
            proof {
                lemma_column_fits(since as int, hours as int);
                assert forall|starts: Seq<HourBucket>| #[trigger]
                    are_columns(starts, after, before, hours as int) implies k < starts.len() by {
                    if starts.len() <= k {
                        lemma_column_reached(starts, after, before, b, hours as int, k as int);
                    }
                }
            }
            Some(k as u64)
        },
    }
}

proof fn lemma_column_fits(x: int, h: int)
    requires
        0 <= x,
        h >= 1,
    ensures
        0 <= x / h <= x,
        (x / h) * h <= x,
{
    vstd::arithmetic::div_mod::lemma_div_pos_is_pos(x, h);
    vstd::arithmetic::div_mod::lemma_fundamental_div_mod(x, h);
    vstd::arithmetic::div_mod::lemma_mod_bound(x, h);
    assert(x / h <= x && (x / h) * h <= x) by (nonlinear_arith)
        requires
            x == h * (x / h) + x % h,
            0 <= x % h,
            0 <= x / h,
            h >= 1,
    ;
}

proof fn lemma_column_reached(
    starts: Seq<HourBucket>,
    after: HourBucket,
    before: HourBucket,
    b: HourBucket,
    h: int,
    k: int,
)
    requires
        are_columns(starts, after, before, h),
        after.valid(),
        b.valid(),
        !hour_lt(before, b),
        h >= 1,
        k * h <= b.number() - after.number(),
    ensures
        k < starts.len(),
{
    let n = starts.len() as int;
    if n <= k {
        assert(0 <= n * h <= k * h) by (nonlinear_arith)
            requires
                0 <= n <= k,
                h >= 1,
        ;
        hour_number_in_range(b);
        advance_by_is_n_hours(after, (n * h) as nat);
        hours_in_order(b, hours_after(after, (n * h) as nat));
    }
}

// ── Counting ─────────────────────────────────────────────────────────────────

/// The counts of a trend table.
pub struct TrendTable {
    /// The counts of each column by row.
    pub columns: Vec<GroupCounts>,
    /// The counts by row over all columns.
    pub totals: GroupCounts,
    /// The counts of each column that belong to no row: their label is empty.
    pub loose: Vec<u64>,
    /// All counts that belong to no row.
    pub loose_total: u64,
    /// All counts.
    pub events: u64,
}

/// Whether no count exceeds a bound.
pub open spec fn bounded(m: Map<Group, u64>, b: int) -> bool {
    forall|g: Group| #[trigger] m.dom().contains(g) ==> m[g] <= b
}

/// Whether every group is one label.
pub open spec fn single_labels(m: Map<Group, u64>) -> bool {
    forall|g: Group| #[trigger] m.dom().contains(g) ==> g.len() == 1
}

/// The label of a group: its first value.
pub open spec fn label_of(g: Group) -> Seq<char> {
    if g.len() > 0 {
        g[0]
    } else {
        Seq::empty()
    }
}

/// The count of a group, zero if there is none.
pub open spec fn count_in(m: Map<Group, u64>, g: Group) -> int {
    if m.dom().contains(g) {
        m[g] as int
    } else {
        0
    }
}

/// The counts by row with the first `n` groups added; groups with an empty
/// label are left out.
pub open spec fn rows_added(m: Map<Group, u64>, keys: Seq<Group>, counts: Seq<u64>, n: int) -> Map<
    Group,
    u64,
>
    decreases n,
{
    if n <= 0 {
        m
    } else {
        let front = rows_added(m, keys, counts, n - 1);
        let label = label_of(keys[n - 1]);
        if label.len() == 0 {
            front
        } else {
            front.insert(seq![label], (count_in(front, seq![label]) + counts[n - 1]) as u64)
        }
    }
}

/// The sum of the counts of the first `n` groups with an empty label.
pub open spec fn loose_sum(keys: Seq<Group>, counts: Seq<u64>, n: int) -> int
    decreases n,
{
    if n <= 0 {
        0
    } else {
        loose_sum(keys, counts, n - 1) + if label_of(keys[n - 1]).len() == 0 {
            counts[n - 1] as int
        } else {
            0
        }
    }
}

/// The sum of the first `n` counts.
pub open spec fn sum_of(counts: Seq<u64>, n: int) -> int
    decreases n,
{
    if n <= 0 {
        0
    } else {
        sum_of(counts, n - 1) + counts[n - 1]
    }
}

/// Sums grow with every count.
pub proof fn sum_grows(counts: Seq<u64>, m: int, n: int)
    requires
        0 <= m <= n,
    ensures
        0 <= sum_of(counts, m) <= sum_of(counts, n),
    decreases n,
{
    if m < n {
        sum_grows(counts, m, n - 1);
    } else if n > 0 {
        sum_grows(counts, m - 1, n - 1);
    }
}

/// The sum of a row's counts over the first `n` columns.
pub open spec fn row_sum(columns: Seq<Map<Group, u64>>, row: Group, n: int) -> int
    decreases n,
{
    if n <= 0 {
        0
    } else {
        row_sum(columns, row, n - 1) + count_in(columns[n - 1], row)
    }
}

/// Whether the totals are the sums of the columns.
pub open spec fn totals_agree(columns: Seq<Map<Group, u64>>, totals: Map<Group, u64>) -> bool {
    forall|row: Group|
        #[trigger] count_in(totals, row) == row_sum(columns, row, columns.len() as int)
}

/// What the first `n` groups add to a row.
pub open spec fn added_to(row: Group, keys: Seq<Group>, counts: Seq<u64>, n: int) -> int
    decreases n,
{
    if n <= 0 {
        0
    } else {
        let label = label_of(keys[n - 1]);
        added_to(row, keys, counts, n - 1) + if label.len() > 0 && row == seq![label] {
            counts[n - 1] as int
        } else {
            0
        }
    }
}

proof fn lemma_row_sum_covers(columns: Seq<Map<Group, u64>>, row: Group, c: int, n: int)
    requires
        0 <= c < n,
    ensures
        count_in(columns[c], row) <= row_sum(columns, row, n),
        0 <= row_sum(columns, row, n - 1),
    decreases n,
{
    if c < n - 1 {
        lemma_row_sum_covers(columns, row, c, n - 1);
    } else if n > 1 {
        lemma_row_sum_covers(columns, row, 0, n - 1);
    }
}

proof fn lemma_row_sum_update(
    columns: Seq<Map<Group, u64>>,
    row: Group,
    c: int,
    m: Map<Group, u64>,
    n: int,
)
    requires
        0 <= c < columns.len(),
        0 <= n <= columns.len(),
    ensures
        row_sum(columns.update(c, m), row, n) == row_sum(columns, row, n) + if c < n {
            count_in(m, row) - count_in(columns[c], row)
        } else {
            0
        },
    decreases n,
{
    if n > 0 {
        lemma_row_sum_update(columns, row, c, m, n - 1);
    }
}

proof fn lemma_rows_added(
    m: Map<Group, u64>,
    row: Group,
    keys: Seq<Group>,
    counts: Seq<u64>,
    n: int,
)
    requires
        forall|g: Group| #[trigger] count_in(m, g) + sum_of(counts, n) <= u64::MAX,
    ensures
        count_in(rows_added(m, keys, counts, n), row) == count_in(m, row) + added_to(
            row,
            keys,
            counts,
            n,
        ),
        0 <= added_to(row, keys, counts, n) <= sum_of(counts, n) || n < 0,
    decreases n,
{
    if n > 0 {
        assert forall|g: Group| #[trigger] count_in(m, g) + sum_of(counts, n - 1) <= u64::MAX by {
            assert(count_in(m, g) + sum_of(counts, n) <= u64::MAX);
        }
        lemma_rows_added(m, row, keys, counts, n - 1);
        assert(count_in(m, row) + sum_of(counts, n) <= u64::MAX);
    }
}

/// Adding a bucket to a column keeps each row's total the sum of its columns.
pub proof fn totals_stay_sums(
    columns: Seq<Map<Group, u64>>,
    totals: Map<Group, u64>,
    column: int,
    keys: Seq<Group>,
    counts: Seq<u64>,
)
    requires
        totals_agree(columns, totals),
        0 <= column < columns.len(),
        forall|row: Group|
            #[trigger] count_in(totals, row) + sum_of(counts, counts.len() as int) <= u64::MAX,
    ensures
        totals_agree(
            columns.update(
                column,
                rows_added(columns[column], keys, counts, counts.len() as int),
            ),
            rows_added(totals, keys, counts, counts.len() as int),
        ),
{
    let n = counts.len() as int;
    let m = rows_added(columns[column], keys, counts, n);
    let k = columns.len() as int;
    assert forall|row: Group| #[trigger]
        count_in(columns[column], row) + sum_of(counts, n) <= u64::MAX by {
        assert(count_in(totals, row) == row_sum(columns, row, k));
        lemma_row_sum_covers(columns, row, column, k);
    }
    assert forall|row: Group| #[trigger]
        count_in(rows_added(totals, keys, counts, n), row) == row_sum(
            columns.update(column, m),
            row,
            k,
        ) by {
        assert(count_in(totals, row) == row_sum(columns, row, k));
        lemma_rows_added(totals, row, keys, counts, n);
        lemma_rows_added(columns[column], row, keys, counts, n);
        lemma_row_sum_update(columns, row, column, m, k);
    }
}

/// The counts of columns by row.
pub open spec fn column_counts(columns: Seq<GroupCounts>) -> Seq<Map<Group, u64>> {
    columns.map_values(|c: GroupCounts| c@)
}

proof fn lemma_no_counts(columns: Seq<Map<Group, u64>>, row: Group, n: int)
    requires
        n <= columns.len(),
        forall|c: int|
            0 <= c < columns.len() ==> #[trigger] columns[c] == Map::<Group, u64>::empty(),
    ensures
        row_sum(columns, row, n) == 0,
    decreases n,
{
    if n > 0 {
        lemma_no_counts(columns, row, n - 1);
    }
}

proof fn lemma_no_loose(loose: Seq<u64>, n: int)
    requires
        n <= loose.len(),
        forall|c: int| 0 <= c < loose.len() ==> #[trigger] loose[c] == 0,
    ensures
        sum_of(loose, n) == 0,
    decreases n,
{
    if n > 0 {
        lemma_no_loose(loose, n - 1);
    }
}

proof fn lemma_sum_update(counts: Seq<u64>, c: int, x: u64, n: int)
    requires
        0 <= c < counts.len(),
        n <= counts.len(),
    ensures
        sum_of(counts.update(c, x), n) == sum_of(counts, n) + if c < n {
            x - counts[c]
        } else {
            0
        },
    decreases n,
{
    if n > 0 {
        lemma_sum_update(counts, c, x, n - 1);
    }
}

impl TrendTable {
    /// Each total is the sum over the columns, and no count exceeds the number of
    /// events.
    pub open spec fn wf(&self) -> bool {
        &&& totals_agree(column_counts(self.columns@), self.totals@)
        &&& self.loose_total == sum_of(self.loose@, self.loose@.len() as int)
        &&& self.loose@.len() == self.columns@.len()
        &&& forall|i: int|
            0 <= i < self.columns@.len() ==> (#[trigger] self.columns@[i]).wf() && bounded(
                self.columns@[i]@,
                self.events as int,
            )
        &&& forall|i: int| 0 <= i < self.loose@.len() ==> (#[trigger] self.loose@[i]) <= self.events
        &&& self.totals.wf()
        &&& bounded(self.totals@, self.events as int)
        &&& single_labels(self.totals@)
        &&& self.loose_total <= self.events
    }

    /// An empty table of `n` columns.
    pub fn new(n: usize) -> (r: TrendTable)
        ensures
            r.wf(),
            r.columns@.len() == n,
            r.events == 0,
            r.totals@ == Map::<Group, u64>::empty(),
            r.loose_total == 0,
            forall|i: int|
                0 <= i < n ==> (#[trigger] r.columns@[i])@ == Map::<Group, u64>::empty(),
            forall|i: int| 0 <= i < n ==> #[trigger] r.loose@[i] == 0,
    {
        let mut columns: Vec<GroupCounts> = Vec::new();
        let mut loose: Vec<u64> = Vec::new();
        let mut i: usize = 0;
        while i < n
            invariant
                i <= n,
                columns@.len() == i,
                loose@.len() == i,
                forall|k: int|
                    0 <= k < i ==> (#[trigger] columns@[k]).wf() && columns@[k]@ == Map::<
                        Group,
                        u64,
                    >::empty(),
                forall|k: int| 0 <= k < i ==> #[trigger] loose@[k] == 0,
            decreases n - i,
        {
            columns.push(GroupCounts::new());
            loose.push(0);
            i = i + 1;
        }
        let totals = GroupCounts::new();
        proof {
            assert forall|row: Group| #[trigger]
                count_in(totals@, row) == row_sum(column_counts(columns@), row, n as int) by {
                lemma_no_counts(column_counts(columns@), row, n as int);
            }
            lemma_no_loose(loose@, n as int);
        }
        TrendTable { columns, totals, loose, loose_total: 0, events: 0 }
    }

    /// Adds the counts of one bucket to a column.
    pub fn add_bucket(&mut self, column: usize, acc: &GroupCounts)
        requires
            old(self).wf(),
            acc.wf(),
            column < old(self).columns@.len(),
            old(self).events + sum_of(acc.counts@, acc.counts@.len() as int) <= u64::MAX,
        ensures
            final(self).wf(),
            final(self).columns@.len() == old(self).columns@.len(),
            ({
                let keys = key_texts(acc.keys@);
                let n = acc.counts@.len() as int;
                let loose = loose_sum(keys, acc.counts@, n);
                &&& final(self).events == old(self).events + sum_of(acc.counts@, n)
                &&& final(self).totals@ == rows_added(old(self).totals@, keys, acc.counts@, n)
                &&& final(self).loose_total == old(self).loose_total + loose
                &&& forall|c: int|
                    0 <= c < final(self).columns@.len() ==> (#[trigger] final(self).columns@[c])@
                        == if c == column {
                        rows_added(old(self).columns@[c]@, keys, acc.counts@, n)
                    } else {
                        old(self).columns@[c]@
                    }
                &&& forall|c: int|
                    0 <= c < final(self).loose@.len() ==> #[trigger] final(self).loose@[c]
                        == old(self).loose@[c] + if c == column {
                        loose
                    } else {
                        0
                    }
            }),
    {
        let ghost keys = key_texts(acc.keys@);
        let ghost cs = acc.counts@;
        let ghost columns0 = self.columns@;
        let n: usize = acc.counts.len();
        let mut col = self.columns.remove(column);
        let mut loose: u64 = self.loose[column];
        let mut i: usize = 0;
        let ghost others = self.columns@;
        let ghost loose0 = self.loose@;
        let ghost e0 = self.events as int;
        assert(bounded(col@, e0));
        while i < n
            invariant
                n == acc.counts@.len(),
                acc.wf(),
                keys == key_texts(acc.keys@),
                cs == acc.counts@,
                e0 == old(self).events,
                e0 + sum_of(cs, n as int) <= u64::MAX,
                column < columns0.len(),
                columns0 == old(self).columns@,
                loose0 == old(self).loose@,
                self.columns@ == others,
                self.loose@ == loose0,
                i <= n,
                self.events == e0 + sum_of(cs, i as int),
                col.wf(),
                col@ == rows_added(columns0[column as int]@, keys, cs, i as int),
                bounded(col@, self.events as int),
                self.totals.wf(),
                self.totals@ == rows_added(old(self).totals@, keys, cs, i as int),
                bounded(self.totals@, self.events as int),
                single_labels(self.totals@),
                loose == loose0[column as int] + loose_sum(keys, cs, i as int),
                loose <= self.events,
                self.loose_total == old(self).loose_total + loose_sum(keys, cs, i as int),
                self.loose_total <= self.events,
            decreases n - i,
        {
            proof {
                sum_grows(cs, i + 1, n as int);
            }
            let count: u64 = acc.counts[i];
            assert(keys[i as int] == views(acc.keys@[i as int]@));
            let mut row: Vec<String> = Vec::new();
            let mut empty = true;
            if acc.keys[i].len() > 0 {
                row.push(acc.keys[i][0].clone());
                empty = crate::text::char_count(acc.keys[i][0].as_str()) == 0;
                assert(views(row@) =~= seq![label_of(keys[i as int])]);
            }
            assert(empty == (label_of(keys[i as int]).len() == 0));
            if empty {
                loose = loose + count;
                self.loose_total = self.loose_total + count;
            } else {
                col.add_count(&row, count);
                self.totals.add_count(&row, count);
            }
            self.events = self.events + count;
            i = i + 1;
        }
        self.columns.insert(column, col);
        self.loose.set(column, loose);
        proof {
            assert forall|c: int| 0 <= c < self.columns@.len() implies (
            #[trigger] self.columns@[c]).wf() && bounded(self.columns@[c]@, self.events as int)
                && self.columns@[c]@ == if c == column {
                rows_added(columns0[c]@, keys, cs, n as int)
            } else {
                columns0[c]@
            } by {
                if c != column {
                    assert(self.columns@[c] == columns0[c]);
                    assert(bounded(columns0[c]@, e0));
                    sum_grows(cs, 0, n as int);
                }
            }
            sum_grows(cs, 0, n as int);
            let counts0 = column_counts(columns0);
            assert forall|row: Group| #[trigger]
                count_in(old(self).totals@, row) + sum_of(cs, n as int) <= u64::MAX by {
                if old(self).totals@.dom().contains(row) {
                    assert(old(self).totals@[row] <= e0);
                }
            }
            totals_stay_sums(counts0, old(self).totals@, column as int, keys, cs);
            assert(column_counts(self.columns@) =~= counts0.update(
                column as int,
                rows_added(counts0[column as int], keys, cs, n as int),
            ));
            lemma_sum_update(loose0, column as int, loose, loose0.len() as int);
        }
    }
}

// ── The table ────────────────────────────────────────────────────────────────

/// The width of the first column: that of its longest label in bytes.
pub open spec fn label_width(header: Seq<char>, rows: Seq<Seq<char>>, n: int) -> int
    decreases n,
{
    if n <= 0 {
        byte_width(header)
    } else {
        let w = label_width(header, rows, n - 1);
        if byte_width(rows[n - 1]) > w {
            byte_width(rows[n - 1])
        } else {
            w
        }
    }
}

/// The first `n` labels of the head line.
pub open spec fn head_line(header: Seq<char>, width: int, labels: Seq<Seq<char>>, n: int) -> Seq<
    char,
>
    decreases n,
{
    if n <= 0 {
        left_aligned(header, width)
    } else {
        head_line(header, width, labels, n - 1) + "  "@ + right_aligned(labels[n - 1], 11)
    }
}

/// The first `n` cells of a row.
pub open spec fn row_line(out: Seq<char>, label: Seq<char>, width: int, cells: Seq<u64>, n: int) -> Seq<
    char,
>
    decreases n,
{
    if n <= 0 {
        out + left_aligned(label, width)
    } else {
        row_line(out, label, width, cells, n - 1) + "  "@ + right_aligned(
            grouped(dec(cells[n - 1] as nat)),
            11,
        )
    }
}

/// The cells as numbers.
pub open spec fn cell_views(v: Seq<Vec<u64>>) -> Seq<Seq<u64>> {
    v.map_values(|r: Vec<u64>| r@)
}

/// The head line and the first `n` rows.
pub open spec fn table_lines(
    header: Seq<char>,
    labels: Seq<Seq<char>>,
    rows: Seq<Seq<char>>,
    cells: Seq<Seq<u64>>,
    n: int,
) -> Seq<char>
    decreases n,
{
    let width = label_width(header, rows, rows.len() as int);
    if n <= 0 {
        head_line(header, width, labels, labels.len() as int) + "\n"@
    } else {
        row_line(
            table_lines(header, labels, rows, cells, n - 1),
            rows[n - 1],
            width,
            cells[n - 1],
            cells[n - 1].len() as int,
        ) + "\n"@
    }
}

/// The table: a head line, then one line per row.
pub fn table_text(header: &str, labels: &Vec<String>, rows: &Vec<String>, cells: &Vec<Vec<u64>>) -> (r:
    String)
    requires
        cells@.len() == rows@.len(),
    ensures
        r@ == table_lines(
            header@,
            views(labels@),
            views(rows@),
            cell_views(cells@),
            rows@.len() as int,
        ),
{
    let ghost rv = views(rows@);
    let ghost lv = views(labels@);
    let ghost cv = cell_views(cells@);
    let mut width: usize = header.len();
    let mut i: usize = 0;
    while i < rows.len()
        invariant
            i <= rows@.len(),
            rv == views(rows@),
            width == label_width(header@, rv, i as int),
        decreases rows@.len() - i,
    {
        let w: usize = rows[i].as_str().len();
        if w > width {
            width = w;
        }
        i = i + 1;
    }
    let mut r = pad_right(header, width);
    let mut i: usize = 0;
    while i < labels.len()
        invariant
            i <= labels@.len(),
            lv == views(labels@),
            r@ == head_line(header@, width as int, lv, i as int),
        decreases labels@.len() - i,
    {
        r.append("  ");
        r.append(pad_left(labels[i].as_str(), 11).as_str());
        i = i + 1;
    }
    r.append("\n");
    let n: usize = rows.len();
    let mut k: usize = 0;
    while k < n
        invariant
            n == rows@.len(),
            cells@.len() == n,
            rv == views(rows@),
            lv == views(labels@),
            cv == cell_views(cells@),
            width == label_width(header@, rv, rv.len() as int),
            k <= n,
            r@ == table_lines(header@, lv, rv, cv, k as int),
        decreases n - k,
    {
        let ghost before = r@;
        let line = &cells[k];
        assert(cv[k as int] == line@);
        r.append(pad_right(rows[k].as_str(), width).as_str());
        let mut c: usize = 0;
        while c < line.len()
            invariant
                c <= line@.len(),
                k < n,
                n == rows@.len(),
                rv == views(rows@),
                r@ == row_line(before, rv[k as int], width as int, line@, c as int),
            decreases line@.len() - c,
        {
            r.append("  ");
            r.append(pad_left(fmt_n(line[c]).as_str(), 11).as_str());
            c = c + 1;
        }
        r.append("\n");
        k = k + 1;
    }
    r
}

/// The labels of hours.
pub open spec fn hour_labels(starts: Seq<HourBucket>) -> Seq<Seq<char>> {
    starts.map_values(|b: HourBucket| crate::time::hour_label(b))
}

/// Whether `rows` and `cells` are those of a table: the rows by their totals,
/// largest first, then by label; a cell is its row's count in its column.
pub open spec fn is_breakdown(t: TrendTable, rows: Seq<Seq<char>>, cells: Seq<Seq<u64>>) -> bool {
    exists|gs: Seq<(Group, u64)>| #[trigger]
        groups_in_order(gs, t.totals@) && rows.len() == gs.len() && cells.len() == gs.len()
            && forall|i: int|
            0 <= i < gs.len() ==> #[trigger] rows[i] == gs[i].0[0] && cells[i]
                == t.columns@.map_values(|c: GroupCounts| count_in(c@, gs[i].0) as u64)
}

/// Whether a text is the table of these counts.
pub open spec fn shows_breakdown(
    t: TrendTable,
    header: Seq<char>,
    labels: Seq<Seq<char>>,
    text: Seq<char>,
) -> bool {
    exists|rows: Seq<Seq<char>>, cells: Seq<Seq<u64>>| #[trigger]
        is_breakdown(t, rows, cells) && text == table_lines(
            header,
            labels,
            rows,
            cells,
            rows.len() as int,
        )
}

fn breakdown(t: &TrendTable) -> (r: (Vec<String>, Vec<Vec<u64>>))
    requires
        t.wf(),
    ensures
        r.0@.len() == t.totals.keys@.len(),
        r.1@.len() == r.0@.len(),
        is_breakdown(*t, views(r.0@), cell_views(r.1@)),
{
    let order = groups_by_count(&t.totals);
    let ghost gs = groups_at(t.totals, order@);
    let ghost kt = key_texts(t.totals.keys@);
    let mut rows: Vec<String> = Vec::new();
    let mut cells: Vec<Vec<u64>> = Vec::new();
    let n: usize = order.len();
    let mut i: usize = 0;
    while i < n
        invariant
            t.wf(),
            n == order@.len(),
            n == t.totals.keys@.len(),
            forall|k: int| 0 <= k < order@.len() ==> (#[trigger] order@[k]) < t.totals.keys@.len(),
            gs == groups_at(t.totals, order@),
            kt == key_texts(t.totals.keys@),
            i <= n,
            rows@.len() == i,
            cells@.len() == i,
            forall|k: int| 0 <= k < i ==> (#[trigger] rows@[k])@ == gs[k].0[0],
            forall|k: int|
                0 <= k < i ==> (#[trigger] cells@[k])@ == t.columns@.map_values(
                    |c: GroupCounts| count_in(c@, gs[k].0) as u64,
                ),
        decreases n - i,
    {
        let at: usize = order[i];
        let key = &t.totals.keys[at];
        proof {
            t.totals.entry_at(at as int);
            assert(gs[i as int].0 == kt[at as int]);
            assert(kt[at as int] == views(key@));
            assert(views(key@).len() == key@.len());
        }
        rows.push(key[0].clone());
        let mut line: Vec<u64> = Vec::new();
        let mut c: usize = 0;
        while c < t.columns.len()
            invariant
                t.wf(),
                c <= t.columns@.len(),
                line@.len() == c,
                forall|k: int|
                    0 <= k < c ==> #[trigger] line@[k] == count_in(
                        t.columns@[k]@,
                        views(key@),
                    ) as u64,
            decreases t.columns@.len() - c,
        {
            assert(t.columns@[c as int].wf());
            line.push(
                match t.columns[c].get(key) {
                    Some(x) => x,
                    None => 0,
                },
            );
            c = c + 1;
        }
        assert(line@ =~= t.columns@.map_values(
            |c: GroupCounts| count_in(c@, gs[i as int].0) as u64,
        ));
        cells.push(line);
        i = i + 1;
    }
    assert(views(rows@).len() == gs.len());
    assert(groups_in_order(gs, t.totals@));
    (rows, cells)
}

/// What a trend table shows and the exit code: rows by label; one row without
/// labels when a source has events but none of them a label; else that there is
/// no data.
pub fn trend_report(t: &TrendTable, source: &Option<String>, starts: &Vec<HourBucket>) -> (r: (
    String,
    i32,
))
    requires
        t.wf(),
    ensures
        ({
            let header = if source is Some {
                "event_type"@
            } else {
                "source"@
            };
            let labels = hour_labels(starts@);
            if t.totals.keys@.len() > 0 {
                r.1 == 0 && shows_breakdown(*t, header, labels, r.0@)
            } else if source is Some && t.loose_total > 0 {
                r.1 == 0 && r.0@ == "note: '"@ + opt_view(*source)->0
                    + "' events have no populated event_type (no dedicated parser) — showing total volume per bucket instead of a per-type breakdown\n"@
                    + table_lines(
                    header,
                    labels,
                    seq!["(total, ungrouped)"@],
                    seq![t.loose@],
                    1,
                )
            } else {
                r.1 == 1 && r.0@ == "(no data in range)\n"@
            }
        }),
{
    let header = if source.is_some() {
        "event_type"
    } else {
        "source"
    };
    let mut labels: Vec<String> = Vec::new();
    let mut i: usize = 0;
    while i < starts.len()
        invariant
            i <= starts@.len(),
            labels@.len() == i,
            forall|k: int|
                0 <= k < i ==> (#[trigger] labels@[k])@ == crate::time::hour_label(starts@[k]),
        decreases starts@.len() - i,
    {
        labels.push(starts[i].label());
        i = i + 1;
    }
    assert(views(labels@) =~= hour_labels(starts@));
    if t.totals.len() > 0 {
        let (rows, cells) = breakdown(t);
        let text = table_text(header, &labels, &rows, &cells);
        assert(views(rows@).len() == rows@.len());
        assert(is_breakdown(*t, views(rows@), cell_views(cells@)));
        return (text, 0);
    }
    match source {
        Some(s) => {
            if t.loose_total > 0 {
                let mut rows: Vec<String> = Vec::new();
                rows.push("(total, ungrouped)".to_owned());
                let mut line: Vec<u64> = Vec::new();
                let mut c: usize = 0;
                while c < t.loose.len()
                    invariant
                        c <= t.loose@.len(),
                        line@ == t.loose@.take(c as int),
                    decreases t.loose@.len() - c,
                {
                    line.push(t.loose[c]);
                    c = c + 1;
                    assert(t.loose@.take(c as int) =~= t.loose@.take(c - 1).push(t.loose@[c - 1]));
                }
                assert(t.loose@.take(c as int) =~= t.loose@);
                let mut cells: Vec<Vec<u64>> = Vec::new();
                cells.push(line);
                assert(views(rows@) =~= seq!["(total, ungrouped)"@]);
                assert(cell_views(cells@) =~= seq![t.loose@]);
                let mut text = "note: '".to_owned();
                text.append(s.as_str());
                text.append(
                    "' events have no populated event_type (no dedicated parser) — showing total volume per bucket instead of a per-type breakdown\n",
                );
                text.append(table_text(header, &labels, &rows, &cells).as_str());
                return (text, 0);
            }
        },
        None => {},
    }
    ("(no data in range)\n".to_owned(), 1)
}

} // verus!
