//! What the names of hours, files and moments say.
use vstd::prelude::*;

use crate::calendar::{days_before_year, month_days, year_days, Civil};
use crate::digest_query::{
    bucket_name, bucket_of_file, hour_of_second, interval_count, interval_seconds, lines_by_bucket,
    name_in_window, slashed, slot_of, RawFile,
};
use crate::digest_render::{hm, hms};
use crate::number::zero_padded;
use crate::raw_files::{
    minute_in_prefix, name_holds_its_second, name_of, padded_reads_back, padded_width,
};
use crate::text::{char_from, char_from_is_first, is_digit, split, split_front, split_whole};
use crate::time::{
    hour_in_path, hour_in_text, hour_label, hours_in_order, read_i32, read_u32, read_u8, HourBucket,
};
use crate::trend::count_in;
use crate::window::{path_is_in_range, timestamp_in_text, Duration, NANOS, Window};

verus! {

// ── Written hours and moments ────────────────────────────────────────────────

/// A date as it is written.
pub open spec fn date_text(y: int, m: int, d: int) -> Seq<char> {
    zero_padded(y, 4) + (seq!['-'] + (zero_padded(m, 2) + (seq!['-'] + zero_padded(d, 2))))
}

proof fn lemma_padded_has_no(i: int, width: int, c: char)
    requires
        i >= 0,
        !is_digit(c),
    ensures
        !zero_padded(i, width).contains(c),
{
    padded_reads_back(i, width);
    let s = zero_padded(i, width);
    if s.contains(c) {
        let k = choose|k: int| 0 <= k < s.len() && s[k] == c;
        assert(is_digit(s[k]));
    }
}

proof fn lemma_date(y: int, m: int, d: int)
    requires
        y >= 0,
        m >= 0,
        d >= 0,
    ensures
        split(date_text(y, m, d), '-') == seq![
            zero_padded(y, 4),
            zero_padded(m, 2),
            zero_padded(d, 2),
        ],
        !date_text(y, m, d).contains('T'),
{
    lemma_padded_has_no(y, 4, '-');
    lemma_padded_has_no(m, 2, '-');
    lemma_padded_has_no(d, 2, '-');
    lemma_padded_has_no(y, 4, 'T');
    lemma_padded_has_no(m, 2, 'T');
    lemma_padded_has_no(d, 2, 'T');
    let a = zero_padded(y, 4);
    let b = zero_padded(m, 2);
    let c = zero_padded(d, 2);
    split_front(a, '-', b + (seq!['-'] + c));
    split_front(b, '-', c);
    split_whole(c, '-');
    assert(split(date_text(y, m, d), '-') =~= seq![a, b, c]);
    let s = date_text(y, m, d);
    if s.contains('T') {
        let k = choose|k: int| 0 <= k < s.len() && s[k] == 'T';
        if k < a.len() {
            assert(a[k] == 'T');
        } else if k > a.len() && k < a.len() + 1 + b.len() {
            assert(b[k - a.len() - 1] == 'T');
        } else if k > a.len() + 1 + b.len() {
            assert(c[k - a.len() - 1 - b.len() - 1] == 'T');
        }
    }
}

proof fn lemma_at_the_mark(date: Seq<char>, t: Seq<char>)
    requires
        !date.contains('T'),
    ensures
        ({
            let s = date + (seq!['T'] + t);
            let i = date.len() as int;
            &&& char_from(s, 'T', 0) == Some(i)
            &&& s.subrange(0, i) == date
            &&& s.subrange(i + 1, s.len() as int) == t
        }),
{
    let s = date + (seq!['T'] + t);
    char_from_is_first(s, 'T', 0);
    let i = date.len() as int;
    assert(s[i] == 'T');
    let k = char_from(s, 'T', 0)->0;
    assert(k == i) by {
        if k < i {
            assert(s[k] == date[k]);
        }
    }
    assert(s.subrange(0, i) =~= date);
    assert(s.subrange(i + 1, s.len() as int) =~= t);
}

/// A written hour reads back, also with minutes behind it.
pub proof fn written_hours_read_back(b: HourBucket, rest: Seq<char>)
    requires
        b.in_bounds(),
        b.year >= 0,
    ensures
        ({
            let date = date_text(b.year as int, b.month as int, b.day as int);
            let hour = zero_padded(b.hour as int, 2);
            &&& hour_in_text(date + (seq!['T'] + hour)) == Some(b)
            &&& hour_in_text(date + (seq!['T'] + (hour + (seq![':'] + rest)))) == Some(b)
        }),
{
    let date = date_text(b.year as int, b.month as int, b.day as int);
    let hour = zero_padded(b.hour as int, 2);
    lemma_date(b.year as int, b.month as int, b.day as int);
    lemma_padded_has_no(b.hour as int, 2, ':');
    lemma_at_the_mark(date, hour);
    lemma_at_the_mark(date, hour + (seq![':'] + rest));
    split_whole(hour, ':');
    split_front(hour, ':', rest);
    padded_reads_back(b.year as int, 4);
    padded_reads_back(b.month as int, 2);
    padded_reads_back(b.day as int, 2);
    padded_reads_back(b.hour as int, 2);
    let d = split(date, '-');
    assert(d[0] == zero_padded(b.year as int, 4) && d[1] == zero_padded(b.month as int, 2) && d[2]
        == zero_padded(b.day as int, 2));
    assert(read_i32(d[0]) == Some(b.year as int));
    assert(read_u8(d[1]) == Some(b.month as int));
    assert(read_u8(d[2]) == Some(b.day as int));
    assert(read_u8(hour) == Some(b.hour as int));
}

/// A written moment reads back.
pub proof fn written_moments_read_back(c: Civil)
    requires
        c.valid(),
        c.year >= 0,
    ensures
        timestamp_in_text(
            date_text(c.year as int, c.month as int, c.day as int) + (seq!['T'] + (zero_padded(
                c.hour as int,
                2,
            ) + (seq![':'] + (zero_padded(c.minute as int, 2) + (seq![':'] + zero_padded(
                c.second as int,
                2,
            )))))),
        ) == Some(c),
{
    let date = date_text(c.year as int, c.month as int, c.day as int);
    let h = zero_padded(c.hour as int, 2);
    let m = zero_padded(c.minute as int, 2);
    let s = zero_padded(c.second as int, 2);
    let t = h + (seq![':'] + (m + (seq![':'] + s)));
    lemma_date(c.year as int, c.month as int, c.day as int);
    lemma_at_the_mark(date, t);
    lemma_padded_has_no(c.hour as int, 2, ':');
    lemma_padded_has_no(c.minute as int, 2, ':');
    lemma_padded_has_no(c.second as int, 2, ':');
    split_front(h, ':', m + (seq![':'] + s));
    split_front(m, ':', s);
    split_whole(s, ':');
    assert(split(t, ':') =~= seq![h, m, s]);
    padded_reads_back(c.year as int, 4);
    padded_reads_back(c.month as int, 2);
    padded_reads_back(c.day as int, 2);
    padded_reads_back(c.hour as int, 2);
    padded_reads_back(c.minute as int, 2);
    padded_reads_back(c.second as int, 2);
    let d = split(date, '-');
    assert(d[0] == zero_padded(c.year as int, 4) && d[1] == zero_padded(c.month as int, 2) && d[2]
        == zero_padded(c.day as int, 2));
}

/// The calendar repeats every four hundred years, and a year has a day more
/// exactly if its second month has.
pub proof fn calendar_repeats(y: int, m: int)
    ensures
        days_before_year(y + 400) == days_before_year(y) + 146097,
        month_days(m, y + 400) == month_days(m, y),
        year_days(y) == 365 + (month_days(2, y) - 28),
        28 <= month_days(2, y) <= 29,
{
    assert((y + 400 - 1) / 4 == (y - 1) / 4 + 100);
    assert((y + 400 - 1) / 100 == (y - 1) / 100 + 4);
    assert((y + 400 - 1) / 400 == (y - 1) / 400 + 1);
    assert((y + 400) % 4 == y % 4 && (y + 400) % 100 == y % 100 && (y + 400) % 400 == y % 400);
}

// ── Raw files ────────────────────────────────────────────────────────────────

proof fn lemma_slashed(name: Seq<char>)
    ensures
        slashed(slashed(name)) == slashed(name),
        !name.contains('\\') ==> slashed(name) == name,
{
    assert(slashed(slashed(name)) =~= slashed(name));
    if !name.contains('\\') {
        assert forall|i: int| 0 <= i < name.len() implies slashed(name)[i] == name[i] by {
            if name[i] == '\\' {
                assert(name.contains('\\'));
            }
        }
        assert(slashed(name) =~= name);
    }
}

/// A raw file lies in a window exactly if its second does: from the start on and
/// before the end.
pub proof fn files_lie_in_the_window_of_their_second(c: Civil, source: Seq<char>, win: Window)
    requires
        c.valid(),
        split(source, '/')[0].len() > 0,
        !name_of(c, source).contains('\\'),
    ensures
        name_in_window(name_of(c, source), win) == (win.start.nanos <= c.seconds() * NANOS
            < win.end.nanos),
{
    name_holds_its_second(c, source);
    lemma_slashed(name_of(c, source));
}

/// Slashes of either kind part a name.
pub proof fn slashes_of_either_kind_count(name: Seq<char>, win: Window)
    ensures
        name_in_window(slashed(name), win) == name_in_window(name, win),
        bucket_of_file(slashed(name)) == bucket_of_file(name),
{
    lemma_slashed(name);
}

/// A raw file belongs to the bucket of its hour.
pub proof fn files_belong_to_the_bucket_of_their_hour(c: Civil, source: Seq<char>)
    requires
        c.valid(),
        split(source, '/')[0].len() > 0,
        !name_of(c, source).contains('\\'),
    ensures
        bucket_of_file(name_of(c, source)) matches Some(b) && exists|h: HourBucket|
            b == #[trigger] bucket_name(h) && h.year == c.year && h.month == c.month && h.day
                == c.day && h.hour == c.hour,
{
    name_holds_its_second(c, source);
    lemma_slashed(name_of(c, source));
    let h = hour_of_second(c);
    assert(1 <= c.month <= 12 && 1 <= c.day <= 31 && c.hour < 24);
    assert(bucket_of_file(name_of(c, source)) == Some(bucket_name(h)));
}

/// The number of lines of the first `n` files of a bucket.
pub open spec fn lines_in(files: Seq<RawFile>, bucket: Seq<char>, n: int) -> int
    decreases n,
{
    if n <= 0 {
        0
    } else {
        lines_in(files, bucket, n - 1) + if bucket_of_file(files[n - 1].name@) == Some(bucket) {
            files[n - 1].lines as int
        } else {
            0
        }
    }
}

/// A bucket has as many raw events as its files have lines.
pub proof fn lines_are_counted_by_bucket(files: Seq<RawFile>, bucket: Seq<char>, n: int)
    requires
        0 <= n <= files.len(),
        lines_in(files, bucket, n) <= u64::MAX,
    ensures
        lines_in(files, bucket, n) >= 0,
        count_in(lines_by_bucket(files, n), seq![bucket]) == lines_in(files, bucket, n),
    decreases n,
{
    if n > 0 {
        lines_are_counted_by_bucket(files, bucket, n - 1);
        if let Some(b) = bucket_of_file(files[n - 1].name@) {
            assert(seq![b][0] == b && seq![bucket][0] == bucket);
        }
    }
}

/// A path is read exactly if its hour lies in the range; one that names no hour
/// is read only where no range is given.
pub proof fn paths_are_read_in_range(
    path: Seq<char>,
    b: HourBucket,
    after: HourBucket,
    before: HourBucket,
)
    requires
        hour_in_path(path) == Some(b),
        b.on_calendar(),
        after.on_calendar(),
        before.on_calendar(),
    ensures
        path_is_in_range(path, Some(after), Some(before)) == (after.number() <= b.number()
            <= before.number()),
        path_is_in_range(path, Some(after), None) == (after.number() <= b.number()),
        path_is_in_range(path, None, Some(before)) == (b.number() <= before.number()),
        path_is_in_range(path, None, None),
{
    hours_in_order(b, after);
    hours_in_order(before, b);
}

/// A path that names no hour lies in no range.
pub proof fn unnamed_paths_lie_in_no_range(
    path: Seq<char>,
    after: Option<HourBucket>,
    before: Option<HourBucket>,
)
    requires
        hour_in_path(path) is None,
    ensures
        path_is_in_range(path, after, before) == (after is None && before is None),
{
}

/// A minute is counted in the interval that it lies in; minutes outside the
/// window are counted in none.
pub proof fn minutes_are_counted_in_their_interval(
    minute: Seq<char>,
    c: Civil,
    win: Window,
    interval: Duration,
)
    requires
        minute_in_prefix(minute) == Some(c),
    ensures
        slot_of(minute, win, interval) is Some <==> win.start.nanos <= c.seconds() * NANOS
            < win.end.nanos,
        slot_of(minute, win, interval) matches Some(i) ==> {
            let t = c.seconds() * NANOS - win.start.nanos;
            let width = interval_seconds(interval) * NANOS;
            &&& 0 <= i < interval_count(win, interval)
            &&& i * width <= t
            &&& i < interval_count(win, interval) - 1 ==> t < (i + 1) * width
        },
{
    if let Some(i) = slot_of(minute, win, interval) {
        let t = c.seconds() * NANOS - win.start.nanos;
        let s = interval_seconds(interval);
        let width = s * NANOS;
        let q = t / NANOS as int;
        let j = q / s;
        assert(0 <= t);
        assert(q * NANOS <= t < q * NANOS + NANOS && q >= 0) by (nonlinear_arith)
            requires
                q == t / NANOS as int,
                NANOS == 1_000_000_000,
                t >= 0,
        ;
        assert(j * s <= q && q + 1 <= j * s + s && j >= 0) by (nonlinear_arith)
            requires
                s >= 1,
                j == q / s,
                q >= 0,
        ;
        assert(j * width <= t < (j + 1) * width) by (nonlinear_arith)
            requires
                width == s * NANOS,
                j * s <= q,
                q + 1 <= j * s + s,
                q * NANOS <= t < q * NANOS + NANOS,
                NANOS == 1_000_000_000,
        ;
        assert(i <= j);
        assert(i * width <= j * width) by (nonlinear_arith)
            requires
                i <= j,
                width == s * NANOS,
                s >= 1,
                NANOS == 1_000_000_000,
        ;
    }
}

/// The intervals of a window cover it, and none of them lies behind its end.
pub proof fn intervals_cover_the_window(win: Window, interval: Duration)
    requires
        win.nanos() >= NANOS,
    ensures
        ({
            let len = win.nanos() / NANOS as int;
            let s = interval_seconds(interval);
            let n = interval_count(win, interval);
            &&& s >= 1
            &&& len <= n * s
            &&& (n - 1) * s < len
        }),
{
    let len = win.nanos() / NANOS as int;
    let s = interval_seconds(interval);
    let total = win.nanos();
    assert(len >= 1) by (nonlinear_arith)
        requires
            total >= NANOS,
            NANOS == 1_000_000_000,
            len == total / NANOS as int,
    ;
    let n = (len + s - 1) / s;
    assert(n >= 1 && len <= n * s && (n - 1) * s < len) by (nonlinear_arith)
        requires
            s >= 1,
            len >= 1,
            n == (len + s - 1) / s,
    ;
}

/// An interval is as many whole seconds as it lasts, and one at least.
pub proof fn intervals_last_their_seconds(k: int, interval: Duration)
    requires
        k >= 1,
        interval.nanos == k * NANOS,
    ensures
        interval_seconds(interval) == k,
{
    assert(interval.nanos as int / NANOS as int == k) by (nonlinear_arith)
        requires
            interval.nanos == k * NANOS,
            NANOS == 1_000_000_000,
    ;
}

/// The label of an hour gives its month, its day and its hour.
pub proof fn labels_give_month_day_and_hour(b: HourBucket)
    requires
        b.in_bounds(),
    ensures
        hour_label(b).len() == 11,
        read_u32(hour_label(b).subrange(0, 2)) == Some(b.month as int),
        read_u32(hour_label(b).subrange(3, 5)) == Some(b.day as int),
        read_u32(hour_label(b).subrange(6, 8)) == Some(b.hour as int),
{
    reveal_strlit("-");
    reveal_strlit(" ");
    reveal_strlit(":00");
    padded_width(b.month as int, 2);
    padded_width(b.day as int, 2);
    padded_width(b.hour as int, 2);
    padded_reads_back(b.month as int, 2);
    padded_reads_back(b.day as int, 2);
    padded_reads_back(b.hour as int, 2);
    let s = hour_label(b);
    assert(s.subrange(0, 2) =~= zero_padded(b.month as int, 2));
    assert(s.subrange(3, 5) =~= zero_padded(b.day as int, 2));
    assert(s.subrange(6, 8) =~= zero_padded(b.hour as int, 2));
}

/// A time of day gives its hour, its minute and its second.
pub proof fn times_give_hour_minute_and_second(c: Civil)
    requires
        c.valid(),
    ensures
        hm(c).len() == 5,
        hms(c).len() == 8,
        read_u32(hm(c).subrange(0, 2)) == Some(c.hour as int),
        read_u32(hm(c).subrange(3, 5)) == Some(c.minute as int),
        hms(c).subrange(0, 5) == hm(c),
        read_u32(hms(c).subrange(6, 8)) == Some(c.second as int),
{
    reveal_strlit(":");
    padded_width(c.hour as int, 2);
    padded_width(c.minute as int, 2);
    padded_width(c.second as int, 2);
    padded_reads_back(c.hour as int, 2);
    padded_reads_back(c.minute as int, 2);
    padded_reads_back(c.second as int, 2);
    assert(hm(c).subrange(0, 2) =~= zero_padded(c.hour as int, 2));
    assert(hm(c).subrange(3, 5) =~= zero_padded(c.minute as int, 2));
    assert(hms(c).subrange(0, 5) =~= hm(c));
    assert(hms(c).subrange(6, 8) =~= zero_padded(c.second as int, 2));
}

} // verus!
