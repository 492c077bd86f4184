//! Hours, moments and windows.
use core::cmp::Ordering;
use vstd::prelude::*;

use crate::calendar::{date_lies_in_year, day_number, days_before_month, days_before_year};
use crate::calendar::{later_date_is_after, month_days, months_fill_year};
use crate::calendar::year_after_year;
use crate::calendar::{MAX_YEAR, MIN_YEAR};
use crate::number::{parse_signed, parse_unsigned, read_signed, read_unsigned};
use crate::number::{zero_pad, zero_padded};
use crate::paths::{join_path, joined_path};
use crate::text::{char_from, find_char, is_suffix, piece, pieces, same, split, split_on};
use crate::text::{string_of, to_chars};

verus! {

// ── Hours ────────────────────────────────────────────────────────────────────

/// One hour of the data directory's layout `data/raw/YYYY/MM/DD/HH/`.
#[derive(Debug, Clone, Copy, PartialEq, Eq, Ord, Structural)]
pub struct HourBucket {
    pub year: i32,
    pub month: u8,
    pub day: u8,
    pub hour: u8,
}

/// Calendar order of hours.
pub open spec fn hour_lt(a: HourBucket, b: HourBucket) -> bool {
    a.year < b.year || (a.year == b.year && (a.month < b.month || (a.month == b.month && (a.day
        < b.day || (a.day == b.day && a.hour < b.hour)))))
}

impl PartialOrd for HourBucket {
    fn partial_cmp(&self, other: &HourBucket) -> (r: Option<Ordering>) {
        if self.is_before(other) {
            Some(Ordering::Less)
        } else if other.is_before(self) {
            Some(Ordering::Greater)
        } else {
            Some(Ordering::Equal)
        }
    }
}

impl vstd::std_specs::cmp::PartialOrdSpecImpl for HourBucket {
    open spec fn obeys_partial_cmp_spec() -> bool {
        true
    }

    open spec fn partial_cmp_spec(&self, other: &HourBucket) -> Option<Ordering> {
        if hour_lt(*self, *other) {
            Some(Ordering::Less)
        } else if hour_lt(*other, *self) {
            Some(Ordering::Greater)
        } else {
            Some(Ordering::Equal)
        }
    }
}

/// The fields of an hour, when they are in bounds (a day may still lie behind
/// the end of its month).
pub open spec fn hour_of(
    year: Option<int>,
    month: Option<int>,
    day: Option<int>,
    hour: Option<int>,
) -> Option<HourBucket> {
    match (year, month, day, hour) {
        (Some(y), Some(m), Some(d), Some(h)) => if 1 <= m <= 12 && 1 <= d <= 31 && h <= 23 {
            Some(HourBucket { year: y as i32, month: m as u8, day: d as u8, hour: h as u8 })
        } else {
            None
        },
        _ => None,
    }
}

/// What a 32-bit signed numeral reads as.
pub open spec fn read_i32(s: Seq<char>) -> Option<int> {
    read_signed(s, i32::MIN as int, i32::MAX as int)
}

/// What an 8-bit numeral reads as.
pub open spec fn read_u8(s: Seq<char>) -> Option<int> {
    read_unsigned(s, u8::MAX as int)
}

/// What a 32-bit numeral reads as.
pub open spec fn read_u32(s: Seq<char>) -> Option<int> {
    read_unsigned(s, u32::MAX as int)
}

/// The hour that `YYYY-MM-DDTHH`, with anything behind it from a colon on, names.
pub open spec fn hour_in_text(s: Seq<char>) -> Option<HourBucket> {
    match char_from(s, 'T', 0) {
        None => None,
        Some(i) => {
            let d = split(s.subrange(0, i), '-');
            let t = split(s.subrange(i + 1, s.len() as int), ':');
            if d.len() < 3 {
                None
            } else {
                hour_of(read_i32(d[0]), read_u8(d[1]), read_u8(d[2]), read_u8(t[0]))
            }
        },
    }
}

/// The name without a `.db` at its end.
pub open spec fn without_db(name: Seq<char>) -> Seq<char> {
    if is_suffix(".db"@, name) {
        name.subrange(0, name.len() - 3)
    } else {
        name
    }
}

/// The hour that a bucket's file name `YYYY-MM-DD-HH.db` names.
pub open spec fn hour_in_filename(name: Seq<char>) -> Option<HourBucket> {
    let p = split(without_db(name), '-');
    if p.len() != 4 {
        None
    } else {
        hour_of(read_i32(p[0]), read_u8(p[1]), read_u8(p[2]), read_u8(p[3]))
    }
}

/// The path `YYYY/MM/DD/HH` of an hour below a tree of hours, in its parts.
pub open spec fn path_parts(b: HourBucket) -> Seq<Seq<char>> {
    seq![
        zero_padded(b.year as int, 4),
        zero_padded(b.month as int, 2),
        zero_padded(b.day as int, 2),
        zero_padded(b.hour as int, 2),
    ]
}

/// The hour that a path `YYYY/MM/DD/HH/…` below a tree of hours begins with.
pub open spec fn hour_in_path(path: Seq<char>) -> Option<HourBucket> {
    let p = split(path, '/');
    if p.len() < 5 {
        None
    } else {
        match hour_of(read_i32(p[0]), read_u8(p[1]), read_u8(p[2]), read_u8(p[3])) {
            Some(b) => if p.take(4) == path_parts(b) {
                Some(b)
            } else {
                None
            },
            None => None,
        }
    }
}

fn hour_from(year: &Vec<char>, month: &Vec<char>, day: &Vec<char>, hour: &Vec<char>) -> (r: Option<
    HourBucket,
>)
    ensures
        r == hour_of(read_i32(year@), read_u8(month@), read_u8(day@), read_u8(hour@)),
{
    let y = parse_signed(year, i32::MIN as i64, i32::MAX as i64);
    let m = parse_unsigned(month, u8::MAX as u64);
    let d = parse_unsigned(day, u8::MAX as u64);
    let h = parse_unsigned(hour, u8::MAX as u64);
    match (y, m, d, h) {
        (Some(y), Some(m), Some(d), Some(h)) => {
            if 1 <= m && m <= 12 && 1 <= d && d <= 31 && h <= 23 {
                Some(HourBucket { year: y as i32, month: m as u8, day: d as u8, hour: h as u8 })
            } else {
                None
            }
        },
        _ => None,
    }
}

fn same_chars(v: &Vec<char>, s: &str) -> (r: bool)
    ensures
        r == (v@ == s@),
{
    same(string_of(v).as_str(), s)
}

/// The directory `base/YYYY/MM/DD/HH`.
pub open spec fn hour_dir(b: HourBucket, base: Seq<char>) -> Seq<char> {
    joined_path(
        joined_path(
            joined_path(
                joined_path(base, zero_padded(b.year as int, 4)),
                zero_padded(b.month as int, 2),
            ),
            zero_padded(b.day as int, 2),
        ),
        zero_padded(b.hour as int, 2),
    )
}

/// The label of an hour: `MM-DD HH:00`.
pub open spec fn hour_label(b: HourBucket) -> Seq<char> {
    zero_padded(b.month as int, 2) + "-"@ + zero_padded(b.day as int, 2) + " "@ + zero_padded(
        b.hour as int,
        2,
    ) + ":00"@
}

/// The hour after `b`.
pub open spec fn next_hour(b: HourBucket) -> HourBucket {
    if b.hour + 1 <= 23 {
        HourBucket { hour: (b.hour + 1) as u8, ..b }
    } else if b.day + 1 <= month_days(b.month as int, b.year as int) {
        HourBucket { day: (b.day + 1) as u8, hour: 0, ..b }
    } else if b.month + 1 <= 12 {
        HourBucket { month: (b.month + 1) as u8, day: 1, hour: 0, ..b }
    } else {
        HourBucket { year: (b.year + 1) as i32, month: 1, day: 1, hour: 0 }
    }
}

/// The hour `n` hours after `b`.
pub open spec fn hours_after(b: HourBucket, n: nat) -> HourBucket
    decreases n,
{
    if n == 0 {
        b
    } else {
        next_hour(hours_after(b, (n - 1) as nat))
    }
}

/// A year up to which advancing by any 32-bit number of hours stays in range.
pub const LAST_SAFE_YEAR: i32 = 2_000_000_000;

fn days_in_month(m: u8, y: i32) -> (r: u8)
    ensures
        r == month_days(m as int, y as int),
{
    if m == 4 || m == 6 || m == 9 || m == 11 {
        30
    } else if m == 2 {
        if y % 4 == 0 && (y % 100 != 0 || y % 400 == 0) {
            29
        } else {
            28
        }
    } else {
        31
    }
}

impl HourBucket {
    /// Whether this is an hour of the calendar, in any year.
    pub open spec fn on_calendar(self) -> bool {
        &&& 1 <= self.month <= 12
        &&& 1 <= self.day <= month_days(self.month as int, self.year as int)
        &&& self.hour < 24
    }

    /// Whether the fields are such as a calendar has, whatever the month's length.
    pub open spec fn in_bounds(self) -> bool {
        1 <= self.month <= 12 && 1 <= self.day <= 31 && self.hour < 24
    }

    /// The place of an hour with such fields in their order: every month counts as
    /// 31 days.
    pub open spec fn rank(self) -> int {
        ((self.year * 12 + self.month - 1) * 31 + self.day - 1) * 24 + self.hour
    }

    /// Whether this is an hour of the calendar, in the range of years.
    pub open spec fn valid(self) -> bool {
        MIN_YEAR <= self.year <= MAX_YEAR && self.on_calendar()
    }

    /// Whether this is an hour of the calendar, in the range of years.
    pub fn is_valid(&self) -> (r: bool)
        ensures
            r == self.valid(),
    {
        MIN_YEAR <= self.year && self.year <= MAX_YEAR && 1 <= self.month && self.month <= 12 && 1
            <= self.day && self.day <= days_in_month(self.month, self.year) && self.hour < 24
    }

    /// The hours from the epoch to this one.
    pub open spec fn number(self) -> int {
        day_number(self.year as int, self.month as int, self.day as int) * 24 + self.hour
    }

    /// Whether this hour comes before another.
    pub fn is_before(&self, other: &HourBucket) -> (r: bool)
        ensures
            r == hour_lt(*self, *other),
    {
        self.year < other.year || (self.year == other.year && (self.month < other.month || (
        self.month == other.month && (self.day < other.day || (self.day == other.day && self.hour
            < other.hour)))))
    }

    /// Parses `YYYY-MM-DDTHH` (or `YYYY-MM-DDTHH:MM:SS…`).
    pub fn parse(s: &str) -> (r: Option<HourBucket>)
        ensures
            r == hour_in_text(s@),
    {
        let v = to_chars(s);
        let n: usize = v.len();
        match find_char(&v, 'T', 0) {
            None => None,
            Some(i) => {
                let d = split_on(&piece(&v, 0, i), '-');
                let t = split_on(&piece(&v, i + 1, n), ':');
                assert(pieces(d@).len() == d@.len() && pieces(t@).len() == t@.len());
                if d.len() < 3 {
                    return None;
                }
                assert(pieces(d@)[0] == d@[0]@ && pieces(d@)[1] == d@[1]@ && pieces(d@)[2]
                    == d@[2]@);
                assert(pieces(t@)[0] == t@[0]@);
                hour_from(&d[0], &d[1], &d[2], &t[0])
            },
        }
    }

    /// Parses a bucket's file name such as `2026-06-22-08.db`.
    pub fn from_filename(name: &str) -> (r: Option<HourBucket>)
        ensures
            r == hour_in_filename(name@),
    {
        let v = to_chars(name);
        let base = if crate::text::ends_with(name, ".db") {
            proof {
                reveal_strlit(".db");
            }
            piece(&v, 0, v.len() - 3)
        } else {
            v
        };
        let p = split_on(&base, '-');
        assert(pieces(p@).len() == p@.len());
        if p.len() != 4 {
            return None;
        }
        assert(pieces(p@)[0] == p@[0]@ && pieces(p@)[1] == p@[1]@ && pieces(p@)[2] == p@[2]@
            && pieces(p@)[3] == p@[3]@);
        hour_from(&p[0], &p[1], &p[2], &p[3])
    }

    /// The directory `base/YYYY/MM/DD/HH`: the layout under `data/raw/`,
    /// `data/alerts/` and `data/alerts/correlated/`.
    pub fn dir_under(&self, base: &str) -> (r: String)
        ensures
            r@ == hour_dir(*self, base@),
    {
        let y = join_path(base, zero_pad(self.year as i64, 4).as_str());
        let m = join_path(y.as_str(), zero_pad(self.month as i64, 2).as_str());
        let d = join_path(m.as_str(), zero_pad(self.day as i64, 2).as_str());
        join_path(d.as_str(), zero_pad(self.hour as i64, 2).as_str())
    }

    /// The hour that a path `YYYY/MM/DD/HH/…` below a tree of hours begins with.
    pub fn from_path(path: &str) -> (r: Option<HourBucket>)
        ensures
            r == hour_in_path(path@),
    {
        let p = split_on(&to_chars(path), '/');
        let ghost pv = pieces(p@);
        assert(pv.len() == p@.len());
        if p.len() < 5 {
            return None;
        }
        assert(pv[0] == p@[0]@ && pv[1] == p@[1]@ && pv[2] == p@[2]@ && pv[3] == p@[3]@);
        match hour_from(&p[0], &p[1], &p[2], &p[3]) {
            None => None,
            Some(b) => {
                let written = same_chars(&p[0], zero_pad(b.year as i64, 4).as_str())
                    && same_chars(&p[1], zero_pad(b.month as i64, 2).as_str())
                    && same_chars(&p[2], zero_pad(b.day as i64, 2).as_str())
                    && same_chars(&p[3], zero_pad(b.hour as i64, 2).as_str());
                proof {
                    let front = pv.take(4);
                    let parts = path_parts(b);
                    if written {
                        assert(front =~= parts);
                    } else if front == parts {
                        assert(front[0] == parts[0] && front[1] == parts[1] && front[2] == parts[2]
                            && front[3] == parts[3]);
                    }
                }
                if written {
                    Some(b)
                } else {
                    None
                }
            },
        }
    }

    /// The next hour.
    pub fn advance(self) -> (r: HourBucket)
        requires
            self.hour < u8::MAX,
            self.day < u8::MAX,
            self.month < u8::MAX,
            self.year < i32::MAX,
        ensures
            r == next_hour(self),
    {
        let mut h: u8 = self.hour + 1;
        let mut d: u8 = self.day;
        let mut m: u8 = self.month;
        let mut y: i32 = self.year;
        if h > 23 {
            h = 0;
            d = d + 1;
            if d > days_in_month(m, y) {
                d = 1;
                m = m + 1;
                if m > 12 {
                    m = 1;
                    y = y + 1;
                }
            }
        }
        HourBucket { year: y, month: m, day: d, hour: h }
    }

    /// The hour `n` hours later (`n == 0` is this hour).
    pub fn advance_by(self, n: u32) -> (r: HourBucket)
        requires
            self.hour < u8::MAX,
            self.day < u8::MAX,
            self.month < u8::MAX,
            self.year + n <= i32::MAX || (self.in_bounds() && self.year <= LAST_SAFE_YEAR),
        ensures
            r == hours_after(self, n as nat),
    {
        let mut cur = self;
        let mut i: u32 = 0;
        while i < n
            invariant
                i <= n,
                cur == hours_after(self, i as nat),
                cur.hour < u8::MAX,
                cur.day < u8::MAX,
                cur.month < u8::MAX,
                self.year + n <= i32::MAX ==> cur.year <= self.year + i,
                self.year + n <= i32::MAX || (self.in_bounds() && self.year <= LAST_SAFE_YEAR),
            decreases n - i,
        {
            proof {
                if self.year + n > i32::MAX {
                    advance_raises_rank(self, i as nat);
                }
            }
            cur = cur.advance();
            i = i + 1;
        }
        cur
    }

    /// A label for a column: `"MM-DD HH:00"`.
    pub fn label(&self) -> (r: String)
        ensures
            r@ == hour_label(*self),
    {
        let mut r = zero_pad(self.month as i64, 2);
        r.append("-");
        r.append(zero_pad(self.day as i64, 2).as_str());
        r.append(" ");
        r.append(zero_pad(self.hour as i64, 2).as_str());
        r.append(":00");
        r
    }
}

// ── The order of hours ───────────────────────────────────────────────────────

/// Calendar order is the order of the hours' numbers.
pub proof fn hours_in_order(a: HourBucket, b: HourBucket)
    requires
        a.on_calendar(),
        b.on_calendar(),
    ensures
        hour_lt(a, b) <==> a.number() < b.number(),
        a == b <==> a.number() == b.number(),
{
    if hour_lt(a, b) {
        lemma_hour_lt(a, b);
    } else if hour_lt(b, a) {
        lemma_hour_lt(b, a);
    }
}

proof fn lemma_hour_lt(a: HourBucket, b: HourBucket)
    requires
        a.on_calendar(),
        b.on_calendar(),
        hour_lt(a, b),
    ensures
        a.number() < b.number(),
{
    if a.year != b.year || a.month != b.month || a.day != b.day {
        later_date_is_after(
            a.year as int,
            a.month as int,
            a.day as int,
            b.year as int,
            b.month as int,
            b.day as int,
        );
    }
}

/// The next hour is one hour later.
pub proof fn advance_is_one_hour(b: HourBucket)
    requires
        b.on_calendar(),
        b.year < i32::MAX,
    ensures
        next_hour(b).number() == b.number() + 1,
        next_hour(b).on_calendar(),
        b.valid() && (b.year < MAX_YEAR || !(b.month == 12 && b.day == 31 && b.hour == 23))
            ==> next_hour(b).valid(),
{
    let (y, m) = (b.year as int, b.month as int);
    if b.hour == 23 && b.day == month_days(m, y) {
        if b.month == 12 {
            months_fill_year(y);
            year_after_year(y);
            assert(days_before_month(1, y + 1) == 0);
            assert(days_before_month(13, y) == days_before_month(12, y) + 31);
        }
    }
}

/// `n` advances are `n` hours.
pub proof fn advance_by_is_n_hours(b: HourBucket, n: nat)
    requires
        b.valid(),
        b.number() + n <= last_hour_number(),
    ensures
        hours_after(b, n).number() == b.number() + n,
        hours_after(b, n).valid(),
    decreases n,
{
    if n > 0 {
        advance_by_is_n_hours(b, (n - 1) as nat);
        let c = hours_after(b, (n - 1) as nat);
        advance_is_one_hour(c);
        if c.year == MAX_YEAR && c.month == 12 && c.day == 31 && c.hour == 23 {
            assert(c.number() == last_hour_number());
        }
    }
}

/// Advancing twice is advancing by the sum.
pub proof fn advances_add_up(b: HourBucket, m: nat, n: nat)
    ensures
        hours_after(hours_after(b, m), n) == hours_after(b, m + n),
    decreases n,
{
    if n > 0 {
        advances_add_up(b, m, (n - 1) as nat);
        assert(hours_after(b, m + n) == next_hour(hours_after(b, (m + n - 1) as nat)));
    }
}

/// Ranks are in the order of their hours, on the calendar or not.
pub proof fn ranks_in_order(a: HourBucket, b: HourBucket)
    requires
        a.in_bounds(),
        b.in_bounds(),
    ensures
        hour_lt(a, b) <==> a.rank() < b.rank(),
        a == b <==> a.rank() == b.rank(),
{
}

/// Every advance moves forward, from an hour that is not on the calendar too.
pub proof fn advance_raises_rank(b: HourBucket, n: nat)
    requires
        b.in_bounds(),
        b.year <= LAST_SAFE_YEAR,
        n <= u32::MAX,
    ensures
        hours_after(b, n).in_bounds(),
        hours_after(b, n).year < i32::MAX,
        b.rank() + n <= hours_after(b, n).rank() <= b.rank() + 73 * n,
    decreases n,
{
    if n > 0 {
        advance_raises_rank(b, (n - 1) as nat);
    }
}

/// The number of the last hour in range.
pub open spec fn last_hour_number() -> int {
    day_number(MAX_YEAR as int, 12, 31) * 24 + 23
}

/// An hour in range is not earlier than the first one.
pub proof fn first_hour_number(b: HourBucket)
    requires
        b.valid(),
    ensures
        b.number() >= -3_000_000_000,
{
    let first = HourBucket { year: MIN_YEAR, month: 1, day: 1, hour: 0 };
    hours_in_order(b, first);
    assert(days_before_month(1, MIN_YEAR as int) == 0);
    assert(days_before_year(MIN_YEAR as int) * 24 >= -3_000_000_000);
}

/// An hour in range is not later than the last one.
pub proof fn hour_number_in_range(b: HourBucket)
    requires
        b.valid(),
    ensures
        b.number() <= last_hour_number(),
        b.number() <= 3_000_000_000,
{
    let last = HourBucket { year: MAX_YEAR, month: 12, day: 31, hour: 23 };
    hours_in_order(last, b);
    date_lies_in_year(MAX_YEAR as int, 12, 31);
    assert(days_before_year(MAX_YEAR as int) * 24 <= 2_900_000_000);
}

} // verus!
