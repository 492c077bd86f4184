//! The proleptic Gregorian calendar in UTC: calendar fields and seconds since
//! the epoch 1970-01-01T00:00:00.
use chrono::{DateTime, Datelike, TimeZone, Timelike, Utc};
use vstd::prelude::*;

verus! {

/// The first and the last year that a moment can lie in.
pub const MIN_YEAR: i32 = -262143;

pub const MAX_YEAR: i32 = 262142;

/// The first and the last second that a moment can lie in.
pub const MIN_SECONDS: i64 = -8334601228800;

pub const MAX_SECONDS: i64 = 8210266876799;

/// Whether a year has a 29 February.
pub open spec fn is_leap(y: int) -> bool {
    y % 4 == 0 && (y % 100 != 0 || y % 400 == 0)
}

/// The number of days of a month.
pub open spec fn month_days(m: int, y: int) -> int {
    if m == 4 || m == 6 || m == 9 || m == 11 {
        30
    } else if m == 2 {
        if is_leap(y) {
            29
        } else {
            28
        }
    } else {
        31
    }
}

/// The number of days of a year.
pub open spec fn year_days(y: int) -> int {
    if is_leap(y) {
        366
    } else {
        365
    }
}

/// The days from the epoch to the first of January of a year.
pub open spec fn days_before_year(y: int) -> int {
    365 * (y - 1970) + (y - 1) / 4 - (y - 1) / 100 + (y - 1) / 400 - 477
}

/// The days of a year before the first of a month.
pub open spec fn days_before_month(m: int, y: int) -> int
    decreases m,
{
    if m <= 1 {
        0
    } else {
        days_before_month(m - 1, y) + month_days(m - 1, y)
    }
}

/// The days from the epoch to a date.
pub open spec fn day_number(y: int, m: int, d: int) -> int {
    days_before_year(y) + days_before_month(m, y) + d - 1
}

/// Calendar fields of a second.
#[derive(Debug, Clone, Copy, PartialEq, Eq, Structural)]
pub struct Civil {
    pub year: i32,
    pub month: u32,
    pub day: u32,
    pub hour: u32,
    pub minute: u32,
    pub second: u32,
}

impl Civil {
    /// Whether the fields name an existing second of a year in range.
    pub open spec fn valid(self) -> bool {
        &&& MIN_YEAR <= self.year <= MAX_YEAR
        &&& 1 <= self.month <= 12
        &&& 1 <= self.day <= month_days(self.month as int, self.year as int)
        &&& self.hour < 24
        &&& self.minute < 60
        &&& self.second < 60
    }

    /// The seconds from the epoch to the second that the fields name.
    pub open spec fn seconds(self) -> int {
        day_number(self.year as int, self.month as int, self.day as int) * 86400 + self.hour * 3600
            + self.minute * 60 + self.second
    }
}

/// `chrono::Utc.with_ymd_and_hms` and `DateTime::timestamp`: the seconds from
/// the epoch to the second that the fields name; nothing when there is no such
/// second, or when its year is out of range.
#[verifier::external_body]
pub(crate) fn utc_seconds(c: Civil) -> (r: Option<i64>)
    ensures
        match r {
            Some(t) => c.valid() && t == c.seconds(),
            None => !c.valid(),
        },
{
    Utc.with_ymd_and_hms(c.year, c.month, c.day, c.hour, c.minute, c.second).single().map(
        |t| t.timestamp(),
    )
}

/// `chrono::DateTime::from_timestamp` and the field accessors: the calendar
/// fields of a second.
#[verifier::external_body]
pub(crate) fn utc_fields(seconds: i64) -> (r: Civil)
    requires
        MIN_SECONDS <= seconds <= MAX_SECONDS,
    ensures
        r.valid(),
        r.seconds() == seconds,
{
    let t = DateTime::from_timestamp(seconds, 0).unwrap();
    Civil {
        year: t.year(),
        month: t.month(),
        day: t.day(),
        hour: t.hour(),
        minute: t.minute(),
        second: t.second(),
    }
}

// ── The calendar's arithmetic ────────────────────────────────────────────────

/// A year begins one year's days after the year before it.
pub proof fn year_after_year(y: int)
    ensures
        days_before_year(y + 1) == days_before_year(y) + year_days(y),
{
    lemma_quotient_steps(y, 4);
    lemma_quotient_steps(y, 100);
    lemma_quotient_steps(y, 400);
    assert(y % 400 == 0 ==> y % 100 == 0);
    assert(y % 100 == 0 ==> y % 4 == 0);
}

proof fn lemma_quotient_steps(y: int, k: int)
    requires
        k > 0,
    ensures
        y / k - (y - 1) / k == if y % k == 0 {
            1int
        } else {
            0int
        },
{
    let q = (y - 1) / k;
    let r = (y - 1) % k;
    vstd::arithmetic::div_mod::lemma_fundamental_div_mod(y - 1, k);
    vstd::arithmetic::div_mod::lemma_mod_bound(y - 1, k);
    if r + 1 < k {
        assert(y == q * k + (r + 1)) by (nonlinear_arith)
            requires
                y - 1 == k * q + r,
        ;
        vstd::arithmetic::div_mod::lemma_fundamental_div_mod_converse(y, k, q, r + 1);
    } else {
        assert(y == (q + 1) * k + 0) by (nonlinear_arith)
            requires
                y - 1 == k * q + r,
                r + 1 == k,
        ;
        vstd::arithmetic::div_mod::lemma_fundamental_div_mod_converse(y, k, q + 1, 0);
    }
}

/// The months of a year fill it.
pub proof fn months_fill_year(y: int)
    ensures
        days_before_month(13, y) == year_days(y),
{
    reveal_with_fuel(days_before_month, 14);
}

/// A later year begins after every day of an earlier one.
pub proof fn later_year_is_after(y: int, z: int)
    requires
        y < z,
    ensures
        days_before_year(y) + year_days(y) <= days_before_year(z),
    decreases z - y,
{
    if y + 1 < z {
        later_year_is_after(y, z - 1);
        year_after_year(z - 1);
    } else {
        year_after_year(y);
    }
}

/// A later month begins after every day of an earlier one.
pub proof fn later_month_is_after(m: int, n: int, y: int)
    requires
        1 <= m < n,
    ensures
        days_before_month(m, y) + month_days(m, y) <= days_before_month(n, y),
    decreases n - m,
{
    if m + 1 < n {
        later_month_is_after(m, n - 1, y);
    }
}

/// A date lies within its year.
pub proof fn date_lies_in_year(y: int, m: int, d: int)
    requires
        1 <= m <= 12,
        1 <= d <= month_days(m, y),
    ensures
        days_before_year(y) <= day_number(y, m, d) < days_before_year(y) + year_days(y),
{
    months_fill_year(y);
    later_month_is_after(m, 13, y);
    lemma_months_nonnegative(m, y);
}

proof fn lemma_months_nonnegative(m: int, y: int)
    ensures
        days_before_month(m, y) >= 0,
    decreases m,
{
    if m > 1 {
        lemma_months_nonnegative(m - 1, y);
    }
}

/// Dates in calendar order have ascending day numbers.
pub proof fn later_date_is_after(y: int, m: int, d: int, y2: int, m2: int, d2: int)
    requires
        1 <= m <= 12,
        1 <= d <= month_days(m, y),
        1 <= m2 <= 12,
        1 <= d2 <= month_days(m2, y2),
        y < y2 || (y == y2 && (m < m2 || (m == m2 && d < d2))),
    ensures
        day_number(y, m, d) < day_number(y2, m2, d2),
{
    if y < y2 {
        date_lies_in_year(y, m, d);
        date_lies_in_year(y2, m2, d2);
        later_year_is_after(y, y2);
    } else if m < m2 {
        later_month_is_after(m, m2, y);
    }
}

/// Fields name different seconds unless they are the same fields, and a field
/// more significant decides which second is earlier.
pub proof fn fields_order_seconds(a: Civil, b: Civil)
    requires
        a.valid(),
        b.valid(),
    ensures
        a.seconds() < b.seconds() <==> civil_lt(a, b),
        a.seconds() == b.seconds() <==> a == b,
{
    if civil_lt(a, b) {
        lemma_civil_lt(a, b);
    } else if civil_lt(b, a) {
        lemma_civil_lt(b, a);
    } else {
        assert(a == b);
    }
}

/// Calendar order of fields.
pub open spec fn civil_lt(a: Civil, b: Civil) -> bool {
    a.year < b.year || (a.year == b.year && (a.month < b.month || (a.month == b.month && (a.day
        < b.day || (a.day == b.day && (a.hour < b.hour || (a.hour == b.hour && (a.minute < b.minute
        || (a.minute == b.minute && a.second < b.second)))))))))
}

proof fn lemma_civil_lt(a: Civil, b: Civil)
    requires
        a.valid(),
        b.valid(),
        civil_lt(a, b),
    ensures
        a.seconds() < b.seconds(),
{
    if a.year != b.year || a.month != b.month || a.day != b.day {
        later_date_is_after(
            a.year as int,
            a.month as int,
            a.day as int,
            b.year as int,
            b.month as int,
            b.day as int,
        );
    }
}

/// The seconds of valid fields lie in range.
pub proof fn seconds_in_range(c: Civil)
    requires
        c.valid(),
    ensures
        MIN_SECONDS <= c.seconds() <= MAX_SECONDS,
{
    date_lies_in_year(c.year as int, c.month as int, c.day as int);
    assert(days_before_year(MIN_YEAR as int) * 86400 == MIN_SECONDS);
    assert(days_before_year(MAX_YEAR + 1) * 86400 - 1 == MAX_SECONDS);
    if c.year > MIN_YEAR {
        later_year_is_after(MIN_YEAR as int, c.year as int);
    }
    later_year_is_after(c.year as int, MAX_YEAR + 1);
}

} // verus!
