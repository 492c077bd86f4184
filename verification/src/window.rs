//! Moments, durations and analysis windows, and the text forms in which they
//! are given and stored.
use vstd::prelude::*;

use crate::calendar::{fields_order_seconds, seconds_in_range, utc_fields, utc_seconds};
use crate::calendar::{Civil, MAX_SECONDS, MIN_SECONDS};
use crate::number::{parse_signed, parse_unsigned, read_signed};
use crate::paths::{join_path, joined_path};
use crate::text::{char_from, find, find_char, find_from, find_from_is_first, piece};
use crate::text::{pieces, split, split_on, string_of, to_chars, trim, trimmed};
use crate::time::{advance_by_is_n_hours, hour_dir, hour_in_path, hour_lt, hour_number_in_range};
use crate::time::{hours_after, hours_in_order, read_i32, read_u32, HourBucket};

verus! {

/// The nanoseconds of a second.
pub const NANOS: i128 = 1_000_000_000;

/// The first nanosecond that a moment can be.
pub const MIN_NANOS: i128 = -8334601228800_000_000_000;

/// The longest duration in whole seconds.
pub const MAX_DURATION_SECONDS: i64 = 9223372036854775;

/// A moment in UTC: nanoseconds since the epoch.
#[derive(Debug, Clone, Copy, PartialEq, Eq, Structural)]
pub struct Instant {
    pub nanos: i128,
}

/// A span of time in nanoseconds.
#[derive(Debug, Clone, Copy, PartialEq, Eq, Structural)]
pub struct Duration {
    pub nanos: i128,
}

/// An analysis window: `[start, end)` in UTC.
#[derive(Debug, Clone, Copy, PartialEq, Eq, Structural)]
pub struct Window {
    pub start: Instant,
    pub end: Instant,
}

impl Instant {
    /// Whether the moment lies in the calendar's range.
    pub open spec fn in_range(self) -> bool {
        MIN_SECONDS * NANOS <= self.nanos < (MAX_SECONDS + 1) * NANOS
    }

    /// The second that the moment lies in.
    pub open spec fn second(self) -> int {
        self.nanos as int / NANOS as int
    }

    /// The calendar fields of the moment.
    pub open spec fn civil(self) -> Civil {
        choose|c: Civil| c.valid() && #[trigger] c.seconds() == self.second()
    }

    /// The moment at the start of a second.
    pub fn from_seconds(seconds: i64) -> (r: Instant)
        ensures
            r.nanos == seconds * NANOS,
            r.second() == seconds,
    {
        Instant { nanos: seconds as i128 * NANOS }
    }

    /// The moment at the start of the second that the fields name, if there is one.
    pub fn from_fields(c: Civil) -> (r: Option<Instant>)
        ensures
            match r {
                Some(t) => c.valid() && t.nanos == c.seconds() * NANOS && t.in_range(),
                None => !c.valid(),
            },
    {
        match utc_seconds(c) {
            Some(s) => {
                proof {
                    seconds_in_range(c);
                }
                Some(Instant::from_seconds(s))
            },
            None => None,
        }
    }

    /// The second that the moment lies in.
    pub fn whole_seconds(&self) -> (r: i64)
        requires
            self.in_range(),
        ensures
            r == self.second(),
            MIN_SECONDS <= r <= MAX_SECONDS,
    {
        let n: i128 = self.nanos;
        let q: i128 = if n >= 0 {
            n / NANOS
        } else {
            -((-n + (NANOS - 1)) / NANOS)
        };
        q as i64
    }

    /// The calendar fields of the moment.
    pub fn fields(&self) -> (r: Civil)
        requires
            self.in_range(),
        ensures
            r == self.civil(),
            r.valid(),
            r.seconds() == self.second(),
    {
        let r = utc_fields(self.whole_seconds());
        proof {
            fields_order_seconds(r, self.civil());
        }
        r
    }
}

/// Moments in range have calendar fields.
pub proof fn moments_have_fields(t: Instant, c: Civil)
    requires
        c.valid(),
        c.seconds() == t.second(),
    ensures
        t.civil() == c,
{
    fields_order_seconds(t.civil(), c);
}

impl Duration {
    /// Whether the duration can be held by the clock's arithmetic.
    pub open spec fn in_range(self) -> bool {
        -(MAX_DURATION_SECONDS * NANOS) <= self.nanos <= MAX_DURATION_SECONDS * NANOS
    }

    /// A duration of `n` seconds.
    pub fn seconds(n: i64) -> (r: Duration)
        requires
            -MAX_DURATION_SECONDS <= n <= MAX_DURATION_SECONDS,
        ensures
            r.nanos == n * NANOS,
    {
        Duration { nanos: n as i128 * NANOS }
    }

    /// A duration of `n` minutes.
    pub fn minutes(n: i64) -> (r: Duration)
        requires
            -MAX_DURATION_SECONDS <= n * 60 <= MAX_DURATION_SECONDS,
        ensures
            r.nanos == n * 60 * NANOS,
    {
        Duration { nanos: n as i128 * 60 * NANOS }
    }

    /// A duration of `n` hours.
    pub fn hours(n: i64) -> (r: Duration)
        requires
            -MAX_DURATION_SECONDS <= n * 3600 <= MAX_DURATION_SECONDS,
        ensures
            r.nanos == n * 3600 * NANOS,
    {
        Duration { nanos: n as i128 * 3600 * NANOS }
    }

    /// A duration of `n` days.
    pub fn days(n: i64) -> (r: Duration)
        requires
            -MAX_DURATION_SECONDS <= n * 86400 <= MAX_DURATION_SECONDS,
        ensures
            r.nanos == n * 86400 * NANOS,
    {
        Duration { nanos: n as i128 * 86400 * NANOS }
    }
}

// ── Windows ──────────────────────────────────────────────────────────────────

impl Window {
    /// Whether both ends lie in the calendar's range.
    pub open spec fn in_range(self) -> bool {
        self.start.in_range() && self.end.in_range()
    }

    /// How long the window is.
    pub open spec fn nanos(self) -> int {
        self.end.nanos - self.start.nanos
    }

    /// The time from the start to the end.
    pub fn duration(&self) -> (r: Duration)
        requires
            self.in_range(),
        ensures
            r.nanos == self.nanos(),
    {
        Duration { nanos: self.end.nanos - self.start.nanos }
    }

    /// The baseline window: the same duration immediately before this one.
    pub fn baseline(&self) -> (r: Window)
        requires
            self.in_range(),
            (Instant { nanos: (self.start.nanos - self.nanos()) as i128 }).in_range(),
        ensures
            r.end == self.start,
            r.nanos() == self.nanos(),
            r.in_range(),
    {
        let dur = self.duration();
        Window { start: Instant { nanos: self.start.nanos - dur.nanos }, end: self.start }
    }

    /// A window of exactly `dur` that ends where this one ends, whatever this
    /// one's own duration.
    pub fn lookback(&self, dur: Duration) -> (r: Window)
        requires
            self.in_range(),
            dur.in_range(),
            (Instant { nanos: (self.end.nanos - dur.nanos) as i128 }).in_range(),
        ensures
            r.end == self.end,
            r.nanos() == dur.nanos,
            r.in_range(),
    {
        Window { start: Instant { nanos: self.end.nanos - dur.nanos }, end: self.end }
    }
}

// ── Hours as moments ─────────────────────────────────────────────────────────

impl HourBucket {
    /// The hour that a moment lies in.
    pub fn from_datetime(t: Instant) -> (r: HourBucket)
        requires
            t.in_range(),
        ensures
            r.valid(),
            r.number() == t.second() / 3600,
    {
        let c = t.fields();
        HourBucket { year: c.year, month: c.month as u8, day: c.day as u8, hour: c.hour as u8 }
    }

    /// The hour's start.
    pub fn to_datetime(self) -> (r: Instant)
        requires
            self.valid(),
        ensures
            r.nanos == self.number() * 3600 * NANOS,
            r.in_range(),
    {
        let c = Civil {
            year: self.year,
            month: self.month as u32,
            day: self.day as u32,
            hour: self.hour as u32,
            minute: 0,
            second: 0,
        };
        match Instant::from_fields(c) {
            Some(t) => t,
            None => Instant { nanos: 0 },
        }
    }
}

/// An hour is the hour that its start lies in.
pub proof fn hour_of_its_start(b: HourBucket, t: Instant, r: HourBucket)
    requires
        b.valid(),
        t.nanos == b.number() * 3600 * NANOS,
        r.valid(),
        r.number() == t.second() / 3600,
    ensures
        r == b,
{
    assert(t.second() == b.number() * 3600);
    hours_in_order(b, r);
}

/// Candidate directories `base/YYYY/MM/DD/HH` of the hours in `[from, to]`, in
/// order.
pub fn dirs_in_range_under(base: &str, from: HourBucket, to: HourBucket) -> (r: Vec<String>)
    requires
        !hour_lt(to, from) ==> from.valid() && to.valid(),
    ensures
        hour_lt(to, from) ==> r@.len() == 0,
        !hour_lt(to, from) ==> r@.len() == to.number() - from.number() + 1,
        forall|k: int|
            0 <= k < r@.len() ==> (#[trigger] r@[k])@ == hour_dir(
                hours_after(from, k as nat),
                base@,
            ),
{
    let mut r: Vec<String> = Vec::new();
    if to.is_before(&from) {
        return r;
    }
    proof {
        hours_in_order(to, from);
        hour_number_in_range(to);
    }
    let hours: i128 = (to.to_datetime().nanos - from.to_datetime().nanos) / (3600 * NANOS);
    assert(hours == to.number() - from.number());
    let mut cur = from;
    let mut i: i128 = 0;
    while i <= hours
        invariant
            from.valid(),
            to.valid(),
            hours == to.number() - from.number(),
            hours <= 10_000_000_000,
            to.number() <= crate::time::last_hour_number(),
            0 <= i <= hours + 1,
            r@.len() == i,
            cur == hours_after(from, i as nat),
            i <= hours ==> cur.valid(),
            forall|k: int|
                0 <= k < r@.len() ==> (#[trigger] r@[k])@ == hour_dir(
                    hours_after(from, k as nat),
                    base@,
                ),
        decreases hours + 1 - i,
    {
        r.push(cur.dir_under(base));
        cur = cur.advance();
        i = i + 1;
        proof {
            if i <= hours {
                advance_by_is_n_hours(from, i as nat);
            }
        }
    }
    r
}

/// Candidate directories under `data_dir/raw` of the hours in `[from, to]`, in order.
pub fn hour_dirs_in_range(data_dir: &str, from: HourBucket, to: HourBucket) -> (r: Vec<String>)
    requires
        !hour_lt(to, from) ==> from.valid() && to.valid(),
    ensures
        hour_lt(to, from) ==> r@.len() == 0,
        !hour_lt(to, from) ==> r@.len() == to.number() - from.number() + 1,
        forall|k: int|
            0 <= k < r@.len() ==> (#[trigger] r@[k])@ == hour_dir(
                hours_after(from, k as nat),
                joined_path(data_dir@, "raw"@),
            ),
{
    let base = join_path(data_dir, "raw");
    dirs_in_range_under(base.as_str(), from, to)
}

/// Whether an hour lies in a range; a side without a bound is open.
pub fn is_hour_in_range(b: HourBucket, after: Option<HourBucket>, before: Option<HourBucket>) -> (r:
    bool)
    ensures
        r == ((after matches Some(a) ==> !hour_lt(b, a)) && (before matches Some(z) ==> !hour_lt(
            z,
            b,
        ))),
{
    let starts = match after {
        Some(a) => !b.is_before(&a),
        None => true,
    };
    let ends = match before {
        Some(z) => !z.is_before(&b),
        None => true,
    };
    starts && ends
}

/// Whether a path below a tree of hours lies in a range. Without any bound every
/// path does; with one, those that begin with an hour of the range.
pub open spec fn path_is_in_range(
    path: Seq<char>,
    after: Option<HourBucket>,
    before: Option<HourBucket>,
) -> bool {
    (after is None && before is None) || (hour_in_path(path) matches Some(b) && (after matches Some(a)
        ==> !hour_lt(b, a)) && (before matches Some(z) ==> !hour_lt(z, b)))
}

/// Whether a path below a tree of hours lies in a range.
pub fn is_path_in_range(path: &str, after: Option<HourBucket>, before: Option<HourBucket>) -> (r:
    bool)
    ensures
        r == path_is_in_range(path@, after, before),
{
    if after.is_none() && before.is_none() {
        return true;
    }
    match HourBucket::from_path(path) {
        Some(b) => is_hour_in_range(b, after, before),
        None => false,
    }
}

/// Whether a range is open, empty, or bounded by hours of the calendar.
pub open spec fn range_is_valid(after: Option<HourBucket>, before: Option<HourBucket>) -> bool {
    (after matches Some(a) && before matches Some(b) && !hour_lt(b, a)) ==> after->0.valid()
        && before->0.valid()
}

/// Whether a range is open, empty, or bounded by hours of the calendar.
pub fn is_range_valid(after: Option<HourBucket>, before: Option<HourBucket>) -> (r: bool)
    ensures
        r == range_is_valid(after, before),
{
    match (after, before) {
        (Some(a), Some(b)) => b.is_before(&a) || (a.is_valid() && b.is_valid()),
        _ => true,
    }
}

/// Where to look for the hours of a range under `base`: with a bound on both
/// sides, one candidate directory per hour, in order; else nothing, and the tree
/// is walked.
pub fn candidate_dirs(base: &str, after: Option<HourBucket>, before: Option<HourBucket>) -> (r:
    Option<Vec<String>>)
    requires
        range_is_valid(after, before),
    ensures
        (after is None || before is None) <==> r is None,
        r matches Some(v) ==> {
            let (a, b) = (after->0, before->0);
            &&& hour_lt(b, a) ==> v@.len() == 0
            &&& !hour_lt(b, a) ==> v@.len() == b.number() - a.number() + 1
            &&& forall|k: int|
                0 <= k < v@.len() ==> (#[trigger] v@[k])@ == hour_dir(
                    hours_after(a, k as nat),
                    base@,
                )
        },
{
    match (after, before) {
        (Some(a), Some(b)) => Some(dirs_in_range_under(base, a, b)),
        _ => None,
    }
}

/// The candidates of a range are the directories of exactly the hours in it,
/// each once, however long the range is: hour `b` of the range is candidate
/// number `b.number() - from.number()`.
pub proof fn range_holds_every_hour(from: HourBucket, to: HourBucket, b: HourBucket)
    requires
        from.valid(),
        to.valid(),
        b.valid(),
        !hour_lt(b, from),
        !hour_lt(to, b),
    ensures
        0 <= b.number() - from.number() <= to.number() - from.number(),
        hours_after(from, (b.number() - from.number()) as nat) == b,
{
    hours_in_order(b, from);
    hours_in_order(to, b);
    hour_number_in_range(b);
    let n = (b.number() - from.number()) as nat;
    advance_by_is_n_hours(from, n);
    hours_in_order(hours_after(from, n), b);
}

// ── Durations and windows as text ────────────────────────────────────────────

/// The message for a text that is no duration.
pub open spec fn no_duration(t: Seq<char>) -> Seq<char> {
    "invalid duration '"@ + t + "' (expected e.g. '10m', '6h', '24h')"@
}

/// The seconds of one unit of a duration.
pub open spec fn unit_seconds(c: char) -> Option<int> {
    if c == 's' {
        Some(1)
    } else if c == 'm' {
        Some(60)
    } else if c == 'h' {
        Some(3600)
    } else if c == 'd' {
        Some(86400)
    } else {
        None
    }
}

/// The seconds that a text such as `"10m"`, `"6h"`, `"2d"` or `"45s"` names: a
/// positive number and a unit letter.
pub open spec fn duration_in_text(s: Seq<char>) -> Result<int, Seq<char>> {
    let t = trimmed(s);
    if t.len() < 2 {
        Err(no_duration(t))
    } else {
        match read_signed(t.drop_last(), i64::MIN as int, i64::MAX as int) {
            None => Err(no_duration(t)),
            Some(n) => if n <= 0 {
                Err("duration must be positive: '"@ + t + "'"@)
            } else {
                match unit_seconds(t.last()) {
                    Some(u) => Ok(n * u),
                    None => Err(
                        "invalid duration unit in '"@ + t + "' (expected one of s/m/h/d)"@,
                    ),
                }
            },
        }
    }
}

/// Whether a text can be read as a duration at all: what it names is no longer
/// than the longest duration.
pub open spec fn duration_is_readable(s: Seq<char>) -> bool {
    duration_in_text(s) matches Ok(n) ==> n <= MAX_DURATION_SECONDS
}

fn quoted_message(front: &str, t: &str, back: &str) -> (r: String)
    ensures
        r@ == front@ + t@ + back@,
{
    let mut m = front.to_owned();
    m.append(t);
    m.append(back);
    m
}

/// The number and the unit of a duration text, or the message for it.
fn duration_parts(s: &str) -> (r: Result<i128, String>)
    ensures
        match r {
            Ok(n) => duration_in_text(s@) == Ok::<int, Seq<char>>(n as int) && n > 0,
            Err(m) => duration_in_text(s@) == Err::<int, Seq<char>>(m@),
        },
{
    let v = trim(&to_chars(s));
    let t = string_of(&v);
    let n: usize = v.len();
    if n < 2 {
        return Err(
            quoted_message(
                "invalid duration '",
                t.as_str(),
                "' (expected e.g. '10m', '6h', '24h')",
            ),
        );
    }
    let num = piece(&v, 0, n - 1);
    assert(num@ =~= v@.drop_last());
    match parse_signed(&num, i64::MIN, i64::MAX) {
        None => Err(
            quoted_message(
                "invalid duration '",
                t.as_str(),
                "' (expected e.g. '10m', '6h', '24h')",
            ),
        ),
        Some(k) => {
            if k <= 0 {
                return Err(quoted_message("duration must be positive: '", t.as_str(), "'"));
            }
            let c = v[n - 1];
            let w: i128 = k as i128;
            if c == 's' {
                Ok(w)
            } else if c == 'm' {
                Ok(w * 60)
            } else if c == 'h' {
                Ok(w * 3600)
            } else if c == 'd' {
                Ok(w * 86400)
            } else {
                Err(
                    quoted_message(
                        "invalid duration unit in '",
                        t.as_str(),
                        "' (expected one of s/m/h/d)",
                    ),
                )
            }
        },
    }
}

/// Whether a text can be read as a duration at all.
pub fn is_duration_readable(s: &str) -> (r: bool)
    ensures
        r == duration_is_readable(s@),
{
    match duration_parts(s) {
        Ok(n) => n <= MAX_DURATION_SECONDS as i128,
        Err(_) => true,
    }
}

/// Parses a relative duration like `"10m"`, `"6h"`, `"24h"`, `"2d"`, `"45s"`.
pub fn parse_duration(s: &str) -> (r: Result<Duration, String>)
    requires
        duration_is_readable(s@),
    ensures
        match r {
            Ok(d) => duration_in_text(s@) is Ok && d.nanos == duration_in_text(s@)->Ok_0 * NANOS
                && d.in_range() && d.nanos > 0,
            Err(m) => duration_in_text(s@) == Err::<int, Seq<char>>(m@),
        },
{
    match duration_parts(s) {
        Ok(n) => Ok(Duration { nanos: n * NANOS }),
        Err(m) => Err(m),
    }
}

/// The message for a text that is no timestamp.
pub open spec fn no_timestamp(s: Seq<char>) -> Seq<char> {
    "invalid timestamp '"@ + s + "' (expected YYYY-MM-DDTHH[:MM[:SS]])"@
}

/// Calendar fields of the given numbers, if all are there and name a second.
pub open spec fn civil_of(
    y: Option<int>,
    mo: Option<int>,
    d: Option<int>,
    h: Option<int>,
    mi: Option<int>,
    s: Option<int>,
) -> Option<Civil> {
    match (y, mo, d, h, mi, s) {
        (Some(y), Some(mo), Some(d), Some(h), Some(mi), Some(s)) => {
            let c = Civil {
                year: y as i32,
                month: mo as u32,
                day: d as u32,
                hour: h as u32,
                minute: mi as u32,
                second: s as u32,
            };
            if c.valid() {
                Some(c)
            } else {
                None
            }
        },
        _ => None,
    }
}

/// The second that `YYYY-MM-DDTHH[:MM[:SS]]` names.
pub open spec fn timestamp_in_text(s: Seq<char>) -> Option<Civil> {
    match char_from(s, 'T', 0) {
        None => None,
        Some(i) => {
            let d = split(s.subrange(0, i), '-');
            let t = split(s.subrange(i + 1, s.len() as int), ':');
            if d.len() != 3 || t.len() > 3 {
                None
            } else {
                civil_of(
                    read_i32(d[0]),
                    read_u32(d[1]),
                    read_u32(d[2]),
                    read_u32(t[0]),
                    if t.len() > 1 {
                        read_u32(t[1])
                    } else {
                        Some(0)
                    },
                    if t.len() > 2 {
                        read_u32(t[2])
                    } else {
                        Some(0)
                    },
                )
            }
        },
    }
}

pub(crate) fn civil_from(
    y: Option<i64>,
    mo: Option<u64>,
    d: Option<u64>,
    h: Option<u64>,
    mi: Option<u64>,
    s: Option<u64>,
) -> (r: Option<Instant>)
    requires
        y matches Some(v) ==> i32::MIN <= v <= i32::MAX,
        mo matches Some(v) ==> v <= u32::MAX,
        d matches Some(v) ==> v <= u32::MAX,
        h matches Some(v) ==> v <= u32::MAX,
        mi matches Some(v) ==> v <= u32::MAX,
        s matches Some(v) ==> v <= u32::MAX,
    ensures
        match civil_of(int_of_i64(y), int_of(mo), int_of(d), int_of(h), int_of(mi), int_of(s)) {
            Some(c) => r matches Some(t) && t.nanos == c.seconds() * NANOS && t.in_range(),
            None => r is None,
        },
{
    match (y, mo, d, h, mi, s) {
        (Some(y), Some(mo), Some(d), Some(h), Some(mi), Some(s)) => Instant::from_fields(
            Civil {
                year: y as i32,
                month: mo as u32,
                day: d as u32,
                hour: h as u32,
                minute: mi as u32,
                second: s as u32,
            },
        ),
        _ => None,
    }
}

/// An optional number as an integer.
pub open spec fn int_of(n: Option<u64>) -> Option<int> {
    match n {
        Some(v) => Some(v as int),
        None => None,
    }
}

/// An optional signed number as an integer.
pub open spec fn int_of_i64(n: Option<i64>) -> Option<int> {
    match n {
        Some(v) => Some(v as int),
        None => None,
    }
}

pub(crate) fn parse_u32(v: &Vec<char>) -> (r: Option<u64>)
    ensures
        int_of(r) == read_u32(v@),
        r matches Some(n) ==> n <= u32::MAX,
{
    parse_unsigned(v, u32::MAX as u64)
}

pub(crate) fn parse_i32(v: &Vec<char>) -> (r: Option<i64>)
    ensures
        int_of_i64(r) == read_i32(v@),
        r matches Some(n) ==> i32::MIN <= n <= i32::MAX,
{
    parse_signed(v, i32::MIN as i64, i32::MAX as i64)
}

/// Parses `YYYY-MM-DDTHH[:MM[:SS]]`.
fn parse_explicit_timestamp(s: &str) -> (r: Result<Instant, String>)
    ensures
        match timestamp_in_text(s@) {
            Some(c) => r matches Ok(t) && t.nanos == c.seconds() * NANOS && t.in_range(),
            None => r matches Err(m) && m@ == no_timestamp(s@),
        },
{
    let v = to_chars(s);
    let n: usize = v.len();
    let mut t: Option<Instant> = None;
    if let Some(i) = find_char(&v, 'T', 0) {
        let d = split_on(&piece(&v, 0, i), '-');
        let c = split_on(&piece(&v, i + 1, n), ':');
        assert(pieces(d@).len() == d@.len() && pieces(c@).len() == c@.len());
        if d.len() == 3 && c.len() <= 3 {
            assert(pieces(d@)[0] == d@[0]@ && pieces(d@)[1] == d@[1]@ && pieces(d@)[2] == d@[2]@);
            assert(pieces(c@)[0] == c@[0]@);
            assert(c@.len() > 1 ==> pieces(c@)[1] == c@[1]@);
            assert(c@.len() > 2 ==> pieces(c@)[2] == c@[2]@);
            let minute = if c.len() > 1 {
                parse_u32(&c[1])
            } else {
                Some(0)
            };
            let second = if c.len() > 2 {
                parse_u32(&c[2])
            } else {
                Some(0)
            };
            t = civil_from(
                parse_i32(&d[0]),
                parse_u32(&d[1]),
                parse_u32(&d[2]),
                parse_u32(&c[0]),
                minute,
                second,
            );
        }
    }
    match t {
        Some(x) => Ok(x),
        None => Err(
            quoted_message("invalid timestamp '", s, "' (expected YYYY-MM-DDTHH[:MM[:SS]])"),
        ),
    }
}

/// The ends of the window that a text names, as nanoseconds since the epoch:
/// a duration that ends now, or an explicit range `start..end`.
pub open spec fn window_in_text(s: Seq<char>, now: int) -> Result<(int, int), Seq<char>> {
    match find_from(s, ".."@, 0) {
        Some(i) => {
            let lo = trimmed(s.subrange(0, i));
            let hi = trimmed(s.subrange(i + 2, s.len() as int));
            match timestamp_in_text(lo) {
                None => Err(no_timestamp(lo)),
                Some(a) => match timestamp_in_text(hi) {
                    None => Err(no_timestamp(hi)),
                    Some(b) => if b.seconds() <= a.seconds() {
                        Err("--window range end must be after start: '"@ + s + "'"@)
                    } else {
                        Ok((a.seconds() * NANOS, b.seconds() * NANOS))
                    },
                },
            }
        },
        None => match duration_in_text(s) {
            Ok(n) => Ok((now - n * NANOS, now)),
            Err(m) => Err(m),
        },
    }
}

/// Whether a text can be read as a window: a relative one is a readable
/// duration, and reaches back no further than the calendar.
pub open spec fn window_is_readable(s: Seq<char>, now: Instant) -> bool {
    find_from(s, ".."@, 0) is None ==> {
        &&& duration_is_readable(s)
        &&& duration_in_text(s) matches Ok(n) ==> now.nanos - n * NANOS >= MIN_SECONDS * NANOS
    }
}

/// Whether a text can be read as a window.
pub fn is_window_readable(s: &str, now: Instant) -> (r: bool)
    requires
        now.in_range(),
    ensures
        r == window_is_readable(s@, now),
{
    if find(&to_chars(s), &to_chars(".."), 0).is_some() {
        return true;
    }
    if !is_duration_readable(s) {
        return false;
    }
    match duration_parts(s) {
        Ok(n) => now.nanos - n * NANOS >= MIN_SECONDS as i128 * NANOS,
        Err(_) => true,
    }
}

/// Parses a window: either a relative duration ending at `now` (`"6h"`) or an
/// explicit `start..end` range (`"2026-06-29T18..2026-06-29T20"`), each side
/// `YYYY-MM-DDTHH[:MM[:SS]]`.
pub fn parse_window(s: &str, now: Instant) -> (r: Result<Window, String>)
    requires
        now.in_range(),
        window_is_readable(s@, now),
    ensures
        match r {
            Ok(w) => window_in_text(s@, now.nanos as int) == Ok::<(int, int), Seq<char>>(
                (w.start.nanos as int, w.end.nanos as int),
            ) && w.in_range() && w.nanos() > 0,
            Err(m) => window_in_text(s@, now.nanos as int) == Err::<(int, int), Seq<char>>(m@),
        },
{
    let v = to_chars(s);
    let n: usize = v.len();
    let dots = to_chars("..");
    proof {
        reveal_strlit("..");
        find_from_is_first(s@, ".."@, 0);
    }
    match find(&v, &dots, 0) {
        Some(i) => {
            let lo = string_of(&trim(&piece(&v, 0, i)));
            let hi = string_of(&trim(&piece(&v, i + 2, n)));
            let start = match parse_explicit_timestamp(lo.as_str()) {
                Ok(t) => t,
                Err(m) => {
                    return Err(m);
                },
            };
            let end = match parse_explicit_timestamp(hi.as_str()) {
                Ok(t) => t,
                Err(m) => {
                    return Err(m);
                },
            };
            if end.nanos <= start.nanos {
                return Err(quoted_message("--window range end must be after start: '", s, "'"));
            }
            Ok(Window { start, end })
        },
        None => match parse_duration(s) {
            Ok(d) => Ok(Window { start: Instant { nanos: now.nanos - d.nanos }, end: now }),
            Err(m) => Err(m),
        },
    }
}

} // verus!
