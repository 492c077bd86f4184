//! What a command is asked to do, by its arguments.
use vstd::prelude::*;

use crate::flags::{flag_value, given_views, has_flag, is_given, read_flags, read_from, value_of};
use crate::flags::{Command, Flag, Given, GivenV, Stop, StopV};
use crate::number::{parse_unsigned, read_unsigned};
use crate::query_parser::meaning;
use crate::collections::FieldSet;
use crate::query::Query;
use crate::render::{format_of, Format};
use crate::text::{opt_view, same, to_chars, views};
use crate::time::{hour_in_text, hour_lt, HourBucket};
use crate::window::{duration_in_text, duration_is_readable, is_duration_readable};
use crate::window::{parse_duration, parse_window, window_in_text, window_is_readable};
use crate::window::{Instant, MIN_NANOS, NANOS};

verus! {

/// What comes of a command's arguments.
pub enum Ending {
    /// The command runs.
    Run,
    /// Its help is shown.
    Help,
    /// An argument is no flag of the command.
    Unknown(String),
    /// The arguments are refused with a message.
    Fail(String),
}

/// The model of what comes of a command's arguments.
pub ghost enum EndingV {
    Run,
    Help,
    Unknown(Seq<char>),
    Fail(Seq<char>),
}

impl View for Ending {
    type V = EndingV;

    open spec fn view(&self) -> EndingV {
        match self {
            Ending::Run => EndingV::Run,
            Ending::Help => EndingV::Help,
            Ending::Unknown(s) => EndingV::Unknown(s@),
            Ending::Fail(s) => EndingV::Fail(s@),
        }
    }
}

/// The message for a value that is no hour.
pub open spec fn no_hour(flag: Seq<char>, v: Seq<char>) -> Seq<char> {
    "invalid "@ + flag + " '"@ + v + "' (YYYY-MM-DDTHH)"@
}

/// The message for an interval that is no whole number of hours.
pub open spec fn no_interval(v: Seq<char>) -> Seq<char> {
    "--interval must be a whole number of hours (got '"@ + v
        + "') — the index is bucketed per clock-hour, so sub-hour trend columns aren't available here (see 'siemctl digest' for sub-hour sparklines)"@
}

/// Why a given value is refused, if it is.
pub open spec fn value_error(c: Command, g: GivenV) -> Option<Seq<char>> {
    match g.1 {
        None => None,
        Some(v) => match g.0 {
            Flag::After => if hour_in_text(v) is None {
                Some(no_hour("--after"@, v))
            } else {
                None
            },
            Flag::Before => if hour_in_text(v) is None {
                Some(no_hour("--before"@, v))
            } else {
                None
            },
            Flag::Format => if c == Command::Digest {
                None
            } else {
                match format_of(v) {
                    Err(m) => Some(m),
                    Ok(_) => None,
                }
            },
            Flag::Interval => if c == Command::Digest {
                None
            } else {
                match duration_in_text(v) {
                    Err(m) => Some(m),
                    Ok(n) => if n % 3600 != 0 {
                        Some(no_interval(v))
                    } else {
                        None
                    },
                }
            },
            Flag::Last => match duration_in_text(v) {
                Err(m) => Some(m),
                Ok(_) => None,
            },
            Flag::Days => if read_unsigned(v, u32::MAX as int) is None {
                Some("--days: invalid number '"@ + v + "'"@)
            } else {
                None
            },
            _ => None,
        },
    }
}

/// Whether a given value can be read at all.
pub open spec fn value_is_readable(c: Command, g: GivenV) -> bool {
    match g.1 {
        Some(v) => (g.0 == Flag::Interval && c != Command::Digest) || g.0 == Flag::Last
            ==> duration_is_readable(v),
        None => true,
    }
}

/// The first error among the values from position `i` on.
pub open spec fn first_error(c: Command, gs: Seq<GivenV>, i: int) -> Option<Seq<char>>
    decreases gs.len() - i,
{
    if i < 0 || i >= gs.len() {
        None
    } else {
        match value_error(c, gs[i]) {
            Some(m) => Some(m),
            None => first_error(c, gs, i + 1),
        }
    }
}

fn hour_message(flag: &str, v: &str) -> (r: String)
    ensures
        r@ == no_hour(flag@, v@),
{
    let mut m = "invalid ".to_owned();
    m.append(flag);
    m.append(" '");
    m.append(v);
    m.append("' (YYYY-MM-DDTHH)");
    m
}

fn check_value(c: Command, g: &Given) -> (r: Option<String>)
    requires
        value_is_readable(c, (g.flag, opt_view(g.value))),
    ensures
        opt_view(r) == value_error(c, (g.flag, opt_view(g.value))),
{
    match &g.value {
        None => None,
        Some(v) => {
            let s = v.as_str();
            match g.flag {
                Flag::After => if HourBucket::parse(s).is_none() {
                    Some(hour_message("--after", s))
                } else {
                    None
                },
                Flag::Before => if HourBucket::parse(s).is_none() {
                    Some(hour_message("--before", s))
                } else {
                    None
                },
                Flag::Format => if c == Command::Digest {
                    None
                } else {
                    match Format::parse(s) {
                        Err(m) => Some(m),
                        Ok(_) => None,
                    }
                },
                Flag::Interval => if c == Command::Digest {
                    None
                } else {
                    match parse_duration(s) {
                        Err(m) => Some(m),
                        Ok(d) => if (d.nanos / NANOS) % 3600 != 0 {
                            let mut m = "--interval must be a whole number of hours (got '".to_owned();
                            m.append(s);
                            m.append(
                                "') — the index is bucketed per clock-hour, so sub-hour trend columns aren't available here (see 'siemctl digest' for sub-hour sparklines)",
                            );
                            Some(m)
                        } else {
                            None
                        },
                    }
                },
                Flag::Last => match parse_duration(s) {
                    Err(m) => Some(m),
                    Ok(_) => None,
                },
                Flag::Days => if parse_unsigned(&to_chars(s), u32::MAX as u64).is_none() {
                    let mut m = "--days: invalid number '".to_owned();
                    m.append(s);
                    m.append("'");
                    Some(m)
                } else {
                    None
                },
                _ => None,
            }
        },
    }
}

/// What comes of a command's arguments: the first value that is refused decides,
/// then where the reading ends.
pub open spec fn ending_of(c: Command, args: Seq<Seq<char>>) -> EndingV {
    let (gs, stop) = read_from(c, args, 0, Seq::empty());
    match first_error(c, gs, 0) {
        Some(m) => EndingV::Fail(m),
        None => match stop {
            StopV::End => EndingV::Run,
            StopV::Help => EndingV::Help,
            StopV::Unknown(s) => EndingV::Unknown(s),
            StopV::Missing(s) => EndingV::Fail(s + " requires an argument"@),
        },
    }
}

/// The flags that a command's arguments give.
pub open spec fn given_of(c: Command, args: Seq<Seq<char>>) -> Seq<GivenV> {
    read_from(c, args, 0, Seq::empty()).0
}

/// Whether every value of a command's arguments can be read.
pub open spec fn args_are_readable(c: Command, args: Seq<Seq<char>>) -> bool {
    forall|i: int|
        0 <= i < given_of(c, args).len() ==> value_is_readable(c, #[trigger] given_of(c, args)[i])
}

/// Whether every value of a command's arguments can be read.
pub fn are_args_readable(c: Command, args: &Vec<String>) -> (r: bool)
    ensures
        r == args_are_readable(c, views(args@)),
{
    let (gs, _stop) = read_flags(c, args);
    let ghost gv = given_of(c, views(args@));
    let mut i: usize = 0;
    while i < gs.len()
        invariant
            i <= gs@.len(),
            gv == given_of(c, views(args@)),
            given_views(gs@) == gv,
            forall|k: int| 0 <= k < i ==> value_is_readable(c, #[trigger] gv[k]),
        decreases gs@.len() - i,
    {
        let f = gs[i].flag;
        let asked = (f == Flag::Interval && c != Command::Digest) || f == Flag::Last;
        assert(gv[i as int] == (gs@[i as int].flag, opt_view(gs@[i as int].value)));
        if asked {
            if let Some(v) = &gs[i].value {
                if !is_duration_readable(v.as_str()) {
                    assert(!value_is_readable(c, gv[i as int]));
                    return false;
                }
            }
        }
        i = i + 1;
    }
    assert(given_views(gs@).len() == gs@.len());
    true
}

/// Reads a command's arguments.
pub fn read_command(c: Command, args: &Vec<String>) -> (r: (Vec<Given>, Ending))
    requires
        args_are_readable(c, views(args@)),
    ensures
        given_views(r.0@) == given_of(c, views(args@)),
        r.1@ == ending_of(c, views(args@)),
{
    let (gs, stop) = read_flags(c, args);
    let ghost gv = given_of(c, views(args@));
    let mut i: usize = 0;
    while i < gs.len()
        invariant
            i <= gs@.len(),
            args_are_readable(c, views(args@)),
            gv == given_of(c, views(args@)),
            given_views(gs@) == gv,
            first_error(c, gv, 0) == first_error(c, gv, i as int),
        decreases gs@.len() - i,
    {
        assert(gv[i as int] == (gs@[i as int].flag, opt_view(gs@[i as int].value)));
        assert(value_is_readable(c, given_of(c, views(args@))[i as int]));
        if let Some(m) = check_value(c, &gs[i]) {
            return (gs, Ending::Fail(m));
        }
        i = i + 1;
    }
    assert(given_views(gs@).len() == gs@.len());
    let ending = match stop {
        Stop::End => Ending::Run,
        Stop::Help => Ending::Help,
        Stop::Unknown(s) => Ending::Unknown(s),
        Stop::Missing(s) => {
            let mut m = s;
            m.append(" requires an argument");
            Ending::Fail(m)
        },
    };
    (gs, ending)
}

// ── Values ───────────────────────────────────────────────────────────────────

/// The hour given with a flag.
pub open spec fn hour_given(gs: Seq<GivenV>, f: Flag) -> Option<HourBucket> {
    match value_of(gs, f) {
        Some(v) => hour_in_text(v),
        None => None,
    }
}

/// The hour given with a flag.
pub fn flag_hour(gs: &Vec<Given>, f: Flag) -> (r: Option<HourBucket>)
    ensures
        r == hour_given(given_views(gs@), f),
{
    match flag_value(gs, f) {
        Some(v) => HourBucket::parse(v.as_str()),
        None => None,
    }
}

/// The format given, JSON if none is.
pub open spec fn format_given(gs: Seq<GivenV>) -> Format {
    match value_of(gs, Flag::Format) {
        Some(v) => match format_of(v) {
            Ok(f) => f,
            Err(_) => Format::Json,
        },
        None => Format::Json,
    }
}

/// The format given, JSON if none is.
pub fn flag_format(gs: &Vec<Given>) -> (r: Format)
    ensures
        r == format_given(given_views(gs@)),
{
    match flag_value(gs, Flag::Format) {
        Some(v) => match Format::parse(v.as_str()) {
            Ok(f) => f,
            Err(_) => Format::Json,
        },
        None => Format::Json,
    }
}

/// Whether new events are followed: the last of `--follow` and `--no-follow`
/// decides, and without either they are.
pub open spec fn follow_given(gs: Seq<GivenV>) -> bool
    decreases gs.len(),
{
    if gs.len() == 0 {
        true
    } else if gs.last().0 == Flag::Follow {
        true
    } else if gs.last().0 == Flag::NoFollow {
        false
    } else {
        follow_given(gs.drop_last())
    }
}

/// Whether new events are followed.
pub fn flag_follow(gs: &Vec<Given>) -> (r: bool)
    ensures
        r == follow_given(given_views(gs@)),
{
    let ghost gv = given_views(gs@);
    let mut i: usize = gs.len();
    assert(gv.take(i as int) =~= gv);
    while i > 0
        invariant
            i <= gs@.len(),
            gv == given_views(gs@),
            follow_given(gv) == follow_given(gv.take(i as int)),
        decreases i,
    {
        assert(gv.take(i as int).last() == gv[i - 1]);
        assert(gv.take(i as int).drop_last() =~= gv.take(i - 1));
        if gs[i - 1].flag == Flag::Follow {
            return true;
        }
        if gs[i - 1].flag == Flag::NoFollow {
            return false;
        }
        i = i - 1;
    }
    true
}

/// The days given.
pub open spec fn days_given(gs: Seq<GivenV>) -> Option<int> {
    match value_of(gs, Flag::Days) {
        Some(v) => read_unsigned(v, u32::MAX as int),
        None => None,
    }
}

/// The days given; they are required.
pub fn flag_days(gs: &Vec<Given>) -> (r: Result<u32, String>)
    ensures
        match r {
            Ok(n) => days_given(given_views(gs@)) == Some(n as int),
            Err(m) => days_given(given_views(gs@)) is None && m@ == "--days N is required"@,
        },
{
    match flag_value(gs, Flag::Days) {
        Some(v) => match parse_unsigned(&to_chars(v.as_str()), u32::MAX as u64) {
            Some(n) => Ok(n as u32),
            None => Err("--days N is required".to_owned()),
        },
        None => Err("--days N is required".to_owned()),
    }
}

/// The argument of a flag that is required, or the message that it is.
pub fn required_value(gs: &Vec<Given>, f: Flag, message: &str) -> (r: Result<String, String>)
    ensures
        match r {
            Ok(v) => value_of(given_views(gs@), f) == Some(v@),
            Err(m) => value_of(given_views(gs@), f) is None && m@ == message@,
        },
{
    match flag_value(gs, f) {
        Some(v) => Ok(v),
        None => Err(message.to_owned()),
    }
}

// ── Time ranges ──────────────────────────────────────────────────────────────

/// The bounds of a range of hours, each open or not.
pub type Bounds = (Option<HourBucket>, Option<HourBucket>);

/// Whether `h` is the hour in which the moment `nanos` lies.
pub open spec fn is_hour_at(h: Option<HourBucket>, nanos: int) -> bool {
    h matches Some(b) && b.valid() && b.number() == (nanos / NANOS as int) / 3600
}

/// The bounds that a window gives; it cannot be combined with explicit bounds.
pub fn window_bounds(
    window: Option<String>,
    after: Option<HourBucket>,
    before: Option<HourBucket>,
    now: Instant,
) -> (r: Result<Bounds, String>)
    requires
        now.in_range(),
        window matches Some(w) ==> window_is_readable(w@, now),
    ensures
        match opt_view(window) {
            None => r == Ok::<Bounds, String>((after, before)),
            Some(w) => if after is Some || before is Some {
                r matches Err(m) && m@ == "--window cannot be combined with --after/--before"@
            } else {
                match window_in_text(w, now.nanos as int) {
                    Err(e) => r matches Err(m) && m@ == e,
                    Ok((a, b)) => r matches Ok(bounds) && is_hour_at(bounds.0, a) && is_hour_at(
                        bounds.1,
                        b,
                    ),
                }
            },
        },
{
    match window {
        None => Ok((after, before)),
        Some(w) => {
            if after.is_some() || before.is_some() {
                return Err("--window cannot be combined with --after/--before".to_owned());
            }
            match parse_window(w.as_str(), now) {
                Err(m) => Err(m),
                Ok(win) => Ok(
                    (
                        Some(HourBucket::from_datetime(win.start)),
                        Some(HourBucket::from_datetime(win.end)),
                    ),
                ),
            }
        },
    }
}

/// The bounds that `--last` gives; it cannot be combined with explicit bounds.
pub fn last_bounds(
    last: Option<String>,
    after: Option<HourBucket>,
    before: Option<HourBucket>,
    now: Instant,
) -> (r: Result<Bounds, String>)
    requires
        now.in_range(),
        last matches Some(s) ==> duration_is_readable(s@) && duration_in_text(s@) is Ok
            && now.nanos - duration_in_text(s@)->Ok_0 * NANOS >= MIN_NANOS,
    ensures
        match opt_view(last) {
            None => r == Ok::<Bounds, String>((after, before)),
            Some(s) => if after is Some || before is Some {
                r matches Err(m) && m@ == "--last cannot be combined with --after/--before"@
            } else {
                r matches Ok(bounds) && is_hour_at(
                    bounds.0,
                    now.nanos - duration_in_text(s)->Ok_0 * NANOS,
                ) && is_hour_at(bounds.1, now.nanos as int)
            },
        },
{
    match last {
        None => Ok((after, before)),
        Some(s) => {
            if after.is_some() || before.is_some() {
                return Err("--last cannot be combined with --after/--before".to_owned());
            }
            match parse_duration(s.as_str()) {
                Err(m) => Err(m),
                Ok(d) => {
                    let start = Instant { nanos: now.nanos - d.nanos };
                    Ok((Some(HourBucket::from_datetime(start)), Some(HourBucket::from_datetime(now))))
                },
            }
        },
    }
}

/// A range of hours with both bounds, and the width of its columns in hours.
#[derive(Debug)]
pub struct TrendRange {
    pub after: HourBucket,
    pub before: HourBucket,
    pub hours: u32,
}

/// The whole hours of a column, one at least.
pub open spec fn column_hours(seconds: int) -> int {
    if seconds < 3600 {
        1
    } else {
        seconds / 3600
    }
}

/// The range of a trend table: both bounds are required, in their order, and
/// columns of a number of hours that fits.
pub fn trend_range(interval: &str, bounds: Bounds) -> (r: Result<TrendRange, String>)
    requires
        duration_is_readable(interval@),
        duration_in_text(interval@) is Ok,
    ensures
        match bounds {
            (Some(a), Some(b)) => {
                let hours = column_hours(duration_in_text(interval@)->Ok_0);
                if hour_lt(b, a) {
                    r matches Err(m) && m@ == "--before must not be earlier than --after"@
                } else if hours > u32::MAX {
                    r matches Err(m) && m@ == "--interval is too long: '"@ + interval@ + "'"@
                } else {
                    r matches Ok(t) && t.after == a && t.before == b && t.hours == hours
                }
            },
            _ => r matches Err(m) && m@
                == "--interval requires --last or --after/--before to set the overall range"@,
        },
{
    match bounds {
        (Some(after), Some(before)) => {
            if before.is_before(&after) {
                return Err("--before must not be earlier than --after".to_owned());
            }
            match parse_duration(interval) {
                Ok(d) => {
                    let seconds: i128 = d.nanos / NANOS;
                    let hours: i128 = if seconds < 3600 {
                        1
                    } else {
                        seconds / 3600
                    };
                    if hours > u32::MAX as i128 {
                        let mut m = "--interval is too long: '".to_owned();
                        m.append(interval);
                        m.append("'");
                        return Err(m);
                    }
                    Ok(TrendRange { after, before, hours: hours as u32 })
                },
                Err(m) => Err(m),
            }
        },
        _ => Err(
            "--interval requires --last or --after/--before to set the overall range".to_owned(),
        ),
    }
}

// ── Searches ─────────────────────────────────────────────────────────────────

/// The rows that a search without a limit of its own shows at most.
pub const DEFAULT_ROW_CAP: usize = 150;

/// A search of the raw files, if one is asked for, with the text to look for. It
/// cannot be combined with a query.
pub fn raw_search(gs: &Vec<Given>) -> (r: Result<Option<Option<String>>, String>)
    ensures
        ({
            let gv = given_views(gs@);
            if !is_given(gv, Flag::Raw) {
                r == Ok::<Option<Option<String>>, String>(None)
            } else if value_of(gv, Flag::Query) is Some {
                r matches Err(m) && m@
                    == "--raw and --query are mutually exclusive (--raw takes a literal substring, not a DSL expression)"@
            } else {
                r matches Ok(Some(needle)) && opt_view(needle) == value_of(gv, Flag::Raw)
            }
        }),
{
    if !has_flag(gs, Flag::Raw) {
        return Ok(None);
    }
    if flag_value(gs, Flag::Query).is_some() {
        return Err(
            "--raw and --query are mutually exclusive (--raw takes a literal substring, not a DSL expression)".to_owned(),
        );
    }
    Ok(Some(flag_value(gs, Flag::Raw)))
}

/// The formats of a digest.
#[derive(Debug, Clone, Copy, PartialEq, Eq, Structural)]
pub enum ReportFormat {
    Text,
    Json,
}

/// The format of a digest, text if none is given.
pub fn report_format(gs: &Vec<Given>) -> (r: Result<ReportFormat, String>)
    ensures
        match value_of(given_views(gs@), Flag::Format) {
            None => r == Ok::<ReportFormat, String>(ReportFormat::Text),
            Some(f) => if f == "text"@ {
                r == Ok::<ReportFormat, String>(ReportFormat::Text)
            } else if f == "json"@ {
                r == Ok::<ReportFormat, String>(ReportFormat::Json)
            } else {
                r matches Err(m) && m@ == "siemctl: invalid --format '"@ + f
                    + "' (expected: text, json)"@
            },
        },
{
    match flag_value(gs, Flag::Format) {
        None => Ok(ReportFormat::Text),
        Some(f) => {
            if same(f.as_str(), "text") {
                Ok(ReportFormat::Text)
            } else if same(f.as_str(), "json") {
                Ok(ReportFormat::Json)
            } else {
                let mut m = "siemctl: invalid --format '".to_owned();
                m.append(f.as_str());
                m.append("' (expected: text, json)");
                Err(m)
            }
        },
    }
}

/// The query of a search: an absent text matches everything.
pub fn prepare_query(dsl: &Option<String>, valid: &FieldSet, bounds: Bounds) -> (r: Result<
    Query,
    String,
>)
    requires
        valid.wf(),
    ensures
        ({
            let text = match opt_view(*dsl) {
                Some(s) => s,
                None => ""@,
            };
            match meaning(text, views(valid.items@)) {
                Ok(q) => r matches Ok(x) && x@ == q && x.after == bounds.0 && x.before == bounds.1,
                Err(e) => r matches Err(m) && m@ == "invalid --query: "@ + e,
            }
        }),
{
    let parsed = match dsl {
        Some(s) => Query::parse(s.as_str(), valid),
        None => Query::parse("", valid),
    };
    match parsed {
        Ok(q) => Ok(
            Query {
                select: q.select,
                expr: q.expr,
                group_by: q.group_by,
                limit: q.limit,
                after: bounds.0,
                before: bounds.1,
            },
        ),
        Err(e) => {
            let mut m = "invalid --query: ".to_owned();
            m.append(e.as_str());
            Err(m)
        },
    }
}

/// The limit of a search, and whether it is the default one: a limit of the
/// query wins, and without one the default applies unless it is switched off.
pub fn row_limit(limit: Option<usize>, no_limit: bool) -> (r: (Option<usize>, bool))
    ensures
        r.1 == (limit is None && !no_limit),
        r.0 == if r.1 {
            Some(DEFAULT_ROW_CAP)
        } else {
            limit
        },
{
    if limit.is_none() && !no_limit {
        (Some(DEFAULT_ROW_CAP), true)
    } else {
        (limit, false)
    }
}

/// The notice that the default limit cut the output off, if it did.
pub fn cap_notice(default_applied: bool, emitted: usize) -> (r: Option<String>)
    ensures
        opt_view(r) == if default_applied && emitted >= DEFAULT_ROW_CAP {
            Some(
                "siemctl: showing first "@ + crate::number::dec(emitted as nat)
                    + " matches (default row cap reached) — add an explicit LIMIT to your --query or pass --no-limit to see more"@,
            )
        } else {
            None
        },
{
    if default_applied && emitted >= DEFAULT_ROW_CAP {
        let mut m = "siemctl: showing first ".to_owned();
        m.append(crate::number::dec_u64(emitted as u64).as_str());
        m.append(
            " matches (default row cap reached) — add an explicit LIMIT to your --query or pass --no-limit to see more",
        );
        Some(m)
    } else {
        None
    }
}

} // verus!
