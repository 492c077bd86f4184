//! What the arguments of a command mean.
use vstd::prelude::*;

use crate::flags::{arity_of, flag_of, is_given, read_from, value_of, Command, Flag, GivenV, StopV};
use crate::number::{dec, digits_value, read_dec, read_signed, read_unsigned};
use crate::options::{
    column_hours, days_given, ending_of, first_error, follow_given, format_given, given_of,
    hour_given, value_error, EndingV,
};
use crate::query::CondV;
use crate::query_parser::{call_cond, field_error, sql_ident};
use crate::render::{format_of, Format};
use crate::text::{
    char_from, char_from_is_first, find_from, find_from_is_first, is_space, lower, split,
    split_front, split_whole, trimmed, trimmed_end, trimmed_start,
};
use crate::time::{hour_in_text, read_u32};
use crate::window::{duration_in_text, timestamp_in_text, unit_seconds, window_in_text, NANOS};

verus! {

// ── Flags ────────────────────────────────────────────────────────────────────

/// The last value given for a flag counts, whatever else is given.
pub proof fn later_values_win(gs: Seq<GivenV>, f: Flag, g: Flag, v: Option<Seq<char>>)
    ensures
        value_of(gs.push((f, v)), f) == v,
        f != g ==> value_of(gs.push((g, v)), f) == value_of(gs, f),
        !is_given(gs, f) ==> value_of(gs, f) is None,
        is_given(gs.push((f, v)), f),
        f != g ==> is_given(gs.push((g, v)), f) == is_given(gs, f),
    decreases gs.len(),
{
    assert(gs.push((f, v)).drop_last() =~= gs);
    assert(gs.push((g, v)).drop_last() =~= gs);
    assert(gs.push((f, v))[gs.len() as int].0 == f);
    if f != g {
        if is_given(gs, f) {
            let i = choose|i: int| 0 <= i < gs.len() && (#[trigger] gs[i]).0 == f;
            assert(gs.push((g, v))[i].0 == f);
        }
        if is_given(gs.push((g, v)), f) {
            let h = gs.push((g, v));
            let i = choose|i: int| 0 <= i < h.len() && (#[trigger] h[i]).0 == f;
            assert(gs[i].0 == f);
        }
    }
    if !is_given(gs, f) && gs.len() > 0 {
        let front = gs.drop_last();
        assert(gs[gs.len() - 1].0 != f);
        assert(!is_given(front, f)) by {
            if is_given(front, f) {
                let i = choose|i: int| 0 <= i < front.len() && (#[trigger] front[i]).0 == f;
                assert(gs[i].0 == f);
            }
        }
        later_values_win(front, f, g, v);
    }
}

/// A tail follows unless the last word on it says otherwise.
pub proof fn tails_follow_by_default(gs: Seq<GivenV>, f: Flag, v: Option<Seq<char>>)
    ensures
        follow_given(Seq::empty()),
        follow_given(gs.push((Flag::Follow, v))),
        !follow_given(gs.push((Flag::NoFollow, v))),
        f != Flag::Follow && f != Flag::NoFollow ==> follow_given(gs.push((f, v)))
            == follow_given(gs),
{
    assert(gs.push((f, v)).drop_last() =~= gs);
}

proof fn lemma_read_behind(
    c: Command,
    front: Seq<Seq<char>>,
    rest: Seq<Seq<char>>,
    i: int,
    acc: Seq<GivenV>,
)
    requires
        0 <= i,
    ensures
        read_from(c, front + rest, front.len() + i, acc) == read_from(c, rest, i, acc),
    decreases rest.len() - i,
{
    let args = front + rest;
    let at = front.len() + i;
    if i < rest.len() {
        assert(args[at] == rest[i]);
        if i + 1 < rest.len() {
            assert(args[at + 1] == rest[i + 1]);
        }
        match flag_of(c, rest[i]) {
            None => {
                lemma_read_behind(c, front, rest, i + 1, acc.push((Flag::RuleId, Some(rest[i]))));
            },
            Some(f) => {
                lemma_read_behind(c, front, rest, i + 1, acc.push((f, None)));
                if i + 1 < rest.len() {
                    lemma_read_behind(c, front, rest, i + 2, acc.push((f, Some(rest[i + 1]))));
                }
            },
        }
    }
}

/// A flag that takes a value takes the next argument, whatever it is, and what
/// is behind it is read as if it stood alone.
pub proof fn values_follow_their_flags(
    c: Command,
    name: Seq<char>,
    f: Flag,
    value: Seq<char>,
    rest: Seq<Seq<char>>,
    acc: Seq<GivenV>,
)
    requires
        name != "--help"@,
        name != "-h"@,
        flag_of(c, name) == Some(f),
        arity_of(f) is One,
    ensures
        read_from(c, seq![name, value] + rest, 0, acc) == read_from(
            c,
            rest,
            0,
            acc.push((f, Some(value))),
        ),
        read_from(c, seq![name], 0, acc) == (acc, StopV::Missing(name)),
{
    let args = seq![name, value] + rest;
    assert(args[0] == name && args[1] == value);
    lemma_read_behind(c, seq![name, value], rest, 0, acc.push((f, Some(value))));
    assert(seq![name][0] == name);
}

/// A switch takes no argument.
pub proof fn switches_stand_alone(
    c: Command,
    name: Seq<char>,
    f: Flag,
    rest: Seq<Seq<char>>,
    acc: Seq<GivenV>,
)
    requires
        name != "--help"@,
        name != "-h"@,
        flag_of(c, name) == Some(f),
        arity_of(f) is Zero,
    ensures
        read_from(c, seq![name] + rest, 0, acc) == read_from(c, rest, 0, acc.push((f, None))),
{
    let args = seq![name] + rest;
    assert(args[0] == name);
    lemma_read_behind(c, seq![name], rest, 0, acc.push((f, None)));
}

/// Reading stops at a word that asks for help and at one that is no flag; what
/// was read before it stays.
pub proof fn reading_stops_where_it_must(
    c: Command,
    word: Seq<char>,
    rest: Seq<Seq<char>>,
    acc: Seq<GivenV>,
)
    ensures
        word == "--help"@ || word == "-h"@ ==> read_from(c, seq![word] + rest, 0, acc) == (
            acc,
            StopV::Help,
        ),
        word != "--help"@ && word != "-h"@ && flag_of(c, word) is None && c != Command::Ack
            ==> read_from(c, seq![word] + rest, 0, acc) == (acc, StopV::Unknown(word)),
        read_from(c, Seq::empty(), 0, acc) == (acc, StopV::End),
{
    assert((seq![word] + rest)[0] == word);
}

/// The rule that is acknowledged is the one word that is no flag.
pub proof fn acknowledged_rule_is_the_bare_word(
    word: Seq<char>,
    rest: Seq<Seq<char>>,
    acc: Seq<GivenV>,
)
    requires
        word.len() > 0,
        word[0] != '-',
        flag_of(Command::Ack, word) is None,
        word != "--help"@,
        word != "-h"@,
    ensures
        !is_given(acc, Flag::RuleId) ==> read_from(Command::Ack, seq![word] + rest, 0, acc)
            == read_from(Command::Ack, rest, 0, acc.push((Flag::RuleId, Some(word)))),
        is_given(acc, Flag::RuleId) ==> read_from(Command::Ack, seq![word] + rest, 0, acc) == (
            acc,
            StopV::Unknown(word),
        ),
{
    assert((seq![word] + rest)[0] == word);
    lemma_read_behind(
        Command::Ack,
        seq![word],
        rest,
        0,
        acc.push((Flag::RuleId, Some(word))),
    );
}

/// A raw search takes the next argument as its text unless that looks like a
/// flag.
pub proof fn raw_takes_a_text_if_there_is_one(
    text: Seq<char>,
    rest: Seq<Seq<char>>,
    acc: Seq<GivenV>,
)
    requires
        flag_of(Command::Search, "--raw"@) == Some(Flag::Raw),
    ensures
        !(text.len() > 0 && text[0] == '-') ==> read_from(
            Command::Search,
            seq!["--raw"@, text] + rest,
            0,
            acc,
        ) == read_from(Command::Search, rest, 0, acc.push((Flag::Raw, Some(text)))),
        text.len() > 0 && text[0] == '-' ==> read_from(
            Command::Search,
            seq!["--raw"@, text] + rest,
            0,
            acc,
        ) == read_from(Command::Search, seq![text] + rest, 0, acc.push((Flag::Raw, None))),
{
    reveal_strlit("--raw");
    reveal_strlit("--help");
    reveal_strlit("-h");
    assert("--raw"@.len() == 5 && "--help"@.len() == 6 && "-h"@.len() == 2);
    let args = seq!["--raw"@, text] + rest;
    assert(args[0] == "--raw"@ && args[1] == text);
    lemma_read_behind(
        Command::Search,
        seq!["--raw"@, text],
        rest,
        0,
        acc.push((Flag::Raw, Some(text))),
    );
    lemma_read_behind(
        Command::Search,
        seq!["--raw"@],
        seq![text] + rest,
        0,
        acc.push((Flag::Raw, None)),
    );
    assert(args =~= seq!["--raw"@] + (seq![text] + rest));
}

/// Each flag goes by its own names, and only for the commands that have it.
pub proof fn flags_go_by_their_names(c: Command, s: Seq<char>)
    ensures
        flag_of(c, s) == Some(Flag::DataDir) ==> (s == "--data-dir"@ || s == "-d"@) && c
            != Command::DryRun && c != Command::Validate,
        flag_of(c, s) == Some(Flag::Verbose) ==> (s == "--verbose"@ || s == "-v"@) && c
            == Command::Status,
        flag_of(c, s) == Some(Flag::Source) ==> s == "--source"@ || s == "-s"@,
        flag_of(c, s) == Some(Flag::After) ==> (s == "--after"@ || s == "-a"@) && c != Command::Digest,
        flag_of(c, s) == Some(Flag::Before) ==> (s == "--before"@ || s == "-b"@) && c
            != Command::Digest,
        flag_of(c, s) == Some(Flag::Interval) ==> s == "--interval"@,
        flag_of(c, s) == Some(Flag::Last) ==> s == "--last"@ && c == Command::Stats,
        flag_of(c, s) == Some(Flag::Query) ==> s == "--query"@ || s == "-q"@,
        flag_of(c, s) == Some(Flag::NoLimit) ==> s == "--no-limit"@ && c == Command::Search,
        flag_of(c, s) == Some(Flag::Raw) ==> s == "--raw"@ && c == Command::Search,
        flag_of(c, s) == Some(Flag::Format) ==> s == "--format"@,
        flag_of(c, s) == Some(Flag::Window) ==> s == "--window"@ || s == "-w"@,
        flag_of(c, s) == Some(Flag::Correlated) ==> s == "--correlated"@ && c == Command::Alerts,
        flag_of(c, s) == Some(Flag::All) ==> s == "--all"@ && c == Command::Alerts,
        flag_of(c, s) == Some(Flag::Note) ==> s == "--note"@ && c == Command::Ack,
        flag_of(c, s) == Some(Flag::Follow) ==> (s == "--follow"@ || s == "-f"@) && c
            == Command::Tail,
        flag_of(c, s) == Some(Flag::NoFollow) ==> (s == "--no-follow"@ || s == "-F"@) && c
            == Command::Tail,
        flag_of(c, s) == Some(Flag::Days) ==> (s == "--days"@ || s == "-n"@) && c
            == Command::Retention,
        flag_of(c, s) == Some(Flag::Preview) ==> (s == "--dry-run"@ || s == "-D"@) && c
            == Command::Retention,
        flag_of(c, s) == Some(Flag::Yes) ==> (s == "--yes"@ || s == "--force"@ || s == "-y"@) && c
            == Command::Retention,
        flag_of(c, s) == Some(Flag::File) ==> (s == "--file"@ || s == "-f"@) && c
            == Command::DryRun,
        flag_of(c, s) == Some(Flag::Config) ==> s == "--config"@ || s == "-c"@,
        flag_of(c, s) == Some(Flag::Rules) ==> s == "--rules"@ || s == "-r"@,
        flag_of(c, s) == Some(Flag::NormalizedConfig) ==> (s == "--normalized-config"@ || s
            == "-N"@) && c == Command::Validate,
        flag_of(c, s) != Some(Flag::RuleId),
{
}

/// What the first faulty value says is what is told, and values without a fault
/// say nothing.
pub proof fn first_fault_is_told(c: Command, gs: Seq<GivenV>, i: int, k: int)
    requires
        0 <= i <= k < gs.len(),
        value_error(c, gs[k]) is Some,
        forall|j: int| i <= j < k ==> value_error(c, #[trigger] gs[j]) is None,
    ensures
        first_error(c, gs, i) == value_error(c, gs[k]),
    decreases k - i,
{
    if i < k {
        assert(value_error(c, gs[i]) is None);
        first_fault_is_told(c, gs, i + 1, k);
    }
}

/// Columns of a trend are as many hours wide as the interval has, and one at
/// least.
pub proof fn columns_are_hours_wide(h: int)
    requires
        h >= 1,
    ensures
        column_hours(h * 3600) == h,
        column_hours(0) == 1,
{
    assert(h * 3600 / 3600 == h);
}

// ── Durations and windows ────────────────────────────────────────────────────

/// A number of seconds, minutes, hours or days lasts that many times the unit.
pub proof fn durations_are_counted_in_their_unit(n: nat, unit: char, u: int)
    requires
        0 < n <= i64::MAX,
        (unit == 's' && u == 1) || (unit == 'm' && u == 60) || (unit == 'h' && u == 60 * 60) || (unit
            == 'd' && u == 24 * 60 * 60),
    ensures
        duration_in_text(dec(n).push(unit)) == Ok::<int, Seq<char>>(n * u),
{
    read_dec(n);
    let t = dec(n).push(unit);
    assert(t.drop_last() =~= dec(n));
    assert(t[0] == dec(n)[0]);
    assert(crate::text::is_digit(dec(n)[0]));
    assert(!is_space(t[0]) && !is_space(t.last()));
    assert(trimmed_start(t) == t);
    assert(trimmed_end(t) == t);
    assert(dec(n).len() >= 1);
}

/// Sixty of one unit are one of the next, and so are twenty-four hours a day.
pub proof fn units_convert(n: nat)
    requires
        0 < n <= i64::MAX / 60,
    ensures
        duration_in_text(dec(60 * n).push('s')) == duration_in_text(dec(n).push('m')),
        duration_in_text(dec(60 * n).push('m')) == duration_in_text(dec(n).push('h')),
        duration_in_text(dec(24 * n).push('h')) == duration_in_text(dec(n).push('d')),
{
    durations_are_counted_in_their_unit(60 * n, 's', 1);
    durations_are_counted_in_their_unit(60 * n, 'm', 60);
    durations_are_counted_in_their_unit(24 * n, 'h', 3600);
    durations_are_counted_in_their_unit(n, 'm', 60);
    durations_are_counted_in_their_unit(n, 'h', 3600);
    durations_are_counted_in_their_unit(n, 'd', 86400);
}

/// A duration that is accepted lasts, and names one of the four units.
pub proof fn durations_last(s: Seq<char>)
    ensures
        duration_in_text(s) matches Ok(n) ==> n > 0 && trimmed(s).len() >= 2 && (trimmed(s).last()
            == 's' || trimmed(s).last() == 'm' || trimmed(s).last() == 'h' || trimmed(s).last()
            == 'd'),
{
    if let Ok(n) = duration_in_text(s) {
        let t = trimmed(s);
        let k = read_signed(t.drop_last(), i64::MIN as int, i64::MAX as int)->0;
        let u = unit_seconds(t.last())->0;
        assert(k * u > 0) by (nonlinear_arith)
            requires
                k > 0,
                u > 0,
        ;
    }
}

/// A window given as a duration ends now and lasts that long, so it moves with
/// the clock; one given as a range does not.
pub proof fn windows_end_now_unless_given(s: Seq<char>, now: int, later: int)
    ensures
        find_from(s, ".."@, 0) is None ==> (window_in_text(s, now) is Ok) == (duration_in_text(s)
            is Ok),
        find_from(s, ".."@, 0) is None ==> (window_in_text(s, now) matches Ok(w) ==> w.1 == now
            && w.1 - w.0 == duration_in_text(s)->Ok_0 * NANOS && w.0 < w.1),
        find_from(s, ".."@, 0) is Some ==> window_in_text(s, now) == window_in_text(s, later),
{
    if let Ok(n) = duration_in_text(s) {
        durations_last(s);
        assert(n * NANOS > 0) by (nonlinear_arith)
            requires
                n > 0,
                NANOS == 1_000_000_000,
        ;
    }
}

/// A range of two timestamps is the window between them, if the second is the
/// later one.
pub proof fn ranges_lie_between_their_ends(lo: Seq<char>, hi: Seq<char>, now: int)
    requires
        !lo.contains('.'),
        !hi.contains('.'),
        timestamp_in_text(trimmed(lo)) is Some,
        timestamp_in_text(trimmed(hi)) is Some,
    ensures
        ({
            let a = timestamp_in_text(trimmed(lo))->0;
            let b = timestamp_in_text(trimmed(hi))->0;
            let w = window_in_text(lo + ".."@ + hi, now);
            &&& a.seconds() < b.seconds() ==> w == Ok::<(int, int), Seq<char>>(
                (a.seconds() * NANOS, b.seconds() * NANOS),
            )
            &&& a.seconds() >= b.seconds() ==> w is Err
        }),
{
    reveal_strlit("..");
    let s = lo + ".."@ + hi;
    let p = lo.len() as int;
    find_from_is_first(s, ".."@, 0);
    assert(s.subrange(p, p + 2) =~= ".."@);
    assert(crate::text::occurs_at(s, ".."@, p));
    let i = find_from(s, ".."@, 0)->0;
    assert(i == p) by {
        if i < p {
            assert(s.subrange(i, i + 2)[0] == ".."@[0]);
            assert(s[i] == '.' && lo[i] == '.');
        }
    }
    assert(s.subrange(0, i) =~= lo);
    assert(s.subrange(i + 2, s.len() as int) =~= hi);
}

/// A timestamp without minutes is of the full hour, and one without seconds of
/// the full minute.
pub proof fn left_out_parts_are_zero(date: Seq<char>, hour: Seq<char>, minute: Seq<char>)
    requires
        !date.contains('T'),
        !hour.contains(':'),
        !minute.contains(':'),
    ensures
        timestamp_in_text(date + (seq!['T'] + hour)) == timestamp_in_text(
            date + (seq!['T'] + (hour + (seq![':'] + seq!['0', '0']))),
        ),
        timestamp_in_text(date + (seq!['T'] + (hour + (seq![':'] + minute)))) == timestamp_in_text(
            date + (seq!['T'] + (hour + (seq![':'] + (minute + (seq![':'] + seq!['0', '0']))))),
        ),
{
    lemma_full_hour(date, hour);
    lemma_full_minute(date, hour, minute);
}

proof fn lemma_zero()
    ensures
        read_u32(seq!['0', '0']) == Some(0int),
        !seq!['0', '0'].contains(':'),
{
    let zero = seq!['0', '0'];
    reveal_with_fuel(digits_value, 3);
    assert(zero.drop_last() =~= seq!['0']);
    assert(seq!['0'].drop_last() =~= Seq::<char>::empty());
}

proof fn lemma_full_hour(date: Seq<char>, hour: Seq<char>)
    requires
        !date.contains('T'),
        !hour.contains(':'),
    ensures
        timestamp_in_text(date + (seq!['T'] + hour)) == timestamp_in_text(
            date + (seq!['T'] + (hour + (seq![':'] + seq!['0', '0']))),
        ),
{
    let zero = seq!['0', '0'];
    lemma_zero();
    lemma_parted(date, hour);
    lemma_parted(date, hour + (seq![':'] + zero));
    split_whole(hour, ':');
    split_front(hour, ':', zero);
    split_whole(zero, ':');
    assert(split(hour + (seq![':'] + zero), ':') =~= seq![hour, zero]);
}

proof fn lemma_full_minute(date: Seq<char>, hour: Seq<char>, minute: Seq<char>)
    requires
        !date.contains('T'),
        !hour.contains(':'),
        !minute.contains(':'),
    ensures
        timestamp_in_text(date + (seq!['T'] + (hour + (seq![':'] + minute)))) == timestamp_in_text(
            date + (seq!['T'] + (hour + (seq![':'] + (minute + (seq![':'] + seq!['0', '0']))))),
        ),
{
    let zero = seq!['0', '0'];
    lemma_zero();
    let a = hour + (seq![':'] + minute);
    let b = hour + (seq![':'] + (minute + (seq![':'] + zero)));
    lemma_parted(date, a);
    lemma_parted(date, b);
    lemma_pieces(hour, minute, zero);
}

proof fn lemma_pieces(hour: Seq<char>, minute: Seq<char>, zero: Seq<char>)
    requires
        !hour.contains(':'),
        !minute.contains(':'),
        !zero.contains(':'),
    ensures
        split(hour + (seq![':'] + minute), ':') == seq![hour, minute],
        split(hour + (seq![':'] + (minute + (seq![':'] + zero))), ':') == seq![hour, minute, zero],
{
    split_front(hour, ':', minute);
    split_whole(minute, ':');
    split_front(hour, ':', minute + (seq![':'] + zero));
    split_front(minute, ':', zero);
    split_whole(zero, ':');
    assert(seq![hour] + seq![minute] =~= seq![hour, minute]);
    assert(seq![hour] + (seq![minute] + seq![zero]) =~= seq![hour, minute, zero]);
}

proof fn lemma_parted(date: Seq<char>, t: Seq<char>)
    requires
        !date.contains('T'),
    ensures
        ({
            let s = date + (seq!['T'] + t);
            let i = date.len() as int;
            &&& char_from(s, 'T', 0) == Some(i)
            &&& s.subrange(0, i) == date
            &&& s.subrange(i + 1, s.len() as int) == t
        }),
{
    let s = date + (seq!['T'] + t);
    char_from_is_first(s, 'T', 0);
    let i = date.len() as int;
    assert(s[i] == 'T');
    let k = char_from(s, 'T', 0)->0;
    assert(k == i) by {
        if k < i {
            assert(s[k] == date[k]);
        }
    }
    assert(s.subrange(0, i) =~= date);
    assert(s.subrange(i + 1, s.len() as int) =~= t);
}

// ── Values of flags ──────────────────────────────────────────────────────────

/// A value is refused exactly if its flag cannot read it: an hour that is none, a
/// number of days that is none, a format without a name, a duration that is
/// none, and an interval that is no whole number of hours.
pub proof fn values_are_refused_if_unreadable(c: Command, v: Seq<char>)
    requires
        c != Command::Digest,
    ensures
        value_error(c, (Flag::After, Some(v))) is Some <==> hour_in_text(v) is None,
        value_error(c, (Flag::Before, Some(v))) is Some <==> hour_in_text(v) is None,
        value_error(c, (Flag::Days, Some(v))) is Some <==> read_unsigned(v, u32::MAX as int) is None,
        value_error(c, (Flag::Format, Some(v))) is Some <==> format_of(v) is Err,
        value_error(c, (Flag::Last, Some(v))) is Some <==> duration_in_text(v) is Err,
        value_error(c, (Flag::Interval, Some(v))) is None <==> (duration_in_text(v) matches Ok(
            n,
        ) && n % 3600 == 0),
{
}

/// Other flags take any value, and a digest reads its own format and interval.
pub proof fn other_values_are_not_refused(c: Command, f: Flag, v: Option<Seq<char>>)
    ensures
        value_error(c, (f, None)) is None,
        f != Flag::After && f != Flag::Before && f != Flag::Days && f != Flag::Format && f
            != Flag::Last && f != Flag::Interval ==> value_error(c, (f, v)) is None,
        c == Command::Digest && (f == Flag::Format || f == Flag::Interval) ==> value_error(c, (f, v))
            is None,
{
}

/// A command runs exactly if all its arguments were read and every value can be;
/// a faulty value is told before anything else.
pub proof fn commands_run_if_all_was_read(c: Command, args: Seq<Seq<char>>)
    ensures
        ({
            let r = read_from(c, args, 0, Seq::empty());
            let fault = first_error(c, r.0, 0);
            &&& given_of(c, args) == r.0
            &&& ending_of(c, args) is Run <==> fault is None && r.1 is End
            &&& ending_of(c, args) is Help <==> fault is None && r.1 is Help
            &&& ending_of(c, args) is Unknown <==> fault is None && r.1 is Unknown
            &&& fault matches Some(m) ==> ending_of(c, args) == EndingV::Fail(m)
        }),
{
}

/// Without a format given it is JSON; with one it is that.
pub proof fn records_are_json_by_default(gs: Seq<GivenV>, v: Seq<char>)
    ensures
        value_of(gs, Flag::Format) is None ==> format_given(gs) == Format::Json,
        value_of(gs, Flag::Format) == Some(v) ==> (format_of(v) matches Ok(f) ==> format_given(gs)
            == f),
{
}

/// The hours and days given are those that the last value says.
pub proof fn given_hours_and_days_are_read(gs: Seq<GivenV>, f: Flag, v: Seq<char>)
    ensures
        hour_given(gs.push((f, Some(v))), f) == hour_in_text(v),
        days_given(gs.push((Flag::Days, Some(v)))) == read_unsigned(v, u32::MAX as int),
        value_of(gs, f) is None ==> hour_given(gs, f) is None,
        value_of(gs, Flag::Days) is None ==> days_given(gs) is None,
{
    later_values_win(gs, f, f, Some(v));
    later_values_win(gs, Flag::Days, Flag::Days, Some(v));
}

// ── Names in a query ─────────────────────────────────────────────────────────

/// A field is accepted exactly if it is an identifier and, where fields are
/// known, one of them.
pub proof fn fields_are_accepted_if_known(name: Seq<char>, valid: Seq<Seq<char>>)
    ensures
        field_error(name, valid) is None <==> sql_ident(name) && (valid.len() == 0
            || valid.contains(name)),
{
}

/// A function is accepted only with the number of arguments that it takes, and
/// only if there is one of that name, in any case.
pub proof fn functions_take_their_arguments(
    name: Seq<char>,
    args: Seq<Seq<char>>,
    valid: Seq<Seq<char>>,
)
    ensures
        call_cond(name, args, valid) is Ok ==> {
            let f = lower(name);
            ||| (f == "startswith"@ || f == "endswith"@ || f == "contains"@ || f == "cidr_match"@)
                && args.len() == 2
            ||| (f == "any"@ || f == "raw_contains"@) && args.len() == 1
        },
        call_cond(name, args, valid) == call_cond(lower(name), args, valid),
        call_cond(name, args, valid) matches Ok(CondV::Field { field, value, mode }) ==> field
            == args[0] && field_error(field, valid) is None && (args.len() == 2 ==> value
            == args[1]),
        call_cond(name, args, valid) matches Ok(CondV::Text { needle }) ==> needle == args[0],
{
    assert(lower(lower(name)) =~= lower(name));
}

/// The switches take no value, a raw search may take one, and every other flag
/// takes one.
pub proof fn switches_take_no_value(f: Flag)
    ensures
        arity_of(f) is Zero <==> f == Flag::Verbose || f == Flag::NoLimit || f == Flag::Correlated
            || f == Flag::All || f == Flag::Follow || f == Flag::NoFollow || f == Flag::Preview || f
            == Flag::Yes,
        arity_of(f) is Optional <==> f == Flag::Raw,
{
}

} // verus!
