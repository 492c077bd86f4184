use siemctl::calendar::Civil;
use siemctl::raw_files::{parse_raw_file_time, raw_file_bound, raw_file_range};
use siemctl::time::HourBucket;
use siemctl::window::{dirs_in_range_under, hour_dirs_in_range, is_duration_readable};
use siemctl::window::{is_window_readable, parse_duration, parse_window, Duration, Instant, Window};

fn ymdhms(year: i32, month: u32, day: u32, hour: u32, minute: u32, second: u32) -> Instant {
    Instant::from_fields(Civil { year, month, day, hour, minute, second }).unwrap()
}

#[test]
fn from_filename_parses_dashed_bucket() {
    let b = HourBucket::from_filename("2026-06-22-08.db").unwrap();
    assert_eq!(b, HourBucket { year: 2026, month: 6, day: 22, hour: 8 });
}

#[test]
fn from_filename_without_suffix() {
    let b = HourBucket::from_filename("2026-12-31-23").unwrap();
    assert_eq!(b, HourBucket { year: 2026, month: 12, day: 31, hour: 23 });
}

#[test]
fn from_filename_rejects_garbage() {
    assert!(HourBucket::from_filename("not-a-bucket.db").is_none());
    assert!(HourBucket::from_filename("2026-13-01-00.db").is_none()); // bad month
    assert!(HourBucket::from_filename("2026-06-22-08-09.db").is_none()); // extra field
}

#[test]
fn dir_under_builds_year_month_day_hour_path() {
    let b = HourBucket { year: 2026, month: 6, day: 22, hour: 8 };
    assert_eq!(b.dir_under("data/alerts"), "data/alerts/2026/06/22/08");
    assert_eq!(
        b.dir_under("data/alerts/correlated"),
        "data/alerts/correlated/2026/06/22/08"
    );
}

#[test]
fn from_filename_ordering_matches_parse() {
    let a = HourBucket::from_filename("2026-06-22-08.db").unwrap();
    let b = HourBucket::parse("2026-06-22T09").unwrap();
    assert!(a < b);
}

#[test]
fn from_datetime_truncates_to_the_hour() {
    let dt = ymdhms(2026, 6, 22, 8, 42, 17);
    assert_eq!(HourBucket::from_datetime(dt), HourBucket { year: 2026, month: 6, day: 22, hour: 8 });
}

#[test]
fn to_datetime_round_trips_from_datetime() {
    let dt = ymdhms(2026, 6, 22, 8, 0, 0);
    assert_eq!(HourBucket::from_datetime(dt).to_datetime(), dt);
}

#[test]
fn advance_by_crosses_day_month_year_boundaries() {
    let b = HourBucket { year: 2026, month: 6, day: 22, hour: 22 };
    assert_eq!(b.advance_by(0), b);
    assert_eq!(b.advance_by(2), HourBucket { year: 2026, month: 6, day: 23, hour: 0 });
    let ny = HourBucket { year: 2026, month: 12, day: 31, hour: 23 };
    assert_eq!(ny.advance_by(1), HourBucket { year: 2027, month: 1, day: 1, hour: 0 });
}

#[test]
fn label_is_month_day_hour() {
    let b = HourBucket { year: 2026, month: 6, day: 22, hour: 8 };
    assert_eq!(b.label(), "06-22 08:00");
}

#[test]
fn dirs_in_range_under_from_after_to_is_empty() {
    let base = "/nonexistent/base";
    let from = HourBucket { year: 2026, month: 7, day: 20, hour: 5 };
    let to = HourBucket { year: 2026, month: 7, day: 20, hour: 4 };
    assert!(dirs_in_range_under(base, from, to).is_empty());
}

#[test]
fn parse_duration_units() {
    assert_eq!(parse_duration("45s").unwrap(), Duration::seconds(45));
    assert_eq!(parse_duration("10m").unwrap(), Duration::minutes(10));
    assert_eq!(parse_duration("6h").unwrap(), Duration::hours(6));
    assert_eq!(parse_duration("24h").unwrap(), Duration::hours(24));
    assert_eq!(parse_duration("2d").unwrap(), Duration::days(2));
}

#[test]
fn parse_duration_rejects_bad_input() {
    assert!(parse_duration("").is_err());
    assert!(parse_duration("h").is_err());
    assert!(parse_duration("10").is_err());
    assert!(parse_duration("10x").is_err());
    assert!(parse_duration("0h").is_err());
    assert!(parse_duration("-5h").is_err());
    assert!(parse_duration("abch").is_err());
}

#[test]
fn parse_window_relative_ends_at_now() {
    let now = ymdhms(2026, 6, 29, 20, 0, 0);
    let w = parse_window("6h", now).unwrap();
    assert_eq!(w.end, now);
    assert_eq!(w.start, ymdhms(2026, 6, 29, 14, 0, 0));
}

#[test]
fn parse_window_relative_crosses_month_boundary() {
    let now = ymdhms(2026, 3, 1, 2, 0, 0);
    let w = parse_window("6h", now).unwrap();
    assert_eq!(w.start, ymdhms(2026, 2, 28, 20, 0, 0));
}

#[test]
fn parse_window_relative_crosses_year_boundary() {
    let now = ymdhms(2027, 1, 1, 2, 0, 0);
    let w = parse_window("6h", now).unwrap();
    assert_eq!(w.start, ymdhms(2026, 12, 31, 20, 0, 0));
}

#[test]
fn parse_window_explicit_range_hour_precision() {
    let now = ymdhms(2026, 6, 29, 23, 0, 0);
    let w = parse_window("2026-06-29T18..2026-06-29T20", now).unwrap();
    assert_eq!(w.start, ymdhms(2026, 6, 29, 18, 0, 0));
    assert_eq!(w.end, ymdhms(2026, 6, 29, 20, 0, 0));
}

#[test]
fn parse_window_explicit_range_minute_second_precision() {
    let now = ymdhms(2026, 6, 29, 23, 0, 0);
    let w = parse_window("2026-06-29T18:05:30..2026-06-29T18:10:00", now).unwrap();
    assert_eq!(w.start, ymdhms(2026, 6, 29, 18, 5, 30));
    assert_eq!(w.end, ymdhms(2026, 6, 29, 18, 10, 0));
}

#[test]
fn parse_window_rejects_backwards_range() {
    let now = ymdhms(2026, 6, 29, 23, 0, 0);
    assert!(parse_window("2026-06-29T20..2026-06-29T18", now).is_err());
    assert!(parse_window("2026-06-29T18..2026-06-29T18", now).is_err());
}

#[test]
fn parse_window_rejects_malformed_range() {
    let now = ymdhms(2026, 6, 29, 23, 0, 0);
    assert!(parse_window("2026-06-29T18..not-a-time", now).is_err());
    assert!(parse_window("2026-13-01T18..2026-06-29T20", now).is_err()); // bad month
}

#[test]
fn baseline_is_same_duration_immediately_before() {
    let w = Window { start: ymdhms(2026, 6, 29, 14, 0, 0), end: ymdhms(2026, 6, 29, 20, 0, 0) };
    let b = w.baseline();
    assert_eq!(b.start, ymdhms(2026, 6, 29, 8, 0, 0));
    assert_eq!(b.end, ymdhms(2026, 6, 29, 14, 0, 0));
    assert_eq!(b.duration(), w.duration());
}

#[test]
fn baseline_crosses_month_boundary() {
    let w = Window { start: ymdhms(2026, 3, 1, 0, 0, 0), end: ymdhms(2026, 3, 1, 6, 0, 0) };
    let b = w.baseline();
    assert_eq!(b.start, ymdhms(2026, 2, 28, 18, 0, 0));
    assert_eq!(b.end, ymdhms(2026, 3, 1, 0, 0, 0));
}

#[test]
fn lookback_ends_at_self_end_with_the_given_duration() {
    let w = Window { start: ymdhms(2026, 6, 29, 14, 0, 0), end: ymdhms(2026, 6, 29, 15, 0, 0) };
    let lb = w.lookback(Duration::hours(24));
    assert_eq!(lb.end, w.end);
    assert_eq!(lb.start, ymdhms(2026, 6, 28, 15, 0, 0));
}

#[test]
fn lookback_is_independent_of_self_duration() {
    // A 5-minute window still yields a full 24h lookback, unlike
    // `baseline()` which would mirror the 5-minute span.
    let w = Window { start: ymdhms(2026, 6, 29, 14, 55, 0), end: ymdhms(2026, 6, 29, 15, 0, 0) };
    let lb = w.lookback(Duration::hours(24));
    assert_eq!(lb.duration(), Duration::hours(24));
    assert_ne!(lb.duration(), w.duration());
}

#[test]
fn raw_file_range_formats_zero_padded_bounds() {
    let w = Window { start: ymdhms(2026, 6, 22, 8, 5, 3), end: ymdhms(2026, 6, 22, 9, 0, 0) };
    let (lo, hi) = raw_file_range(&w);
    assert_eq!(lo, "raw/2026/06/22/08/05/03");
    assert_eq!(hi, "raw/2026/06/22/09/00/00");
}

#[test]
fn raw_file_range_bounds_sort_correctly_against_real_paths() {
    let w = Window { start: ymdhms(2026, 6, 22, 8, 55, 3), end: ymdhms(2026, 6, 22, 8, 55, 7) };
    let (lo, hi) = raw_file_range(&w);
    // A file at exactly `start` is included; one at exactly `end` is not.
    assert!("raw/2026/06/22/08/55/03/sshd.jsonl" >= lo.as_str());
    assert!("raw/2026/06/22/08/55/07/sshd.jsonl" >= hi.as_str());
    assert!("raw/2026/06/22/08/55/06/sshd.jsonl" < hi.as_str());
    assert!("raw/2026/06/22/08/55/02/sshd.jsonl" < lo.as_str());
}

#[test]
fn parse_raw_file_time_round_trips() {
    let t = ymdhms(2026, 6, 22, 8, 55, 3);
    let raw_file = format!("{}/sshd.jsonl", raw_file_bound(t));
    assert_eq!(parse_raw_file_time(&raw_file), Some(t));
}

#[test]
fn parse_raw_file_time_rejects_malformed() {
    assert_eq!(parse_raw_file_time(""), None);
    assert_eq!(parse_raw_file_time("not-a-raw-file"), None);
    assert_eq!(parse_raw_file_time("raw/2026/06/22/08"), None); // missing MM/SS
    assert_eq!(parse_raw_file_time("raw/2026/13/22/08/05/03/x.jsonl"), None); // bad month, but chrono itself rejects it via .single()
}

#[test]
fn ranges_reach_beyond_a_year() {
    let real = HourBucket { year: 2026, month: 7, day: 20, hour: 2 };
    let from = HourBucket { year: 2024, month: 1, day: 1, hour: 0 };
    let to = HourBucket { year: 2026, month: 7, day: 20, hour: 23 };
    let dirs = dirs_in_range_under("base", from, to);
    assert_eq!(dirs.len(), 22368);
    assert_eq!(dirs.iter().filter(|d| **d == real.dir_under("base")).count(), 1);
    assert_eq!(dirs[0], "base/2024/01/01/00");
    assert_eq!(dirs[22367], "base/2026/07/20/23");
    assert_eq!(hour_dirs_in_range("data", real, real), vec!["data/raw/2026/07/20/02".to_string()]);
}

#[test]
fn seconds_of_known_moments() {
    assert_eq!(ymdhms(1970, 1, 1, 0, 0, 0).nanos, 0);
    assert_eq!(ymdhms(2026, 6, 29, 14, 0, 0).whole_seconds(), 1782741600);
    assert_eq!(ymdhms(1969, 12, 31, 23, 59, 59).whole_seconds(), -1);
    let leap = ymdhms(2024, 2, 29, 23, 59, 59).fields();
    assert_eq!((leap.year, leap.month, leap.day, leap.second), (2024, 2, 29, 59));
    let feb = Civil { year: 2023, month: 2, day: 29, hour: 0, minute: 0, second: 0 };
    assert!(Instant::from_fields(feb).is_none());
}

#[test]
fn advances_add_up_to_hours() {
    let b = HourBucket { year: 2024, month: 2, day: 28, hour: 23 };
    assert_eq!(b.advance_by(1), HourBucket { year: 2024, month: 2, day: 29, hour: 0 });
    assert_eq!(b.advance_by(25), HourBucket { year: 2024, month: 3, day: 1, hour: 0 });
    assert_eq!(b.advance_by(10).advance_by(15), b.advance_by(25));
    let days = (b.advance_by(24 * 365).to_datetime().nanos - b.to_datetime().nanos) / 1_000_000_000;
    assert_eq!(days, 365 * 86400);
}

#[test]
fn durations_name_their_fault() {
    assert_eq!(parse_duration("x").unwrap_err(), "invalid duration 'x' (expected e.g. '10m', '6h', '24h')");
    assert_eq!(parse_duration("0h").unwrap_err(), "duration must be positive: '0h'");
    assert_eq!(
        parse_duration("10x").unwrap_err(),
        "invalid duration unit in '10x' (expected one of s/m/h/d)"
    );
    assert!(is_duration_readable("10m"));
    assert!(is_duration_readable("5\u{e9}"));
    assert_eq!(
        parse_duration("5\u{e9}").unwrap_err(),
        "invalid duration unit in '5\u{e9}' (expected one of s/m/h/d)"
    );
    assert_eq!(
        parse_duration("\u{e9}").unwrap_err(),
        "invalid duration '\u{e9}' (expected e.g. '10m', '6h', '24h')"
    );
    assert!(!is_duration_readable("9223372036854775807d"));
}

#[test]
fn windows_name_their_fault() {
    let now = ymdhms(2026, 6, 29, 23, 0, 0);
    assert!(is_window_readable("6h", now));
    assert_eq!(
        parse_window("2026-06-29T18..2026-06-29T18", now).unwrap_err(),
        "--window range end must be after start: '2026-06-29T18..2026-06-29T18'"
    );
    assert_eq!(
        parse_window("2026-06-29T18..later", now).unwrap_err(),
        "invalid timestamp 'later' (expected YYYY-MM-DDTHH[:MM[:SS]])"
    );
}

#[test]
fn a_raw_file_name_ends_in_a_file() {
    assert_eq!(parse_raw_file_time("raw/2026/06/22/08/55/03"), None);
    assert_eq!(parse_raw_file_time("raw/2026/06/22/08/55/03/"), None);
    assert_eq!(parse_raw_file_time("raw/2026/06/22/08/55/03/x.jsonl"), Some(ymdhms(2026, 6, 22, 8, 55, 3)));
}

#[test]
fn hours_are_read_from_paths() {
    let b = HourBucket { year: 1999, month: 12, day: 31, hour: 23 };
    assert_eq!(HourBucket::from_path("1999/12/31/23/alerts.jsonl"), Some(b));
    assert_eq!(HourBucket::from_path("1999/12/31/23/55/03/sshd.jsonl"), Some(b));
    assert_eq!(HourBucket::from_path("1999/12/31/23"), None);
    assert_eq!(HourBucket::from_path("1999/12/31/7/alerts.jsonl"), None);
    assert_eq!(HourBucket::from_path("correlated/1999/12/31/23/correlated.jsonl"), None);
    assert_eq!(HourBucket::from_path(""), None);
}

#[test]
fn hours_are_read_from_text() {
    assert_eq!(
        HourBucket::parse("2026-06-22T08:15:00"),
        Some(HourBucket { year: 2026, month: 6, day: 22, hour: 8 })
    );
    assert_eq!(HourBucket::parse("2026-06-22"), None);
    assert_eq!(HourBucket::parse("2026-06-22T24"), None);
    assert!(!HourBucket { year: 2026, month: 2, day: 30, hour: 0 }.is_valid());
}
