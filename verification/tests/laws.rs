use siemctl::alerts::{compact_ack_log, filter_acked, keep_correlated, load_ack_watermarks, load_records};
use siemctl::alerts::{run_query, AckLog};
use siemctl::calendar::Civil;
use siemctl::collections::{FieldSet, GroupCounts};
use siemctl::digest::{build_coverage, cold_start_for_baseline, names_only_in, sources};
use siemctl::digest_query::hour_bucket_files;
use siemctl::json::{ack_line, Json};
use siemctl::order::{compare_text, sort_texts, stable_order, Rel, SortKey};
use siemctl::query::Query;
use siemctl::raw_files::{parse_raw_file_time, raw_file_bound, raw_file_range};
use siemctl::render::{json_escape, Format, Renderer};
use siemctl::retention::{cutoff, is_old};
use siemctl::time::HourBucket;
use siemctl::trend::TrendTable;
use siemctl::window::{Duration, Instant, Window};

fn ymdhms(year: i32, month: u32, day: u32, hour: u32, minute: u32, second: u32) -> Instant {
    Instant::from_fields(Civil { year, month, day, hour, minute, second }).unwrap()
}

fn counts(names: &[&str]) -> GroupCounts {
    let mut g = GroupCounts::new();
    for n in names {
        g.add_count(&vec![n.to_string()], 1);
    }
    g
}

#[test]
fn no_source_is_both_new_and_silent() {
    let (now, before) = (counts(&["a", "b", ""]), counts(&["b", "c"]));
    let cov = build_coverage(&now, &now, &before, vec![], None, None, &vec![], false, false);
    assert_eq!(cov.new_sources, vec!["a".to_string()]);
    assert_eq!(cov.gone_silent, vec!["c".to_string()]);
    assert_eq!(cov.sources_reporting, 2);
    assert_eq!(names_only_in(&sources(&now), &sources(&now)), Vec::<String>::new());
}

#[test]
fn more_history_never_makes_a_cold_start() {
    let baseline = Window { start: ymdhms(2026, 6, 29, 13, 0, 0), end: ymdhms(2026, 6, 29, 14, 0, 0) };
    let mut cold = true;
    for minutes in (0..180).rev() {
        let earliest = Instant { nanos: ymdhms(2026, 6, 29, 12, 0, 0).nanos + minutes * 60_000_000_000 };
        let now_cold = cold_start_for_baseline(Some(earliest), &baseline);
        assert!(cold || !now_cold, "{minutes}");
        cold = now_cold;
    }
    assert!(!cold);
}

#[test]
fn bucket_names_read_back() {
    let win = Window { start: ymdhms(2024, 2, 28, 22, 59, 59), end: ymdhms(2024, 3, 1, 1, 0, 0) };
    let files = hour_bucket_files("data", &win);
    assert_eq!(files.len(), 28);
    let mut hour = HourBucket::from_datetime(win.start);
    for path in &files {
        let name = path.strip_prefix("data/index/").unwrap();
        assert_eq!(HourBucket::from_filename(name), Some(hour), "{name}");
        hour = hour.advance();
    }
}

#[test]
fn equal_keys_keep_their_order() {
    let key = |num: i128, text: &str| SortKey { num, text: text.to_string() };
    let keys = vec![key(1, "b"), key(0, "z"), key(1, "a"), key(1, "b"), key(0, "z")];
    assert_eq!(stable_order(&keys), vec![1, 4, 2, 0, 3]);
    let texts = vec!["b".to_string(), "".to_string(), "é".to_string(), "ab".to_string(), "b".to_string()];
    assert_eq!(sort_texts(&texts), vec!["", "ab", "b", "b", "é"]);
    assert_eq!(compare_text("a", "ab"), Rel::Less);
    assert_eq!(compare_text("b", "ab"), Rel::Greater);
    assert_eq!(compare_text("ab", "ab"), Rel::Same);
}

#[test]
fn grouped_statements_have_no_limit() {
    let sql = |dsl: &str| Query::parse(dsl, &FieldSet::new()).unwrap().to_sql().0;
    assert_eq!(sql("GROUP BY a LIMIT 3"), sql("GROUP BY a"));
    assert_eq!(sql("GROUP BY a"), "SELECT a, COUNT(*) FROM events GROUP BY a");
    assert_ne!(sql("LIMIT 3"), sql(""));
}

#[test]
fn values_never_stand_in_the_statement() {
    let q = |v: &str| Query::parse(&format!("a == '{v}' OR contains(b,'{v}')"), &FieldSet::new()).unwrap();
    let (sql, params) = q("x; DROP TABLE events --").to_sql();
    assert_eq!(sql, q("y").to_sql().0);
    assert_eq!(params, vec!["x; DROP TABLE events --", "%x; DROP TABLE events --%"]);
}

#[test]
fn names_sort_as_their_times() {
    let times = [
        ymdhms(2026, 6, 29, 9, 59, 59),
        ymdhms(2026, 6, 29, 10, 0, 0),
        ymdhms(2026, 10, 1, 0, 0, 0),
        ymdhms(2027, 1, 1, 0, 0, 0),
    ];
    for a in times {
        let name = format!("{}/sshd.jsonl", raw_file_bound(a));
        assert_eq!(parse_raw_file_time(&name), Some(a));
        for b in times {
            let other = format!("{}/cron.jsonl", raw_file_bound(b));
            if a != b {
                assert_eq!(name < other, a.nanos < b.nanos);
            }
        }
        let win = Window { start: times[1], end: times[2] };
        let (lo, hi) = raw_file_range(&win);
        assert_eq!(lo <= name && name < hi, a == times[1]);
    }
}

#[test]
fn the_baseline_is_as_long_as_its_window() {
    let win = Window { start: ymdhms(2026, 3, 1, 2, 0, 0), end: ymdhms(2026, 3, 1, 8, 30, 0) };
    assert_eq!(win.baseline().duration(), win.duration());
    assert_eq!(win.baseline().end, win.start);
    assert_eq!(win.lookback(Duration::days(1)).duration(), Duration::hours(24));
    assert_eq!(win.lookback(Duration::days(1)).end, win.end);
}

fn alert(rule: &str, ts: i64) -> Json {
    Json::parse(&format!("{{\"rule_id\":\"{rule}\",\"timestamp\":{ts}}}")).unwrap()
}

/// The moments of the alerts that a log leaves visible.
fn visible(log: &str) -> Vec<(String, i64)> {
    let mut alerts = vec![alert("a", 5), alert("a", 15), alert("a", 25), alert("b", 15)];
    filter_acked(&mut alerts, &load_ack_watermarks(log));
    alerts.iter().map(|j| (j.get_text("rule_id").unwrap().clone(), j.get_int("timestamp").unwrap())).collect()
}

#[test]
fn an_acknowledgement_hides_up_to_its_moment() {
    let log = ack_line("a", 15, Some("line\nfeed")) + "\n";
    assert_eq!(visible(""), vec![("a".to_string(), 5), ("a".to_string(), 15), ("a".to_string(), 25), ("b".to_string(), 15)]);
    assert_eq!(visible(&log), vec![("a".to_string(), 25), ("b".to_string(), 15)]);
    let longer = log + &ack_line("b", 99, None) + "\n";
    assert_eq!(visible(&longer), vec![("a".to_string(), 25)]);
}

#[test]
fn compaction_changes_nothing_for_later_alerts() {
    let log = ack_line("a", 3, None) + "\n" + &ack_line("a", 15, None) + "\n" + &ack_line("b", 4, None) + "\n";
    match compact_ack_log(&log, 10, false) {
        (2, AckLog::Write(kept)) => {
            assert_eq!(kept, ack_line("a", 15, None) + "\n");
            let later = |log: &str| visible(log).into_iter().filter(|a| a.1 >= 10).collect::<Vec<_>>();
            assert_eq!(later(&kept), later(&log));
        }
        _ => panic!("two lines are dropped"),
    }
}

#[test]
fn written_strings_read_back() {
    for text in ["", "plain", "a\"b\\c\n\r\t", "\u{0}\u{1f}\u{8}", "\\u0041", "é😀\u{7f}", "\",\"x\":\""] {
        let line = format!("{{\"k\":\"{}\"}}", json_escape(text));
        assert_eq!(Json::parse(&line).unwrap().get_text("k"), Some(&text.to_string()), "{line}");
    }
}

#[test]
fn a_longer_retention_keeps_more() {
    const HOUR: i128 = 3_600_000_000_000;
    let now: i128 = 1_780_000_000_000_000_000;
    for age in 0..100 {
        let modified = Some(now - age * HOUR);
        for days in 0..4 {
            let (short, long) = (cutoff(now, days), cutoff(now, days + 1));
            assert!(is_old(modified, short) || !is_old(modified, long), "{age} {days}");
        }
    }
}

#[test]
fn row_totals_are_sums_of_their_columns() {
    let mut t = TrendTable::new(3);
    t.add_bucket(0, &counts(&["a", "a", "b", ""]));
    t.add_bucket(2, &counts(&["a", "", "c"]));
    t.add_bucket(2, &counts(&["c", ""]));
    for row in ["a", "b", "c", "d"] {
        let key = vec![row.to_string()];
        let sum: u64 = t.columns.iter().map(|c| c.get(&key).unwrap_or(0)).sum();
        assert_eq!(t.totals.get(&key).unwrap_or(0), sum, "{row}");
    }
    assert_eq!(t.loose, vec![1, 0, 2]);
    assert_eq!((t.loose_total, t.events), (3, 9));
}

#[test]
fn every_moment_of_a_window_has_its_bucket() {
    let win = Window { start: ymdhms(2025, 12, 31, 22, 59, 59), end: ymdhms(2026, 1, 1, 1, 0, 0) };
    let files = hour_bucket_files("d", &win);
    let mut t = win.start;
    while t.nanos <= win.end.nanos {
        let hour = HourBucket::from_datetime(t);
        let found = files.iter().any(|f| HourBucket::from_filename(f.strip_prefix("d/index/").unwrap()) == Some(hour));
        assert!(found, "{t:?}");
        t = Instant { nanos: t.nanos + 60_000_000_000 };
    }
}

/// What a search over two tagged alerts of each type shows, with its exit code.
fn found(dsl: &str, correlated_only: bool) -> (i32, String) {
    let mut records = Vec::new();
    load_records("{\"a\":1,\"b\":2}\n{\"a\":2}\n", "ruled", &mut records);
    load_records("{\"a\":1}\n{\"a\":3,\"b\":2}\n", "correlated", &mut records);
    if correlated_only {
        keep_correlated(&mut records);
    }
    let query = Query::parse(dsl, &FieldSet::new()).unwrap();
    let mut renderer = Renderer::new(Format::Json, None, None);
    let code = run_query(&records, &query, &mut renderer);
    (code, renderer.flush())
}

#[test]
fn keeping_the_correlated_is_asking_for_them() {
    for q in ["a == 1", "a == 1 OR b == 2", "NOT a == 3", "a == 9"] {
        assert_eq!(found(q, true), found(&format!("type == correlated AND ({q})"), false), "{q}");
    }
}

#[test]
fn parentheses_and_quotes_leave_no_trace() {
    let valid = FieldSet::new();
    for q in ["a == 1", "a == 1 OR b == 2 AND NOT c != 'x y'", "contains(f, \"v\")", "NOT (a == 1)"] {
        let plain = Query::parse(q, &valid).unwrap();
        assert_eq!(Query::parse(&format!("({q})"), &valid).unwrap(), plain, "{q}");
        assert_eq!(Query::parse(&format!("(({q}))"), &valid).unwrap(), plain, "{q}");
    }
    assert_eq!(Query::parse("LIMIT '5'", &valid).unwrap(), Query::parse("LIMIT 5", &valid).unwrap());
    assert_eq!(Query::parse("LIMIT \"5\"", &valid).unwrap().limit, Some(5));
    assert_eq!(Query::parse("\"a\" == 1 GROUP BY 'b'", &valid), Query::parse("a == '1' GROUP BY b", &valid));
}

#[test]
fn a_path_names_its_hour() {
    for b in [HourBucket { year: 1999, month: 12, day: 31, hour: 23 }, HourBucket { year: 12026, month: 2, day: 30, hour: 0 }] {
        assert_eq!(HourBucket::from_path(&format!("{}/x.jsonl", b.dir_under(""))), Some(b));
    }
}
