use rusqlite::types::ValueRef;
use rusqlite::{params_from_iter, Connection};
use siemctl::buckets::{fold_group_row, is_benign, Cell};
use siemctl::calendar::Civil;
use siemctl::collections::GroupCounts;
use siemctl::digest::{build_coverage, build_network_with_interval, cold_start_for_baseline};
use siemctl::digest::{count_unparsed, digest_windows, do_windows_fit, is_new_destination};
use siemctl::digest::{build_volume, unparsed_high_volume_sources, volumes, Change, CoverageSection};
use siemctl::digest::{DigestConfig, NetworkSection, Volume, VolumeRow};
use siemctl::digest_alerts::{is_alert_dir, is_alert_file, AlertTally, AlertsSection};
use siemctl::digest_auth::{build_auth, AuthSection};
use siemctl::digest_notable::{build_notable, collapse_boot_storms, service_restarts};
use siemctl::digest_notable::{NotableSection, ServiceRestart};
use siemctl::digest_query::{bucket_series, completeness, completeness_sql, count_lines};
use siemctl::digest_query::{extreme_entry, extreme_seen, hour_bucket_files, is_in_window};
use siemctl::digest_query::{raw_counts, raw_hour_dirs, time_of_dirs, BucketCompleteness, Extreme};
use siemctl::digest_query::{RawFile, Selection};
use siemctl::raw_files::raw_file_range;
use siemctl::window::{Duration, Instant, Window};

fn ymdhms(year: i32, month: u32, day: u32, hour: u32, minute: u32, second: u32) -> Instant {
    Instant::from_fields(Civil { year, month, day, hour, minute, second }).unwrap()
}

// ── Data in memory ──────────────────────────────────────────────────────────

/// Index buckets by file name, and raw files by their path below the data
/// directory.
struct Store {
    buckets: Vec<(String, Connection)>,
    raw: Vec<(String, String)>,
}

fn empty_store() -> Store {
    Store { buckets: Vec::new(), raw: Vec::new() }
}

impl Store {
    fn bucket(&self, path: &str) -> Option<&Connection> {
        self.buckets.iter().find(|(n, _)| format!("data/index/{n}") == path).map(|(_, c)| c)
    }

    fn buckets_in(&self, win: &Window) -> Vec<&Connection> {
        hour_bucket_files("data", win).iter().filter_map(|p| self.bucket(p)).collect()
    }

    fn raw_files_in_range(&self, win: &Window) -> Vec<&(String, String)> {
        let dirs = raw_hour_dirs("data", win);
        self.raw
            .iter()
            .filter(|(n, _)| dirs.iter().any(|d| format!("data/{n}").starts_with(&format!("{d}/"))))
            .filter(|(n, _)| n.ends_with(".jsonl") && is_in_window(n, win))
            .collect()
    }

    /// The time of the first or the last raw file, directory by directory.
    fn raw_event_time(&self, e: Extreme) -> Option<Instant> {
        let mut dir = "raw".to_string();
        let mut names = Vec::new();
        for width in [4, 2, 2, 2, 2, 2] {
            let below: Vec<String> = self
                .raw
                .iter()
                .filter_map(|(n, _)| n.strip_prefix(&format!("{dir}/")))
                .filter_map(|rest| rest.split_once('/').map(|(first, _)| first.to_string()))
                .collect();
            let name = extreme_entry(e, &below, width)?;
            dir = format!("{dir}/{name}");
            names.push(name);
        }
        time_of_dirs(&names)
    }

    fn newest_indexed_event_time(&self) -> Option<Instant> {
        let newest = self.buckets.iter().max_by_key(|(n, _)| n.clone())?;
        let last = newest.1.query_row("SELECT MAX(raw_file) FROM events", [], |r| r.get(0)).ok()?;
        extreme_seen(Extreme::Last, &vec![last])
    }
}

fn text(v: ValueRef) -> Cell {
    match v {
        ValueRef::Integer(n) => Cell::Int(n),
        ValueRef::Text(b) => {
            let s = String::from_utf8(b.to_vec()).unwrap();
            Cell::Text { shown: s.clone(), exact: Some(s) }
        }
        _ => Cell::Null,
    }
}

fn group_counts(s: &Store, win: &Window, sel: &Selection, sql: &str, n: usize) -> GroupCounts {
    let mut acc = GroupCounts::new();
    for conn in s.buckets_in(win) {
        let mut stmt = match conn.prepare(sql) {
            Ok(stmt) => stmt,
            Err(e) => {
                assert!(is_benign(&e.to_string()), "{e}");
                continue;
            }
        };
        let mut rows = stmt.query(params_from_iter(sel.values_in(win))).unwrap();
        while let Some(row) = rows.next().unwrap() {
            let cells: Vec<Cell> = (0..n).map(|i| text(row.get_ref(i).unwrap())).collect();
            let count: i64 = row.get(n).unwrap();
            fold_group_row(&cells, count as u64, &mut acc);
        }
    }
    acc
}

fn group_count_in_range(s: &Store, win: &Window, sel: &Selection) -> GroupCounts {
    group_counts(s, win, sel, &sel.group_sql(), sel.columns.len())
}

fn minute_counts_in_range(s: &Store, win: &Window, sel: &Selection) -> GroupCounts {
    group_counts(s, win, sel, &sel.minute_sql(), 1)
}

fn select_rows_in_range(s: &Store, win: &Window, sel: &Selection) -> Vec<Vec<String>> {
    let mut out = Vec::new();
    for conn in s.buckets_in(win) {
        let Ok(mut stmt) = conn.prepare(&sel.rows_sql()) else { continue };
        let mut rows = stmt.query(params_from_iter(sel.values_in(win))).unwrap();
        while let Some(row) = rows.next().unwrap() {
            out.push((0..sel.columns.len()).map(|i| text(row.get_ref(i).unwrap()).to_text()).collect());
        }
    }
    out
}

fn seen_in_range(s: &Store, e: Extreme, win: &Window, sel: &Selection) -> Option<Instant> {
    let sql = e.sql(sel.filter.as_ref().unwrap());
    let mut found = Vec::new();
    for conn in s.buckets_in(win) {
        if let Ok(v) = conn.query_row(&sql, params_from_iter(sel.values_in(win)), |r| r.get(0)) {
            found.push(v);
        }
    }
    extreme_seen(e, &found)
}

fn completeness_in_range(s: &Store, win: &Window) -> Vec<BucketCompleteness> {
    let files: Vec<RawFile> = s
        .raw_files_in_range(win)
        .iter()
        .map(|(n, content)| RawFile { name: n.clone(), lines: count_lines(content) })
        .collect();
    let raw = raw_counts(&files);
    let (lo, hi) = raw_file_range(win);
    let mut indexed: Vec<u64> = Vec::new();
    for key in &raw.keys {
        indexed.push(match s.bucket(&format!("data/index/{}.db", key[0])) {
            Some(conn) => conn
                .query_row(&completeness_sql(), [&lo, &hi], |r| r.get::<_, i64>(0))
                .map_or(0, |n| n as u64),
            None => 0,
        });
    }
    completeness(&raw, &indexed)
}

/// A bucket with one row per `(raw_file, source)`.
fn make_bucket(s: &mut Store, name: &str, rows: &[(&str, &str)]) {
    let conn = Connection::open_in_memory().unwrap();
    conn.execute_batch("CREATE TABLE events (raw_file TEXT, _source_type TEXT);").unwrap();
    for (raw_file, source) in rows {
        conn.execute("INSERT INTO events (raw_file, _source_type) VALUES (?1, ?2)", [raw_file, source]).unwrap();
    }
    s.buckets.push((name.to_string(), conn));
}

fn write_raw_file(s: &mut Store, dir: &str, name: &str, content: &str) {
    s.raw.push((format!("{dir}/{name}"), content.to_string()));
}

fn selection(columns: &[&str], filter: Option<&str>, params: &[&str]) -> Selection {
    let own = |v: &[&str]| v.iter().map(|x| x.to_string()).collect();
    Selection { columns: own(columns), filter: filter.map(String::from), params: own(params) }
}

// ── Buckets and rows in a window ────────────────────────────────────────────

#[test]
fn hour_bucket_files_finds_only_existing_buckets_in_range() {
    let win = Window { start: ymdhms(2026, 6, 29, 14, 30, 0), end: ymdhms(2026, 6, 29, 20, 0, 0) };
    let files = hour_bucket_files("data", &win);
    assert_eq!(files.len(), 7);
    assert!(files.contains(&"data/index/2026-06-29-14.db".to_string()));
    assert!(files.contains(&"data/index/2026-06-29-17.db".to_string()));
    assert!(files.contains(&"data/index/2026-06-29-19.db".to_string()));
    assert!(!files.contains(&"data/index/2026-06-29-23.db".to_string()));
}

#[test]
fn hour_bucket_files_missing_index_dir_returns_empty() {
    let win = Window { start: ymdhms(2026, 6, 29, 14, 0, 0), end: ymdhms(2026, 6, 29, 20, 0, 0) };
    assert!(empty_store().buckets_in(&win).is_empty());
}

fn hour_of_day(hour: u32) -> Window {
    Window { start: ymdhms(2026, 6, 29, hour, 0, 0), end: ymdhms(2026, 6, 29, hour + 1, 0, 0) }
}

#[test]
fn group_count_in_range_filters_by_window_and_groups() {
    let mut s = empty_store();
    make_bucket(
        &mut s,
        "2026-06-29-14.db",
        &[
            ("raw/2026/06/29/14/05/00/sshd.jsonl", "sshd"),
            ("raw/2026/06/29/14/58/00/sshd.jsonl", "sshd"),
            ("raw/2026/06/29/14/59/59/openvpn.jsonl", "openvpn"),
        ],
    );
    make_bucket(&mut s, "2026-06-29-15.db", &[("raw/2026/06/29/15/00/00/sshd.jsonl", "sshd")]);
    let win = Window { start: ymdhms(2026, 6, 29, 14, 30, 0), end: ymdhms(2026, 6, 29, 15, 0, 0) };
    let acc = group_count_in_range(&s, &win, &Selection::by_source());
    assert_eq!(acc.get(&vec!["sshd".to_string()]), Some(1));
    assert_eq!(acc.get(&vec!["openvpn".to_string()]), Some(1));
    assert_eq!(acc.counts.iter().sum::<u64>(), 2);
}

#[test]
fn group_count_in_range_applies_extra_where() {
    let mut s = empty_store();
    make_bucket(
        &mut s,
        "2026-06-29-14.db",
        &[
            ("raw/2026/06/29/14/10/00/sshd.jsonl", "sshd"),
            ("raw/2026/06/29/14/20/00/openvpn.jsonl", "openvpn"),
        ],
    );
    let sel = selection(&["_source_type"], Some("_source_type = ?"), &["sshd"]);
    let acc = group_count_in_range(&s, &hour_of_day(14), &sel);
    assert_eq!(acc.len(), 1);
    assert_eq!(acc.get(&vec!["sshd".to_string()]), Some(1));
}

#[test]
fn group_count_in_range_skips_bucket_with_missing_column() {
    let mut s = empty_store();
    let conn = Connection::open_in_memory().unwrap();
    conn.execute_batch("CREATE TABLE events (raw_file TEXT);").unwrap();
    conn.execute("INSERT INTO events (raw_file) VALUES ('raw/2026/06/29/14/10/00/x.jsonl')", []).unwrap();
    s.buckets.push(("2026-06-29-14.db".to_string(), conn));
    assert_eq!(group_count_in_range(&s, &hour_of_day(14), &Selection::by_source()).len(), 0);
}

#[test]
fn minute_counts_in_range_groups_by_minute() {
    let mut s = empty_store();
    make_bucket(
        &mut s,
        "2026-06-29-14.db",
        &[
            ("raw/2026/06/29/14/05/01/a.jsonl", "x"),
            ("raw/2026/06/29/14/05/45/b.jsonl", "x"),
            ("raw/2026/06/29/14/06/00/c.jsonl", "x"),
        ],
    );
    let counts = minute_counts_in_range(&s, &hour_of_day(14), &selection(&[], None, &[]));
    assert_eq!(counts.get(&vec!["raw/2026/06/29/14/05".to_string()]), Some(2));
    assert_eq!(counts.get(&vec!["raw/2026/06/29/14/06".to_string()]), Some(1));
}

fn minutes(counts: &[(&str, u64)]) -> GroupCounts {
    let mut g = GroupCounts::new();
    for (minute, n) in counts {
        g.add_count(&vec![minute.to_string()], *n);
    }
    g
}

#[test]
fn bucket_series_folds_minutes_into_intervals() {
    let win = Window { start: ymdhms(2026, 6, 29, 14, 0, 0), end: ymdhms(2026, 6, 29, 14, 30, 0) };
    let counts = minutes(&[
        ("raw/2026/06/29/14/00", 3),
        ("raw/2026/06/29/14/09", 2),
        ("raw/2026/06/29/14/10", 5),
        ("raw/2026/06/29/14/29", 1),
    ]);
    assert_eq!(bucket_series(&counts, &win, Duration::minutes(10)), vec![5, 5, 1]);
}

#[test]
fn bucket_series_drops_minutes_outside_window() {
    let win = Window { start: ymdhms(2026, 6, 29, 14, 0, 0), end: ymdhms(2026, 6, 29, 14, 10, 0) };
    let counts = minutes(&[
        ("raw/2026/06/29/13/59", 100),
        ("raw/2026/06/29/14/05", 4),
        ("raw/2026/06/29/14/10", 100),
    ]);
    assert_eq!(bucket_series(&counts, &win, Duration::minutes(10)), vec![4]);
}

#[test]
fn bucket_series_handles_partial_final_bucket() {
    let win = Window { start: ymdhms(2026, 6, 29, 14, 0, 0), end: ymdhms(2026, 6, 29, 14, 25, 0) };
    let series = bucket_series(&minutes(&[("raw/2026/06/29/14/22", 7)]), &win, Duration::minutes(10));
    assert_eq!(series.len(), 3);
    assert_eq!(series[2], 7);
}

#[test]
fn bucket_series_skips_what_names_no_minute() {
    let counts = minutes(&[("raw/2026/06/29/14", 3), ("cooked/2026/06/29/14/05", 4), ("raw/2026/06/29/14/05", 1)]);
    assert_eq!(bucket_series(&counts, &hour_of_day(14), Duration::hours(1)), vec![1]);
    assert_eq!(bucket_series(&counts, &hour_of_day(14), Duration::seconds(0)).len(), 3600);
}

#[test]
fn select_rows_in_range_projects_and_filters() {
    let mut s = empty_store();
    let conn = Connection::open_in_memory().unwrap();
    conn.execute_batch(
        "CREATE TABLE events (raw_file TEXT, username TEXT, command TEXT);
         INSERT INTO events VALUES ('raw/2026/06/29/14/10/00/sudo.jsonl', 'robin', 'nano /etc/x');
         INSERT INTO events VALUES ('raw/2026/06/29/14/20/00/sudo.jsonl', 'root', 'ls');",
    )
    .unwrap();
    s.buckets.push(("2026-06-29-14.db".to_string(), conn));
    let sel = selection(&["username", "command"], Some("username = ?"), &["robin"]);
    let rows = select_rows_in_range(&s, &hour_of_day(14), &sel);
    assert_eq!(rows, vec![vec!["robin".to_string(), "nano /etc/x".to_string()]]);
}

#[test]
fn first_and_last_seen_span_multiple_buckets() {
    let mut s = empty_store();
    make_bucket(
        &mut s,
        "2026-06-29-14.db",
        &[("raw/2026/06/29/14/10/00/x.jsonl", "a"), ("raw/2026/06/29/14/50/00/x.jsonl", "a")],
    );
    make_bucket(&mut s, "2026-06-29-15.db", &[("raw/2026/06/29/15/05/00/x.jsonl", "a")]);
    let win = Window { start: ymdhms(2026, 6, 29, 14, 0, 0), end: ymdhms(2026, 6, 29, 16, 0, 0) };
    let sel = selection(&[], Some("_source_type = ?"), &["a"]);
    assert_eq!(seen_in_range(&s, Extreme::First, &win, &sel), Some(ymdhms(2026, 6, 29, 14, 10, 0)));
    assert_eq!(seen_in_range(&s, Extreme::Last, &win, &sel), Some(ymdhms(2026, 6, 29, 15, 5, 0)));
}

#[test]
fn first_seen_in_range_none_when_no_match() {
    let mut s = empty_store();
    make_bucket(&mut s, "2026-06-29-14.db", &[("raw/2026/06/29/14/10/00/x.jsonl", "a")]);
    let sel = selection(&[], Some("_source_type = ?"), &["nope"]);
    assert_eq!(seen_in_range(&s, Extreme::First, &hour_of_day(14), &sel), None);
}

fn touch_raw_file(s: &mut Store, path: &str) {
    s.raw.push((path.to_string(), "{}\n".to_string()));
}

#[test]
fn raw_files_in_range_filters_by_exact_second() {
    let mut s = empty_store();
    touch_raw_file(&mut s, "raw/2026/06/29/14/05/00/sshd.jsonl");
    touch_raw_file(&mut s, "raw/2026/06/29/14/30/00/sshd.jsonl");
    touch_raw_file(&mut s, "raw/2026/06/29/14/59/59/sshd.jsonl");
    touch_raw_file(&mut s, "raw/2026/06/29/15/00/00/sshd.jsonl");
    let win = Window { start: ymdhms(2026, 6, 29, 14, 10, 0), end: ymdhms(2026, 6, 29, 15, 0, 0) };
    let files = s.raw_files_in_range(&win);
    assert_eq!(files.len(), 2);
    assert!(files.iter().any(|p| p.0.ends_with("14/30/00/sshd.jsonl")));
    assert!(files.iter().any(|p| p.0.ends_with("14/59/59/sshd.jsonl")));
}

#[test]
fn raw_files_in_range_empty_when_no_raw_dir() {
    assert!(empty_store().raw_files_in_range(&hour_of_day(14)).is_empty());
}

#[test]
fn latest_raw_event_time_finds_deepest_path() {
    let mut s = empty_store();
    touch_raw_file(&mut s, "raw/2026/06/29/14/05/00/sshd.jsonl");
    touch_raw_file(&mut s, "raw/2026/06/29/17/22/09/openvpn.jsonl");
    touch_raw_file(&mut s, "raw/2026/06/29/17/22/03/sshd.jsonl");
    assert_eq!(s.raw_event_time(Extreme::Last), Some(ymdhms(2026, 6, 29, 17, 22, 9)));
}

#[test]
fn latest_raw_event_time_none_when_missing() {
    assert_eq!(empty_store().raw_event_time(Extreme::Last), None);
}

#[test]
fn earliest_raw_event_time_finds_shallowest_path() {
    let mut s = empty_store();
    touch_raw_file(&mut s, "raw/2026/06/29/17/22/09/openvpn.jsonl");
    touch_raw_file(&mut s, "raw/2026/06/29/14/05/00/sshd.jsonl");
    touch_raw_file(&mut s, "raw/2026/06/29/14/05/03/sshd.jsonl");
    assert_eq!(s.raw_event_time(Extreme::First), Some(ymdhms(2026, 6, 29, 14, 5, 0)));
}

#[test]
fn earliest_raw_event_time_none_when_missing() {
    assert_eq!(empty_store().raw_event_time(Extreme::First), None);
}

#[test]
fn only_digits_of_the_right_width_name_a_directory() {
    let names: Vec<String> = ["7", "08", "x9", "123", "31", "99a"].iter().map(|s| s.to_string()).collect();
    assert_eq!(extreme_entry(Extreme::First, &names, 2), Some("08".to_string()));
    assert_eq!(extreme_entry(Extreme::Last, &names, 2), Some("31".to_string()));
    assert_eq!(extreme_entry(Extreme::Last, &names, 4), None);
}

#[test]
fn newest_indexed_event_time_reads_max_raw_file() {
    let mut s = empty_store();
    make_bucket(
        &mut s,
        "2026-06-29-14.db",
        &[("raw/2026/06/29/14/05/00/x.jsonl", "a"), ("raw/2026/06/29/14/58/30/x.jsonl", "a")],
    );
    make_bucket(&mut s, "2026-06-29-15.db", &[("raw/2026/06/29/15/02/00/x.jsonl", "a")]);
    assert_eq!(s.newest_indexed_event_time(), Some(ymdhms(2026, 6, 29, 15, 2, 0)));
}

#[test]
fn newest_indexed_event_time_none_without_index() {
    assert_eq!(empty_store().newest_indexed_event_time(), None);
}

fn first_hour_of_july(hours: u32) -> Window {
    Window { start: ymdhms(2026, 7, 1, 0, 0, 0), end: ymdhms(2026, 7, 1, hours, 0, 0) }
}

#[test]
fn completeness_flags_bucket_with_no_index_at_all() {
    let mut s = empty_store();
    write_raw_file(&mut s, "raw/2026/07/01/00/00/00", "sshd.jsonl", &"{}\n".repeat(44));
    let gaps = completeness_in_range(&s, &first_hour_of_july(1));
    assert_eq!(gaps.len(), 1);
    assert_eq!(gaps[0].bucket, "2026-07-01-00");
    assert_eq!(gaps[0].raw_count, 44);
    assert_eq!(gaps[0].indexed_count, 0);
}

#[test]
fn completeness_flags_bucket_partially_indexed() {
    let mut s = empty_store();
    write_raw_file(&mut s, "raw/2026/07/01/00/00/00", "sshd.jsonl", &"{}\n".repeat(10));
    make_bucket(&mut s, "2026-07-01-00.db", &[("raw/2026/07/01/00/00/00/sshd.jsonl", "sshd"); 6]);
    let gaps = completeness_in_range(&s, &first_hour_of_july(1));
    assert_eq!(gaps.len(), 1);
    assert_eq!(gaps[0].raw_count, 10);
    assert_eq!(gaps[0].indexed_count, 6);
}

#[test]
fn completeness_not_flagged_when_fully_indexed() {
    let mut s = empty_store();
    write_raw_file(&mut s, "raw/2026/07/01/00/00/00", "sshd.jsonl", &"{}\n".repeat(3));
    make_bucket(&mut s, "2026-07-01-00.db", &[("raw/2026/07/01/00/00/00/sshd.jsonl", "sshd"); 3]);
    assert!(completeness_in_range(&s, &first_hour_of_july(1)).is_empty());
}

#[test]
fn completeness_empty_when_no_raw_files() {
    assert!(completeness_in_range(&empty_store(), &first_hour_of_july(1)).is_empty());
}

#[test]
fn completeness_only_flags_the_gap_bucket_not_healthy_neighbors() {
    let mut s = empty_store();
    write_raw_file(&mut s, "raw/2026/07/01/00/05/00", "sshd.jsonl", &"{}\n".repeat(2));
    write_raw_file(&mut s, "raw/2026/07/01/01/05/00", "sshd.jsonl", &"{}\n".repeat(5));
    make_bucket(&mut s, "2026-07-01-00.db", &[("raw/2026/07/01/00/05/00/sshd.jsonl", "sshd"); 2]);
    let gaps = completeness_in_range(&s, &first_hour_of_july(2));
    assert_eq!(gaps.len(), 1);
    assert_eq!(gaps[0].bucket, "2026-07-01-01");
    assert_eq!(gaps[0].raw_count, 5);
    assert_eq!(gaps[0].indexed_count, 0);
}

// ── The sections of a digest ────────────────────────────────────────────────

const WINDOW_ROWS: [[&str; 17]; 14] = [
    ["raw/2026/06/29/14/05/00/sshd.jsonl", "sshd", "203.0.113.5", "", "", "", "",
     "", "", "ssh_auth_failure", "", "", "", "", "", "", "warning"],
    ["raw/2026/06/29/14/06/00/sshd.jsonl", "sshd", "203.0.113.5", "", "", "", "",
     "", "", "ssh_auth_failure", "", "", "", "", "", "", "warning"],
    ["raw/2026/06/29/14/07/00/openvpn.jsonl", "openvpn", "203.0.113.5", "", "", "", "",
     "", "", "vpn_tls_error", "", "", "", "", "", "", "warning"],
    ["raw/2026/06/29/14/08/00/openvpn.jsonl", "openvpn", "203.0.113.5", "", "", "", "",
     "", "", "vpn_auth_failure", "", "", "", "", "", "", "warning"],
    ["raw/2026/06/29/14/09/00/sshd.jsonl", "sshd", "192.168.1.50", "", "", "", "",
     "", "", "ssh_auth_success", "robin", "", "", "", "", "", "informational"],
    ["raw/2026/06/29/14/10/00/filterlog.jsonl", "filterlog", "198.51.100.9", "TCP", "BLOCK", "re1", "",
     "", "", "firewall_block", "", "", "", "", "", "", "informational"],
    ["raw/2026/06/29/14/11/00/filterlog.jsonl", "filterlog", "198.51.100.9", "TCP", "BLOCK", "re1", "",
     "", "", "firewall_block", "", "", "", "", "", "", "informational"],
    ["raw/2026/06/29/14/12/00/filterlog.jsonl", "filterlog", "217.103.119.242", "TCP", "ALLOW", "re1", "",
     "192.168.178.12", "8006", "firewall_allow", "", "", "", "", "", "", "informational"],
    ["raw/2026/06/29/14/13/00/filterlog.jsonl", "filterlog", "192.168.178.12", "TCP", "ALLOW", "lan", "out",
     "172.66.152.176", "80", "firewall_allow", "", "", "", "", "", "", "informational"],
    ["raw/2026/06/29/14/14/00/systemd.jsonl", "systemd", "", "", "", "", "",
     "", "", "unit_stopped", "", "", "", "sshguard.service", "", "", "informational"],
    ["raw/2026/06/29/14/14/30/systemd.jsonl", "systemd", "", "", "", "", "",
     "", "", "unit_started", "", "", "", "sshguard.service", "", "", "informational"],
    ["raw/2026/06/29/14/15/00/sudo.jsonl", "sudo", "", "", "", "", "",
     "", "", "sudo_command", "robin", "root", "nano /etc/x", "", "", "", "notice"],
    ["raw/2026/06/29/14/16/00/php-fpm.jsonl", "php-fpm", "192.168.178.75", "", "", "", "",
     "", "", "pfsense_config_change", "", "", "", "", "admin", "/firewall_rules.php", "informational"],
    ["raw/2026/06/29/14/17/00/haproxy.jsonl", "haproxy", "", "", "", "", "",
     "", "", "some_failure", "", "", "", "", "", "", "critical"],
];

const BASELINE_ROWS: [[&str; 10]; 4] = [
    ["raw/2026/06/29/08/05/00/sshd.jsonl", "sshd", "10.0.0.1", "", "", "", "", "", "", "ssh_auth_success"],
    ["raw/2026/06/29/08/06/00/filterlog.jsonl", "filterlog", "1.2.3.4", "TCP", "BLOCK", "re1", "", "", "", "firewall_block"],
    ["raw/2026/06/29/08/07/00/suricata.jsonl", "suricata", "", "", "", "", "", "", "", "alert"],
    ["raw/2026/06/29/08/08/00/filterlog.jsonl", "filterlog", "192.168.178.12", "TCP", "ALLOW", "lan", "out", "172.66.152.176", "80", "firewall_allow"],
];

fn table(columns: &[&str], rows: &[Vec<&str>]) -> Connection {
    let conn = Connection::open_in_memory().unwrap();
    let typed: Vec<String> = columns.iter().map(|c| format!("{c} TEXT")).collect();
    conn.execute_batch(&format!("CREATE TABLE events ({});", typed.join(", "))).unwrap();
    let marks = vec!["?"; columns.len()].join(", ");
    let insert = format!("INSERT INTO events ({}) VALUES ({marks})", columns.join(", "));
    for r in rows {
        conn.execute(&insert, params_from_iter(r.iter())).unwrap();
    }
    conn
}

/// A bucket with a row for every section, and a lighter one six hours earlier.
fn seed_fixture() -> Store {
    let window_columns = [
        "raw_file", "_source_type", "src_ip", "protocol", "action", "interface", "direction", "dst_ip",
        "dst_port", "event_type", "username", "target_user", "command", "unit", "admin_user",
        "pfsense_page", "severity",
    ];
    let rows: Vec<Vec<&str>> = WINDOW_ROWS.iter().map(|r| r.to_vec()).collect();
    let window = table(&window_columns, &rows);
    let rows: Vec<Vec<&str>> = BASELINE_ROWS.iter().map(|r| r.to_vec()).collect();
    let baseline = table(&window_columns[..10], &rows);
    Store {
        buckets: vec![("2026-06-29-14.db".to_string(), window), ("2026-06-29-08.db".to_string(), baseline)],
        raw: Vec::new(),
    }
}

fn window() -> Window {
    hour_of_day(14)
}

fn window_with_matching_baseline() -> Window {
    hour_of_day(9)
}

fn coverage_of(s: &Store, win: &Window, coverage: &Window, cold: bool, coverage_cold: bool) -> CoverageSection {
    let cfg = DigestConfig::default();
    let by_source = Selection::by_source();
    let mut unparsed = GroupCounts::new();
    for (_, content) in s.raw_files_in_range(win) {
        count_unparsed(content, &mut unparsed);
    }
    build_coverage(
        &group_count_in_range(s, win, &by_source),
        &group_count_in_range(s, coverage, &by_source),
        &group_count_in_range(s, &coverage.baseline(), &by_source),
        unparsed_high_volume_sources(&unparsed, cfg.unparsed_min_events),
        s.raw_event_time(Extreme::Last),
        s.newest_indexed_event_time(),
        &completeness_in_range(s, win),
        cold,
        coverage_cold,
    )
}

#[test]
fn coverage_gone_silent_against_real_baseline() {
    let s = seed_fixture();
    let win = window_with_matching_baseline();
    let cov = coverage_of(&s, &win, &win, false, false);
    assert_eq!(cov.sources_reporting, 0);
    assert!(cov.gone_silent.contains(&"suricata".to_string()));
    assert!(cov.gone_silent.contains(&"sshd".to_string()));
    assert!(cov.gone_silent.contains(&"filterlog".to_string()));
    assert!(cov.new_sources.is_empty());
}

#[test]
fn coverage_new_source_detected_against_adjacent_baseline() {
    let s = seed_fixture();
    let cov = coverage_of(&s, &window(), &window(), false, false);
    assert!(cov.new_sources.contains(&"openvpn".to_string()));
    assert!(cov.new_sources.contains(&"sshd".to_string()));
    assert_eq!(cov.sources_reporting, cov.new_sources.len());
}

#[test]
fn coverage_unparsed_high_volume_sources_from_raw_scan() {
    let mut s = empty_store();
    let dir = "raw/2026/06/29/14/20/00";
    let gnome = r#"{"_normalized":false,"app_name":"gnome-shell","_raw":"x"}"#.to_string() + "\n";
    write_raw_file(&mut s, dir, "gnome-shell.jsonl", &gnome.repeat(51));
    let rtkit = r#"{"_normalized":false,"app_name":"rtkit-daemon","_raw":"x"}"#.to_string() + "\n";
    write_raw_file(&mut s, dir, "rtkit-daemon.jsonl", &rtkit.repeat(3));
    let sshd = "{\"_normalized\":true,\"app_name\":\"sshd\",\"event_type\":\"ssh_auth_success\"}\n";
    write_raw_file(&mut s, dir, "sshd.jsonl", sshd);
    let cov = coverage_of(&s, &window(), &window(), false, false);
    assert_eq!(cov.unparsed_high_volume.len(), 1);
    assert_eq!(cov.unparsed_high_volume[0].app_name, "gnome-shell");
    assert_eq!(cov.unparsed_high_volume[0].count, 51);
}

#[test]
fn unparsed_events_without_a_name_are_unknown() {
    let mut counts = GroupCounts::new();
    count_unparsed("{\"_normalized\":false}\nnot json\n{\"_normalized\":\"no\"}\n{}\n[]\n", &mut counts);
    assert_eq!(counts.len(), 1);
    assert_eq!(counts.get(&vec!["(unknown)".to_string()]), Some(1));
}

#[test]
fn coverage_index_lag_computed_from_latest_raw_vs_indexed() {
    let mut s = seed_fixture();
    write_raw_file(&mut s, "raw/2026/06/29/14/27/00", "sshd.jsonl", "{}\n");
    let cov = coverage_of(&s, &window(), &window(), false, false);
    assert_eq!(cov.latest_raw, Some(ymdhms(2026, 6, 29, 14, 27, 0)));
    assert_eq!(cov.latest_indexed, Some(ymdhms(2026, 6, 29, 14, 17, 0)));
    assert_eq!(cov.index_lag_seconds, Some(600));
}

#[test]
fn coverage_flags_incomplete_bucket_lag_check_alone_would_miss() {
    let mut s = empty_store();
    write_raw_file(&mut s, "raw/2026/06/29/14/50/00", "sshd.jsonl", "{}\n{}\n{}\n");
    let cov = coverage_of(&s, &window(), &window(), false, false);
    assert_eq!(cov.incomplete_buckets.len(), 1);
    assert_eq!(cov.incomplete_buckets[0].bucket, "2026-06-29-14");
    assert_eq!(cov.incomplete_buckets[0].raw_count, 3);
    assert_eq!(cov.incomplete_buckets[0].indexed_count, 0);
}

#[test]
fn coverage_completeness_empty_when_nothing_written_to_raw() {
    let cov = coverage_of(&seed_fixture(), &window(), &window(), false, false);
    assert!(cov.incomplete_buckets.is_empty());
}

#[test]
fn coverage_cold_start_suppresses_new_sources_but_reports_it() {
    let cov = coverage_of(&seed_fixture(), &window(), &window(), false, true);
    assert!(cov.coverage_cold_start);
    assert!(cov.new_sources.is_empty(), "cold start must suppress new_sources, not flood it");
}

#[test]
fn coverage_long_lookback_absorbs_a_sub_daily_source_missing_the_short_window() {
    let mut s = empty_store();
    make_bucket(&mut s, "2026-06-29-03.db", &[("raw/2026/06/29/03/00/00/corosync.jsonl", "corosync")]);
    make_bucket(&mut s, "2026-06-28-03.db", &[("raw/2026/06/28/03/00/00/corosync.jsonl", "corosync")]);
    let win = window();
    let cov = coverage_of(&s, &win, &win.lookback(Duration::hours(24)), false, false);
    assert_eq!(cov.sources_reporting, 0, "win alone never sees corosync's 03:00 event");
    assert!(
        !cov.gone_silent.contains(&"corosync".to_string()),
        "a sub-daily source within the lookback must not flap as gone-silent"
    );
    assert!(
        !cov.new_sources.contains(&"corosync".to_string()),
        "a source seen in the coverage baseline too must not be flagged new"
    );
}

/// Whether the baseline and the coverage baseline of a window are cold, where
/// the first raw file stands in a directory.
fn cold_starts(first_dir: &str) -> (bool, bool) {
    let mut s = empty_store();
    write_raw_file(&mut s, first_dir, "sshd.jsonl", "{\"_source_type\":\"sshd\"}\n");
    let lookback = DigestConfig::default().coverage_lookback_hours;
    assert!(do_windows_fit(&window(), lookback));
    let w = digest_windows(&window(), lookback);
    let earliest = s.raw_event_time(Extreme::First);
    let cold = cold_start_for_baseline(earliest, &w.baseline);
    let coverage_cold = cold_start_for_baseline(earliest, &w.coverage_baseline);
    let cov = coverage_of(&s, &window(), &w.coverage, cold, coverage_cold);
    (cov.cold_start, cov.coverage_cold_start)
}

#[test]
fn build_report_coverage_cold_start_is_independent_of_the_short_window_cold_start() {
    let (cold_start, coverage_cold_start) = cold_starts("raw/2026/06/29/12/00/00");
    assert!(!cold_start, "short window baseline is well covered");
    assert!(coverage_cold_start, "24h lookback baseline predates any real data");
}

#[test]
fn build_report_detects_cold_start_from_earliest_raw_event() {
    assert!(cold_starts("raw/2026/06/29/14/00/00").0);
}

#[test]
fn build_report_not_cold_start_once_history_covers_the_baseline() {
    assert!(!cold_starts("raw/2026/06/20/00/00/00").0);
}

#[test]
fn build_report_not_cold_start_with_partial_but_substantial_baseline_coverage() {
    assert!(!cold_starts("raw/2026/06/29/13/10/00").0);
}

#[test]
fn build_report_cold_start_with_only_a_sliver_of_baseline_coverage() {
    assert!(cold_starts("raw/2026/06/29/13/55/00").0);
}

#[test]
fn half_a_baseline_is_enough() {
    assert!(!cold_starts("raw/2026/06/29/13/30/00").0);
    assert!(cold_starts("raw/2026/06/29/13/30/01").0);
    assert!(!cold_start_for_baseline(None, &window().baseline()));
}

/// The rows of the volume section, by a threshold in per cent.
fn volume_of(s: &Store, win: &Window, always: bool, cold_start: bool) -> Vec<VolumeRow> {
    let by_source = Selection::by_source();
    let now = group_count_in_range(s, win, &by_source);
    let before = group_count_in_range(s, &win.baseline(), &by_source);
    let rows = volumes(&now, &before);
    let pct = |v: &Volume| (v.count as f64 - v.baseline as f64) / v.baseline as f64 * 100.0;
    let change = |v: &Volume| {
        if pct(v) > 50.0 {
            Change::Spike
        } else if pct(v) < -50.0 {
            Change::Drop
        } else {
            Change::Steady
        }
    };
    let changes = rows.iter().map(change).collect();
    let deltas = rows.iter().map(|v| format!("{:+.0}%", pct(v))).collect();
    build_volume(&rows, &changes, &deltas, cold_start, always)
}

fn row_of<'a>(rows: &'a [VolumeRow], source: &str) -> &'a VolumeRow {
    rows.iter().find(|r| r.source == source).unwrap()
}

#[test]
fn volume_flags_new_source_and_computes_delta() {
    let rows = volume_of(&seed_fixture(), &window(), true, false);
    let sshd = row_of(&rows, "sshd");
    assert_eq!(sshd.baseline, 0);
    assert_eq!(sshd.flag.as_deref(), Some("new"));
    assert_eq!(sshd.delta, None);
}

#[test]
fn volume_cold_start_suppresses_new_flag() {
    let rows = volume_of(&seed_fixture(), &window(), true, true);
    let sshd = row_of(&rows, "sshd");
    assert_eq!(sshd.baseline, 0);
    assert_eq!(sshd.flag, None, "cold start must suppress the 'new' flag even though baseline is 0");
}

#[test]
fn volume_new_source_flag_suppressed_when_disabled() {
    let rows = volume_of(&seed_fixture(), &window(), false, false);
    let sshd = row_of(&rows, "sshd");
    assert_eq!(sshd.baseline, 0);
    assert_eq!(sshd.flag, None);
}

#[test]
fn volume_flags_spike_over_threshold() {
    let mut s = empty_store();
    let files: Vec<String> = (0..9).map(|i| format!("raw/2026/06/29/20/{i:02}/00/openvpn.jsonl")).collect();
    let rows: Vec<(&str, &str)> = files.iter().map(|f| (f.as_str(), "openvpn")).collect();
    make_bucket(&mut s, "2026-06-29-20.db", &rows);
    make_bucket(&mut s, "2026-06-29-19.db", &[("raw/2026/06/29/19/05/00/openvpn.jsonl", "openvpn")]);
    let rows = volume_of(&s, &hour_of_day(20), true, false);
    let openvpn = row_of(&rows, "openvpn");
    assert_eq!(openvpn.count, 9);
    assert_eq!(openvpn.baseline, 1);
    assert_eq!(openvpn.delta.as_deref(), Some("+800%"));
    assert_eq!(openvpn.flag.as_deref(), Some("spike"));
}

#[test]
fn volume_flags_drop_not_spike_when_source_goes_silent() {
    let mut s = empty_store();
    make_bucket(&mut s, "2026-06-29-20.db", &[]);
    make_bucket(
        &mut s,
        "2026-06-29-19.db",
        &[
            ("raw/2026/06/29/19/00/00/anacron.jsonl", "anacron"),
            ("raw/2026/06/29/19/01/00/anacron.jsonl", "anacron"),
        ],
    );
    let rows = volume_of(&s, &hour_of_day(20), true, false);
    let anacron = row_of(&rows, "anacron");
    assert_eq!(anacron.count, 0);
    assert_eq!(anacron.baseline, 2);
    assert_eq!(anacron.delta.as_deref(), Some("-100%"));
    assert_eq!(anacron.flag.as_deref(), Some("drop"));
}

fn network_of(s: &Store, win: &Window, cfg: &DigestConfig) -> NetworkSection {
    let outbound = group_count_in_range(s, win, &Selection::outbound_targets());
    let before = group_count_in_range(s, &win.baseline(), &Selection::outbound_addresses());
    let mut seen = Vec::new();
    for key in &outbound.keys {
        seen.push(if is_new_destination(key, &before) {
            seen_in_range(s, Extreme::First, win, &Selection::outbound_to(&key[0]))
        } else {
            None
        });
    }
    build_network_with_interval(
        &minute_counts_in_range(s, win, &Selection::blocks()),
        win,
        Duration::minutes(10),
        &group_count_in_range(s, win, &Selection::blocked_sources()),
        &group_count_in_range(s, win, &Selection::inbound(&cfg.wan_interface)),
        &outbound,
        &before,
        &seen,
        cfg,
    )
}

#[test]
fn network_new_destination_flag_suppressed_when_disabled() {
    let cfg = DigestConfig { new_destination_always_flag: false, ..DigestConfig::default() };
    let net = network_of(&seed_fixture(), &window(), &cfg);
    assert!(net.new_destinations.is_empty());
}

#[test]
fn network_top_blocked_and_inbound_and_new_destination() {
    let net = network_of(&seed_fixture(), &window(), &DigestConfig::default());
    assert_eq!(net.top_blocked.len(), 1);
    assert_eq!(net.top_blocked[0].src_ip, "198.51.100.9");
    assert_eq!(net.top_blocked[0].count, 2);
    assert_eq!(net.inbound.len(), 1);
    assert_eq!(net.inbound[0].src_ip, "217.103.119.242");
    assert_eq!(net.inbound[0].dst_ip, "192.168.178.12");
    assert_eq!(net.inbound[0].dst_port, "8006");
    assert_eq!(net.new_destinations.len(), 1);
    assert_eq!(net.new_destinations[0].dst_ip, "172.66.152.176");
    assert_eq!(net.new_destinations[0].first_seen, Some(ymdhms(2026, 6, 29, 14, 13, 0)));
}

#[test]
fn network_new_destination_excluded_when_seen_in_baseline() {
    let net = network_of(&seed_fixture(), &window_with_matching_baseline(), &DigestConfig::default());
    assert!(net.new_destinations.is_empty());
}

#[test]
fn network_block_trend_sums_to_total_blocks() {
    let net = network_of(&seed_fixture(), &window(), &DigestConfig::default());
    assert_eq!(net.block_trend.len(), 6);
    let total: u64 = net.block_trend.iter().sum();
    assert_eq!(total, 2);
}

#[test]
fn the_list_of_blocked_sources_is_cut_at_its_limit() {
    let cfg = DigestConfig { top_blocked_limit: 0, ..DigestConfig::default() };
    assert!(network_of(&seed_fixture(), &window(), &cfg).top_blocked.is_empty());
}

fn auth_of(s: &Store, win: &Window) -> AuthSection {
    build_auth(
        &group_count_in_range(s, win, &Selection::failed_logins()),
        &select_rows_in_range(s, win, &Selection::logins()),
        &select_rows_in_range(s, win, &Selection::sudo_commands()),
    )
}

#[test]
fn auth_failures_unified_across_sources_by_src_ip() {
    let auth = auth_of(&seed_fixture(), &window());
    assert_eq!(auth.failures.len(), 1);
    let row = &auth.failures[0];
    assert_eq!(row.src_ip, "203.0.113.5");
    assert_eq!(row.count, 4);
    assert_eq!(row.by_source.len(), 3);
    let of = |source: &str| -> u64 {
        row.by_source.iter().filter(|b| b.source == source).map(|b| b.count).sum()
    };
    assert_eq!(of("sshd"), 2);
    assert_eq!(of("openvpn"), 2);
}

#[test]
fn auth_successes_and_sudo_events_carry_timestamps() {
    let auth = auth_of(&seed_fixture(), &window());
    assert_eq!(auth.successes.len(), 1);
    assert_eq!(auth.successes[0].username, "robin");
    assert_eq!(auth.successes[0].timestamp, Some(ymdhms(2026, 6, 29, 14, 9, 0)));
    assert_eq!(auth.sudo.len(), 1);
    assert_eq!(auth.sudo[0].command, "nano /etc/x");
    assert_eq!(auth.sudo[0].target_user, "root");
    assert_eq!(auth.sudo[0].timestamp, Some(ymdhms(2026, 6, 29, 14, 15, 0)));
}

fn notable_of(s: &Store, win: &Window) -> NotableSection {
    let units = group_count_in_range(s, win, &Selection::transitions());
    let seen = |e: Extreme| -> Vec<Option<Instant>> {
        units.keys.iter().map(|k| seen_in_range(s, e, win, &Selection::transitions_of(&k[0]))).collect()
    };
    build_notable(
        &select_rows_in_range(s, win, &Selection::firewall_changes()),
        service_restarts(&units, &seen(Extreme::First), &seen(Extreme::Last)),
        &select_rows_in_range(s, win, &Selection::severe()),
    )
}

#[test]
fn notable_config_change_and_critical_event_and_restart() {
    let notable = notable_of(&seed_fixture(), &window());
    assert_eq!(notable.config_changes.len(), 1);
    assert_eq!(notable.config_changes[0].admin_user, "admin");
    assert_eq!(notable.config_changes[0].page, "/firewall_rules.php");
    assert_eq!(notable.critical_events.len(), 1);
    assert_eq!(notable.critical_events[0].source, "haproxy");
    assert_eq!(notable.critical_events[0].severity, "critical");
    assert_eq!(notable.service_restarts.len(), 1);
    let restart = &notable.service_restarts[0];
    assert_eq!(restart.unit, "sshguard.service");
    assert_eq!(restart.count, 2);
    assert_eq!(restart.first_seen, Some(ymdhms(2026, 6, 29, 14, 14, 0)));
    assert_eq!(restart.last_seen, Some(ymdhms(2026, 6, 29, 14, 14, 30)));
}

fn restart_row(unit: &str, seen: Instant) -> ServiceRestart {
    ServiceRestart { unit: unit.to_string(), count: 1, first_seen: Some(seen), last_seen: Some(seen) }
}

#[test]
fn collapse_boot_storms_leaves_a_few_units_uncollapsed() {
    let rows = vec![
        restart_row("sshguard.service", ymdhms(2026, 6, 29, 3, 0, 0)),
        restart_row("cron.service", ymdhms(2026, 6, 29, 3, 0, 5)),
        restart_row("dbus.service", ymdhms(2026, 6, 29, 3, 0, 9)),
    ];
    let (kept, storms) = collapse_boot_storms(rows);
    assert_eq!(kept.len(), 3);
    assert!(storms.is_empty());
}

#[test]
fn collapse_boot_storms_collapses_a_tight_burst() {
    let units = ["NetworkManager", "sshd", "cron", "dbus", "systemd-logind", "cups"];
    let rows: Vec<ServiceRestart> = units
        .iter()
        .enumerate()
        .map(|(i, u)| restart_row(u, ymdhms(2026, 6, 29, 3, 0, i as u32 * 3)))
        .collect();
    let (kept, storms) = collapse_boot_storms(rows);
    assert!(kept.is_empty(), "all 6 units should be absorbed into the storm");
    assert_eq!(storms.len(), 1);
    assert_eq!(storms[0].unit_count, 6);
    assert_eq!(storms[0].first_seen, Some(ymdhms(2026, 6, 29, 3, 0, 0)));
    assert_eq!(storms[0].last_seen, Some(ymdhms(2026, 6, 29, 3, 0, 15)));
    for u in units {
        assert!(storms[0].units.contains(&u.to_string()));
    }
}

#[test]
fn collapse_boot_storms_does_not_merge_across_a_large_gap() {
    let mut rows: Vec<ServiceRestart> =
        (0..5).map(|i| restart_row(&format!("a{i}"), ymdhms(2026, 6, 29, 3, 0, i * 2))).collect();
    rows.extend((0..5).map(|i| restart_row(&format!("b{i}"), ymdhms(2026, 6, 29, 3, 20, i * 2))));
    let (kept, storms) = collapse_boot_storms(rows);
    assert!(kept.is_empty());
    assert_eq!(storms.len(), 2, "a 20-minute gap must not merge into one storm");
}

#[test]
fn collapse_boot_storms_mixed_leaves_non_storm_units_individually_listed() {
    let mut rows: Vec<ServiceRestart> =
        (0..5).map(|i| restart_row(&format!("boot{i}"), ymdhms(2026, 6, 29, 3, 0, i * 2))).collect();
    rows.push(restart_row("haproxy.service", ymdhms(2026, 6, 29, 9, 0, 0)));
    let (kept, storms) = collapse_boot_storms(rows);
    assert_eq!(kept.len(), 1);
    assert_eq!(kept[0].unit, "haproxy.service");
    assert_eq!(storms.len(), 1);
    assert_eq!(storms[0].unit_count, 5);
}

#[test]
fn collapse_boot_storms_rows_without_first_seen_are_never_clustered() {
    let rows = vec![ServiceRestart {
        unit: "mystery.service".to_string(),
        count: 1,
        first_seen: None,
        last_seen: None,
    }];
    let (kept, storms) = collapse_boot_storms(rows);
    assert_eq!(kept.len(), 1);
    assert!(storms.is_empty());
}

#[test]
fn a_storm_ends_only_after_its_gap() {
    let at = |seconds: i64| Instant::from_seconds(1782741600 + seconds);
    let burst = |gap: i64| (0..5).map(|i| restart_row(&format!("u{i}"), at(i * gap))).collect();
    assert_eq!(collapse_boot_storms(burst(300)).1.len(), 1);
    assert_eq!(collapse_boot_storms(burst(301)).1.len(), 0);
    let (kept, storms) = collapse_boot_storms(burst(301));
    assert_eq!(kept.len() + storms.len(), 5);
}

#[test]
fn build_notable_surfaces_boot_storm_from_real_events() {
    let units = ["a.service", "b.service", "c.service", "d.service", "e.service", "f.service"];
    let files: Vec<String> = (0..6).map(|i| format!("raw/2026/06/29/03/00/{i:02}/systemd.jsonl")).collect();
    let rows: Vec<Vec<&str>> =
        units.iter().zip(&files).map(|(u, f)| vec![f.as_str(), "systemd", "unit_started", *u]).collect();
    let conn = table(&["raw_file", "_source_type", "event_type", "unit"], &rows);
    let s = Store { buckets: vec![("2026-06-29-03.db".to_string(), conn)], raw: Vec::new() };
    let notable = notable_of(&s, &hour_of_day(3));
    assert_eq!(notable.boot_storms.len(), 1);
    assert_eq!(notable.boot_storms[0].unit_count, 6);
    assert!(notable.service_restarts.is_empty());
}

/// The alerts section of files, by a threshold in per cent.
fn alerts_of(files: &[String], win: &Window) -> AlertsSection {
    let mut tally = AlertTally::new();
    for content in files {
        tally.count_file(content, win.start.whole_seconds(), win.end.whole_seconds());
    }
    let share = tally.top_share().and_then(|(top, total)| {
        let pct = (top as f64 / total as f64) * 100.0;
        if pct > 80.0 { Some(format!("{pct:.0}")) } else { None }
    });
    tally.section(share)
}

fn alert(rule_id: &str, title: &str, level: &str, ts: i64) -> String {
    format!(
        "{{\"rule_id\":\"{rule_id}\",\"rule_title\":\"{title}\",\"level\":\"{level}\",\
         \"event\":{{}},\"timestamp\":{ts}}}\n"
    )
}

#[test]
fn alerts_counts_first_time_rule_and_concentration() {
    let win = window();
    let start = win.start.whole_seconds();
    let before = alert("known-rule", "Title for known-rule", "low", start - 3600);
    let mut inside = alert("known-rule", "Known", "low", start + 60);
    for i in 0..9 {
        inside += &alert("new-rule", "New", "medium", start + 120 + i);
    }
    let alerts = alerts_of(&[before, inside], &win);
    assert_eq!(alerts.total, 10);
    assert_eq!(alerts.by_rule.len(), 2);
    assert_eq!(alerts.first_time_rules, vec!["new-rule".to_string()]);
    assert!(alerts.concentration_warning.is_some());
    assert!(alerts.concentration_warning.as_ref().unwrap().contains("new-rule"));
    assert_eq!(
        alerts.concentration_warning.unwrap(),
        "rule 'new-rule' accounts for 90% of alerts this window"
    );
    assert_eq!(alerts.by_rule[0].rule_title, "New");
    assert_eq!(alerts.by_rule.iter().map(|r| r.count).sum::<u64>(), alerts.total);
}

#[test]
fn alerts_empty_when_no_alert_files() {
    let alerts = alerts_of(&[], &window());
    assert_eq!(alerts.total, 0);
    assert!(alerts.by_rule.is_empty());
    assert!(alerts.first_time_rules.is_empty());
    assert!(alerts.concentration_warning.is_none());
}

#[test]
fn alerts_past_the_window_count_for_nothing() {
    let win = window();
    let late = alert("late", "Late", "low", win.end.whole_seconds());
    let nameless = "{\"timestamp\":1}\nnot json\n".to_string();
    let alerts = alerts_of(&[late, nameless], &win);
    assert_eq!(alerts.total, 0);
    assert!(alerts.by_rule.is_empty());
}

#[test]
fn build_report_assembles_all_sections_with_baseline_window_info() {
    let s = seed_fixture();
    let info = digest_windows(&window(), 24).info;
    assert_eq!(info.start, ymdhms(2026, 6, 29, 14, 0, 0));
    assert_eq!(info.end, ymdhms(2026, 6, 29, 15, 0, 0));
    assert_eq!(info.baseline_start, ymdhms(2026, 6, 29, 13, 0, 0));
    assert_eq!(info.baseline_end, ymdhms(2026, 6, 29, 14, 0, 0));
    assert!(!volume_of(&s, &window(), true, false).is_empty());
    assert!(!auth_of(&s, &window()).failures.is_empty());
}

#[test]
fn only_alerts_of_rules_are_counted() {
    assert!(is_alert_file("alerts.jsonl") && is_alert_file("old.jsonl") && is_alert_file("correlated.jsonl"));
    assert!(!is_alert_file("ack.jsonl") && !is_alert_file("alerts.json") && !is_alert_file(".jsonl"));
    assert!(is_alert_dir("2026") && !is_alert_dir("correlated"));
}
