use siemctl::collections::{FieldSet, GroupCounts};
use siemctl::dry_run::{args_for_normalizer, normalization_text, normalized_counts, rules_text, triggered_rules};
use siemctl::flags::{flag_value, has_flag, read_flags, Command, Flag, Stop};
use siemctl::normconfig::{parse, SourceFields};
use siemctl::options::{are_args_readable, cap_notice, flag_days, flag_follow, flag_format, flag_hour};
use siemctl::options::{last_bounds, prepare_query, raw_search, read_command, report_format};
use siemctl::options::{required_value, row_limit, trend_range, window_bounds, Ending, ReportFormat};
use siemctl::options::DEFAULT_ROW_CAP;
use siemctl::paths::{file_stem, files_with_extension, is_event_file, join_path};
use siemctl::render::Format;
use siemctl::retention::{cutoff, cutoff_seconds, is_confirmed, is_old, retention_plan};
use siemctl::retention::{retention_summary, total_size, OldFile, Plan};
use siemctl::stats::{add_named, counts_by_kind, counts_by_source, counts_exit_code, counts_statement};
use siemctl::stats::{coverage_rows, coverage_statement, existing_fields, raw_file_counts};
use siemctl::stats::{show_coverage, trend_statement};
use siemctl::status::{files_by_source, normalized_section, schema_section, sources_section};
use siemctl::status::{status_head, status_index, status_sources, wrap_field_list, SourceFile};
use siemctl::time::HourBucket;
use siemctl::trend::{bucket_column, column_starts, trend_report, TrendTable};
use siemctl::validate::{check_rule, check_sources, is_sigma_deprecated, rule_files, scan_sources};
use siemctl::validate::{validate_config_crosscheck, validate_sigma_rule, validation_summary};
use siemctl::window::{candidate_dirs, is_hour_in_range, is_path_in_range, is_range_valid, Instant};

fn list(items: &[&str]) -> Vec<String> {
    items.iter().map(|s| s.to_string()).collect()
}

fn set(items: &[&str]) -> FieldSet {
    let mut s = FieldSet::new();
    for i in items {
        s.insert(i);
    }
    s
}

fn counts(rows: &[(&str, u64)]) -> GroupCounts {
    let mut g = GroupCounts::new();
    for (k, n) in rows {
        g.add_count(&vec![k.to_string()], *n);
    }
    g
}

fn hour(s: &str) -> HourBucket {
    HourBucket::parse(s).unwrap()
}

// ── Arguments ───────────────────────────────────────────────────────────────

#[test]
fn flags_are_read_with_their_values() {
    let (gs, stop) = read_flags(Command::Search, &list(&["-q", "a == 1", "--raw", "-d", "x", "-d", "y", "--no-limit"]));
    assert!(matches!(stop, Stop::End));
    assert_eq!(flag_value(&gs, Flag::Query), Some("a == 1".to_string()));
    assert!(has_flag(&gs, Flag::Raw));
    assert_eq!(flag_value(&gs, Flag::Raw), None);
    assert_eq!(flag_value(&gs, Flag::DataDir), Some("y".to_string()));
    assert!(has_flag(&gs, Flag::NoLimit) && !has_flag(&gs, Flag::Window));
    let (gs, _) = read_flags(Command::Search, &list(&["--raw", "needle"]));
    assert_eq!(flag_value(&gs, Flag::Raw), Some("needle".to_string()));
}

/// How the reading of a command's arguments ends.
fn ending(c: Command, args: &[&str]) -> String {
    let args = list(args);
    assert!(are_args_readable(c, &args));
    match read_command(c, &args).1 {
        Ending::Run => "run".to_string(),
        Ending::Help => "help".to_string(),
        Ending::Unknown(s) => format!("unknown {s}"),
        Ending::Fail(m) => m,
    }
}

#[test]
fn arguments_end_in_one_of_four_ways() {
    assert_eq!(ending(Command::Status, &["-v"]), "run");
    assert_eq!(ending(Command::Status, &["-v", "--help", "--nope"]), "help");
    assert_eq!(ending(Command::Status, &["--source", "x"]), "unknown --source");
    assert_eq!(ending(Command::Status, &["--data-dir"]), "--data-dir requires an argument");
    assert_eq!(ending(Command::Search, &["-a", "soon"]), "invalid --after 'soon' (YYYY-MM-DDTHH)");
    assert_eq!(ending(Command::Alerts, &["--before", "x"]), "invalid --before 'x' (YYYY-MM-DDTHH)");
    assert_eq!(ending(Command::Retention, &["--days", "-1"]), "--days: invalid number '-1'");
    assert_eq!(ending(Command::Stats, &["--last", "0h"]), "duration must be positive: '0h'");
    assert_eq!(
        ending(Command::Stats, &["--interval", "90m"]),
        "--interval must be a whole number of hours (got '90m') — the index is bucketed per \
         clock-hour, so sub-hour trend columns aren't available here (see 'siemctl digest' for \
         sub-hour sparklines)"
    );
    assert_eq!(ending(Command::Stats, &["--interval", "120m"]), "run");
    assert_eq!(
        ending(Command::Search, &["--format", "xml"]),
        "invalid --format 'xml' (expected: json, tsv, tsv-noheader)"
    );
    assert_eq!(ending(Command::Ack, &["r1", "--note", "n"]), "run");
    assert_eq!(ending(Command::Ack, &["r1", "r2"]), "unknown r2");
    assert!(!are_args_readable(Command::Stats, &list(&["--last", "9223372036854775807d"])));
}

#[test]
fn values_of_flags() {
    let (gs, _) = read_flags(Command::Search, &list(&["--format", "tsv-noheader", "-a", "2026-06-22T08"]));
    assert_eq!(flag_format(&gs), Format::Tsv { header: false });
    assert_eq!(flag_hour(&gs, Flag::After), Some(hour("2026-06-22T08")));
    assert_eq!(flag_hour(&gs, Flag::Before), None);
    let (gs, _) = read_flags(Command::Tail, &list(&["-F", "-f"]));
    assert!(flag_follow(&gs));
    let (gs, _) = read_flags(Command::Tail, &list(&["-f", "-F"]));
    assert!(!flag_follow(&gs));
    let (gs, _) = read_flags(Command::Retention, &list(&["-n", "7"]));
    assert_eq!(flag_days(&gs), Ok(7));
    assert_eq!(flag_days(&Vec::new()), Err("--days N is required".to_string()));
    assert_eq!(
        required_value(&gs, Flag::File, "--file FILE is required"),
        Err("--file FILE is required".to_string())
    );
}

#[test]
fn ranges_are_relative_or_explicit() {
    let now = Instant::from_seconds(1782741600 + 1800);
    assert_eq!(
        window_bounds(Some("6h".to_string()), None, None, now),
        Ok((Some(hour("2026-06-29T08")), Some(hour("2026-06-29T14"))))
    );
    assert_eq!(
        window_bounds(Some("6h".to_string()), Some(hour("2026-06-29T08")), None, now),
        Err("--window cannot be combined with --after/--before".to_string())
    );
    assert_eq!(window_bounds(None, None, Some(hour("2026-06-29T08")), now), Ok((None, Some(hour("2026-06-29T08")))));
    assert_eq!(
        last_bounds(Some("2d".to_string()), None, None, now),
        Ok((Some(hour("2026-06-27T14")), Some(hour("2026-06-29T14"))))
    );
    assert_eq!(
        last_bounds(Some("2d".to_string()), None, Some(hour("2026-06-29T08")), now),
        Err("--last cannot be combined with --after/--before".to_string())
    );
    let range = trend_range("3h", (Some(hour("2026-06-29T08")), Some(hour("2026-06-29T14")))).ok().unwrap();
    assert_eq!((range.after, range.before, range.hours), (hour("2026-06-29T08"), hour("2026-06-29T14"), 3));
    assert_eq!(
        trend_range("3h", (None, None)).err().unwrap(),
        "--interval requires --last or --after/--before to set the overall range"
    );
    assert_eq!(
        trend_range("3h", (Some(hour("2026-06-29T14")), Some(hour("2026-06-29T08")))).err().unwrap(),
        "--before must not be earlier than --after"
    );
    assert_eq!(
        trend_range("4294967296h", (Some(hour("2026-06-29T08")), Some(hour("2026-06-29T14")))).err().unwrap(),
        "--interval is too long: '4294967296h'"
    );
}

#[test]
fn searches_are_capped_unless_told_otherwise() {
    assert_eq!(row_limit(None, false), (Some(DEFAULT_ROW_CAP), true));
    assert_eq!(row_limit(None, true), (None, false));
    assert_eq!(row_limit(Some(9000), false), (Some(9000), false));
    assert_eq!(
        cap_notice(true, 150).unwrap(),
        "siemctl: showing first 150 matches (default row cap reached) — add an explicit LIMIT to \
         your --query or pass --no-limit to see more"
    );
    assert_eq!(cap_notice(true, 149), None);
    assert_eq!(cap_notice(false, 150), None);
    let q = prepare_query(&Some("src_ip == 1".to_string()), &set(&["src_ip"]), (None, None)).unwrap();
    assert_eq!(q.to_sql().0, "SELECT * FROM events WHERE src_ip = ?");
    assert!(prepare_query(&None, &set(&[]), (None, None)).unwrap().expr.is_none());
    assert_eq!(
        prepare_query(&Some("port == 1".to_string()), &set(&["src_ip"]), (None, None)).unwrap_err(),
        "invalid --query: unknown field 'port'. Known fields: src_ip"
    );
}

#[test]
fn raw_searches_take_no_query() {
    let (gs, _) = read_flags(Command::Search, &list(&["--raw", "needle"]));
    assert_eq!(raw_search(&gs), Ok(Some(Some("needle".to_string()))));
    let (gs, _) = read_flags(Command::Search, &list(&["--raw"]));
    assert_eq!(raw_search(&gs), Ok(Some(None)));
    let (gs, _) = read_flags(Command::Search, &list(&["-q", "a == 1"]));
    assert_eq!(raw_search(&gs), Ok(None));
    let (gs, _) = read_flags(Command::Search, &list(&["--raw", "-q", "a == 1"]));
    assert_eq!(
        raw_search(&gs).unwrap_err(),
        "--raw and --query are mutually exclusive (--raw takes a literal substring, not a DSL expression)"
    );
}

#[test]
fn digests_are_text_or_json() {
    let format = |args: &[&str]| report_format(&read_flags(Command::Digest, &list(args)).0);
    assert_eq!(format(&[]), Ok(ReportFormat::Text));
    assert_eq!(format(&["--format", "json"]), Ok(ReportFormat::Json));
    assert_eq!(
        format(&["--format", "tsv"]).unwrap_err(),
        "siemctl: invalid --format 'tsv' (expected: text, json)"
    );
}

#[test]
fn files_are_told_by_their_names() {
    assert_eq!(join_path("a", "b"), "a/b");
    assert_eq!(join_path("a/", "b"), "a/b");
    assert_eq!(join_path("a", "/b"), "/b");
    assert_eq!(file_stem("php-fpm.x.jsonl", ".jsonl"), Some("php-fpm.x".to_string()));
    assert_eq!(file_stem(".jsonl", ".jsonl"), None);
    assert_eq!(file_stem("a.json", ".jsonl"), None);
    assert!(is_event_file("sshd.jsonl", &None) && is_event_file("sshd.jsonl", &Some("sshd".to_string())));
    assert!(!is_event_file("sshd.jsonl", &Some("ssh".to_string())) && !is_event_file("sshd.db", &None));
    assert_eq!(files_with_extension(&list(&["b.db", "a", "c.db-wal", ".db"]), ".db"), list(&["b.db"]));
    assert_eq!(rule_files(&list(&["b.yml", "c.txt", "a.yaml"])), list(&["a.yaml", "b.yml"]));
}

#[test]
fn ranges_name_their_directories() {
    assert_eq!(candidate_dirs("raw", None, None), None);
    let dirs = candidate_dirs("raw", Some(hour("2026-06-29T23")), Some(hour("2026-06-30T00"))).unwrap();
    assert_eq!(dirs, list(&["raw/2026/06/29/23", "raw/2026/06/30/00"]));
    assert_eq!(candidate_dirs("raw", None, Some(hour("2000-01-01T01"))), None);
    assert_eq!(candidate_dirs("raw", Some(hour("2000-01-01T01")), None), None);
    let empty = candidate_dirs("raw", Some(hour("2026-06-30T00")), Some(hour("2026-06-29T23")));
    assert_eq!(empty, Some(vec![]));
    assert!(is_range_valid(Some(hour("2026-02-30T00")), None));
    assert!(!is_range_valid(Some(hour("2026-02-30T00")), Some(hour("2026-03-01T00"))));
    assert!(is_range_valid(Some(hour("2026-02-30T00")), Some(hour("2026-02-01T00"))));
}

#[test]
fn an_open_side_has_no_bound() {
    let (early, late) = (hour("1999-12-31T23"), hour("2100-01-01T00"));
    let mid = hour("2026-07-01T18");
    assert!(is_hour_in_range(early, None, Some(mid)) && !is_hour_in_range(late, None, Some(mid)));
    assert!(is_hour_in_range(late, Some(mid), None) && !is_hour_in_range(early, Some(mid), None));
    assert!(is_hour_in_range(mid, Some(mid), Some(mid)) && !is_hour_in_range(early, Some(mid), Some(mid)));
    assert!(is_path_in_range("1999/12/31/23/alerts.jsonl", None, Some(mid)));
    assert!(!is_path_in_range("2100/01/01/00/59/59/sshd.jsonl", None, Some(mid)));
    assert!(!is_path_in_range("notes/alerts.jsonl", None, Some(mid)));
    assert!(is_path_in_range("notes/alerts.jsonl", None, None));
}

// ── status ──────────────────────────────────────────────────────────────────

#[test]
fn field_lists_are_wrapped() {
    assert_eq!(wrap_field_list(&list(&["aa", "bb", "cc"]), 2, 9), "  aa, \n  bb, cc");
    assert_eq!(wrap_field_list(&list(&["a_long_name", "b"]), 2, 8), "  a_long_name, \n  b");
    assert_eq!(wrap_field_list(&list(&[]), 3, 8), "   ");
}

#[test]
fn status_shows_sizes_and_files() {
    assert_eq!(
        status_head("./data", 2048),
        format!("SIEM Status — ./data\n{}\n  Total size:        2.0 KB\n", "─".repeat(48))
    );
    let file = |source: &str, modified: u64| SourceFile { source: source.to_string(), modified };
    let (n, latest) = files_by_source(&vec![file("sshd", 5), file("cron", 9), file("sshd", 3)]);
    assert_eq!(
        status_sources(&n, &latest),
        format!(
            "  Source file counts:\n    {:<20} {:>5} files  last={}\n    {:<20} {:>5} files  last={}\n",
            "cron", 1, 9, "sshd", 2, 5
        )
    );
    let (n, latest) = files_by_source(&vec![]);
    assert_eq!(status_sources(&n, &latest), "");
    assert_eq!(status_index(&None), "  Index: (no index/ directory)\n");
    assert_eq!(
        status_index(&Some(list(&["b.db", "a.db", "a.db-wal"]))),
        "  Indexed buckets (2):\n    a.db\n    b.db\n"
    );
}

fn fields_of(rows: &[(&str, &[&str])]) -> SourceFields {
    let mut per = SourceFields::new();
    for (name, fields) in rows {
        per.add_fields(name, &list(fields));
    }
    per
}

#[test]
fn status_shows_the_indexed_fields() {
    let head = format!("\n── sources.toml — indexed fields {}\n", "─".repeat(17));
    assert_eq!(
        sources_section(&SourceFields::new()),
        format!("{head}  (sources.toml not found or empty)\n")
    );
    let text = sources_section(&fields_of(&[("sshd", &["src_ip", "username"]), ("cron", &[])]));
    assert!(text.starts_with(&head));
    assert!(text.contains("  Envelope (all sources — from the syslog transport layer):\n"));
    assert!(text.contains("    source_addr  — sender IP (UDP source address, or \"stdin\")\n"));
    assert!(text.ends_with(&format!(
        "\n  Per-source indexed fields (from sources.toml):\n  {:<20} (no indexed fields)\n    {:<20} src_ip, username\n",
        "cron", "sshd"
    )));
}

#[test]
fn status_shows_what_is_not_indexed() {
    let per = fields_of(&[("sshd", &["src_ip"])]);
    let norm = fields_of(&[("sshd", &["src_ip", "tty"])]);
    let text = normalized_section(&norm, true, &per);
    let head = format!("\n── normalized.toml — fields by app_name {}\n", "─".repeat(10));
    assert!(text.starts_with(&head));
    assert!(text.contains(&format!("  {:<20} src_ip, tty\n", "sshd")));
    assert!(text.ends_with(&format!("{}  → not indexed: tty\n", " ".repeat(19))));
    assert_eq!(
        normalized_section(&SourceFields::new(), true, &per),
        format!("{head}  (no extract rules with app_name found)\n")
    );
    assert_eq!(normalized_section(&SourceFields::new(), false, &per), "");
}

#[test]
fn status_shows_the_latest_columns() {
    let head = format!("\n── Index schema (latest bucket) {}\n", "─".repeat(19));
    assert_eq!(
        schema_section("a.db", &Ok(list(&["raw_file", "src_ip"]))),
        format!("{head}  a.db  — 2 columns:\n    raw_file, src_ip\n")
    );
    assert_eq!(
        schema_section("a.db", &Err("locked".to_string())),
        format!("{head}  a.db  — (could not open: locked)\n")
    );
}

// ── stats ───────────────────────────────────────────────────────────────────

#[test]
fn statements_of_the_statistics() {
    assert_eq!(
        counts_statement(false),
        "SELECT _source_type, COUNT(*) FROM events GROUP BY _source_type"
    );
    assert_eq!(
        counts_statement(true),
        "SELECT event_type, COUNT(*) FROM events WHERE _source_type = ? GROUP BY event_type \
         ORDER BY COUNT(*) DESC"
    );
    assert_eq!(
        trend_statement(true),
        "SELECT event_type, COUNT(*) FROM events WHERE _source_type = ? GROUP BY event_type"
    );
    assert_eq!(
        existing_fields(&list(&["a", "b", "c"]), &list(&["c", "a", "x"])),
        list(&["a", "c"])
    );
    let sql = coverage_statement(&list(&["a", "c"]), true);
    assert!(sql.contains("FROM events WHERE _source_type = ?"), "{sql}");
}

#[test]
fn counts_are_shown_by_size() {
    assert_eq!(
        counts_by_source(&counts(&[("b", 1500), ("a", 2), ("c", 1500)])),
        format!(
            "── Event counts by source {}\n  {:<24}  {:>10}\n  {:<24}  {:>10}\n  {:<24}  {:>10}\n  {}\n  {:<24}  {:>10}\n",
            "─".repeat(25), "b", "1,500", "c", "1,500", "a", "2", "─".repeat(37), "total", "3,002"
        )
    );
    assert_eq!(
        counts_by_source(&GroupCounts::new()),
        format!("── Event counts by source {}\n  (no data)\n", "─".repeat(25))
    );
    assert_eq!(
        counts_by_kind("sshd", &counts(&[("login", 3)]), 4),
        format!(
            "── sshd — event types {}\n  {:<30}  {:>10}\n  {}\n  {:<30}  {:>10}\n",
            "─".repeat(26), "login", "3", "─".repeat(43), "total (sshd)", "4"
        )
    );
    assert_eq!(
        counts_by_kind("sshd", &GroupCounts::new(), 0),
        format!("── sshd — event types {}\n  (no data for source 'sshd')\n", "─".repeat(26))
    );
    assert_eq!(counts_exit_code(0, &GroupCounts::new()), 1);
    assert_eq!(counts_exit_code(0, &counts(&[("a", 1)])), 0);
    assert_eq!(counts_exit_code(1, &GroupCounts::new()), 0);
}

#[test]
fn coverage_is_shown_by_size() {
    let rows = coverage_rows(&list(&["a", "b", "c"]), &counts(&[("b", 5), ("c", 5)]));
    assert_eq!(rows, vec![("b".to_string(), 5), ("c".to_string(), 5), ("a".to_string(), 0)]);
    let shares: Vec<String> = rows.iter().map(|r| format!("{:>6.1}%", r.1 as f64 / 10.0 * 100.0)).collect();
    assert_eq!(
        show_coverage(&None, &rows, &shares),
        format!(
            "\n── Field coverage {}\n  {:<24}  {:>10}  {:>8}\n  {}\n  {:<24}  {:>10}  {}\n  {:<24}  {:>10}  {}\n  {:<24}  {:>10}  {}\n",
            "─".repeat(26), "Field", "Events", "Coverage", "─".repeat(47),
            "b", "5", "  50.0%", "c", "5", "  50.0%", "a", "0", "   0.0%"
        )
    );
    let named = show_coverage(&Some("sshd".to_string()), &rows, &shares);
    assert!(named.starts_with(&format!("\n── sshd — field coverage {}\n", "─".repeat(17))), "{named}");
}

#[test]
fn raw_counts_stand_in_for_the_index() {
    assert_eq!(
        raw_file_counts(&Some("sshd".to_string()), &counts(&[("sshd", 1234)])),
        format!("\n── sshd — event count (raw files) {}\n  {:<24}  {:>10}\n", "─".repeat(14), "sshd", "1,234")
    );
    assert_eq!(
        raw_file_counts(&None, &counts(&[("sshd", 1), ("cron", 4)])),
        format!(
            "\n── Event counts by source (raw files) {}\n  {:<24}  {:>10}\n  {:<24}  {:>10}\n  {}\n  {:<24}  {:>10}\n",
            "─".repeat(13), "cron", "4", "sshd", "1", "─".repeat(37), "total", "5"
        )
    );
}

#[test]
fn named_counts_add_up() {
    let mut sums = counts(&[("user", 2)]);
    add_named(&mut sums, &vec![("src_ip".to_string(), 3), ("user".to_string(), 5), ("src_ip".to_string(), 4)]);
    assert_eq!(sums.get(&vec!["user".to_string()]), Some(7));
    assert_eq!(sums.get(&vec!["src_ip".to_string()]), Some(7));
    assert_eq!(sums.len(), 2);
    add_named(&mut sums, &vec![]);
    assert_eq!(sums.len(), 2);
}

#[test]
fn trends_have_a_column_per_interval() {
    let (after, before) = (hour("2026-06-29T22"), hour("2026-06-30T03"));
    let starts = column_starts(after, before, 2);
    assert_eq!(
        starts,
        vec![hour("2026-06-29T22"), hour("2026-06-30T00"), hour("2026-06-30T02")]
    );
    assert_eq!(bucket_column("2026-06-29-22.db", after, before, 2), Some(0));
    assert_eq!(bucket_column("2026-06-30-01.db", after, before, 2), Some(1));
    assert_eq!(bucket_column("2026-06-30-03.db", after, before, 2), Some(2));
    assert_eq!(bucket_column("2026-06-30-04.db", after, before, 2), None);
    assert_eq!(bucket_column("notes.db", after, before, 2), None);
    let wide = column_starts(hour("2026-06-29T00"), hour("2026-06-29T01"), 3);
    assert_eq!(wide, vec![hour("2026-06-29T00")]);
    let even = column_starts(hour("2026-06-29T00"), hour("2026-06-29T03"), 3);
    assert_eq!(even, vec![hour("2026-06-29T00"), hour("2026-06-29T03")]);
    // The bounds need not be hours of the calendar.
    let leap = column_starts(hour("2026-02-28T22"), hour("2026-02-31T05"), 2);
    assert_eq!(leap, vec![hour("2026-02-28T22")]);
    assert_eq!(bucket_column("2026-02-28-23.db", hour("2026-02-28T22"), hour("2026-02-31T05"), 2), Some(0));
    assert_eq!(bucket_column("2026-03-01-00.db", hour("2026-02-28T22"), hour("2026-02-31T05"), 2), None);
    let odd = column_starts(hour("2026-02-31T22"), hour("2026-03-01T01"), 1);
    assert_eq!(odd, vec![hour("2026-02-31T22"), hour("2026-02-31T23"), hour("2026-03-01T00"), hour("2026-03-01T01")]);
    let starts = vec![after, hour("2026-06-30T00")];
    let mut t = TrendTable::new(2);
    t.add_bucket(0, &counts(&[("sshd", 1), ("", 7)]));
    t.add_bucket(1, &counts(&[("sshd", 1), ("cron", 2000)]));
    t.add_bucket(1, &counts(&[("sshd", 4)]));
    assert_eq!(
        trend_report(&t, &None, &starts),
        (
            format!(
                "{:<6}  {:>11}  {:>11}\n{:<6}  {:>11}  {:>11}\n{:<6}  {:>11}  {:>11}\n",
                "source", "06-29 22:00", "06-30 00:00", "cron", "0", "2,000", "sshd", "1", "5"
            ),
            0
        )
    );
}

#[test]
fn trends_without_types_show_totals() {
    let starts = vec![hour("2026-06-29T22")];
    let mut t = TrendTable::new(1);
    assert_eq!(trend_report(&t, &None, &starts), ("(no data in range)\n".to_string(), 1));
    t.add_bucket(0, &counts(&[("", 7)]));
    assert_eq!(trend_report(&t, &None, &starts), ("(no data in range)\n".to_string(), 1));
    assert_eq!(
        trend_report(&t, &Some("cron".to_string()), &starts),
        (
            format!(
                "note: 'cron' events have no populated event_type (no dedicated parser) — showing \
                 total volume per bucket instead of a per-type breakdown\n{:<18}  {:>11}\n{:<18}  {:>11}\n",
                "event_type", "06-29 22:00", "(total, ungrouped)", "7"
            ),
            0
        )
    );
}

// ── retention ───────────────────────────────────────────────────────────────

const NOW: i128 = 1_782_741_600_500_000_000;

#[test]
fn files_age_by_whole_days() {
    let day = 86_400_000_000_000;
    assert_eq!(cutoff(NOW, 0), NOW);
    assert_eq!(cutoff(NOW, 2), NOW - 2 * day);
    assert_eq!(cutoff_seconds(NOW), 1_782_741_600);
    assert_eq!(cutoff_seconds(-1), 0);
    assert!(is_old(Some(NOW - 1), NOW) && !is_old(Some(NOW), NOW) && !is_old(None, NOW));
}

#[test]
fn collect_old_files_zero_day_cutoff_catches_raw_and_index() {
    let files = [
        ("raw/2026/06/27/22/13/22/sshd.jsonl", 3),
        ("index/2026-06-27-22.db", 1),
        ("index/2026-06-27-22.db-wal", 1),
    ];
    let limit = cutoff(NOW, 0);
    let old: Vec<OldFile> = files
        .iter()
        .filter(|_| is_old(Some(NOW - 60_000_000_000), limit))
        .map(|(p, size)| OldFile { path: p.to_string(), size: *size })
        .collect();
    assert_eq!(old.len(), 3);
    assert_eq!(total_size(&old), 5);
}

fn two_files() -> Vec<OldFile> {
    vec![
        OldFile { path: "data/raw/a.jsonl".to_string(), size: 2048 },
        OldFile { path: "data/index/b.db".to_string(), size: 10 },
    ]
}

fn plan(days: u32, dry_run: bool, yes: bool, terminal: bool, files: &Vec<OldFile>, stale: usize) -> Plan {
    retention_plan(days, dry_run, yes, terminal, files, stale, "data", "data/alerts/ack.jsonl")
}

#[test]
fn wiping_takes_a_confirmation() {
    let files = two_files();
    match plan(0, false, false, false, &files, 0) {
        Plan::Refuse(m) => assert_eq!(
            m,
            "refusing to wipe all data non-interactively — re-run with --yes to confirm, or \
             --dry-run to preview"
        ),
        p => panic!("{p:?}"),
    }
    match plan(0, false, false, true, &files, 0) {
        Plan::Ask(m) => assert_eq!(
            m,
            "This will permanently delete ALL 2 file(s) (2.0 KB) under data — raw logs AND indexes.\n\
             Type 'yes' to continue: "
        ),
        p => panic!("{p:?}"),
    }
    assert!(matches!(plan(0, false, true, false, &files, 0), Plan::Delete));
    assert!(matches!(plan(7, false, false, false, &files, 0), Plan::Delete));
    assert!(is_confirmed(" YES \n") && !is_confirmed("y\n") && !is_confirmed(""));
}

#[test]
fn a_preview_deletes_nothing() {
    match plan(7, true, true, true, &two_files(), 3) {
        Plan::Tell(m) => assert_eq!(
            m,
            format!(
                "DRY RUN — would delete 2 file(s), 2.0 KB total:\n  {:>10}  data/raw/a.jsonl\n  {:>10}  \
                 data/index/b.db\nDRY RUN — would drop 3 stale ack line(s) from data/alerts/ack.jsonl\n",
                "2.0 KB", "10 B"
            )
        ),
        p => panic!("{p:?}"),
    }
    match plan(7, false, true, true, &Vec::new(), 0) {
        Plan::Tell(m) => assert_eq!(m, "No files older than 7 days found.\n"),
        p => panic!("{p:?}"),
    }
    match plan(0, false, true, true, &Vec::new(), 0) {
        Plan::Tell(m) => assert_eq!(m, "No data to delete under data.\n"),
        p => panic!("{p:?}"),
    }
    assert_eq!(
        retention_summary(2, 2058, 1, 0),
        "Retention complete: 2 file(s) deleted, 2.0 KB, 1 empty dir(s) removed.\n"
    );
    assert_eq!(
        retention_summary(0, 0, 0, 3),
        "Retention complete: 0 file(s) deleted, 0 B, 0 empty dir(s) removed, 3 stale ack line(s) compacted.\n"
    );
}

// ── dry-run ─────────────────────────────────────────────────────────────────

#[test]
fn normalized_lines_are_counted() {
    assert_eq!(
        args_for_normalizer(&Some("sshd".to_string()), &Some("n.toml".to_string())),
        list(&["--stdin", "--dry-run", "--source", "sshd", "--config", "n.toml"])
    );
    assert_eq!(args_for_normalizer(&None, &None), list(&["--stdin", "--dry-run"]));
    assert_eq!(
        normalized_counts("{\"_normalized\":true}\n{\"_normalized\":false}\n{\"_normalized\":true}\n"),
        (3, 2)
    );
    assert_eq!(
        normalization_text(3, 2, "66.7"),
        "=== Normalization ===\n  Lines processed: 3\n  Matched:         2  (66.7%)\n  Unmatched:       1\n"
    );
    let (alerts, ids) = triggered_rules(
        "{\"rule_id\":\"b\"}\n{\"rule_id\":\"a\",\"x\":1}\n{\"rule_id\":\"b\"}\nnone\n{\"rule_id\":\"cut\n",
    );
    assert_eq!(alerts, 5);
    assert_eq!(ids.items, list(&["a", "b"]));
    assert_eq!(
        rules_text(alerts, &ids),
        "\n=== Rule Evaluation ===\n  Alerts generated: 5\n  Rules triggered:  2\n    a\n    b\n"
    );
}

// ── validate ────────────────────────────────────────────────────────────────

#[test]
fn sources_are_checked() {
    let content = "# comment\n[source.sshd]\nindex_fields = [\"src_ip\", \"\", \"username\"]\n\n[source.cron]\n";
    let listed = scan_sources(content);
    assert_eq!(listed.len(), 2);
    assert_eq!(listed[0].name, "sshd");
    assert_eq!(listed[0].fields, list(&["src_ip", "username"]));
    let f = check_sources(content);
    assert_eq!(f.told, "  OK   [sshd] index_fields: [src_ip, username]\n  Total: 2 source(s)\n");
    assert_eq!(f.warned, "  WARN [cron] no index_fields defined\n");
    assert_eq!(f.errors, 0);
    let f = check_sources("");
    assert_eq!((f.told.as_str(), f.warned.as_str(), f.errors), ("", "  ERROR: no [source.*] entries found\n", 1));
}

const RULE: &str = "title: T\nid: 1001\ndetection:\n  selection:\n    a: b\n  condition: selection\n";

#[test]
fn rules_are_checked() {
    assert!(validate_sigma_rule(RULE).is_empty());
    assert_eq!(
        validate_sigma_rule("id:   \ntitle:\n"),
        list(&["missing 'id' field", "missing 'title' field", "missing 'detection' block"])
    );
    assert_eq!(
        validate_sigma_rule("id: 1\ntitle: T\ndetection:\ncondition: x\n"),
        list(&["missing 'condition' inside detection block"])
    );
    assert!(is_sigma_deprecated("status: deprecated\n") && !is_sigma_deprecated("status: stable\n"));
    let (f, skipped) = check_rule("a.yml", RULE);
    assert_eq!((f.told.as_str(), f.errors, skipped), ("  OK   [a.yml]\n", 0, false));
    let (f, skipped) = check_rule("a.yml", &format!("{RULE}status: deprecated\n"));
    assert_eq!((f.told.as_str(), f.errors, skipped), ("  SKIP [a.yml] deprecated\n", 0, true));
    let (f, skipped) = check_rule("a.yml", "title: T\nid: 1\n");
    assert_eq!(f.warned, "  ERROR [a.yml] missing 'detection' block\n");
    assert_eq!((f.errors, skipped), (1, false));
    assert_eq!(
        validation_summary(3, 0, 1),
        ("\nValidation complete: 3 rule file(s), 0 error(s), 1 warning(s).\n".to_string(), 0)
    );
    assert_eq!(validation_summary(3, 2, 0).1, 1);
}

#[test]
fn configurations_are_compared() {
    let prod = parse("[[extract]]\napp_name = \"sshd\"\npattern = '(?P<src_ip>x) (?P<tty>y)'\n");
    assert_eq!(
        validate_config_crosscheck(&prod, &set(&["src_ip", "typo"])),
        "  declared index_fields (union): 2\n  producible output fields:      2\n  \
         WARN produced but indexed by no source (1):\n         tty\n       → add to a source's \
         index_fields in sources.toml to search/group on them\n  WARN index_fields not produced by \
         any normalized.toml rule (1):\n         typo\n       → check for a typo, or a field \
         supplied by a structured-format\n         parser (CEF/LEEF/JSON) that this config scan \
         can't see\n  (advisory — these findings do not affect the exit code)\n"
    );
    let agreed = validate_config_crosscheck(&prod, &set(&["src_ip", "tty"]));
    assert!(agreed.contains("  OK   every producible output field is indexed (or is a core field)\n"));
    assert!(agreed.contains("  OK   every declared index_field is produced by a rule (or is a core field)\n"));
}
