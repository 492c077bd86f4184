use siemctl::alerts::{candidate_files, compact_ack_log, filter_acked, keep_correlated};
use siemctl::alerts::{load_ack_watermarks, load_records, run_query, AckLog, Watermarks};
use siemctl::collections::FieldSet;
use siemctl::json::{ack_line, Json};
use siemctl::query::Query;
use siemctl::render::{Format, Renderer};
use siemctl::time::HourBucket;
use siemctl::window::is_path_in_range;

fn ruled_alert(rule_id: &str, level: &str, src_ip: &str) -> String {
    format!(
        "{{\"_ruled\":true,\"rule_id\":\"{rule_id}\",\"rule_title\":\"Title for {rule_id}\",\
         \"level\":\"{level}\",\"timestamp\":1783026390,\
         \"event\":{{\"src_ip\":\"{src_ip}\",\"_source_type\":\"sshd\"}}}}\n"
    )
}

fn correlated_alert(correlation_id: &str, src_ip: &str) -> String {
    format!(
        "{{\"_correlated\":true,\"correlation_id\":\"{correlation_id}\",\
         \"correlation_title\":\"Test correlation\",\"join_field\":\"src_ip\",\
         \"join_value\":\"{src_ip}\",\"chain_start\":100,\"chain_end\":200,\
         \"step_counts\":[2,1],\"sample_events\":[{{\"src_ip\":\"{src_ip}\"}}]}}\n"
    )
}

/// Files by path, as the alerts tree holds them.
fn load_alerts(
    files: &[(&str, String)],
    after: Option<HourBucket>,
    before: Option<HourBucket>,
) -> Vec<Json> {
    let mut out = Vec::new();
    for (root, name, tag) in
        [("data/alerts", "alerts.jsonl", "ruled"), ("data/alerts/correlated", "correlated.jsonl", "correlated")]
    {
        let paths: Vec<String> = match candidate_files(root, name, after, before) {
            Some(paths) => paths,
            None => files
                .iter()
                .map(|f| f.0.to_string())
                .filter(|p| p.starts_with(root) && p.ends_with(name))
                .filter(|p| is_path_in_range(&p[root.len() + 1..], after, before))
                .collect(),
        };
        for path in paths {
            for f in files.iter().filter(|f| f.0 == path) {
                load_records(&f.1, tag, &mut out);
            }
        }
    }
    out
}

fn records(lines: &[&str]) -> Vec<Json> {
    lines.iter().map(|l| Json::parse(l).unwrap()).collect()
}

fn parse(dsl: &str) -> Query {
    Query::parse(dsl, &FieldSet::new()).unwrap()
}

fn render(records: &Vec<Json>, query: &Query) -> (i32, String) {
    let mut r = Renderer::new(Format::Json, query.select.clone(), query.limit);
    let rc = run_query(records, query, &mut r);
    (rc, r.flush())
}

fn text<'a>(j: &'a Json, key: &str) -> &'a str {
    j.get_text(key).unwrap()
}

#[test]
fn load_alerts_tags_ruled_and_correlated_distinctly() {
    let files = [
        ("data/alerts/2026/07/01/14/alerts.jsonl", ruled_alert("sudo-execution", "low", "10.0.0.1")),
        ("data/alerts/correlated/2026/07/01/14/correlated.jsonl", correlated_alert("cred-guess", "10.0.0.1")),
    ];
    let records = load_alerts(&files, None, None);
    assert_eq!(records.len(), 2);
    let types: Vec<&str> = records.iter().map(|r| text(r, "type")).collect();
    assert!(types.contains(&"ruled"));
    assert!(types.contains(&"correlated"));
}

#[test]
fn load_alerts_respects_after_before_bucket_range() {
    let files = [
        ("data/alerts/2026/07/01/08/alerts.jsonl", ruled_alert("before-window", "low", "10.0.0.1")),
        ("data/alerts/2026/07/01/14/alerts.jsonl", ruled_alert("in-window", "low", "10.0.0.1")),
        ("data/alerts/2026/07/01/20/alerts.jsonl", ruled_alert("after-window", "low", "10.0.0.1")),
    ];
    let after = HourBucket::parse("2026-07-01T10").unwrap();
    let before = HourBucket::parse("2026-07-01T18").unwrap();
    let records = load_alerts(&files, Some(after), Some(before));
    assert_eq!(records.len(), 1);
    assert_eq!(text(&records[0], "rule_id"), "in-window");
}

#[test]
fn load_alerts_skips_malformed_lines_without_failing() {
    let files = [(
        "data/alerts/2026/07/01/14/alerts.jsonl",
        "not json\n{\"rule_id\":\"ok\",\"level\":\"low\"}\n".to_string(),
    )];
    let records = load_alerts(&files, None, None);
    assert_eq!(records.len(), 1);
    assert_eq!(text(&records[0], "rule_id"), "ok");
}

#[test]
fn load_alerts_empty_when_no_alerts_dir() {
    assert!(load_alerts(&[], None, None).is_empty());
}

#[test]
fn run_query_default_emits_whole_record_as_json() {
    let records = records(&["{\"rule_id\":\"r1\",\"level\":\"low\",\"event\":{\"src_ip\":\"1.2.3.4\"}}"]);
    let query = parse("rule_id == r1");
    let (rc, out) = render(&records, &query);
    assert_eq!(rc, 0);
    assert!(out.contains("\"src_ip\":\"1.2.3.4\""), "got: {out}");
}

#[test]
fn run_query_select_projects_nested_fields() {
    let records = records(&["{\"rule_id\":\"r1\",\"level\":\"low\",\"event\":{\"src_ip\":\"1.2.3.4\"}}"]);
    let query = parse("SELECT rule_id,src_ip WHERE rule_id == r1");
    let (rc, out) = render(&records, &query);
    assert_eq!(rc, 0);
    assert!(out.contains("\"rule_id\":\"r1\""));
    assert!(out.contains("\"src_ip\":\"1.2.3.4\""), "got: {out}");
}

#[test]
fn run_query_no_match_returns_1() {
    let records = records(&["{\"rule_id\":\"r1\",\"level\":\"low\"}"]);
    let query = parse("rule_id == nonexistent");
    let (rc, out) = render(&records, &query);
    assert_eq!(rc, 1);
    assert!(out.is_empty());
}

#[test]
fn run_query_limit_caps_row_output() {
    let records: Vec<Json> =
        (0..5).map(|i| Json::parse(&format!("{{\"rule_id\":\"r{i}\"}}")).unwrap()).collect();
    let query = parse("LIMIT 2");
    let (rc, out) = render(&records, &query);
    assert_eq!(rc, 0);
    assert_eq!(out.lines().count(), 2);
}

#[test]
fn run_query_group_by_counts_per_rule() {
    let records =
        records(&["{\"rule_id\":\"r1\"}", "{\"rule_id\":\"r1\"}", "{\"rule_id\":\"r2\"}"]);
    let query = parse("GROUP BY rule_id");
    let (rc, out) = render(&records, &query);
    assert_eq!(rc, 0);
    assert!(out.contains(r#"{"rule_id":"r1","count":2}"#), "got: {out}");
    assert!(out.contains(r#"{"rule_id":"r2","count":1}"#), "got: {out}");
}

#[test]
fn run_query_type_correlated_filters_to_correlated_alerts_only() {
    let files = [
        ("data/alerts/2026/07/01/14/alerts.jsonl", ruled_alert("sudo-execution", "low", "10.0.0.1")),
        ("data/alerts/correlated/2026/07/01/14/correlated.jsonl", correlated_alert("cred-guess", "10.0.0.1")),
    ];
    let records = load_alerts(&files, None, None);
    let query = parse("type == correlated");
    let (rc, out) = render(&records, &query);
    assert_eq!(rc, 0);
    assert!(out.contains("cred-guess"));
    assert!(!out.contains("sudo-execution"), "got: {out}");
}

#[test]
fn run_query_group_by_type_separates_shapes() {
    let ruled = ruled_alert("r1", "low", "10.0.0.1") + &ruled_alert("r2", "low", "10.0.0.1");
    let files = [
        ("data/alerts/2026/07/01/14/alerts.jsonl", ruled),
        ("data/alerts/correlated/2026/07/01/14/correlated.jsonl", correlated_alert("c1", "10.0.0.1")),
    ];
    let records = load_alerts(&files, None, None);
    let query = parse("GROUP BY type");
    let (rc, out) = render(&records, &query);
    assert_eq!(rc, 0);
    assert!(out.contains(r#"{"type":"ruled","count":2}"#), "got: {out}");
    assert!(out.contains(r#"{"type":"correlated","count":1}"#), "got: {out}");
}

#[test]
fn ack_appends_and_creates_the_alerts_dir() {
    let content = ack_line("1001-ssh-brute-force", 1000, Some("known pattern"))
        + "\n"
        + &ack_line("1004-suspicious-ssh", 2000, None)
        + "\n";
    let lines: Vec<&str> = content.lines().collect();
    assert_eq!(lines.len(), 2);
    let first = Json::parse(lines[0]).unwrap();
    assert_eq!(text(&first, "rule_id"), "1001-ssh-brute-force");
    assert_eq!(first.get_int("timestamp"), Some(1000));
    assert_eq!(text(&first, "note"), "known pattern");
    let second = Json::parse(lines[1]).unwrap();
    assert_eq!(text(&second, "rule_id"), "1004-suspicious-ssh");
    assert!(second.get("note").is_none());
}

fn acks(entries: &[(&str, i64)]) -> String {
    entries.iter().map(|(r, t)| ack_line(r, *t, None) + "\n").collect()
}

#[test]
fn load_ack_watermarks_uses_the_latest_timestamp_per_rule() {
    let watermarks = load_ack_watermarks(&acks(&[("r1", 1000), ("r1", 3000), ("r1", 2000), ("r2", 500)]));
    assert_eq!(watermarks.get("r1"), Some(3000));
    assert_eq!(watermarks.get("r2"), Some(500));
    assert_eq!(watermarks.get("r3"), None);
}

#[test]
fn load_ack_watermarks_missing_file_is_empty() {
    assert_eq!(load_ack_watermarks("").get("r1"), None);
}

#[test]
fn filter_acked_hides_at_or_before_watermark_shows_after() {
    let mut records = records(&[
        "{\"rule_id\":\"r1\",\"timestamp\":1000}",
        "{\"rule_id\":\"r1\",\"timestamp\":999}",
        "{\"rule_id\":\"r1\",\"timestamp\":1001}",
        "{\"rule_id\":\"r2\",\"timestamp\":1}",
    ]);
    let mut watermarks = Watermarks::new();
    watermarks.raise("r1", 1000);
    filter_acked(&mut records, &watermarks);
    let remaining: Vec<i64> = records.iter().map(|r| r.get_int("timestamp").unwrap()).collect();
    assert_eq!(remaining, vec![1001, 1]);
}

#[test]
fn filter_acked_never_touches_correlated_alerts() {
    let mut records = records(&[
        "{\"correlation_id\":\"c1\",\"chain_end\":1,\"sample_events\":[{\"src_ip\":\"10.0.0.1\"}]}",
    ]);
    let mut watermarks = Watermarks::new();
    watermarks.raise("c1", i64::MAX);
    filter_acked(&mut records, &watermarks);
    assert_eq!(records.len(), 1);
}

#[test]
fn ack_then_filter_round_trip_via_load_alerts() {
    let files = [("data/alerts/2026/07/01/14/alerts.jsonl", ruled_alert("r1", "low", "10.0.0.1"))];
    let watermarks = load_ack_watermarks(&acks(&[("r1", 1783026390)]));
    let mut records = load_alerts(&files, None, None);
    filter_acked(&mut records, &watermarks);
    assert!(records.is_empty(), "acked alert should be hidden by default");
    let unfiltered = load_alerts(&files, None, None);
    assert_eq!(unfiltered.len(), 1);
}

fn ack_lines(entries: &[(&str, i64)]) -> String {
    entries
        .iter()
        .map(|(rule_id, ts)| format!(r#"{{"rule_id":"{rule_id}","timestamp":{ts}}}"#) + "\n")
        .collect()
}

#[test]
fn compact_ack_log_drops_only_stale_lines() {
    let (dropped, log) = compact_ack_log(&ack_lines(&[("r1", 100), ("r2", 5000), ("r3", 200)]), 1000, false);
    assert_eq!(dropped, 2);
    match log {
        AckLog::Write(remaining) => {
            let lines: Vec<&str> = remaining.lines().collect();
            assert_eq!(lines.len(), 1);
            assert!(lines[0].contains("\"r2\""));
        }
        _ => panic!("the log is rewritten"),
    }
}

#[test]
fn compact_ack_log_dry_run_reports_but_does_not_rewrite() {
    let (dropped, log) = compact_ack_log(&ack_lines(&[("r1", 100), ("r2", 5000)]), 1000, true);
    assert_eq!(dropped, 1);
    assert!(matches!(log, AckLog::Keep), "dry run must not modify the file");
}

#[test]
fn compact_ack_log_removes_the_file_when_nothing_survives() {
    let (dropped, log) = compact_ack_log(&ack_lines(&[("r1", 100), ("r2", 200)]), 1000, false);
    assert_eq!(dropped, 2);
    assert!(matches!(log, AckLog::Remove));
}

#[test]
fn compact_ack_log_missing_file_is_a_no_op() {
    let (dropped, log) = compact_ack_log("", 1000, false);
    assert_eq!(dropped, 0);
    assert!(matches!(log, AckLog::Keep));
}

#[test]
fn compact_ack_log_keeps_lines_with_unparseable_or_missing_timestamp() {
    let content = "not json\n{\"rule_id\":\"r1\"}\n{\"rule_id\":\"r2\",\"timestamp\":100}\n";
    let (dropped, log) = compact_ack_log(content, 1000, false);
    assert_eq!(dropped, 1);
    match log {
        AckLog::Write(remaining) => assert_eq!(remaining.lines().count(), 2),
        _ => panic!("the log is rewritten"),
    }
}

#[test]
fn compaction_keeps_what_still_counts() {
    let content = acks(&[("r1", 100), ("r1", 3000), ("r2", 5000)]);
    let before = load_ack_watermarks(&content);
    match compact_ack_log(&content, 1000, false).1 {
        AckLog::Write(kept) => {
            let after = load_ack_watermarks(&kept);
            assert_eq!(after.get("r1"), before.get("r1"));
            assert_eq!(after.get("r2"), before.get("r2"));
        }
        _ => panic!("the log is rewritten"),
    }
}

#[test]
fn only_correlated_alerts_are_kept() {
    let mut all = records(&[
        "{\"type\":\"ruled\",\"rule_id\":\"a\"}",
        "{\"type\":\"correlated\",\"correlation_id\":\"b\"}",
        "{\"rule_id\":\"c\"}",
    ]);
    keep_correlated(&mut all);
    assert_eq!(all.len(), 1);
    assert_eq!(text(&all[0], "correlation_id"), "b");
}

#[test]
fn an_acknowledgement_is_written_in_order_of_its_names() {
    assert_eq!(
        ack_line("r\"1", 7, Some("why")),
        "{\"note\":\"why\",\"rule_id\":\"r\\\"1\",\"timestamp\":7}"
    );
}

#[test]
fn conditions_look_into_events() {
    let all = records(&[
        "{\"rule_id\":\"r1\",\"event\":{\"src_ip\":\"10.1.2.3\",\"port\":22}}",
        "{\"correlation_id\":\"c1\",\"sample_events\":[{\"src_ip\":\"192.168.0.9\"}]}",
    ]);
    assert_eq!(render(&all, &parse("cidr_match(src_ip,'10.0.0.0/8')")).1.lines().count(), 1);
    assert_eq!(render(&all, &parse("startswith(src_ip,'192')")).1.lines().count(), 1);
    assert_eq!(render(&all, &parse("port == 22")).1.lines().count(), 1);
    assert_eq!(render(&all, &parse("any(rule_id)")).1.lines().count(), 1);
    assert_eq!(render(&all, &parse("raw_contains('sample_events')")).1.lines().count(), 1);
    assert_eq!(render(&all, &parse("NOT any(rule_id)")).1.lines().count(), 1);
}

#[test]
fn an_open_side_reaches_every_alert() {
    let files = [
        ("data/alerts/1999/12/31/23/alerts.jsonl", ruled_alert("old", "low", "10.0.0.1")),
        ("data/alerts/2026/07/01/19/alerts.jsonl", ruled_alert("new", "low", "10.0.0.1")),
        ("data/alerts/correlated/2100/01/01/00/correlated.jsonl", correlated_alert("far", "10.0.0.1")),
    ];
    let bound = HourBucket { year: 2026, month: 7, day: 1, hour: 18 };
    let before = load_alerts(&files, None, Some(bound));
    assert_eq!(before.len(), 1);
    assert_eq!(text(&before[0], "rule_id"), "old");
    let after = load_alerts(&files, Some(bound), None);
    assert_eq!(after.len(), 2);
    assert_eq!(text(&after[0], "rule_id"), "new");
    assert_eq!(text(&after[1], "correlation_id"), "far");
}

#[test]
fn only_objects_are_alerts() {
    let mut out = Vec::new();
    load_records("12\n[1]\n\"x\"\nnull\n{}\n{\"type\":\"other\"}\n", "ruled", &mut out);
    assert_eq!(out.len(), 2);
    assert!(out.iter().all(|r| text(r, "type") == "ruled"));
}

#[test]
fn a_second_compaction_drops_nothing() {
    let content = "{\"timestamp\":5}\n{\"timestamp\":50}\r\r\nnot json\n\r\r\n{\"timestamp\":60}\r";
    let (foretold, log) = compact_ack_log(content, 10, true);
    assert_eq!((foretold, log), (1, AckLog::Keep));
    match compact_ack_log(content, 10, false) {
        (1, AckLog::Write(kept)) => assert_eq!(compact_ack_log(&kept, 10, false), (0, AckLog::Keep)),
        other => panic!("one line is dropped: {other:?}"),
    }
}
