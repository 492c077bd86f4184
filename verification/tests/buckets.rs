use rusqlite::functions::FunctionFlags;
use rusqlite::types::ValueRef;
use rusqlite::{params_from_iter, Connection};
use siemctl::buckets::{emit_row, fold_group_row, hits_exit_code, index_buckets, is_benign};
use siemctl::buckets::{is_bucket_outside, next_attempt, raw_contains, raw_line_read, raw_path};
use siemctl::buckets::{raw_place, row_to_record, search_lines, Cell, RawLine};
use siemctl::buckets::{OPEN_BUCKET_INITIAL_DELAY_MS, OPEN_BUCKET_MAX_ATTEMPTS};
use siemctl::collections::{FieldSet, GroupCounts};
use siemctl::db::cidr_match;
use siemctl::groups::emit_groups;
use siemctl::query::Query;
use siemctl::render::{Format, Renderer};
use siemctl::tail::{tail_line, Follower};
use siemctl::time::HourBucket;
use std::collections::HashMap;
use std::sync::Arc;

/// Raw files by their path.
type Files = Arc<HashMap<String, String>>;

/// The line at an offset of a raw file.
fn resolve_raw_line(files: &Files, raw_file: &str, offset: u64) -> Result<String, String> {
    let path = raw_path("", raw_file)?;
    let content = files.get(&path).ok_or(format!("{path}: no such file"))?;
    let rest = &content[offset as usize..];
    let end = rest.find('\n').map_or(rest.len(), |i| i + 1);
    raw_line_read(&rest[..end], offset, &path)
}

/// A bucket in memory, with the functions that queries call.
fn bucket(files: &Files) -> Connection {
    let conn = Connection::open_in_memory().unwrap();
    conn.create_scalar_function("cidr_match", 2, FunctionFlags::SQLITE_UTF8, |ctx| {
        let ip: String = ctx.get(0)?;
        let cidr: String = ctx.get(1)?;
        Ok(cidr_match(&ip, &cidr))
    })
    .unwrap();
    let files = files.clone();
    conn.create_scalar_function("raw_contains", 3, FunctionFlags::SQLITE_UTF8, move |ctx| {
        let raw_file: String = ctx.get(0)?;
        let offset: i64 = ctx.get(1)?;
        let needle: String = ctx.get(2)?;
        let line = if offset < 0 { None } else { resolve_raw_line(&files, &raw_file, offset as u64).ok() };
        Ok(raw_contains(&line, &needle))
    })
    .unwrap();
    conn
}

fn cell(v: ValueRef) -> Cell {
    match v {
        ValueRef::Null => Cell::Null,
        ValueRef::Integer(n) => Cell::Int(n),
        ValueRef::Real(x) => Cell::Real(x.to_string()),
        ValueRef::Text(b) => Cell::Text {
            shown: String::from_utf8_lossy(b).into_owned(),
            exact: String::from_utf8(b.to_vec()).ok(),
        },
        ValueRef::Blob(_) => Cell::Blob,
    }
}

fn fold(conn: &Connection, sql: &str, params: &[String], n: usize, acc: &mut GroupCounts) {
    let mut stmt = conn.prepare(sql).unwrap();
    let mut rows = stmt.query(params_from_iter(params)).unwrap();
    while let Some(row) = rows.next().unwrap() {
        let cells: Vec<Cell> = (0..n).map(|i| cell(row.get_ref(i).unwrap())).collect();
        let count: i64 = row.get(n).unwrap();
        fold_group_row(&cells, count as u64, acc);
    }
}

fn group(conn: &Connection, fields: &[&str], source: Option<&str>, acc: &mut GroupCounts) {
    let cols = fields.join(", ");
    let (filter, params) = match source {
        Some(s) => (" WHERE source = ?", vec![s.to_string()]),
        None => ("", vec![]),
    };
    let sql = format!("SELECT {cols}, COUNT(*) FROM events{filter} GROUP BY {cols}");
    fold(conn, &sql, &params, fields.len(), acc);
}

fn make_bucket(rows: &[(&str, &str, &str)]) -> Connection {
    let conn = Connection::open_in_memory().unwrap();
    conn.execute_batch("CREATE TABLE events (src_ip TEXT, dst_ip TEXT, source TEXT);").unwrap();
    for (src_ip, dst_ip, source) in rows {
        conn.execute(
            "INSERT INTO events (src_ip, dst_ip, source) VALUES (?1, ?2, ?3)",
            [src_ip, dst_ip, source],
        )
        .unwrap();
    }
    conn
}

fn key(parts: &[&str]) -> Vec<String> {
    parts.iter().map(|s| s.to_string()).collect()
}

#[test]
fn group_single_field_merges_across_buckets() {
    let db1 = make_bucket(&[
        ("10.0.0.1", "a", "sshd"),
        ("10.0.0.1", "b", "sshd"),
        ("10.0.0.2", "c", "sshd"),
    ]);
    let db2 = make_bucket(&[("10.0.0.1", "d", "sshd"), ("10.0.0.3", "e", "sshd")]);
    let mut acc = GroupCounts::new();
    group(&db1, &["src_ip"], None, &mut acc);
    group(&db2, &["src_ip"], None, &mut acc);
    assert_eq!(acc.get(&key(&["10.0.0.1"])), Some(3));
    assert_eq!(acc.get(&key(&["10.0.0.2"])), Some(1));
    assert_eq!(acc.get(&key(&["10.0.0.3"])), Some(1));
    assert_eq!(acc.len(), 3);
}

#[test]
fn group_two_fields_combos_merge() {
    let db1 = make_bucket(&[
        ("10.0.0.1", "192.168.0.1", "sshd"),
        ("10.0.0.1", "192.168.0.1", "sshd"),
        ("10.0.0.1", "192.168.0.2", "sshd"),
    ]);
    let db2 = make_bucket(&[("10.0.0.1", "192.168.0.1", "sshd")]);
    let mut acc = GroupCounts::new();
    group(&db1, &["src_ip", "dst_ip"], None, &mut acc);
    group(&db2, &["src_ip", "dst_ip"], None, &mut acc);
    assert_eq!(acc.get(&key(&["10.0.0.1", "192.168.0.1"])), Some(3));
    assert_eq!(acc.get(&key(&["10.0.0.1", "192.168.0.2"])), Some(1));
    assert_eq!(acc.len(), 2);
}

#[test]
fn group_source_filter_restricts_rows() {
    let db = make_bucket(&[
        ("10.0.0.1", "a", "sshd"),
        ("10.0.0.1", "b", "sudo"),
        ("10.0.0.2", "c", "sshd"),
    ]);
    let mut acc = GroupCounts::new();
    group(&db, &["src_ip"], Some("sshd"), &mut acc);
    assert_eq!(acc.get(&key(&["10.0.0.1"])), Some(1));
    assert_eq!(acc.get(&key(&["10.0.0.2"])), Some(1));
    assert_eq!(acc.len(), 2);
}

#[test]
fn group_null_value_becomes_empty_key() {
    let conn = Connection::open_in_memory().unwrap();
    conn.execute_batch("CREATE TABLE events (src_ip TEXT, source TEXT);").unwrap();
    conn.execute("INSERT INTO events (src_ip, source) VALUES (NULL, 'sshd')", []).unwrap();
    conn.execute("INSERT INTO events (src_ip, source) VALUES ('10.0.0.1', 'sshd')", []).unwrap();
    let mut acc = GroupCounts::new();
    group(&conn, &["src_ip"], None, &mut acc);
    assert_eq!(acc.get(&key(&[""])), Some(1));
    assert_eq!(acc.get(&key(&["10.0.0.1"])), Some(1));
}

fn one_file(name: &str, content: &str) -> Files {
    Arc::new(HashMap::from([(name.to_string(), content.to_string())]))
}

#[test]
fn resolve_raw_line_first_line() {
    let files = one_file("test.jsonl", "{\"a\":1}\n{\"b\":2}\n");
    assert_eq!(resolve_raw_line(&files, "test.jsonl", 0).unwrap(), "{\"a\":1}");
}

#[test]
fn resolve_raw_line_second_line() {
    let line1 = "{\"timestamp\":\"Jun 22 08:55:01\",\"src_ip\":\"10.0.0.1\"}\n";
    let line2 = "{\"timestamp\":\"Jun 22 08:55:02\",\"src_ip\":\"10.0.0.2\"}\n";
    let files = one_file("sshd.jsonl", &format!("{}{}", line1, line2));
    let result = resolve_raw_line(&files, "sshd.jsonl", line1.len() as u64).unwrap();
    assert_eq!(result, line2.trim_end_matches(['\n', '\r']));
}

#[test]
fn resolve_raw_line_empty_raw_file_returns_err() {
    let err = resolve_raw_line(&one_file("x", ""), "", 0).unwrap_err();
    assert!(err.contains("no raw_file"), "got: {err}");
}

#[test]
fn resolve_raw_line_missing_file_returns_err() {
    let err = resolve_raw_line(&one_file("x", ""), "nonexistent.jsonl", 0).unwrap_err();
    assert!(err.contains("nonexistent.jsonl"), "got: {err}");
}

#[test]
fn resolve_raw_line_crlf_line_stripped() {
    let files = one_file("crlf.jsonl", "{\"x\":1}\r\n");
    assert_eq!(resolve_raw_line(&files, "crlf.jsonl", 0).unwrap(), "{\"x\":1}");
}

#[test]
fn an_empty_line_is_reported() {
    assert_eq!(
        raw_line_read("\r\n", 7, "data/raw/a.jsonl").unwrap_err(),
        "empty line at offset 7 in data/raw/a.jsonl"
    );
    assert_eq!(raw_path("data", "raw/a.jsonl").unwrap(), "data/raw/a.jsonl");
}

fn make_udf_bucket() -> Connection {
    let lines = [
        "{\"src_ip\":\"10.0.0.1\",\"msg\":\"Failed password for root\"}\n",
        "{\"src_ip\":\"192.168.1.5\",\"msg\":\"Accepted publickey\"}\n",
    ];
    let conn = bucket(&one_file("raw/sshd.jsonl", &lines.concat()));
    conn.execute_batch("CREATE TABLE events (src_ip TEXT, raw_file TEXT, byte_offset INTEGER);").unwrap();
    for (ip, offset) in [("10.0.0.1", 0), ("192.168.1.5", lines[0].len())] {
        conn.execute(
            "INSERT INTO events (src_ip, raw_file, byte_offset) VALUES (?1, ?2, ?3)",
            (ip, "raw/sshd.jsonl", offset as i64),
        )
        .unwrap();
    }
    conn
}

fn scalar_count(conn: &Connection, sql: &str, param: &str) -> i64 {
    conn.query_row(sql, [param], |r| r.get(0)).unwrap()
}

const HOLDS: &str = "SELECT COUNT(*) FROM events WHERE raw_contains(raw_file, byte_offset, ?)";
const LIES_IN: &str = "SELECT COUNT(*) FROM events WHERE cidr_match(src_ip, ?)";

#[test]
fn raw_contains_matches_and_misses() {
    let conn = make_udf_bucket();
    assert_eq!(scalar_count(&conn, HOLDS, "Failed password"), 1);
    assert_eq!(scalar_count(&conn, HOLDS, "src_ip"), 2);
    assert_eq!(scalar_count(&conn, HOLDS, "nonexistent-needle"), 0);
}

#[test]
fn raw_contains_missing_file_returns_false() {
    let conn = bucket(&one_file("raw/other.jsonl", "anything\n"));
    conn.execute_batch(
        "CREATE TABLE events (raw_file TEXT, byte_offset INTEGER);
         INSERT INTO events VALUES ('raw/missing.jsonl', 0);
         INSERT INTO events VALUES ('', 0);",
    )
    .unwrap();
    assert_eq!(scalar_count(&conn, HOLDS, "anything"), 0);
}

#[test]
fn cidr_match_udf_filters_by_range() {
    let conn = make_udf_bucket();
    assert_eq!(scalar_count(&conn, LIES_IN, "10.0.0.0/8"), 1);
    assert_eq!(scalar_count(&conn, LIES_IN, "0.0.0.0/0"), 2);
    assert_eq!(scalar_count(&conn, LIES_IN, "bogus"), 0);
}

/// Opens with pauses between attempts: the attempts made and the pauses.
fn attempts(max_attempts: u32, first_delay: u64, fails: u32, cannot_open: bool) -> (u32, Vec<u64>) {
    let mut delay = first_delay;
    let mut pauses = Vec::new();
    let mut attempt = 1;
    while attempt <= fails {
        match next_attempt(attempt, max_attempts, delay, cannot_open) {
            Some((pause, next)) => {
                pauses.push(pause);
                delay = next;
                attempt += 1;
            }
            None => return (attempt, pauses),
        }
    }
    (attempt, pauses)
}

#[test]
fn open_bucket_conn_retries_transient_cantopen_then_succeeds() {
    let made = attempts(OPEN_BUCKET_MAX_ATTEMPTS, OPEN_BUCKET_INITIAL_DELAY_MS, 1, true);
    assert_eq!(made, (2, vec![200]));
}

#[test]
fn open_bucket_conn_gives_up_after_max_attempts_on_persistent_cantopen() {
    assert_eq!(attempts(3, 5, 100, true), (3, vec![5, 10]));
}

#[test]
fn other_errors_are_not_tried_again() {
    assert_eq!(attempts(3, 5, 100, false), (1, vec![]));
}

// ── Queries over several buckets ────────────────────────────────────────────

struct Index {
    files: Files,
    buckets: Vec<(String, Connection)>,
}

/// Buckets of `(source, src_ip, message)` rows, whose lines stand in one raw file.
fn build_index(buckets: &[(&str, &[(&str, &str, &str)])]) -> Index {
    let mut content = String::new();
    let mut offsets = Vec::new();
    for (_, rows) in buckets {
        for (source, src_ip, msg) in rows.iter() {
            offsets.push(content.len() as i64);
            content.push_str(&format!(
                "{{\"source\":\"{source}\",\"src_ip\":\"{src_ip}\",\"msg\":\"{msg}\"}}\n"
            ));
        }
    }
    let files = one_file("raw/sshd.jsonl", &content);
    let mut made = Vec::new();
    let mut next = 0;
    for (name, rows) in buckets {
        let conn = bucket(&files);
        conn.execute_batch(
            "CREATE TABLE events (source TEXT, src_ip TEXT, raw_file TEXT, byte_offset INTEGER);",
        )
        .unwrap();
        for (source, src_ip, _) in rows.iter() {
            conn.execute(
                "INSERT INTO events (source, src_ip, raw_file, byte_offset) VALUES (?1,?2,?3,?4)",
                (source, src_ip, "raw/sshd.jsonl", offsets[next]),
            )
            .unwrap();
            next += 1;
        }
        made.push((format!("{name}.db"), conn));
    }
    Index { files, buckets: made }
}

fn run_query(index: &Index, q: &Query) -> (i32, String) {
    let mut r = Renderer::new(Format::Json, None, q.limit);
    let (sql, params) = q.to_sql();
    let mut acc = GroupCounts::new();
    let mut hits = 0;
    for (name, conn) in &index.buckets {
        if q.bucket_pruned(name) {
            continue;
        }
        if let Some(fields) = &q.group_by {
            fold(conn, &sql, &params, fields.len(), &mut acc);
            continue;
        }
        let mut stmt = conn.prepare(&sql).unwrap();
        let cols: Vec<String> = stmt.column_names().iter().map(|c| c.to_string()).collect();
        let mut rows = stmt.query(params_from_iter(&params)).unwrap();
        while let Some(row) = rows.next().unwrap() {
            let cells: Vec<Cell> = (0..cols.len()).map(|i| cell(row.get_ref(i).unwrap())).collect();
            let line = match raw_place(&cols, &cells) {
                None => RawLine::Unknown,
                Some((_, offset)) if offset < 0 => RawLine::NoOffset,
                Some((file, offset)) => match resolve_raw_line(&index.files, &file, offset as u64) {
                    Ok(l) => RawLine::Found(l),
                    Err(m) => RawLine::Lost(m),
                },
            };
            assert_eq!(emit_row(&cols, &cells, &line, &mut r), None);
            hits += 1;
            if r.is_done() {
                break;
            }
        }
    }
    let rc = match &q.group_by {
        Some(fields) => emit_groups(&acc, fields, &mut r),
        None => hits_exit_code(hits),
    };
    (rc, r.flush())
}

fn run(index: &Index, dsl: &str) -> (i32, String) {
    run_query(index, &Query::parse(dsl, &FieldSet::new()).unwrap())
}

#[test]
fn exec_multi_condition_and_resolves_raw_lines() {
    let index = build_index(&[(
        "2026-06-22-08",
        &[
            ("sshd", "10.0.0.1", "Failed password for root"),
            ("sshd", "10.0.0.2", "Accepted publickey"),
            ("sudo", "10.0.0.3", "Failed password attempt"),
        ],
    )]);
    let (rc, out) = run(&index, "source == sshd AND raw_contains('Failed')");
    assert_eq!(rc, 0);
    let lines: Vec<&str> = out.lines().collect();
    assert_eq!(lines.len(), 1, "only the sshd+Failed row, got: {out}");
    assert!(lines[0].contains("10.0.0.1"));
}

#[test]
fn exec_field_plus_text() {
    let index = build_index(&[(
        "2026-06-22-08",
        &[("sshd", "10.0.0.1", "Failed password"), ("sshd", "10.0.0.2", "Failed password")],
    )]);
    let (rc, out) = run(&index, "src_ip == 10.0.0.2 AND raw_contains('Failed')");
    assert_eq!(rc, 0);
    assert_eq!(out.lines().count(), 1);
    assert!(out.contains("10.0.0.2"));
}

#[test]
fn exec_filter_then_group() {
    let index = build_index(&[(
        "2026-06-22-08",
        &[
            ("sshd", "10.0.0.1", "a"),
            ("sshd", "10.0.0.1", "b"),
            ("sshd", "10.0.0.2", "c"),
            ("sudo", "10.0.0.1", "d"),
        ],
    )]);
    let (rc, out) = run(&index, "source == sshd GROUP BY src_ip");
    assert_eq!(rc, 0);
    let lines: Vec<&str> = out.lines().collect();
    assert_eq!(lines.len(), 2);
    assert!(lines[0].contains("10.0.0.1") && lines[0].contains("\"count\":2"));
    assert!(lines[1].contains("10.0.0.2") && lines[1].contains("\"count\":1"));
}

#[test]
fn exec_group_merges_across_buckets() {
    let index = build_index(&[
        ("2026-06-22-08", &[("sshd", "10.0.0.1", "a"), ("sshd", "10.0.0.1", "b")]),
        ("2026-06-22-09", &[("sshd", "10.0.0.1", "c"), ("sshd", "10.0.0.2", "d")]),
    ]);
    let (rc, out) = run(&index, "GROUP BY src_ip");
    assert_eq!(rc, 0);
    let lines: Vec<&str> = out.lines().collect();
    assert!(lines[0].contains("10.0.0.1") && lines[0].contains("\"count\":3"));
    assert!(lines.iter().any(|l| l.contains("10.0.0.2") && l.contains("\"count\":1")));
}

#[test]
fn exec_after_prunes_buckets() {
    let index = build_index(&[
        ("2026-06-22-08", &[("sshd", "10.0.0.1", "early")]),
        ("2026-06-22-10", &[("sshd", "10.0.0.2", "late")]),
    ]);
    let mut q = Query::parse("any(src_ip)", &FieldSet::new()).unwrap();
    q.after = Some(HourBucket::parse("2026-06-22T09").unwrap());
    let (_, out) = run_query(&index, &q);
    assert!(out.contains("late") && !out.contains("early"), "got: {out}");
}

#[test]
fn exec_no_match_returns_1() {
    let index = build_index(&[("2026-06-22-08", &[("sshd", "10.0.0.1", "x")])]);
    let (rc, out) = run(&index, "src_ip == 9.9.9.9");
    assert_eq!(rc, 1);
    assert!(out.is_empty());
}

#[test]
fn conditions_select_the_same_rows_in_a_bucket() {
    let index = build_index(&[(
        "2026-06-22-08",
        &[("sshd", "10.0.0.1", "a"), ("sudo", "172.16.0.9", "b"), ("cron", "", "c")],
    )]);
    for (dsl, hits) in [
        ("startswith(src_ip,'10.')", 1),
        ("endswith(src_ip,'.9')", 1),
        ("contains(source,'S')", 2),
        ("cidr_match(src_ip,'172.16.0.0/12')", 1),
        ("any(src_ip)", 2),
        ("NOT any(src_ip)", 1),
        ("source != cron", 2),
        ("source == sshd OR (source == cron AND NOT any(src_ip))", 2),
        ("LIMIT 2", 2),
    ] {
        assert_eq!(run(&index, dsl).1.lines().count(), hits, "{dsl}");
    }
}

#[test]
fn a_row_stands_in_for_a_lost_line() {
    let cols = key(&["src_ip", "byte_offset", "size"]);
    let text = |s: &str| Cell::Text { shown: s.to_string(), exact: Some(s.to_string()) };
    let cells = vec![text("10.0.0.1"), Cell::Int(-1), Cell::Real("1.5".to_string())];
    let mut r = Renderer::new(Format::Json, None, None);
    let lost = RawLine::Lost("a: gone".to_string());
    assert_eq!(
        emit_row(&cols, &cells, &lost, &mut r).unwrap(),
        "siemctl: --full retrieval failed (a: gone); showing index row"
    );
    assert_eq!(r.flush(), "{\"src_ip\":\"10.0.0.1\",\"byte_offset\":-1,\"size\":1.5}\n");
    assert_eq!(
        emit_row(&cols, &cells, &RawLine::NoOffset, &mut r).unwrap(),
        "siemctl: --full: no raw_file/offset in this row (pre-T5 index?); showing index row"
    );
    assert_eq!(emit_row(&cols, &cells, &RawLine::Unknown, &mut r), None);
    assert_eq!(r.emitted(), 3);
    assert_eq!(row_to_record(&cols, &cells).len(), 3);
    assert_eq!(raw_place(&cols, &cells), None);
    let placed = vec![text("raw/x"), Cell::Null];
    assert_eq!(raw_place(&key(&["raw_file", "byte_offset"]), &placed), Some(("raw/x".to_string(), -1)));
}

#[test]
fn cells_as_text() {
    assert_eq!(Cell::Null.to_text(), "");
    assert_eq!(Cell::Blob.to_text(), "");
    assert_eq!(Cell::Int(-7).to_text(), "-7");
    assert_eq!(Cell::Real("0.25".to_string()).to_text(), "0.25");
}

#[test]
fn the_index_is_sorted_or_missing() {
    assert_eq!(
        index_buckets(&Some(key(&["b.db", "a.db", "c.db"]))).unwrap(),
        key(&["a.db", "b.db", "c.db"])
    );
    assert_eq!(
        index_buckets(&None).unwrap_err(),
        "no index directory found — run 'indexd' to build the index first, \
         or use --raw for a direct raw-file scan"
    );
    assert_eq!(
        index_buckets(&Some(vec![])).unwrap_err(),
        "index directory exists but contains no buckets — run 'indexd' to index \
         your logs, or use --raw for a direct raw-file scan"
    );
}

#[test]
fn absent_columns_are_no_fault() {
    let conn = make_bucket(&[]);
    let column = conn.prepare("SELECT nope FROM events").unwrap_err().to_string();
    let table = conn.prepare("SELECT 1 FROM nowhere").unwrap_err().to_string();
    let syntax = conn.prepare("SELEC").unwrap_err().to_string();
    assert!(is_benign(&column) && is_benign(&table) && !is_benign(&syntax));
}

#[test]
fn buckets_outside_a_range_are_skipped() {
    let hour = |s: &str| HourBucket::parse(s);
    let (after, before) = (hour("2026-06-22T09"), hour("2026-06-22T11"));
    for (name, outside) in [
        ("2026-06-22-08.db", true),
        ("2026-06-22-09.db", false),
        ("2026-06-22-11.db", false),
        ("2026-06-22-12.db", true),
        ("notes.db", false),
    ] {
        assert_eq!(is_bucket_outside(name, after, before), outside, "{name}");
    }
}

#[test]
fn raw_lines_are_searched() {
    let lines = key(&["{\"a\":1}", "", "plain text", "{\"a\":2}"]);
    let mut r = Renderer::new(Format::Json, None, None);
    assert!(search_lines(&lines, &Some("\"a\"".to_string()), &mut r));
    assert_eq!(r.flush(), "{\"a\":1}\n{\"a\":2}\n");
    assert!(!search_lines(&lines, &Some("absent".to_string()), &mut r));
    assert_eq!(r.flush(), "");
    let mut r = Renderer::new(Format::Json, None, Some(1));
    assert!(search_lines(&lines, &None, &mut r));
    assert_eq!(r.emitted(), 1);
}

#[test]
fn tailed_lines_lose_their_end() {
    assert_eq!(tail_line("abc\n"), Some("abc".to_string()));
    assert_eq!(tail_line("abc\r\n"), Some("abc".to_string()));
    assert_eq!(tail_line("\n"), Some("".to_string()));
    assert_eq!(tail_line("half a li"), None);
}

#[test]
fn files_are_followed_from_their_end() {
    let mut f = Follower::new(&key(&["b", "a"]), &vec![7, 3]);
    assert_eq!((f.place_of("a"), f.place_of("b"), f.place_of("c")), (3, 7, 0));
    f.discover(&key(&["a", "c"]));
    assert_eq!(f.paths(), key(&["a", "b", "c"]));
    assert_eq!((f.place_of("a"), f.place_of("b"), f.place_of("c")), (3, 7, 0));
    assert_eq!(f.take_line("a", "\u{e9}t\u{e9}\r\n"), Some("\u{e9}t\u{e9}".to_string()));
    assert_eq!(f.place_of("a"), 10);
    assert_eq!(f.take_line("a", "half"), None);
    assert_eq!(f.take_line("c", "x\n"), Some("x".to_string()));
    assert_eq!((f.place_of("a"), f.place_of("c")), (10, 2));
}
