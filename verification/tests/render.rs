use siemctl::render::{json_escape, Format, Record, Renderer, Val};

fn copy(v: &Val) -> Val {
    match v {
        Val::Str(s) => Val::Str(s.clone()),
        Val::Int(n) => Val::Int(*n),
        Val::Real(s) => Val::Real(s.clone()),
        Val::Bool(b) => Val::Bool(*b),
        Val::Null => Val::Null,
    }
}

fn rec(pairs: &[(&str, Val)]) -> Record {
    pairs.iter().map(|(k, v)| (k.to_string(), copy(v))).collect()
}

fn render(format: Format, fields: Option<Vec<String>>, recs: &[Record]) -> String {
    let mut r = Renderer::new(format, fields, None);
    for rc in recs {
        r.emit_record(rc);
    }
    r.flush()
}

fn flds(s: &str) -> Option<Vec<String>> {
    Some(s.split(',').map(String::from).collect())
}

#[test]
fn format_parse_variants() {
    assert_eq!(Format::parse("json"), Ok(Format::Json));
    assert_eq!(Format::parse("tsv"), Ok(Format::Tsv { header: true }));
    assert_eq!(Format::parse("tsv-noheader"), Ok(Format::Tsv { header: false }));
    assert!(Format::parse("yaml").is_err());
}

#[test]
fn json_all_fields_preserves_order_and_types() {
    let r = rec(&[
        ("src_ip", Val::Str("10.0.0.5".into())),
        ("dst_port", Val::Int(22)),
        ("ok", Val::Bool(true)),
        ("note", Val::Null),
    ]);
    let out = render(Format::Json, None, &[r]);
    assert_eq!(
        out,
        "{\"src_ip\":\"10.0.0.5\",\"dst_port\":22,\"ok\":true,\"note\":null}\n"
    );
}

#[test]
fn json_field_selection_orders_by_render_and_nulls_missing() {
    let r = rec(&[
        ("src_ip", Val::Str("10.0.0.5".into())),
        ("username", Val::Str("root".into())),
    ]);
    let out = render(Format::Json, flds("username,absent"), &[r]);
    assert_eq!(out, "{\"username\":\"root\",\"absent\":null}\n");
}

#[test]
fn tsv_with_header_and_selected_fields() {
    let recs = [
        rec(&[("src_ip", Val::Str("10.0.0.1".into())), ("username", Val::Str("a".into()))]),
        rec(&[("src_ip", Val::Str("10.0.0.2".into())), ("username", Val::Str("b".into()))]),
    ];
    let out = render(Format::Tsv { header: true }, flds("src_ip,username"), &recs);
    assert_eq!(out, "src_ip\tusername\n10.0.0.1\ta\n10.0.0.2\tb\n");
}

#[test]
fn tsv_noheader_skips_header_row() {
    let recs = [rec(&[("a", Val::Str("1".into())), ("b", Val::Int(2))])];
    let out = render(Format::Tsv { header: false }, flds("a,b"), &recs);
    assert_eq!(out, "1\t2\n");
}

#[test]
fn tsv_all_fields_uses_first_record_columns() {
    let recs = [
        rec(&[("a", Val::Str("1".into())), ("b", Val::Str("2".into()))]),
        // second record missing "b", extra "c" → only first-row columns shown
        rec(&[("a", Val::Str("3".into())), ("c", Val::Str("9".into()))]),
    ];
    let out = render(Format::Tsv { header: true }, None, &recs);
    assert_eq!(out, "a\tb\n1\t2\n3\t\n");
}

#[test]
fn tsv_neutralizes_embedded_tabs_and_newlines() {
    let recs = [rec(&[("msg", Val::Str("a\tb\nc".into()))])];
    let out = render(Format::Tsv { header: false }, flds("msg"), &recs);
    assert_eq!(out, "a b c\n");
}

#[test]
fn raw_line_passthrough_in_default_json() {
    let mut r = Renderer::new(Format::Json, None, None);
    r.emit_raw_line("{\"z\":1,\"a\":\"x\"}");
    let buf = r.flush();
    // Verbatim: order and formatting preserved exactly, no parse.
    assert_eq!(buf, "{\"z\":1,\"a\":\"x\"}\n");
}

#[test]
fn raw_line_parsed_for_field_selection() {
    let mut r = Renderer::new(Format::Json, flds("a"), None);
    r.emit_raw_line("{\"a\":\"x\",\"b\":2}");
    let buf = r.flush();
    assert_eq!(buf, "{\"a\":\"x\"}\n");
}

#[test]
fn raw_line_parsed_for_tsv() {
    let mut r = Renderer::new(Format::Tsv { header: true }, flds("b,a"), None);
    r.emit_raw_line("{\"a\":\"x\",\"b\":7}");
    let buf = r.flush();
    assert_eq!(buf, "b\ta\n7\tx\n");
}

#[test]
fn unparseable_raw_line_passes_through_json_skipped_tsv() {
    // JSON + render: not an object → passthrough.
    let mut r = Renderer::new(Format::Json, flds("a"), None);
    r.emit_raw_line("not json");
    let buf = r.flush();
    assert_eq!(buf, "not json\n");

    // TSV: nothing to emit.
    let mut r = Renderer::new(Format::Tsv { header: true }, flds("a"), None);
    r.emit_raw_line("not json");
    let buf2 = r.flush();
    assert_eq!(buf2, "");
}

#[test]
fn limit_stops_emission_at_n() {
    let recs: Vec<Record> = (0..5)
        .map(|i| rec(&[("n", Val::Int(i))]))
        .collect();
    let mut r = Renderer::new(Format::Json, None, Some(3));
    for rc in &recs {
        r.emit_record(rc);
    }
    let buf = r.flush();
    let out = buf;
    assert_eq!(out.lines().count(), 3, "expected exactly 3 lines, got:\n{out}");
    assert!(out.contains("\"n\":0") && out.contains("\"n\":2"));
    assert!(!out.contains("\"n\":3"), "should not emit past limit");
}

#[test]
fn limit_larger_than_total_passes_all() {
    let recs: Vec<Record> = (0..3)
        .map(|i| rec(&[("n", Val::Int(i))]))
        .collect();
    let out = render(Format::Json, None, &recs);
    assert_eq!(out.lines().count(), 3);
}

#[test]
fn is_done_reflects_limit() {
    let mut r = Renderer::new(Format::Json, None, Some(2));
    assert!(!r.is_done());
    r.emit_record(&rec(&[("x", Val::Int(1))]));
    assert!(!r.is_done());
    r.emit_record(&rec(&[("x", Val::Int(2))]));
    assert!(r.is_done());
    // emit after done is a no-op
    r.emit_record(&rec(&[("x", Val::Int(3))]));
    let buf = r.flush();
    assert_eq!(buf.lines().count(), 2);
}

#[test]
fn escapes_are_those_of_json() {
    assert_eq!(json_escape("a\"b\\c\n\r\t\u{1}é"), "a\\\"b\\\\c\\n\\r\\t\\u0001é");
}

#[test]
fn unknown_formats_are_named() {
    let m = Format::parse("yaml").unwrap_err();
    assert!(m.contains("yaml"), "got: {m}");
}

#[test]
fn the_header_is_written_once() {
    let recs = [rec(&[("a", Val::Int(1))]), rec(&[("a", Val::Int(2))]), rec(&[("a", Val::Int(3))])];
    assert_eq!(render(Format::Tsv { header: true }, None, &recs), "a\n1\n2\n3\n");
}

#[test]
fn real_numbers_are_written_as_shown() {
    let recs = [rec(&[("x", Val::Real("1.5".to_string()))])];
    assert_eq!(render(Format::Json, None, &recs), "{\"x\":1.5}\n");
}

#[test]
fn nested_values_are_written_as_compact_text() {
    let mut r = Renderer::new(Format::Tsv { header: false }, flds("a,b"), None);
    r.emit_raw_line("{\"a\": {\"z\": [1, 2]}, \"b\": 2.5}");
    assert_eq!(r.flush(), "{\"z\":[1,2]}\t2.5\n");
}
