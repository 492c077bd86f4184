use siemctl::collections::FieldSet;
use siemctl::db::MatchMode;
use siemctl::query::{Condition, Expr, Query};

fn parse(dsl: &str) -> Result<Query, String> {
    Query::parse(dsl, &FieldSet::new())
}

fn cond_field(field: &str, value: &str, mode: MatchMode) -> Expr {
    Expr::Cond(Condition::Field { field: field.into(), value: value.into(), mode })
}

#[test]
fn optional_where_and_quotes_equivalent() {
    let a = parse("WHERE app_name == 'apache'").unwrap();
    let b = parse("app_name == apache").unwrap();
    let c = parse("'app_name' = \"apache\"").unwrap();
    let expected = Some(cond_field("app_name", "apache", MatchMode::Exact));
    assert_eq!(a.expr, expected);
    assert_eq!(b.expr, expected);
    assert_eq!(c.expr, expected);
}

#[test]
fn and_binds_tighter_than_or() {
    // A AND B OR C  =>  (A AND B) OR C
    let q = parse("a == 1 AND b == 2 OR c == 3").unwrap();
    let expected = Expr::Or(
        Box::new(Expr::And(
            Box::new(cond_field("a", "1", MatchMode::Exact)),
            Box::new(cond_field("b", "2", MatchMode::Exact)),
        )),
        Box::new(cond_field("c", "3", MatchMode::Exact)),
    );
    assert_eq!(q.expr, Some(expected));
}

#[test]
fn parens_override_precedence() {
    let q = parse("a == 1 AND (b == 2 OR c == 3)").unwrap();
    let expected = Expr::And(
        Box::new(cond_field("a", "1", MatchMode::Exact)),
        Box::new(Expr::Or(
            Box::new(cond_field("b", "2", MatchMode::Exact)),
            Box::new(cond_field("c", "3", MatchMode::Exact)),
        )),
    );
    assert_eq!(q.expr, Some(expected));
}

#[test]
fn not_and_neq() {
    assert_eq!(
        parse("NOT a == 1").unwrap().expr,
        Some(Expr::Not(Box::new(cond_field("a", "1", MatchMode::Exact))))
    );
    assert_eq!(
        parse("a != 1").unwrap().expr,
        Some(cond_field("a", "1", MatchMode::NotExact))
    );
    assert_eq!(
        parse("a <> 1").unwrap().expr,
        Some(cond_field("a", "1", MatchMode::NotExact))
    );
}

#[test]
fn functions_map_to_conditions() {
    assert_eq!(parse("startswith(x,'v')").unwrap().expr, Some(cond_field("x", "v", MatchMode::StartsWith)));
    assert_eq!(parse("endswith(x,'v')").unwrap().expr, Some(cond_field("x", "v", MatchMode::EndsWith)));
    assert_eq!(parse("contains(x,'v')").unwrap().expr, Some(cond_field("x", "v", MatchMode::Contains)));
    assert_eq!(parse("any(x)").unwrap().expr, Some(cond_field("x", "", MatchMode::Any)));
    assert_eq!(parse("cidr_match(src_ip,'10.0.0.0/8')").unwrap().expr, Some(cond_field("src_ip", "10.0.0.0/8", MatchMode::Cidr)));
    assert_eq!(
        parse("raw_contains('GET HTTPS')").unwrap().expr,
        Some(Expr::Cond(Condition::Text { needle: "GET HTTPS".into() }))
    );
}

#[test]
fn group_by_and_limit() {
    let q = parse("a == 1 GROUP BY dst_ip, url LIMIT 5").unwrap();
    assert_eq!(q.group_by, Some(vec!["dst_ip".to_string(), "url".to_string()]));
    assert_eq!(q.limit, Some(5));
    assert!(q.expr.is_some());
}

#[test]
fn empty_and_group_only_match_all() {
    assert_eq!(parse("").unwrap().expr, None);
    let q = parse("GROUP BY src_ip").unwrap();
    assert_eq!(q.expr, None);
    assert_eq!(q.group_by, Some(vec!["src_ip".to_string()]));
}

#[test]
fn design_doc_example_tree() {
    // From §5.1 — AND binds tighter than OR.
    let dsl = "source == 'unifi' AND app_name == 'apache' \
               AND raw_contains('GET HTTPS') \
               OR cidr_match('src_ip','10.0.0.0/8') \
               GROUP BY dst_ip, url";
    let q = parse(dsl).unwrap();
    let left = Expr::And(
        Box::new(Expr::And(
            Box::new(cond_field("source", "unifi", MatchMode::Exact)),
            Box::new(cond_field("app_name", "apache", MatchMode::Exact)),
        )),
        Box::new(Expr::Cond(Condition::Text { needle: "GET HTTPS".into() })),
    );
    let expected = Expr::Or(
        Box::new(left),
        Box::new(cond_field("src_ip", "10.0.0.0/8", MatchMode::Cidr)),
    );
    assert_eq!(q.expr, Some(expected));
    assert_eq!(q.group_by, Some(vec!["dst_ip".to_string(), "url".to_string()]));
}


#[test]
fn error_unknown_function() {
    assert!(parse("frobnicate(x,'v')").unwrap_err().contains("unknown function"));
}

#[test]
fn error_bad_identifier() {
    // is_sql_ident rejects a leading digit.
    assert!(parse("1bad == x").unwrap_err().contains("invalid field name"));
}

#[test]
fn error_unknown_field_when_valid_set_nonempty() {
    let mut valid = FieldSet::new();
    valid.insert("src_ip");
    let err = Query::parse("dst_ip == 1", &valid).unwrap_err();
    assert!(err.contains("unknown field 'dst_ip'"), "got: {err}");
}

#[test]
fn error_wrong_arity() {
    assert!(parse("any(a,b)").unwrap_err().contains("expects 1"));
    assert!(parse("startswith(a)").unwrap_err().contains("expects 2"));
}

#[test]
fn error_dangling_operator_and_unbalanced_parens() {
    assert!(parse("a ==").is_err());
    assert!(parse("(a == 1").is_err());
    assert!(parse("a == 1)").is_err());
}

#[test]
fn error_bad_cidr_literal() {
    assert!(parse("cidr_match(src_ip,'10.0.0.0/99')").is_err());
    assert!(parse("cidr_match(src_ip,'not-a-cidr')").is_err());
}


fn sql_of(dsl: &str) -> (String, Vec<String>) {
    parse(dsl).unwrap().to_sql()
}

#[test]
fn compile_single_field() {
    let (sql, params) = sql_of("src_ip == 10.0.0.5");
    assert_eq!(sql, "SELECT * FROM events WHERE src_ip = ?");
    assert_eq!(params, vec!["10.0.0.5".to_string()]);
}

#[test]
fn compile_and_or_not() {
    let (sql, params) = sql_of("a == 1 AND b == 2");
    assert_eq!(sql, "SELECT * FROM events WHERE (a = ? AND b = ?)");
    assert_eq!(params, vec!["1".to_string(), "2".to_string()]);

    let (sql, _) = sql_of("a == 1 OR b == 2");
    assert_eq!(sql, "SELECT * FROM events WHERE (a = ? OR b = ?)");

    let (sql, _) = sql_of("NOT a == 1");
    assert_eq!(sql, "SELECT * FROM events WHERE (NOT a = ?)");
}

#[test]
fn compile_field_plus_raw_contains() {
    let (sql, params) = sql_of("app_name == apache AND raw_contains('GET')");
    assert_eq!(
        sql,
        "SELECT * FROM events WHERE (app_name = ? AND raw_contains(raw_file, byte_offset, ?))"
    );
    assert_eq!(params, vec!["apache".to_string(), "GET".to_string()]);
}

#[test]
fn compile_like_and_cidr_and_any() {
    let (sql, params) = sql_of("startswith(event_type,'ssh')");
    assert_eq!(sql, "SELECT * FROM events WHERE event_type LIKE ?");
    assert_eq!(params, vec!["ssh%".to_string()]);

    let (sql, params) = sql_of("contains(msg,'fail')");
    assert_eq!(sql, "SELECT * FROM events WHERE msg LIKE ? COLLATE NOCASE");
    assert_eq!(params, vec!["%fail%".to_string()]);

    let (sql, params) = sql_of("cidr_match(src_ip,'10.0.0.0/8')");
    assert_eq!(sql, "SELECT * FROM events WHERE cidr_match(src_ip, ?)");
    assert_eq!(params, vec!["10.0.0.0/8".to_string()]);

    let (sql, params) = sql_of("any(username)");
    assert_eq!(sql, "SELECT * FROM events WHERE username != ''");
    assert!(params.is_empty());
}

#[test]
fn compile_match_all_and_group() {
    let (sql, params) = sql_of("");
    assert_eq!(sql, "SELECT * FROM events");
    assert!(params.is_empty());

    let (sql, params) = sql_of("GROUP BY src_ip, dst_ip");
    assert_eq!(sql, "SELECT src_ip, dst_ip, COUNT(*) FROM events GROUP BY src_ip, dst_ip");
    assert!(params.is_empty());

    let (sql, params) = sql_of("source == sshd GROUP BY src_ip");
    assert_eq!(sql, "SELECT src_ip, COUNT(*) FROM events WHERE source = ? GROUP BY src_ip");
    assert_eq!(params, vec!["sshd".to_string()]);
}

#[test]
fn compile_row_limit_in_sql() {
    let (sql, _) = sql_of("a == 1 LIMIT 10");
    assert_eq!(sql, "SELECT * FROM events WHERE a = ? LIMIT 10");
}

#[test]
fn values_are_always_bound_never_inline() {
    // No user value should appear literally in the SQL string.
    let (sql, params) = sql_of("a == secret123 OR contains(b,'topsecret')");
    assert!(!sql.contains("secret123"));
    assert!(!sql.contains("topsecret"));
    assert!(params.contains(&"secret123".to_string()));
    assert!(params.contains(&"%topsecret%".to_string()));
}

#[test]
fn select_lists_columns() {
    let q = parse("SELECT src_ip, count WHERE a == 1 LIMIT 3").unwrap();
    assert_eq!(q.select, Some(vec!["src_ip".to_string(), "count".to_string()]));
    assert_eq!(q.limit, Some(3));
    assert_eq!(q.expr, Some(cond_field("a", "1", MatchMode::Exact)));
}

#[test]
fn keywords_ignore_their_case() {
    let a = parse("where a == 1 and not b == 2 group by c limit 4").unwrap();
    let b = parse("WHERE a == 1 AND NOT b == 2 GROUP BY c LIMIT 4").unwrap();
    assert_eq!(a, b);
}

#[test]
fn messages_show_what_was_found() {
    assert_eq!(parse("frobnicate(x,'v')").unwrap_err(), "unknown function 'frobnicate'");
    for (q, message) in [
        ("a == 'x", "unterminated quoted string"),
        ("a ! 1", "expected '=' after '!'"),
        ("a < 1", "expected '>' after '<'"),
        ("a == 1 ; b", "unexpected character ';'"),
        ("GROUP a", "expected BY after GROUP"),
        ("LIMIT", "expected a number after LIMIT, found end of input"),
        ("LIMIT x", "invalid LIMIT value 'x'"),
        ("a ==", "expected a value after operator, found end of input"),
        ("a == ,", "expected a value after operator, found Comma"),
        ("a == 1 b", "unexpected trailing input near Word(\"b\")"),
        ("a == 1 'q\\'", "unexpected trailing input near Str(\"q\\\\\")"),
        ("(a == 1", "expected ')', found end of input"),
        ("AND", "expected a condition, found And"),
        ("contains(a", "expected ',' or ')' in argument list, found end of input"),
        ("contains(a,)", "expected a function argument, found RParen"),
        ("contains(a)", "contains() expects 2 argument(s), got 1"),
        ("bad-name == 1", "invalid field name 'bad-name' (only letters, digits and underscore allowed)"),
    ] {
        assert_eq!(parse(q).unwrap_err(), message, "{q}");
    }
}

#[test]
fn a_written_tree_reads_back() {
    let q = parse("NOT (a == 1 OR b != 2) AND any(c)").unwrap();
    let (sql, params) = q.to_sql();
    assert_eq!(sql, "SELECT * FROM events WHERE ((NOT (a = ? OR b != ?)) AND c != '')");
    assert_eq!(params, vec!["1".to_string(), "2".to_string()]);
    assert_eq!(sql.matches('?').count(), params.len());
}

#[test]
fn endswith_binds_a_pattern() {
    let (sql, params) = sql_of("endswith(url,'.php')");
    assert_eq!(sql, "SELECT * FROM events WHERE url LIKE ?");
    assert_eq!(params, vec!["%.php".to_string()]);
}

#[test]
fn not_stands_once_before_a_primary() {
    let valid = FieldSet::new();
    assert_eq!(
        Query::parse("NOT NOT a == 1", &valid).unwrap_err(),
        "expected a condition, found Not"
    );
    assert!(Query::parse("NOT (NOT a == 1)", &valid).is_ok());
    assert_eq!(Query::parse("LIMIT 'x'", &valid).unwrap_err(), "invalid LIMIT value 'x'");
}
