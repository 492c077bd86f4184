use siemctl::calendar::Civil;
use siemctl::digest::{CoverageSection, DigestReport, InboundAllowed, IncompleteBucket, NetworkSection};
use siemctl::digest::{NewDestination, TopBlocked, UnparsedSource, VolumeRow, WindowInfo};
use siemctl::digest_alerts::{AlertRuleCount, AlertsSection};
use siemctl::digest_auth::{AccessEvent, AuthFailureBySource, AuthFailureRow, AuthSection, SudoEvent};
use siemctl::digest_notable::{ConfigChange, CriticalEvent, NotableSection, ServiceRestart};
use siemctl::digest_render::{fmt_duration_label, format_auth_breakdown, render_text, Shape};
use siemctl::window::{Duration, Instant};

fn at(hour: u32, minute: u32, second: u32) -> Instant {
    Instant::from_fields(Civil { year: 2026, month: 6, day: 29, hour, minute, second }).unwrap()
}

fn s(text: &str) -> String {
    text.to_string()
}

fn volume(source: &str, count: u64, baseline: u64, delta: Option<&str>, flag: Option<&str>) -> VolumeRow {
    VolumeRow { source: s(source), count, baseline, delta: delta.map(s), flag: flag.map(s) }
}

fn failed(source: &str, event_type: &str, count: u64) -> AuthFailureBySource {
    AuthFailureBySource { source: s(source), event_type: s(event_type), count }
}

fn sudo(second: u32, username: &str, target_user: &str, command: &str) -> SudoEvent {
    SudoEvent {
        timestamp: Some(at(14, 15, second)),
        username: s(username),
        target_user: s(target_user),
        command: s(command),
    }
}

fn rule(rule_id: &str, level: &str, count: u64) -> AlertRuleCount {
    AlertRuleCount { rule_id: s(rule_id), rule_title: s("T"), level: s(level), count }
}

fn full_report() -> DigestReport {
    DigestReport {
        window: WindowInfo {
            start: at(14, 0, 0),
            end: at(15, 0, 0),
            baseline_start: at(13, 0, 0),
            baseline_end: at(14, 0, 0),
        },
        coverage: CoverageSection {
            sources_reporting: 3,
            gone_silent: vec![s("suricata")],
            new_sources: vec![s("openvpn"), s("sshd")],
            unparsed_high_volume: vec![UnparsedSource { app_name: s("gnome-shell"), count: 51 }],
            latest_raw: Some(at(14, 27, 0)),
            latest_indexed: Some(at(14, 17, 0)),
            index_lag_seconds: Some(600),
            incomplete_buckets: vec![IncompleteBucket { bucket: s("2026-06-29-14"), raw_count: 3, indexed_count: 1 }],
            cold_start: false,
            coverage_cold_start: false,
        },
        volume: vec![
            volume("filterlog", 1234567, 1000, Some("+123357%"), Some("spike")),
            volume("sshd", 3, 0, None, Some("new")),
            volume("cron", 2, 0, None, None),
            volume("dhcpd", 5, 5, Some("+0%"), None),
        ],
        network: NetworkSection {
            block_trend: vec![0, 1, 2, 3, 4, 5, 6, 7, 8, 9, 10, 11],
            top_blocked: vec![TopBlocked { src_ip: s("198.51.100.9"), protocol: s("TCP"), count: 2000 }],
            inbound: vec![InboundAllowed {
                src_ip: s("217.103.119.242"),
                dst_ip: s("192.168.178.12"),
                dst_port: s("8006"),
                count: 1,
            }],
            new_destinations: vec![
                NewDestination { dst_ip: s("172.66.152.176"), dst_port: s("80"), count: 1, first_seen: Some(at(14, 13, 9)) },
                NewDestination { dst_ip: s("9.9.9.9"), dst_port: s("53"), count: 1, first_seen: None },
            ],
        },
        auth: AuthSection {
            failures: vec![AuthFailureRow {
                src_ip: s("203.0.113.5"),
                count: 4,
                by_source: vec![
                    failed("sshd", "ssh_auth_failure", 2),
                    failed("openvpn", "vpn_tls_error", 1),
                    failed("openvpn", "vpn_auth_failure", 1),
                ],
            }],
            successes: vec![AccessEvent {
                timestamp: Some(at(14, 9, 0)),
                src_ip: s("192.168.1.50"),
                username: s("robin"),
                source: s("sshd"),
            }],
            sudo: vec![
                sudo(1, "robin", "root", "nano /etc/x"),
                sudo(2, "kim", "root", "ls"),
                sudo(3, "robin", "root", "reboot"),
            ],
        },
        alerts: AlertsSection {
            total: 1010,
            by_rule: vec![rule("new-rule", "medium", 1000), rule("bad", "critical", 6), rule("hot", "high", 4)],
            first_time_rules: vec![s("new-rule")],
            concentration_warning: Some(s("rule 'new-rule' accounts for 99% of alerts this window")),
        },
        notable: NotableSection {
            config_changes: vec![ConfigChange {
                timestamp: Some(at(14, 16, 0)),
                admin_user: s("admin"),
                src_ip: s("192.168.178.75"),
                page: s("/firewall_rules.php"),
            }],
            service_restarts: vec![ServiceRestart {
                unit: s("sshguard.service"),
                count: 2,
                first_seen: Some(at(14, 14, 0)),
                last_seen: Some(at(14, 14, 30)),
            }],
            boot_storms: vec![],
            critical_events: vec![CriticalEvent {
                timestamp: Some(at(14, 17, 0)),
                source: s("haproxy"),
                event_type: s("some_failure"),
                severity: s("critical"),
            }],
        },
    }
}

/// The level of each count between nothing and the most.
fn levels(series: &[u64]) -> Vec<usize> {
    let max = *series.iter().max().unwrap();
    series.iter().map(|v| (*v as f64 / max as f64 * 7.0).round() as usize).collect()
}

fn expected_coverage() -> String {
    [
        s("=== COVERAGE (14:00 – 15:00) ===\n\n"),
        s("Sources reporting:     3\n"),
        s("Sources gone silent:   suricata\n"),
        s("New sources:           openvpn, sshd  (first seen this window)\n\n"),
        s("Unparsed high-volume sources (>threshold events, _normalized: false):\n"),
        format!("  {:<15} {:>5} events\n\n", "gnome-shell", 51),
        s("Index coverage:        LAGGING by 600s (latest raw: 14:27, latest bucket: 14:17)\n"),
        s("Index completeness:    INCOMPLETE — raw events exist that were never indexed:\n"),
        s("  2026-06-29-14   3 raw, 1 indexed (2 missing) — try: indexd --backfill 2026-06-29-14\n\n"),
    ]
    .concat()
}

fn expected_volume() -> String {
    let row = |source: &str, n: &str, b: &str, rest: &str| format!("{source:<14}{n:>12}  {b:>8}   {rest}\n");
    [
        s("=== VOLUME (14:00 – 15:00 vs 13:00 – 14:00) ===\n\n"),
        row("source", "this window", "baseline", "delta"),
        row("filterlog", "1,234,567", "1,000", "+123357% ←"),
        row("sshd", "3", "0", "NEW ←"),
        row("cron", "2", "0", "0%"),
        row("dhcpd", "5", "5", "+0%"),
        s("\n"),
    ]
    .concat()
}

fn expected_network() -> String {
    [
        s("=== FIREWALL TRENDS (BLOCK / 10min) ===\n\n"),
        s("▁▂▂▃▄▄▅▅▆▇▇█\n14:00  15:00\n\n"),
        s("=== TOP BLOCKED SOURCE IPs ===\n\n"),
        format!("{:<18}{:>7}  protocol\n{:<18}{:>7}  TCP\n\n", "src_ip", "count", "198.51.100.9", "2,000"),
        s("=== INBOUND ALLOWED (re1) ===\n\n"),
        format!("{:<18}{:<24}{:>7}\n", "src_ip", "dst", "count"),
        format!("{:<18}{:<24}{:>7}\n\n", "217.103.119.242", "192.168.178.12:8006", "1"),
        s("=== NEW OUTBOUND DESTINATIONS (vs baseline) ===\n\n"),
        format!("{:<18}{:<10}{:>7}  first seen\n", "dst_ip", "dst_port", "count"),
        format!("{:<18}{:<10}{:>7}  14:13:09\n", "172.66.152.176", "80", "1"),
        format!("{:<18}{:<10}{:>7}  ?\n\n", "9.9.9.9", "53", "1"),
    ]
    .concat()
}

fn expected_auth() -> String {
    [
        s("=== AUTHENTICATION FAILURES (all sources) ===\n\n"),
        format!("{:<18}{:>7}  sources\n{:<18}{:>7}  ", "src_ip", "count", "203.0.113.5", "4"),
        s("openvpn (vpn_tls_error x1, vpn_auth_failure x1), sshd (ssh_auth_failure x2)\n"),
        s("\n=== SUCCESSFUL LOGINS / ACCESS ===\n\n  14:09:00  robin @ 192.168.1.50 (sshd)\n"),
        s("\n=== PRIVILEGE ESCALATION (sudo) ===\n\n"),
        s("robin → root  2 events\n  14:15:01  nano /etc/x\n  14:15:03  reboot\n"),
        s("kim → root  1 event\n  14:15:02  ls\n\n"),
    ]
    .concat()
}

fn expected_alerts() -> String {
    [
        s("=== ALERTS ===\n\ntotal alerts:   1,010 events, 3 rules\n\n"),
        format!("{:<26}{:<8}count\n{:<26}{:<8}{:>5}\n", "rule", "level", "new-rule", "medium", "1,000"),
        format!("{:<26}{:<8}{:>5}\n{:<26}{:<8}{:>5}\n\n", "bad", "critical", "6", "hot", "high", "4"),
        s("Rules firing for the first time this window:  new-rule\n"),
        s("High/critical alerts:                         bad, hot\n"),
        s("\nAlert concentration: rule 'new-rule' accounts for 99% of alerts this window\n\n"),
    ]
    .concat()
}

fn expected_notable() -> String {
    [
        s("=== NOTABLE EVENTS ===\n\nConfig changes (pfsense):\n"),
        s("  14:16  admin @ 192.168.178.75 — /firewall_rules.php\n"),
        s("\nService restarts (systemd):\n"),
        s("  14:14  sshguard.service: 2x transition(s) (first 14:14, last 14:14)\n"),
        s("\nSeverity critical/emergency:\n  14:17:00  haproxy (some_failure) [critical]\n"),
    ]
    .concat()
}

#[test]
fn a_full_report_is_written_section_by_section() {
    let report = full_report();
    let shape = Shape::Peaked { levels: levels(&report.network.block_trend) };
    let text = render_text(&report, "re1", Duration::minutes(10), &shape);
    let mut rest = text.as_str();
    for part in [
        expected_coverage(),
        expected_volume(),
        expected_network(),
        expected_auth(),
        expected_alerts(),
        expected_notable(),
    ] {
        assert_eq!(&rest[..part.len().min(rest.len())], part);
        rest = &rest[part.len()..];
    }
    assert_eq!(rest, "");
}

#[test]
fn an_empty_report_says_so() {
    let report = DigestReport {
        coverage: CoverageSection {
            sources_reporting: 0,
            gone_silent: vec![],
            new_sources: vec![],
            unparsed_high_volume: vec![],
            latest_raw: None,
            latest_indexed: None,
            index_lag_seconds: None,
            incomplete_buckets: vec![],
            cold_start: true,
            coverage_cold_start: true,
        },
        volume: vec![],
        network: NetworkSection { block_trend: vec![0, 3], top_blocked: vec![], inbound: vec![], new_destinations: vec![] },
        auth: AuthSection { failures: vec![], successes: vec![], sudo: vec![] },
        alerts: AlertsSection { total: 0, by_rule: vec![], first_time_rules: vec![], concentration_warning: None },
        notable: NotableSection { config_changes: vec![], service_restarts: vec![], boot_storms: vec![], critical_events: vec![] },
        ..full_report()
    };
    let text = render_text(&report, "wan0", Duration::hours(2), &Shape::Flat { average: s("2") });
    for line in [
        "Sources gone silent:   — (none)\nNew sources:           — (none)\n\n",
        "_normalized: false):\n  (none)\n\nIndex coverage:        unknown (no raw data) (latest raw: ?, latest bucket: ?)\n",
        "Index completeness:    complete (raw line counts match indexed row counts)\n\n",
        "=== FIREWALL TRENDS (BLOCK / 2h) ===\n\nBLOCK rate stable: avg 2/2h, max 3/2h\n\n",
        "=== TOP BLOCKED SOURCE IPs ===\n\n  (none)\n\n=== INBOUND ALLOWED (wan0) ===\n\n  (none)\n\n",
        "=== AUTHENTICATION FAILURES (all sources) ===\n\n  (none in window)\n\n",
        "total alerts:   0 events, 0 rules\n\nRules firing for the first time this window:  — (none)\n",
        "High/critical alerts:                         none\n\n=== NOTABLE",
        "Config changes (pfsense):\n  (none)\n\nService restarts (systemd):\n  (none)\n\nSeverity critical/emergency:  none\n",
    ] {
        assert!(text.contains(line), "{line}\nin\n{text}");
    }
}

#[test]
fn the_state_of_the_index_is_told() {
    let state = |latest_raw: Option<Instant>, index_lag_seconds: Option<i64>| {
        let mut report = full_report();
        report.coverage.latest_raw = latest_raw;
        report.coverage.index_lag_seconds = index_lag_seconds;
        report.network.block_trend = vec![];
        let text = render_text(&report, "re1", Duration::minutes(10), &Shape::Flat { average: s("0") });
        assert!(text.contains("=== FIREWALL TRENDS (BLOCK / 10min) ===\n\n  (no data)\n\n"));
        let line = text.lines().find(|l| l.starts_with("Index coverage:")).unwrap().to_string();
        line
    };
    assert!(state(Some(at(14, 0, 0)), Some(300)).starts_with("Index coverage:        current (latest raw: 14:00"));
    assert!(state(Some(at(14, 0, 0)), Some(301)).starts_with("Index coverage:        LAGGING by 301s"));
    assert!(state(Some(at(14, 0, 0)), None).starts_with("Index coverage:        unknown (no index yet)"));
}

#[test]
fn labels_take_the_largest_unit() {
    assert_eq!(fmt_duration_label(Duration::minutes(10)), "10min");
    assert_eq!(fmt_duration_label(Duration::minutes(60)), "1h");
    assert_eq!(fmt_duration_label(Duration::seconds(90)), "90s");
    assert_eq!(fmt_duration_label(Duration::days(1)), "24h");
}

#[test]
fn breakdowns_group_by_source() {
    assert_eq!(format_auth_breakdown(&vec![]), "");
    assert_eq!(
        format_auth_breakdown(&vec![failed("b", "x", 1), failed("a", "y", 2), failed("b", "z", 3)]),
        "a (y x2), b (x x1, z x3)"
    );
}
