use siemctl::digest::DigestConfig;
use siemctl::digest_config::{merge, CoverageToml, NetworkToml, RawDigestToml, VolumeToml};
use siemctl::normconfig::{is_reserved, parse, parse_per_source, try_per_source};
use siemctl::sources::{always_valid, load_index_fields, load_per_source_fields, load_valid_fields};

const SAMPLE: &str = r#"
[listen]
udp_port = 514

[storage]
data_dir = "data"

[[overrides.rule]]
contains = "[UFW "
source = "iptables"

[[extract.rule]]
app_name = "sshd"
from = "message"
pattern = "^(?P<auth_action>Failed|Accepted) (?P<auth_method>\w+) for (?P<username>\S+) from (?P<src_ip>[\d.]+) port (?P<src_port>\d+)"
pattern = "(?P<sshd_event>Connection reset) by (?P<src_ip>[\d.]+)"

[[extract.rule]]
app_name = "sshd"
auth_action = "Failed"
set = { event_type = "ssh_auth_failure", severity = "high" }

[[extract.rule]]
app_name = "sshd"
sshd_event = "Connection reset"
set = { event_type = "ssh_conn_reset" }
"#;

#[test]
fn captures_and_set_keys_are_collected() {
    let p = parse(SAMPLE);
    // Every capture + set key shows up in all_fields.
    for f in ["auth_action", "auth_method", "username", "src_ip", "src_port",
              "sshd_event", "event_type", "severity"] {
        assert!(p.all_fields.contains(f), "all_fields missing {f}");
    }
}

#[test]
fn discriminators_excluded_from_output_fields() {
    let p = parse(SAMPLE);
    // auth_action and sshd_event are used as match conditions → internal.
    assert!(!p.output_fields.contains("auth_action"), "auth_action leaked");
    assert!(!p.output_fields.contains("sshd_event"), "sshd_event leaked");
    // Real output fields remain.
    for f in ["auth_method", "username", "src_ip", "src_port", "event_type", "severity"] {
        assert!(p.output_fields.contains(f), "output_fields missing {f}");
    }
}

#[test]
fn reserved_grammar_keys_are_not_fields() {
    let p = parse(SAMPLE);
    for k in ["app_name", "from", "pattern", "source", "contains", "data_dir", "udp_port"] {
        assert!(!p.all_fields.contains(k), "{k} wrongly treated as a field");
        assert!(!p.output_fields.contains(k), "{k} wrongly an output field");
    }
}

#[test]
fn empty_config_produces_nothing() {
    let p = parse("");
    assert!(p.all_fields.items.is_empty());
    assert!(p.output_fields.items.is_empty());
}

#[test]
fn fields_are_told_by_source() {
    let per = parse_per_source(SAMPLE);
    assert_eq!(per.names, vec!["sshd".to_string()]);
    let fields = &per.sets[per.find("sshd").unwrap()];
    for f in ["auth_action", "username", "src_port", "event_type", "severity"] {
        assert!(fields.contains(f), "missing {f}");
    }
    assert!(per.find("sudo").is_none());
    assert!(try_per_source(SAMPLE).is_some());
    assert!(is_reserved("app_name") && !is_reserved("username"));
}

const SOURCES: &str = "[source.sshd]\nindex_fields = [\"src_ip\", \"username\"]\n\n\
[source.haproxy]\nindex_fields = [\n  \"backend\",\n  # \"skipped\"\n  \"status\",\n]\n";

#[test]
fn listed_fields_and_core_fields_are_valid() {
    let listed = load_index_fields(SOURCES);
    assert_eq!(listed.items, vec!["backend", "src_ip", "status", "username"]);
    let core = always_valid();
    assert!(core.contains("timestamp") && core.contains("severity"));
    let valid = load_valid_fields(SOURCES);
    assert!(valid.contains("backend") && valid.contains("event_type"));
    assert!(!valid.contains("skipped"));
}

#[test]
fn listed_fields_by_source() {
    let per = load_per_source_fields(SOURCES);
    assert_eq!(per.sets[per.find("sshd").unwrap()].items, vec!["src_ip", "username"]);
    assert_eq!(per.sets[per.find("haproxy").unwrap()].items, vec!["backend", "status"]);
}

/// The tables of a file as the digest reads them.
fn tables(text: &str) -> RawDigestToml {
    let t: toml::Table = text.parse().unwrap();
    let entry = |table: &str, key: &str| t.get(table).and_then(|x| x.get(key)).cloned();
    let flag = |table: &str, key: &str| entry(table, key).and_then(|v| v.as_bool());
    let number = |table: &str, key: &str| entry(table, key).and_then(|v| v.as_integer());
    RawDigestToml {
        volume: t.get("volume").map(|_| VolumeToml {
            new_source_always_flag: flag("volume", "new_source_always_flag"),
        }),
        coverage: t.get("coverage").map(|_| CoverageToml {
            unparsed_min_events: number("coverage", "unparsed_min_events").map(|n| n as u64),
            coverage_lookback_hours: number("coverage", "coverage_lookback_hours").map(|n| n as u64),
        }),
        network: t.get("network").map(|_| NetworkToml {
            new_destination_always_flag: flag("network", "new_destination_always_flag"),
            wan_interface: entry("network", "wan_interface").and_then(|v| v.as_str().map(String::from)),
            top_blocked_limit: number("network", "top_blocked_limit").map(|n| n as usize),
        }),
    }
}

#[test]
fn empty_toml_yields_all_defaults() {
    let cfg = merge(tables(""), DigestConfig::default());
    let defaults = DigestConfig::default();
    assert_eq!(cfg.unparsed_min_events, defaults.unparsed_min_events);
    assert_eq!(cfg.wan_interface, defaults.wan_interface);
    assert_eq!(cfg.wan_interface, "re1");
    assert_eq!(cfg.top_blocked_limit, 20);
    assert_eq!(cfg.coverage_lookback_hours, 24);
}

#[test]
fn partial_toml_overrides_only_given_fields() {
    let text = "\n[volume]\nspike_threshold_pct = 25\n\n[network]\nwan_interface = \"wan0\"\n";
    let cfg = merge(tables(text), DigestConfig::default());
    assert_eq!(cfg.wan_interface, "wan0");
    assert_eq!(cfg.unparsed_min_events, DigestConfig::default().unparsed_min_events);
    assert!(cfg.new_source_always_flag);
}

#[test]
fn full_toml_matches_the_documented_example() {
    let text = "\n[volume]\nspike_threshold_pct = 50\nnew_source_always_flag = true\n\n\
[coverage]\nunparsed_min_events = 50\n\n[network]\nnew_destination_always_flag = true\n\n\
[alerts]\nconcentration_threshold_pct = 80\n";
    let cfg = merge(tables(text), DigestConfig::default());
    assert!(cfg.new_source_always_flag);
    assert_eq!(cfg.unparsed_min_events, 50);
    assert!(cfg.new_destination_always_flag);
}

#[test]
fn entries_replace_their_defaults() {
    let text = "[volume]\nnew_source_always_flag = false\n[coverage]\nunparsed_min_events = 7\n\
coverage_lookback_hours = 48\n[network]\ntop_blocked_limit = 3\nnew_destination_always_flag = false\n";
    let cfg = merge(tables(text), DigestConfig::default());
    assert!(!cfg.new_source_always_flag && !cfg.new_destination_always_flag);
    assert_eq!((cfg.unparsed_min_events, cfg.coverage_lookback_hours, cfg.top_blocked_limit), (7, 48, 3));
}
