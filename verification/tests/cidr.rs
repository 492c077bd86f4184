use siemctl::db::{cidr_contains, cidr_match};

#[test]
fn cidr_exact_host_matches_itself() {
    assert!(cidr_contains("10.0.0.5/32", "10.0.0.5").unwrap());
}

#[test]
fn cidr_exact_host_rejects_neighbor() {
    assert!(!cidr_contains("10.0.0.5/32", "10.0.0.6").unwrap());
}

#[test]
fn cidr_slash24_matches_in_range() {
    assert!(cidr_contains("10.0.0.0/24", "10.0.0.1").unwrap());
    assert!(cidr_contains("10.0.0.0/24", "10.0.0.254").unwrap());
    assert!(cidr_contains("10.0.0.0/24", "10.0.0.0").unwrap());
}

#[test]
fn cidr_slash24_rejects_outside_range() {
    assert!(!cidr_contains("10.0.0.0/24", "10.0.1.0").unwrap());
    assert!(!cidr_contains("10.0.0.0/24", "10.1.0.5").unwrap());
}

#[test]
fn cidr_slash0_matches_all_valid_ipv4() {
    assert!(cidr_contains("0.0.0.0/0", "10.0.0.5").unwrap());
    assert!(cidr_contains("0.0.0.0/0", "192.168.1.1").unwrap());
    assert!(cidr_contains("0.0.0.0/0", "255.255.255.255").unwrap());
}

#[test]
fn cidr_slash16_boundary() {
    assert!(cidr_contains("172.16.0.0/16", "172.16.255.255").unwrap());
    assert!(!cidr_contains("172.16.0.0/16", "172.17.0.0").unwrap());
}

#[test]
fn cidr_invalid_prefix_len_is_error() {
    assert!(cidr_contains("10.0.0.0/33", "10.0.0.1").is_err());
}

#[test]
fn cidr_missing_slash_is_error() {
    assert!(cidr_contains("10.0.0.0", "10.0.0.1").is_err());
}

#[test]
fn cidr_invalid_ip_is_error() {
    assert!(cidr_contains("not-an-ip/24", "10.0.0.1").is_err());
}

#[test]
fn cidr_non_ipv4_stored_value_skipped() {
    // Stored value that isn't a valid IP: returns false, not error
    assert!(!cidr_contains("10.0.0.0/24", "not-an-ip").unwrap());
    assert!(!cidr_contains("10.0.0.0/24", "").unwrap());
}

#[test]
fn cidr_messages_name_the_fault() {
    assert_eq!(cidr_contains("10.0.0.0", "10.0.0.1").unwrap_err(), "invalid CIDR (missing /): 10.0.0.0");
    assert_eq!(cidr_contains("10.0.0.0/x", "10.0.0.1").unwrap_err(), "invalid CIDR prefix length: x");
    assert_eq!(
        cidr_contains("10.0.0.0/33", "10.0.0.1").unwrap_err(),
        "CIDR prefix length out of range (0-32): 33"
    );
    assert_eq!(cidr_contains("::1/8", "10.0.0.1").unwrap_err(), "IPv6 CIDR not supported yet");
    assert_eq!(
        cidr_contains("300.0.0.0/8", "10.0.0.1").unwrap_err(),
        "invalid CIDR network address: 300.0.0.0"
    );
}

#[test]
fn cidr_match_is_false_for_a_malformed_range() {
    assert!(cidr_match("10.1.2.3", "10.0.0.0/8"));
    assert!(!cidr_match("11.1.2.3", "10.0.0.0/8"));
    assert!(!cidr_match("10.1.2.3", "nonsense"));
}

#[test]
fn longer_prefixes_are_narrower() {
    assert!(cidr_contains("10.0.0.0/8", "10.200.0.1").unwrap());
    assert!(!cidr_contains("10.0.0.0/16", "10.200.0.1").unwrap());
    assert!(cidr_contains("255.255.255.255/31", "255.255.255.254").unwrap());
}
