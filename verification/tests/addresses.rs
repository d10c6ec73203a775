//! Source-address validation: dotted quads and IPv6 forms.

use dash_mpd_cli::ip::{is_valid_ip, is_valid_ipv4, is_valid_ipv6};

#[test]
fn dotted_quads() {
    assert!(is_valid_ipv4("127.0.0.1"));
    assert!(is_valid_ipv4("0.0.0.0"));
    assert!(is_valid_ipv4("255.255.255.255"));
    assert!(is_valid_ipv4("33.44.55.66"));
}

#[test]
fn bad_dotted_quads() {
    assert!(!is_valid_ipv4("33.44.55.66.77"));
    assert!(!is_valid_ipv4("256.1.1.1"));
    assert!(!is_valid_ipv4("1.2.3"));
    assert!(!is_valid_ipv4("01.2.3.4"));
    assert!(!is_valid_ipv4("1.2.3.4 "));
    assert!(!is_valid_ipv4("a.b.c.d"));
    assert!(!is_valid_ipv4(""));
    assert!(!is_valid_ipv4("1..2.3"));
}

#[test]
fn ipv6_forms() {
    assert!(is_valid_ipv6("::"));
    assert!(is_valid_ipv6("::1"));
    assert!(is_valid_ipv6("fe80::1"));
    assert!(is_valid_ipv6("1:2:3:4:5:6:7:8"));
    assert!(is_valid_ipv6("2001:db8::8a2e:370:7334"));
    assert!(is_valid_ipv6("1:2:3:4:5:6:7::"));
    assert!(is_valid_ipv6("::8:7:6:5:4:3:2"));
    assert!(is_valid_ipv6("::ffff:192.0.2.1"));
    assert!(is_valid_ipv6("1:2:3:4:5:6:192.0.2.1"));
}

#[test]
fn bad_ipv6_forms() {
    assert!(!is_valid_ipv6(":"));
    assert!(!is_valid_ipv6(":::"));
    assert!(!is_valid_ipv6("1:2:3:4:5:6:7"));
    assert!(!is_valid_ipv6("1:2:3:4:5:6:7:8:9"));
    assert!(!is_valid_ipv6("1:2:3:4:5:6:7::8"));
    assert!(!is_valid_ipv6("::8:7:6:5:4:3:2:1"));
    assert!(!is_valid_ipv6("1::2::3"));
    assert!(!is_valid_ipv6("12345::1"));
    assert!(!is_valid_ipv6("g::1"));
    assert!(!is_valid_ipv6("1:2"));
    assert!(!is_valid_ipv6(""));
    assert!(!is_valid_ipv6("192.0.2.1"));
}

#[test]
fn either_family_counts() {
    assert!(is_valid_ip("127.0.0.1"));
    assert!(is_valid_ip("::1"));
    assert!(!is_valid_ip("33.44.55.66.77"));
    assert!(!is_valid_ip("example.org"));
}
