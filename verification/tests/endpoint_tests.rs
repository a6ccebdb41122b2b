use autoguard::endpoint::{extract_domain, is_ipv4_literal_str, is_ipv6_literal_str, manifest_url};

#[test]
fn domain_with_port_is_extracted() {
    assert_eq!(extract_domain("vpn.example.com:51820"), Some("vpn.example.com".to_string()));
}

#[test]
fn ipv4_host_is_rejected() {
    assert_eq!(extract_domain("10.0.0.1:51820"), None);
}

#[test]
fn bracketed_ipv6_host_is_rejected() {
    assert_eq!(extract_domain("[2001:db8::1]:51820"), None);
}

#[test]
fn single_label_host_is_rejected() {
    assert_eq!(extract_domain("example:51820"), None);
}

#[test]
fn endpoint_without_port_is_rejected() {
    assert_eq!(extract_domain("vpn.example.com"), None);
}

#[test]
fn leading_dot_host_is_rejected() {
    assert_eq!(extract_domain(".example.com:51820"), None);
}

#[test]
fn trailing_dot_host_is_rejected() {
    assert_eq!(extract_domain("example.com.:51820"), None);
}

#[test]
fn bracketed_ipv6_with_embedded_ipv4_is_rejected() {
    assert_eq!(extract_domain("[::ffff:10.0.0.1]:51820"), None);
}

#[test]
fn not_quite_an_ip_counts_as_domain() {
    // an octet out of range and a leading zero are no IPv4 literal,
    // so the dotted host passes as a name
    assert_eq!(extract_domain("256.0.0.1:51820"), Some("256.0.0.1".to_string()));
    assert_eq!(extract_domain("01.0.0.1:51820"), Some("01.0.0.1".to_string()));
}

#[test]
fn ipv4_literal_recognition() {
    assert!(is_ipv4_literal_str("10.0.0.1"));
    assert!(is_ipv4_literal_str("255.255.255.255"));
    assert!(is_ipv4_literal_str("0.0.0.0"));
    assert!(!is_ipv4_literal_str("10.0.0"));
    assert!(!is_ipv4_literal_str("10.0.0.0.1"));
    assert!(!is_ipv4_literal_str("10.0.0.256"));
    assert!(!is_ipv4_literal_str("10.0.0.01"));
    assert!(!is_ipv4_literal_str("10.0.0."));
    assert!(!is_ipv4_literal_str("a.b.c.d"));
}

#[test]
fn ipv6_literal_recognition() {
    assert!(is_ipv6_literal_str("::1"));
    assert!(is_ipv6_literal_str("::"));
    assert!(is_ipv6_literal_str("2001:db8::1"));
    assert!(is_ipv6_literal_str("1:2:3:4:5:6:7:8"));
    assert!(is_ipv6_literal_str("1:2:3:4:5:6:7::"));
    assert!(is_ipv6_literal_str("::ffff:10.0.0.1"));
    assert!(is_ipv6_literal_str("1:2:3:4:5:6:10.0.0.1"));
    assert!(!is_ipv6_literal_str("1:2:3:4:5:6:7:8:9"));
    assert!(!is_ipv6_literal_str("1:2:3:4:5:6:7:8::"));
    assert!(!is_ipv6_literal_str("1:::2"));
    assert!(!is_ipv6_literal_str(":"));
    assert!(!is_ipv6_literal_str("1:2"));
    assert!(!is_ipv6_literal_str("g::1"));
    assert!(!is_ipv6_literal_str("12345::1"));
}

#[test]
fn manifest_url_is_derived_from_domain() {
    assert_eq!(manifest_url("vpn.example.com"), "https://auto.vpn.example.com/routes.json");
}
