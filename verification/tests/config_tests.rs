use autoguard::config::{Section, WireguardConfig};

fn section(name: &str, entries: &[(&str, &str)]) -> Section {
    Section {
        name: name.to_string(),
        entries: entries.iter().map(|(k, v)| (k.to_string(), v.to_string())).collect(),
    }
}

#[test]
fn parse_simple_config() {
    let text = "[Interface]\nAddress = 10.0.0.2/32\n\n[Peer]\nEndpoint = vpn.example.com:51820\n";
    let cfg = WireguardConfig::parse(text);
    assert_eq!(cfg.sections.len(), 2);
    assert_eq!(cfg.sections[0].name, "Interface");
    assert_eq!(cfg.sections[0].entries, vec![("Address".to_string(), "10.0.0.2/32".to_string())]);
    assert_eq!(cfg.sections[1].name, "Peer");
    assert_eq!(
        cfg.sections[1].entries,
        vec![("Endpoint".to_string(), "vpn.example.com:51820".to_string())]
    );
}

#[test]
fn parse_skips_blanks_comments_and_stray_lines() {
    let text = "stray = ignored\n# comment\n\n[Peer]\n# another comment\nmalformed line\nKey = value\n";
    let cfg = WireguardConfig::parse(text);
    assert_eq!(cfg.sections.len(), 1);
    assert_eq!(cfg.sections[0].name, "Peer");
    assert_eq!(cfg.sections[0].entries, vec![("Key".to_string(), "value".to_string())]);
}

#[test]
fn parse_trims_keys_and_values() {
    let text = "[Peer]\n   Endpoint   =   vpn.example.com:51820   \n";
    let cfg = WireguardConfig::parse(text);
    assert_eq!(
        cfg.sections[0].entries,
        vec![("Endpoint".to_string(), "vpn.example.com:51820".to_string())]
    );
}

#[test]
fn parse_overwrites_duplicate_keys_in_place() {
    let text = "[Peer]\nA = 1\nB = 2\nA = 3\n";
    let cfg = WireguardConfig::parse(text);
    assert_eq!(
        cfg.sections[0].entries,
        vec![("A".to_string(), "3".to_string()), ("B".to_string(), "2".to_string())]
    );
}

#[test]
fn parse_keeps_value_with_equals_sign() {
    let text = "[Interface]\nPrivateKey = abc=def==\n";
    let cfg = WireguardConfig::parse(text);
    assert_eq!(
        cfg.sections[0].entries,
        vec![("PrivateKey".to_string(), "abc=def==".to_string())]
    );
}

#[test]
fn render_writes_sections_in_order() {
    let cfg = WireguardConfig {
        sections: vec![
            section("Interface", &[("Address", "10.0.0.2/32")]),
            section("Peer", &[("Endpoint", "vpn.example.com:51820")]),
        ],
    };
    assert_eq!(
        cfg.render(),
        "[Interface]\nAddress = 10.0.0.2/32\n\n[Peer]\nEndpoint = vpn.example.com:51820\n\n"
    );
}

#[test]
fn round_trip_preserves_sections_keys_and_order() {
    let cfg = WireguardConfig {
        sections: vec![
            section("Interface", &[("Address", "10.0.0.2/32"), ("PrivateKey", "xyz=")]),
            section("Peer", &[("Endpoint", "a.example.com:1"), ("AllowedIPs", "0.0.0.0/0")]),
            section("Peer", &[("Endpoint", "b.example.com:2")]),
        ],
    };
    let reread = WireguardConfig::parse(&cfg.render());
    assert_eq!(reread, cfg);
}

#[test]
fn round_trip_keeps_duplicate_section_names() {
    let cfg = WireguardConfig {
        sections: vec![
            section("Peer", &[("PublicKey", "k1")]),
            section("Peer", &[("PublicKey", "k2")]),
        ],
    };
    let reread = WireguardConfig::parse(&cfg.render());
    assert_eq!(reread, cfg);
}

#[test]
fn set_peer_allowed_ips_updates_every_peer_and_nothing_else() {
    let mut cfg = WireguardConfig {
        sections: vec![
            section("Interface", &[("Address", "10.0.0.2/32")]),
            section("Peer", &[("AllowedIPs", "0.0.0.0/0"), ("Endpoint", "a.example.com:1")]),
            section("Peer", &[("Endpoint", "b.example.com:2")]),
        ],
    };
    cfg.set_peer_allowed_ips("10.0.0.0/24,10.1.0.0/24");
    assert_eq!(cfg.sections[0].entries, vec![("Address".to_string(), "10.0.0.2/32".to_string())]);
    // the existing key is overwritten in place
    assert_eq!(
        cfg.sections[1].entries,
        vec![
            ("AllowedIPs".to_string(), "10.0.0.0/24,10.1.0.0/24".to_string()),
            ("Endpoint".to_string(), "a.example.com:1".to_string()),
        ]
    );
    // the missing key is appended
    assert_eq!(
        cfg.sections[2].entries,
        vec![
            ("Endpoint".to_string(), "b.example.com:2".to_string()),
            ("AllowedIPs".to_string(), "10.0.0.0/24,10.1.0.0/24".to_string()),
        ]
    );
}

#[test]
fn set_peer_allowed_ips_is_idempotent() {
    let mut once = WireguardConfig {
        sections: vec![
            section("Peer", &[("Endpoint", "a.example.com:1")]),
            section("Peer", &[("AllowedIPs", "0.0.0.0/0")]),
        ],
    };
    once.set_peer_allowed_ips("10.0.0.0/24");
    let mut twice = once.clone();
    twice.set_peer_allowed_ips("10.0.0.0/24");
    assert_eq!(twice, once);
}

#[test]
fn get_peer_endpoint_reads_first_peer() {
    let cfg = WireguardConfig {
        sections: vec![
            section("Interface", &[("Address", "10.0.0.2/32")]),
            section("Peer", &[("Endpoint", "first.example.com:1")]),
            section("Peer", &[("Endpoint", "second.example.com:2")]),
        ],
    };
    assert_eq!(cfg.get_peer_endpoint(), Some("first.example.com:1".to_string()));
}

#[test]
fn get_peer_endpoint_absent() {
    let no_peer = WireguardConfig { sections: vec![section("Interface", &[("Address", "x")])] };
    assert_eq!(no_peer.get_peer_endpoint(), None);
    let no_key = WireguardConfig { sections: vec![section("Peer", &[("PublicKey", "k")])] };
    assert_eq!(no_key.get_peer_endpoint(), None);
}
