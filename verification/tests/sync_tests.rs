use autoguard::config::WireguardConfig;
use autoguard::sync::{SyncAction, SyncAttempt, SyncError, SyncEvent, SyncState};

const CONFIG_TEXT: &str =
    "[Peer]\nEndpoint = vpn.example.com:51820\nAllowedIPs = 0.0.0.0/0\n\n";

const MANIFEST_BODY: &str = "{\"a\":\"10.0.0.0/24\",\"b\":\"10.1.0.0/24\",\"c\":42}";

#[test]
fn successful_attempt_end_to_end() {
    let mut attempt = SyncAttempt::new("/etc/wireguard/test.conf".to_string());
    assert_eq!(attempt.config_path().as_str(), "/etc/wireguard/test.conf");
    let mut applies: usize = 0;

    let a = attempt.step(SyncEvent::Start);
    assert_eq!(a, SyncAction::ReadConfig);

    let a = attempt.step(SyncEvent::ReadDone { text: Some(CONFIG_TEXT.to_string()) });
    assert_eq!(
        a,
        SyncAction::FetchUrl { url: "https://auto.vpn.example.com/routes.json".to_string() }
    );

    let a = attempt.step(SyncEvent::FetchDone { body: Some(MANIFEST_BODY.to_string()) });
    let contents = match a {
        SyncAction::WriteConfig { contents } => contents,
        other => panic!("expected a write, got {:?}", other),
    };
    let saved = WireguardConfig::parse(&contents);
    assert_eq!(saved.sections.len(), 1);
    assert_eq!(saved.sections[0].name, "Peer");
    assert_eq!(
        saved.sections[0].entries,
        vec![
            ("Endpoint".to_string(), "vpn.example.com:51820".to_string()),
            ("AllowedIPs".to_string(), "10.0.0.0/24,10.1.0.0/24".to_string()),
        ]
    );

    let a = attempt.step(SyncEvent::WriteDone { ok: true });
    assert_eq!(a, SyncAction::ApplyConfig);
    applies += 1;

    let a = attempt.step(SyncEvent::ApplyDone);
    assert_eq!(a, SyncAction::Report { success: true });
    assert_eq!(attempt.state, SyncState::Succeeded);
    assert_eq!(applies, 1);
}

#[test]
fn failed_fetch_still_applies_exactly_once() {
    let mut attempt = SyncAttempt::new("/etc/wireguard/test.conf".to_string());
    let mut applies: usize = 0;

    assert_eq!(attempt.step(SyncEvent::Start), SyncAction::ReadConfig);
    let a = attempt.step(SyncEvent::ReadDone { text: Some(CONFIG_TEXT.to_string()) });
    assert!(matches!(a, SyncAction::FetchUrl { .. }));

    let a = attempt.step(SyncEvent::FetchDone { body: None });
    assert_eq!(a, SyncAction::ApplyConfig);
    applies += 1;

    let a = attempt.step(SyncEvent::ApplyDone);
    assert_eq!(a, SyncAction::Report { success: false });
    assert_eq!(attempt.state, SyncState::Failed { error: SyncError::Fetch });
    assert_eq!(applies, 1);
}

#[test]
fn unparseable_fetch_body_fails_as_fetch_error() {
    let mut attempt = SyncAttempt::new("p".to_string());
    attempt.step(SyncEvent::Start);
    attempt.step(SyncEvent::ReadDone { text: Some(CONFIG_TEXT.to_string()) });
    let a = attempt.step(SyncEvent::FetchDone { body: Some("garbage".to_string()) });
    assert_eq!(a, SyncAction::ApplyConfig);
    attempt.step(SyncEvent::ApplyDone);
    assert_eq!(attempt.state, SyncState::Failed { error: SyncError::Fetch });
}

#[test]
fn non_object_manifest_fails_as_parse_error() {
    let mut attempt = SyncAttempt::new("p".to_string());
    attempt.step(SyncEvent::Start);
    attempt.step(SyncEvent::ReadDone { text: Some(CONFIG_TEXT.to_string()) });
    attempt.step(SyncEvent::FetchDone { body: Some("[1,2]".to_string()) });
    attempt.step(SyncEvent::ApplyDone);
    assert_eq!(attempt.state, SyncState::Failed { error: SyncError::Parse });
}

#[test]
fn unreadable_config_fails_but_still_applies() {
    let mut attempt = SyncAttempt::new("p".to_string());
    attempt.step(SyncEvent::Start);
    let a = attempt.step(SyncEvent::ReadDone { text: None });
    assert_eq!(a, SyncAction::ApplyConfig);
    attempt.step(SyncEvent::ApplyDone);
    assert_eq!(attempt.state, SyncState::Failed { error: SyncError::ConfigRead });
}

#[test]
fn missing_endpoint_fails_before_fetching() {
    let mut attempt = SyncAttempt::new("p".to_string());
    attempt.step(SyncEvent::Start);
    let a = attempt.step(
        SyncEvent::ReadDone { text: Some("[Peer]\nAllowedIPs = 0.0.0.0/0\n".to_string()) },
    );
    assert_eq!(a, SyncAction::ApplyConfig);
    attempt.step(SyncEvent::ApplyDone);
    assert_eq!(attempt.state, SyncState::Failed { error: SyncError::EndpointMissing });
}

#[test]
fn ip_endpoint_fails_as_unresolvable() {
    let mut attempt = SyncAttempt::new("p".to_string());
    attempt.step(SyncEvent::Start);
    let a = attempt.step(
        SyncEvent::ReadDone { text: Some("[Peer]\nEndpoint = 10.0.0.1:51820\n".to_string()) },
    );
    assert_eq!(a, SyncAction::ApplyConfig);
    attempt.step(SyncEvent::ApplyDone);
    assert_eq!(attempt.state, SyncState::Failed { error: SyncError::DomainUnresolvable });
}

#[test]
fn failed_write_fails_as_write_error() {
    let mut attempt = SyncAttempt::new("p".to_string());
    attempt.step(SyncEvent::Start);
    attempt.step(SyncEvent::ReadDone { text: Some(CONFIG_TEXT.to_string()) });
    attempt.step(SyncEvent::FetchDone { body: Some(MANIFEST_BODY.to_string()) });
    let a = attempt.step(SyncEvent::WriteDone { ok: false });
    assert_eq!(a, SyncAction::ApplyConfig);
    attempt.step(SyncEvent::ApplyDone);
    assert_eq!(attempt.state, SyncState::Failed { error: SyncError::ConfigWrite });
}

#[test]
fn stray_event_changes_nothing() {
    let mut attempt = SyncAttempt::new("p".to_string());
    assert_eq!(attempt.step(SyncEvent::ApplyDone), SyncAction::Nothing);
    assert_eq!(attempt.state, SyncState::Idle);
}

#[test]
fn expand_home_leaves_plain_paths_alone() {
    assert_eq!(autoguard::paths::expand_home("/etc/wg.conf"), "/etc/wg.conf");
    assert_eq!(
        autoguard::paths::expand_home_with("~/wg.conf", Some("/home/u")),
        "/home/u/wg.conf"
    );
    assert_eq!(autoguard::paths::expand_home_with("~/wg.conf", None), "~/wg.conf");
}
