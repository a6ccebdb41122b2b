use autoguard::manifest::{extract_routes, join_route_values, ManifestError};

#[test]
fn string_members_are_joined_and_others_dropped() {
    let body = "{\"a\":\"10.0.0.0/24\",\"b\":\"10.1.0.0/24\",\"c\":42}";
    assert_eq!(extract_routes(body), Ok("10.0.0.0/24,10.1.0.0/24".to_string()));
}

#[test]
fn empty_object_is_a_successful_empty_result() {
    assert_eq!(extract_routes("{}"), Ok("".to_string()));
}

#[test]
fn object_with_no_string_members_is_a_successful_empty_result() {
    assert_eq!(extract_routes("{\"a\":1,\"b\":[\"x\"],\"c\":null}"), Ok("".to_string()));
}

#[test]
fn single_member_has_no_separator() {
    assert_eq!(extract_routes("{\"a\":\"10.0.0.0/8\"}"), Ok("10.0.0.0/8".to_string()));
}

#[test]
fn unparseable_body_is_rejected() {
    assert_eq!(extract_routes("not json at all"), Err(ManifestError::NotJson));
    assert_eq!(extract_routes(""), Err(ManifestError::NotJson));
    assert_eq!(extract_routes("{\"a\":"), Err(ManifestError::NotJson));
}

#[test]
fn non_object_top_level_is_rejected() {
    assert_eq!(extract_routes("[\"10.0.0.0/24\"]"), Err(ManifestError::NotObject));
    assert_eq!(extract_routes("\"10.0.0.0/24\""), Err(ManifestError::NotObject));
    assert_eq!(extract_routes("42"), Err(ManifestError::NotObject));
}

#[test]
fn join_skips_non_string_slots() {
    let values = vec![
        Some("a".to_string()),
        None,
        Some("b".to_string()),
        None,
        Some("c".to_string()),
    ];
    assert_eq!(join_route_values(&values), "a,b,c");
    assert_eq!(join_route_values(&vec![]), "");
    assert_eq!(join_route_values(&vec![None, None]), "");
}
