use wasmcord::host::{
    abi_allows, http_request_for, log_filter, log_level, send_interaction_response, LogLevel,
    Permissions, HOST_ABI_VERSION,
};

#[test]
fn log_levels_ignore_case() {
    assert_eq!(log_level("error"), LogLevel::Error);
    assert_eq!(log_level("WARN"), LogLevel::Warn);
    assert_eq!(log_level("Info"), LogLevel::Info);
    assert_eq!(log_level("dEbUg"), LogLevel::Debug);
    assert_eq!(log_level("TRACE"), LogLevel::Trace);
}

#[test]
fn unknown_log_levels_are_info() {
    assert_eq!(log_level("verbose"), LogLevel::Info);
    assert_eq!(log_level(""), LogLevel::Info);
    assert_eq!(log_level(" error"), LogLevel::Info);
}

#[test]
fn interaction_responses_are_refused() {
    let r = send_interaction_response(1, "token".to_string(), "hi".to_string());
    assert_eq!(r, Err("interaction responses not yet implemented".to_string()));
}

#[test]
fn log_filter_defaults_and_overrides() {
    assert_eq!(log_filter(None), "ynsrvcs=info");
    assert_eq!(log_filter(Some("debug".to_string())), "debug");
}

#[test]
fn http_requests_carry_what_the_plugin_passed() {
    let perms = Permissions { http: true };
    let p = http_request_for(&perms, "https://example.com/a?b=1".to_string(), "POST".to_string(), b"x".to_vec())
        .unwrap();
    assert_eq!(p.method, "POST");
    assert_eq!(p.url, "https://example.com/a?b=1");
    assert_eq!(p.body, b"x".to_vec());
}

#[test]
fn http_requests_need_the_http_permission() {
    let perms = Permissions { http: false };
    let r = http_request_for(&perms, "https://example.com".to_string(), "GET".to_string(), vec![]);
    assert_eq!(r.err(), Some("permission denied: http".to_string()));
}

#[test]
fn plugins_for_another_interface_version_are_blocked() {
    assert_eq!(HOST_ABI_VERSION, 1);
    assert!(abi_allows(Some(1)));
    assert!(abi_allows(None));
    assert!(!abi_allows(Some(0)));
    assert!(!abi_allows(Some(2)));
}
