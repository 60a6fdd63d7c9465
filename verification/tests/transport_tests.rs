use xcmd_base::auth::{Middleware, TokenAuth};
use xcmd_base::lifecycle::{
    get_port, init_telemetry, parse_port, PortChoice, PortError, Sighting, Watch, WatchAction,
    POLL_INTERVAL_MS,
};
use xcmd_base::model::StartupResponse;

#[test]
fn without_a_token_every_request_passes() {
    let auth = TokenAuth::new(None);
    assert!(auth.admits(None));
    assert!(auth.admits(Some("Bearer anything")));
    assert!(auth.admits(Some("")));
}

#[test]
fn matching_bearer_token_passes() {
    let auth = TokenAuth::new(Some("s3cr3t".to_string()));
    assert!(auth.admits(Some("Bearer s3cr3t")));
}

#[test]
fn missing_header_is_unauthorized() {
    let auth = TokenAuth::new(Some("s3cr3t".to_string()));
    assert!(!auth.admits(None));
}

#[test]
fn mismatched_token_is_unauthorized() {
    let auth = TokenAuth::new(Some("s3cr3t".to_string()));
    assert!(!auth.admits(Some("Bearer other")));
    assert!(!auth.admits(Some("Bearer s3cr3t ")));
    assert!(!auth.admits(Some("Bearer ")));
    assert!(!auth.admits(Some("bearer s3cr3t")));
    assert!(!auth.admits(Some("s3cr3t")));
    assert!(!auth.admits(Some("Basic s3cr3t")));
    assert!(!auth.admits(Some("")));
}

#[test]
fn empty_token_is_still_a_token() {
    let auth = TokenAuth::new(Some(String::new()));
    assert!(auth.admits(Some("Bearer ")));
    assert!(!auth.admits(None));
    assert!(!auth.admits(Some("Bearer x")));
}

#[test]
fn middleware_checks_with_the_configured_token() {
    let auth = Middleware::token_auth(Some("t".to_string()));
    let guarded = auth.new_transform(41u32);
    assert_eq!(*guarded.service(), 41);
    assert!(guarded.admits(Some("Bearer t")));
    assert!(!guarded.admits(Some("Bearer u")));
    assert!(!guarded.admits(None));
    let open = Middleware::token_auth(None).new_transform("svc");
    assert_eq!(*open.service(), "svc");
    assert!(open.admits(None));
}

#[test]
fn cors_policy_is_fixed() {
    let policy = Middleware::cors();
    assert_eq!(
        policy.allowed_origins,
        vec!["null", "tauri://localhost", "https://tauri.localhost", "http://tauri.localhost"]
    );
    assert_eq!(policy.allowed_methods, vec!["GET", "POST"]);
    assert_eq!(policy.allowed_headers, vec!["authorization", "accept", "content-type"]);
    assert_eq!(policy.max_age, 3600);
}

#[test]
fn ports_are_read_as_decimal_numbers() {
    assert_eq!(parse_port("8080"), Some(8080));
    assert_eq!(parse_port("0"), Some(0));
    assert_eq!(parse_port("65535"), Some(65535));
    assert_eq!(parse_port("+443"), Some(443));
    assert_eq!(parse_port("00080"), Some(80));
    assert_eq!(parse_port("0000065535"), Some(65535));
}

#[test]
fn texts_that_denote_no_port_are_refused() {
    assert_eq!(parse_port(""), None);
    assert_eq!(parse_port("+"), None);
    assert_eq!(parse_port("65536"), None);
    assert_eq!(parse_port("99999999999999999999"), None);
    assert_eq!(parse_port("-1"), None);
    assert_eq!(parse_port("80a"), None);
    assert_eq!(parse_port(" 80"), None);
    assert_eq!(parse_port("80 "), None);
    assert_eq!(parse_port("++80"), None);
    assert_eq!(parse_port("8_0"), None);
    assert_eq!(parse_port("٨٠"), None);
    assert_eq!(parse_port("0x50"), None);
}

#[test]
fn port_choice_follows_the_configuration() {
    assert_eq!(get_port(None), Ok(PortChoice::Ephemeral));
    assert_eq!(get_port(Some("9000")), Ok(PortChoice::Fixed(9000)));
    assert_eq!(get_port(Some("nine")), Err(PortError));
    assert_eq!(get_port(Some("")), Err(PortError));
    assert_eq!(get_port(Some("70000")), Err(PortError));
}

#[test]
fn startup_response_carries_the_port() {
    let announced = StartupResponse { port: 4711 };
    assert_eq!(announced.port, 4711);
}

#[test]
fn watchdog_probes_while_the_parent_lives() {
    let (state, action) = Watch::start();
    assert_eq!(state, Watch::Starting);
    assert_eq!(action, WatchAction::FindParent);
    let (state, action) = state.step(Sighting::Own { parent: Some(77) });
    assert_eq!(state, Watch::Watching { parent: 77 });
    assert_eq!(action, WatchAction::Probe { parent: 77, after_ms: 0 });
    let (state, action) = state.step(Sighting::Parent { alive: true });
    assert_eq!(state, Watch::Watching { parent: 77 });
    assert_eq!(action, WatchAction::Probe { parent: 77, after_ms: 1000 });
    assert_eq!(POLL_INTERVAL_MS, 1000);
    let (state, action) = state.step(Sighting::Parent { alive: true });
    assert_eq!(state, Watch::Watching { parent: 77 });
    assert_eq!(action, WatchAction::Probe { parent: 77, after_ms: 1000 });
}

#[test]
fn watchdog_stops_when_the_parent_is_gone() {
    let state = Watch::Watching { parent: 5 };
    let (state, action) = state.step(Sighting::Parent { alive: false });
    assert_eq!(state, Watch::Stopped);
    assert_eq!(action, WatchAction::Stop { graceful: true });
}

#[test]
fn watchdog_stops_when_a_lookup_fails() {
    let (state, action) = Watch::Starting.step(Sighting::Own { parent: None });
    assert_eq!(state, Watch::Stopped);
    assert_eq!(action, WatchAction::Stop { graceful: true });
}

#[test]
fn watchdog_stops_on_a_sighting_out_of_turn() {
    let (state, action) = Watch::Starting.step(Sighting::Parent { alive: true });
    assert_eq!(state, Watch::Stopped);
    assert_eq!(action, WatchAction::Stop { graceful: true });
    let (state, _) = (Watch::Watching { parent: 5 }).step(Sighting::Own { parent: Some(6) });
    assert_eq!(state, Watch::Stopped);
    let (state, action) = Watch::Stopped.step(Sighting::Parent { alive: true });
    assert_eq!(state, Watch::Stopped);
    assert_eq!(action, WatchAction::Stop { graceful: true });
}

#[test]
fn telemetry_filter_names_the_backend() {
    let setup = init_telemetry("xcmd_fs");
    assert_eq!(setup.name, "xcmd_base");
    assert_eq!(setup.filter, "xcmd_fs=trace,xcmd_base=debug,actix_web=debug");
}

#[test]
fn open_paths_need_no_token() {
    let auth = TokenAuth::new(Some("t".to_string())).exempting("/icons/");
    assert!(auth.admits_request("/icons/folder", None));
    assert!(auth.admits_request("/icons/", Some("Bearer wrong")));
    assert!(!auth.admits_request("/icons", None));
    assert!(!auth.admits_request("/", None));
    assert!(!auth.admits_request("/x/icons/folder", None));
    assert!(auth.admits_request("/", Some("Bearer t")));
    assert!(!auth.admits(None));
}

#[test]
fn without_open_paths_every_path_is_checked() {
    let auth = TokenAuth::new(Some("t".to_string()));
    assert!(!auth.admits_request("/icons/folder", None));
    assert!(auth.admits_request("/icons/folder", Some("Bearer t")));
    let free = TokenAuth::new(None);
    assert!(free.admits_request("/", None));
}

#[test]
fn several_open_paths_are_all_open() {
    let auth = TokenAuth::new(Some("t".to_string())).exempting("/icons/").exempting("/health");
    assert!(auth.admits_request("/health", None));
    assert!(auth.admits_request("/healthz", None));
    assert!(auth.admits_request("/icons/a", None));
    assert!(!auth.admits_request("/other", None));
    let guarded = auth.new_transform(());
    assert!(guarded.admits_request("/health", None));
    assert!(guarded.admits_request("/icons/a", Some("nonsense")));
    assert!(!guarded.admits_request("/other", Some("nonsense")));
    assert!(guarded.admits_request("/other", Some("Bearer t")));
}
