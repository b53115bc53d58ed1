use greentic_operator::domains::Domain;
use greentic_operator::runtime_core::{ScopedStateKey, SessionKey};
use greentic_operator::runtime_reports::{
    readiness, EventDeliveryOutcome, EventDeliveryTarget, RuntimeControlRequestReport,
    RuntimeControlState, RuntimeEventDeliveryReport,
};
use greentic_operator::runtime_store::{
    decode_session_key, encode_session_key, legacy_session_path, legacy_state_path,
    sanitize_state_key, session_path, session_roots_for_lookup, split_double_colon, state_path,
};
use greentic_operator::state_layout::{
    join_path, run_dir, run_dir_at, runtime_bundle_state_root, runtime_run_dir_at,
    sanitize_path_segment, secrets_log_path, secrets_log_path_at,
};

#[test]
fn path_segments_are_sanitized() {
    assert_eq!(sanitize_path_segment("bundle v1/é"), "bundle_v1__");
    assert_eq!(sanitize_path_segment(""), "_");
    assert_eq!(sanitize_path_segment("a.b-c_d"), "a.b-c_d");
    assert_eq!(sanitize_state_key("a/b\\c:d#e"), "a_b_c_d_e");
}

#[test]
fn paths_join_like_pathbuf() {
    assert_eq!(join_path("/root", "state"), "/root/state");
    assert_eq!(join_path("/root/", "state"), "/root/state");
    assert_eq!(join_path("", "state"), "state");
    assert_eq!(join_path("/root", "/abs"), "/abs");
    assert_eq!(
        runtime_bundle_state_root("/b", "demo bundle"),
        "/b/state/runtime/bundles/demo_bundle"
    );
}

#[test]
fn run_directories_and_logs() {
    assert_eq!(
        run_dir_at("/b", Domain::Messaging, "pack", "flow", 42),
        "/b/state/runs/messaging/pack/flow/42"
    );
    assert_eq!(
        runtime_run_dir_at("/b", "x:y", Domain::Events, "pack", "flow", 7),
        "/b/state/runtime/bundles/x_y/runs/events/pack/flow/7"
    );
    assert_eq!(
        secrets_log_path_at("/b", "apply", 1700000000),
        "/b/state/logs/secrets/apply-1700000000.log"
    );
    let now = run_dir("/b", Domain::Secrets, "p", "f").expect("clock");
    assert!(now.starts_with("/b/state/runs/secrets/p/f/"));
    let log = secrets_log_path("/b", "init").expect("clock");
    assert!(log.starts_with("/b/state/logs/secrets/init-") && log.ends_with(".log"));
}

#[test]
fn state_and_session_files() {
    let key = ScopedStateKey {
        tenant: "acme".to_string(),
        team: None,
        scope: "oauth".to_string(),
        key: "token".to_string(),
    };
    assert_eq!(
        state_path("/b", "bundle-1", &key),
        "/b/state/runtime/bundles/bundle-1/acme/default/provider-state/oauth/token.json"
    );
    assert_eq!(
        legacy_state_path("/b", &key),
        "/b/state/runtime/acme/default/provider-state/oauth/token.json"
    );
    let session = SessionKey {
        tenant: "acme".to_string(),
        team: Some("ops".to_string()),
        session_id: "s1".to_string(),
    };
    assert_eq!(
        session_path("/b", "bundle-1", &session),
        "/b/state/runtime/bundles/bundle-1/acme/ops/sessions/s1.json"
    );
    assert_eq!(legacy_session_path("/b", &session), "/b/state/runtime/acme/ops/sessions/s1.json");
    let (active, legacy) = session_roots_for_lookup("/b", "bundle-1", "acme", None);
    assert_eq!(active, "/b/state/runtime/bundles/bundle-1/acme/default/sessions");
    assert_eq!(legacy, "/b/state/runtime/acme/default/sessions");
}

#[test]
fn session_keys_round_trip() {
    let key = SessionKey {
        tenant: "acme".to_string(),
        team: None,
        session_id: "abc".to_string(),
    };
    let encoded = encode_session_key(&key);
    assert_eq!(encoded, "rt::acme::_::abc");
    assert_eq!(decode_session_key(&encoded), Some(key));
    let with_team = SessionKey {
        tenant: "t".to_string(),
        team: Some("ops".to_string()),
        session_id: "s".to_string(),
    };
    assert_eq!(decode_session_key(&encode_session_key(&with_team)), Some(with_team));
    assert_eq!(decode_session_key("rt::a::b"), None);
    assert_eq!(decode_session_key("xx::a::b::c"), None);
    assert_eq!(decode_session_key("rt::a::b::c::d"), None);
    assert_eq!(
        split_double_colon("a::b::::c"),
        vec!["a".to_string(), "b".to_string(), "".to_string(), "c".to_string()]
    );
}

fn request(id: &str) -> RuntimeControlRequestReport {
    RuntimeControlRequestReport {
        action: id.to_string(),
        requested_at_unix_ms: 5,
        payload_json: "{}".to_string(),
    }
}

#[test]
fn control_state_and_readiness() {
    let mut control = RuntimeControlState::new("node-1".to_string(), 10, None);
    assert!(readiness(&control, 2));
    assert!(!readiness(&control, 3));
    control.record_deployment_request(request("d1"));
    control.set_log_level("debug".to_string());
    control.request_shutdown(99);
    assert!(control.draining && control.shutdown_requested);
    assert_eq!(control.last_shutdown_request_unix_ms, Some(99));
    assert_eq!(control.log_level.as_deref(), Some("debug"));
    assert_eq!(control.last_deployment_request, Some(request("d1")));
    assert!(!readiness(&control, 0));
    control.set_draining(false);
    assert!(readiness(&control, 0));
}

#[test]
fn delivery_report_counts_failures() {
    let mut report = RuntimeEventDeliveryReport::new();
    report.record(EventDeliveryTarget::Telemetry, EventDeliveryOutcome::Delivered);
    report.record(EventDeliveryTarget::Telemetry, EventDeliveryOutcome::TimedOut);
    report.record(EventDeliveryTarget::Observer, EventDeliveryOutcome::Failed("boom".to_string()));
    report.record_drop("runtime.mode_transition");
    assert_eq!(report.telemetry_timeouts, 1);
    assert_eq!(report.telemetry_failures, 0);
    assert_eq!(report.observer_failures, 1);
    assert_eq!(report.last_observer_error.as_deref(), Some("boom"));
    assert_eq!(report.dropped_events, 1);
    assert_eq!(report.last_dropped_event_type.as_deref(), Some("runtime.mode_transition"));
}
