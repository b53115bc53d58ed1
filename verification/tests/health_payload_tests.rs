use greentic_operator::health_payloads::{health_event_payload, provider_health_snapshot_value, report_item};
use greentic_operator::host::{value_at, JsonItem};
use greentic_operator::provider_health::{
    HealthEventSource, ModeTransition, ProviderHealthUpdateResult, ProviderTransitionEvent,
    ProviderTransitionKind, RecoveryState, RuntimeProviderHealthReport, RuntimeProviderHealthState,
    Severity,
};
use greentic_operator::runtime_core::RuntimeHealthStatus;

fn s(t: &str) -> JsonItem {
    JsonItem::Str(t.to_string())
}

fn n(t: &str) -> JsonItem {
    JsonItem::Number(t.to_string())
}

fn session_report() -> RuntimeProviderHealthReport {
    RuntimeProviderHealthReport {
        provider_class: "session".to_string(),
        required: true,
        configured: true,
        status: RuntimeHealthStatus::Unavailable,
        reason: Some("offline".to_string()),
        last_checked_at_unix_ms: 1700,
        consecutive_failures: 2,
        recovery_state: RecoveryState::Failing,
    }
}

fn update() -> ProviderHealthUpdateResult {
    ProviderHealthUpdateResult {
        snapshot: RuntimeProviderHealthState {
            overall_status: RuntimeHealthStatus::Unavailable,
            safe_mode: true,
            degraded_level: 3,
            direct_execution_allowed: false,
            reports: vec![session_report()],
        },
        mode_transition: Some(ModeTransition {
            previous_overall_status: RuntimeHealthStatus::Available,
            overall_status: RuntimeHealthStatus::Unavailable,
            previous_safe_mode: false,
            safe_mode: true,
            previous_degraded_level: 0,
            degraded_level: 3,
        }),
        provider_transitions: vec![ProviderTransitionEvent {
            kind: ProviderTransitionKind::Outage,
            severity: Severity::Warn,
            outcome: RuntimeHealthStatus::Unavailable,
            provider_class: "session".to_string(),
            previous_status: Some(RuntimeHealthStatus::Available),
            current_status: RuntimeHealthStatus::Unavailable,
            reason: Some("offline".to_string()),
        }],
    }
}

#[test]
fn report_items_carry_every_field() {
    let j = report_item(&session_report());
    assert_eq!(value_at(&j, &["status"]), Some(&s("unavailable")));
    assert_eq!(value_at(&j, &["consecutive_failures"]), Some(&n("2")));
    assert_eq!(value_at(&j, &["last_checked_at_unix_ms"]), Some(&n("1700")));
    assert_eq!(value_at(&j, &["recovery_state"]), Some(&s("failing")));
    let v = provider_health_snapshot_value(&update().snapshot);
    assert_eq!(value_at(&v, &["degraded_level"]), Some(&n("3")));
    assert_eq!(value_at(&v, &["safe_mode"]), Some(&JsonItem::Bool(true)));
}

#[test]
fn event_payloads_follow_their_source() {
    let u = update();
    let p = health_event_payload(&u, HealthEventSource::Provider(0)).expect("provider");
    assert_eq!(value_at(&p, &["previous_status"]), Some(&s("available")));
    assert_eq!(value_at(&p, &["reason"]), Some(&s("offline")));
    assert!(health_event_payload(&u, HealthEventSource::Provider(1)).is_none());
    let m = health_event_payload(&u, HealthEventSource::ModeTransition).expect("mode");
    assert_eq!(value_at(&m, &["previous_mode"]), Some(&s("available")));
    assert_eq!(value_at(&m, &["provider_health", "overall_status"]), Some(&s("unavailable")));
    let sm = health_event_payload(&u, HealthEventSource::SafeMode).expect("safe");
    assert_eq!(value_at(&sm, &["previous_safe_mode"]), Some(&JsonItem::Bool(false)));
    let l = health_event_payload(&u, HealthEventSource::DegradedLevel).expect("level");
    assert_eq!(value_at(&l, &["previous_degraded_level"]), Some(&n("0")));
}
