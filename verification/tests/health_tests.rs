use greentic_operator::provider_health::{
    compute_degraded_level, degraded_dependency_messages, degraded_level_status_name,
    ensure_required_dependencies_available, health_transition_events, provider_health_report,
    request_policy_decision, runtime_dependency_state, HealthEventSource, ProviderHealthRegistry,
    ProviderTransitionKind, RecoveryState, RuntimeProviderHealthReport, RuntimeProviderHealthState,
    Severity,
};
use greentic_operator::runtime_core::{RuntimeHealth, RuntimeHealthStatus};

fn report(class: &str, required: bool, status: RuntimeHealthStatus) -> RuntimeProviderHealthReport {
    RuntimeProviderHealthReport {
        provider_class: class.to_string(),
        required,
        configured: true,
        status,
        reason: None,
        last_checked_at_unix_ms: 0,
        consecutive_failures: 0,
        recovery_state: RecoveryState::Unknown,
    }
}

#[test]
fn seam_answers_become_reports() {
    let missing = provider_health_report("session", true, None);
    assert!(!missing.configured);
    assert_eq!(missing.status, RuntimeHealthStatus::Unavailable);
    assert_eq!(missing.reason.as_deref(), Some("unconfigured"));
    let optional = provider_health_report("telemetry", false, None);
    assert_eq!(optional.status, RuntimeHealthStatus::Unknown);
    let failed = provider_health_report("state", true, Some(Err("connection refused".to_string())));
    assert!(failed.configured);
    assert_eq!(failed.status, RuntimeHealthStatus::Unavailable);
    assert_eq!(failed.reason.as_deref(), Some("connection refused"));
    let healthy = provider_health_report(
        "state",
        true,
        Some(Ok(RuntimeHealth { status: RuntimeHealthStatus::Degraded, reason: Some("slow".to_string()) })),
    );
    assert_eq!(healthy.status, RuntimeHealthStatus::Degraded);
    assert_eq!(healthy.reason.as_deref(), Some("slow"));
    assert_eq!(healthy.recovery_state, RecoveryState::Unknown);
}

#[test]
fn degraded_levels() {
    assert_eq!(compute_degraded_level(&[]), 0);
    assert_eq!(
        compute_degraded_level(&[report("telemetry", false, RuntimeHealthStatus::Unavailable)]),
        1
    );
    assert_eq!(
        compute_degraded_level(&[
            report("telemetry", false, RuntimeHealthStatus::Unavailable),
            report("state", true, RuntimeHealthStatus::Degraded),
        ]),
        2
    );
    assert_eq!(
        compute_degraded_level(&[
            report("state", true, RuntimeHealthStatus::Degraded),
            report("session", true, RuntimeHealthStatus::Unavailable),
        ]),
        3
    );
    assert_eq!(degraded_level_status_name(0), "available");
    assert_eq!(degraded_level_status_name(2), "degraded");
    assert_eq!(degraded_level_status_name(7), "unavailable");
}

#[test]
fn registry_counts_failures_and_recoveries() {
    let mut registry = ProviderHealthRegistry::new();
    let first = registry.update(
        100,
        vec![
            report("session", true, RuntimeHealthStatus::Unavailable),
            report("telemetry", false, RuntimeHealthStatus::Available),
        ],
    );
    assert_eq!(first.snapshot.degraded_level, 3);
    assert!(first.snapshot.safe_mode);
    assert!(!first.snapshot.direct_execution_allowed);
    assert_eq!(first.snapshot.overall_status, RuntimeHealthStatus::Unavailable);
    assert_eq!(first.snapshot.reports[0].consecutive_failures, 1);
    assert_eq!(first.snapshot.reports[0].recovery_state, RecoveryState::Failing);
    assert_eq!(first.snapshot.reports[0].last_checked_at_unix_ms, 100);
    assert_eq!(first.snapshot.reports[1].recovery_state, RecoveryState::Steady);
    assert_eq!(first.provider_transitions.len(), 1);
    assert_eq!(first.provider_transitions[0].kind, ProviderTransitionKind::Outage);
    assert_eq!(first.provider_transitions[0].severity, Severity::Warn);
    let mode = first.mode_transition.expect("mode transition");
    assert_eq!(mode.previous_overall_status, RuntimeHealthStatus::Available);
    assert!(mode.safe_mode && !mode.previous_safe_mode);

    let events = health_transition_events(&first);
    let sources: Vec<HealthEventSource> = events.iter().map(|e| e.source).collect();
    assert_eq!(
        sources,
        vec![
            HealthEventSource::Provider(0),
            HealthEventSource::ModeTransition,
            HealthEventSource::SafeMode,
            HealthEventSource::DegradedLevel,
        ]
    );
    assert_eq!(events[0].event_type, "runtime.provider_outage");
    assert_eq!(events[1].event_type, "runtime.mode_transition");
    assert_eq!(events[1].severity, Severity::Warn);
    assert_eq!(events[2].event_type, "runtime.safe_mode_enter");
    assert_eq!(events[2].outcome.as_deref(), Some("safe_mode"));
    assert_eq!(events[3].event_type, "runtime.degraded_level_changed");
    assert_eq!(
        events[3].reason_codes,
        vec!["runtime.degraded_level_changed".to_string(), "degraded_level.3".to_string()]
    );

    let second = registry.update(
        200,
        vec![report("session", true, RuntimeHealthStatus::Unavailable)],
    );
    assert_eq!(second.snapshot.reports[0].consecutive_failures, 2);
    assert!(second.mode_transition.is_none());
    assert!(second.provider_transitions.is_empty());
    assert!(health_transition_events(&second).is_empty());

    let third = registry.update(300, vec![report("session", true, RuntimeHealthStatus::Available)]);
    assert_eq!(third.snapshot.reports[0].consecutive_failures, 0);
    assert_eq!(third.snapshot.reports[0].recovery_state, RecoveryState::Recovering);
    assert_eq!(third.provider_transitions[0].kind, ProviderTransitionKind::Recovery);
    assert_eq!(third.provider_transitions[0].severity, Severity::Info);
    let events = health_transition_events(&third);
    assert_eq!(events.len(), 4);
    assert_eq!(events[2].event_type, "runtime.safe_mode_leave");
    assert_eq!(events[2].outcome.as_deref(), Some("normal"));
    assert_eq!(events[3].severity, Severity::Info);
    assert_eq!(events[3].outcome.as_deref(), Some("available"));
}

fn state(level: u8, reports: Vec<RuntimeProviderHealthReport>) -> RuntimeProviderHealthState {
    RuntimeProviderHealthState {
        overall_status: RuntimeHealthStatus::Available,
        safe_mode: level >= 2,
        degraded_level: level,
        direct_execution_allowed: level < 3,
        reports,
    }
}

#[test]
fn request_policy_refuses_on_unavailable_or_level() {
    let healthy = state(0, vec![report("state", true, RuntimeHealthStatus::Available)]);
    assert!(request_policy_decision(&healthy, "ingress", &["state"], 1).is_ok());

    let down = state(1, vec![report("state", true, RuntimeHealthStatus::Unavailable)]);
    let refusal = request_policy_decision(&down, "ingress", &["state", "session"], 2).unwrap_err();
    assert_eq!(refusal.code, "runtime_request_refused");
    assert_eq!(refusal.blocking_provider_classes, vec!["state".to_string()]);
    assert_eq!(
        refusal.message,
        "request class `ingress` refused due to unavailable providers: state"
    );

    let deep = state(3, vec![report("state", true, RuntimeHealthStatus::Degraded)]);
    let refusal = request_policy_decision(&deep, "admin", &["state", "session"], 2).unwrap_err();
    assert_eq!(
        refusal.blocking_provider_classes,
        vec!["state".to_string(), "session".to_string()]
    );
    assert_eq!(
        refusal.message,
        "request class `admin` refused in safe mode: degraded_level=3 safe_mode=true"
    );
    assert_eq!(refusal.degraded_level, 3);
}

#[test]
fn dependencies_follow_required_providers() {
    let mut degraded = report("state", true, RuntimeHealthStatus::Degraded);
    degraded.reason = Some("slow".to_string());
    let down = report("session", true, RuntimeHealthStatus::Unavailable);
    let optional = report("telemetry", false, RuntimeHealthStatus::Unavailable);
    let health = state(3, vec![degraded, down, optional]);
    let deps = runtime_dependency_state(&health);
    assert_eq!(deps.reports.len(), 2);
    assert_eq!(deps.reports[0].name, "state");
    assert_eq!(degraded_dependency_messages(&deps), vec!["state: slow".to_string()]);
    let err = ensure_required_dependencies_available(&deps).unwrap_err();
    assert_eq!(err, "required runtime dependencies unavailable: session: unavailable");

    let fine = state(0, vec![report("state", true, RuntimeHealthStatus::Available)]);
    assert!(ensure_required_dependencies_available(&runtime_dependency_state(&fine)).is_ok());
}
