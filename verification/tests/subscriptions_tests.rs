use greentic_operator::hooks::post_ingress_policy_gate;
use greentic_operator::provider_health::{RecoveryState, RuntimeProviderHealthReport, RuntimeProviderHealthState};
use greentic_operator::runtime_core::RuntimeHealthStatus;
use greentic_operator::subscriptions::{
    binding_id_for, no_subscription_offers, subscriptions_policy_gate, to_request,
    DesiredSubscription, DesiredSubscriptionUser,
};

fn degraded_state_health() -> RuntimeProviderHealthState {
    RuntimeProviderHealthState {
        overall_status: RuntimeHealthStatus::Degraded,
        safe_mode: true,
        degraded_level: 2,
        direct_execution_allowed: true,
        reports: vec![RuntimeProviderHealthReport {
            provider_class: "state".to_string(),
            required: true,
            configured: true,
            status: RuntimeHealthStatus::Degraded,
            reason: Some("state degraded".to_string()),
            last_checked_at_unix_ms: 0,
            consecutive_failures: 1,
            recovery_state: RecoveryState::Failing,
        }],
    }
}

#[test]
fn subscription_bootstrap_is_refused_in_safe_mode() {
    let err = subscriptions_policy_gate(&degraded_state_health()).unwrap_err();
    assert!(
        err.contains("request class `subscriptions.ensure` refused"),
        "unexpected error: {err}"
    );
    let err = post_ingress_policy_gate(&degraded_state_health()).unwrap_err();
    assert!(err.contains("runtime request refused"));
}

#[test]
fn desired_subscriptions_become_requests() {
    let desired = DesiredSubscription {
        provider: "messaging.email".to_string(),
        resource: "/me/messages".to_string(),
        change_types: Vec::new(),
        notification_url: Some("https://example.test/hook".to_string()),
        client_state: None,
        user: Some(DesiredSubscriptionUser {
            user_id: "u1".to_string(),
            token_key: "tk".to_string(),
        }),
        binding_id: None,
    };
    let request = to_request(&desired, "b-1");
    assert_eq!(request.binding_id, "b-1");
    assert_eq!(request.change_types, vec!["created".to_string()]);
    assert_eq!(request.resource.as_deref(), Some("/me/messages"));
    assert_eq!(request.user.as_ref().map(|u| u.user_id.as_str()), Some("u1"));
    assert_eq!(binding_id_for(&desired).len(), 36);
    assert_eq!(
        no_subscription_offers("email"),
        "provider email does not advertise any subscription offers"
    );
}
