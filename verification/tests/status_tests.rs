use greentic_operator::host::{value_at, JsonItem};
use greentic_operator::runtime_core::{
    RuntimeHealth, RuntimeHealthStatus, RuntimeSelectedProvider, RuntimeWiringPlan,
};
use greentic_operator::runtime_status::{optional_seam_health, runtime_role_payload, RuntimeSeamFlags};

fn no_seams() -> RuntimeSeamFlags {
    RuntimeSeamFlags {
        session: false,
        state: false,
        telemetry: false,
        observer: false,
        admin_auth: false,
        bundle_source: false,
        bundle_resolver: false,
        bundle_fs: false,
    }
}

fn text_at<'a>(value: &'a JsonItem, path: &[&str]) -> Option<&'a str> {
    match value_at(value, path) {
        Some(JsonItem::Str(s)) => Some(s.as_str()),
        _ => None,
    }
}

#[test]
fn runtime_role_payload_includes_selected_roles_and_seam_flags() {
    let plan = RuntimeWiringPlan {
        selected_providers: vec![(
            "state".to_string(),
            RuntimeSelectedProvider {
                role_id: "state".to_string(),
                capability_id: "greentic.cap.state.provider.v1".to_string(),
                contract_id: "greentic.contract.state.v1".to_string(),
                provider_pack: "state.pack".to_string(),
                pack_path: "/tmp/state.gtpack".to_string(),
                entrypoint: "state.dispatch".to_string(),
                component_ref: "state.component".to_string(),
                stable_id: "state.pack::default".to_string(),
            },
        )],
        warnings: vec!["missing optional telemetry provider".to_string()],
        ..RuntimeWiringPlan::default()
    };

    let payload = runtime_role_payload(&plan, no_seams());
    assert_eq!(text_at(&payload, &["selected", "state", "pack_id"]), Some("state.pack"));
    assert_eq!(
        text_at(&payload, &["selected", "state", "contract_id"]),
        Some("greentic.contract.state.v1")
    );
    assert_eq!(value_at(&payload, &["seams", "state"]), Some(&JsonItem::Bool(false)));
    match value_at(&payload, &["warnings"]) {
        Some(JsonItem::Array(items)) => {
            assert_eq!(
                items.first(),
                Some(&JsonItem::Str("missing optional telemetry provider".to_string()))
            )
        }
        other => panic!("warnings should be an array, got {other:?}"),
    }
}

#[test]
fn role_payload_reports_configured_seams_and_failures() {
    let plan = RuntimeWiringPlan {
        blocking_failures: vec!["missing required session provider".to_string()],
        ..RuntimeWiringPlan::default()
    };
    let seams = RuntimeSeamFlags { session: true, bundle_fs: true, ..no_seams() };
    let payload = runtime_role_payload(&plan, seams);
    assert_eq!(value_at(&payload, &["seams", "session"]), Some(&JsonItem::Bool(true)));
    assert_eq!(value_at(&payload, &["seams", "bundle_fs"]), Some(&JsonItem::Bool(true)));
    assert_eq!(value_at(&payload, &["seams", "observer"]), Some(&JsonItem::Bool(false)));
    assert_eq!(value_at(&payload, &["selected"]), Some(&JsonItem::Object(Vec::new())));
    assert_eq!(
        value_at(&payload, &["blocking_failures"]),
        Some(&JsonItem::Array(vec![JsonItem::Str(
            "missing required session provider".to_string()
        )]))
    );
}

#[test]
fn seam_health_reports_unconfigured_reported_and_failed_seams() {
    let absent = optional_seam_health(None);
    assert_eq!(value_at(&absent, &["configured"]), Some(&JsonItem::Bool(false)));
    assert_eq!(text_at(&absent, &["status"]), Some("unconfigured"));
    assert_eq!(value_at(&absent, &["reason"]), Some(&JsonItem::Null));

    let degraded = optional_seam_health(Some(Ok(RuntimeHealth {
        status: RuntimeHealthStatus::Degraded,
        reason: Some("slow".to_string()),
    })));
    assert_eq!(value_at(&degraded, &["configured"]), Some(&JsonItem::Bool(true)));
    assert_eq!(text_at(&degraded, &["status"]), Some("degraded"));
    assert_eq!(text_at(&degraded, &["reason"]), Some("slow"));

    let failed = optional_seam_health(Some(Err("timeout".to_string())));
    assert_eq!(text_at(&failed, &["status"]), Some("error"));
    assert_eq!(text_at(&failed, &["reason"]), Some("timeout"));
}
