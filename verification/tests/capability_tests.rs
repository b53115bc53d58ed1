use greentic_operator::domains::Domain;
use greentic_operator::host::{value_at, JsonItem};
use greentic_operator::operations::{
    capability_invocation_decision, capability_refusal_outcome, CapabilityRefusal,
};
use greentic_operator::runtime_core::CapabilityBinding;

fn oauth_ops() -> Vec<String> {
    vec!["initiate_auth".to_string(), "await_result".to_string()]
}

fn binding() -> CapabilityBinding {
    CapabilityBinding {
        cap_id: "greentic.cap.test".to_string(),
        stable_id: "pack.a::offer".to_string(),
        pack_id: "pack.a".to_string(),
        domain: Domain::Messaging,
        pack_path: "/bundle/packs/a.gtpack".to_string(),
        provider_component_ref: "component".to_string(),
        provider_op: "provider.dispatch".to_string(),
        version: "v1".to_string(),
        requires_setup: false,
        setup_qa_ref: None,
    }
}

#[test]
fn capability_decision_checks_in_order() {
    let b = binding();
    let ops = oauth_ops();
    assert_eq!(
        capability_invocation_decision("  ", true, &ops, Some(&b), true, true),
        Err(CapabilityRefusal::MissingOp)
    );
    assert_eq!(
        capability_invocation_decision("delete", true, &ops, Some(&b), true, true),
        Err(CapabilityRefusal::UnsupportedOp)
    );
    assert_eq!(
        capability_invocation_decision(" await_result ", true, &ops, Some(&b), true, true),
        Ok("provider.dispatch".to_string())
    );
    assert_eq!(
        capability_invocation_decision("send", false, &ops, None, true, true),
        Err(CapabilityRefusal::Missing)
    );
    assert_eq!(
        capability_invocation_decision("send", false, &ops, Some(&b), false, false),
        Err(CapabilityRefusal::NotInstalled("pack.a::offer".to_string()))
    );
    assert_eq!(
        capability_invocation_decision("send", false, &ops, Some(&b), true, false),
        Err(CapabilityRefusal::PackNotFound("/bundle/packs/a.gtpack".to_string()))
    );
    assert_eq!(
        capability_invocation_decision(" send ", false, &ops, Some(&b), true, true),
        Ok("send".to_string())
    );
    assert_eq!(
        capability_invocation_decision("", false, &ops, Some(&b), true, true),
        Ok("provider.dispatch".to_string())
    );
}

#[test]
fn capability_refusals_become_outcomes() {
    let ops = oauth_ops();
    let o = capability_refusal_outcome("cap.oauth", "", &ops, CapabilityRefusal::MissingOp);
    assert!(!o.success);
    assert_eq!(
        o.error.as_deref(),
        Some("oauth broker capability requires an explicit op (supported: initiate_auth, await_result)")
    );
    let o = capability_refusal_outcome("cap.oauth", " nope ", &ops, CapabilityRefusal::UnsupportedOp);
    assert_eq!(
        o.error.as_deref(),
        Some("unsupported oauth broker op `nope` (supported: initiate_auth, await_result)")
    );
    let out = o.output.expect("output");
    assert_eq!(
        value_at(&out, &["error", "op_name"]),
        Some(&JsonItem::Str("nope".to_string()))
    );
    let o = capability_refusal_outcome(
        "cap.x",
        "send",
        &ops,
        CapabilityRefusal::PackNotFound("/b/a.gtpack".to_string()),
    );
    assert_eq!(o.error.as_deref(), Some("resolved pack not found at /b/a.gtpack"));
    let o = capability_refusal_outcome("cap.x", "send", &ops, CapabilityRefusal::Missing);
    assert_eq!(
        o.error.as_deref(),
        Some("MissingCapability(cap_id=cap.x, op_name=send, component_id=<unknown>)")
    );
}
