use greentic_operator::bundle_setup::{parse_providers_value, ProvidersInput};
use greentic_operator::domains::Domain;
use greentic_operator::egress::{
    encode_output_payload, ensure_success, fallback_payload, max_send_attempts,
    node_error_candidate, node_error_details, node_error_text, send_step, NodeErrorFields,
    SendStep,
};
use greentic_operator::host::{value_at, JsonItem, OperationStatus, OperatorContext, RunnerExecutionMode};
use greentic_operator::messaging_dto::{build_ingress_request, build_send_payload, ProviderPayloadV1};
use greentic_operator::operations::{
    capability_target_op, extract_cbor_blob, operation_hook_step, pre_hook_denial_outcome,
    status_after, token_validation_applies, token_validation_outcome, HookChainOutcome,
    HookEvalResponse, HookStage, OperationEnvelope, OperationHookResult,
};
use greentic_operator::outcomes::{
    attach_degraded_dependency_warning, capability_not_installed_outcome,
    missing_capability_outcome, runtime_dependency_failure_outcome, DependencyFailureMode,
    FlowOutcome,
};

fn s(v: &str) -> JsonItem {
    JsonItem::Str(v.to_string())
}

fn obj(members: Vec<(&str, JsonItem)>) -> JsonItem {
    JsonItem::Object(members.into_iter().map(|(k, v)| (k.to_string(), v)).collect())
}

fn str_at<'a>(value: &'a JsonItem, path: &[&str]) -> Option<&'a str> {
    match value_at(value, path) {
        Some(JsonItem::Str(text)) => Some(text.as_str()),
        _ => None,
    }
}

fn first_str_in_array_at<'a>(value: &'a JsonItem, path: &[&str]) -> Option<&'a str> {
    match value_at(value, path) {
        Some(JsonItem::Array(items)) => match items.first() {
            Some(JsonItem::Str(text)) => Some(text.as_str()),
            _ => None,
        },
        _ => None,
    }
}

fn ok_object() -> JsonItem {
    obj(vec![("ok", JsonItem::Bool(true))])
}

#[test]
fn degraded_dependency_warning_is_attached_to_success_output() {
    let wrapped = attach_degraded_dependency_warning(
        ok_object(),
        true,
        &[String::from("session: session provider latency high")],
    );
    assert_eq!(str_at(&wrapped, &["runtime_dependency_warning", "status"]), Some("degraded"));
    assert_eq!(
        first_str_in_array_at(&wrapped, &["runtime_dependency_warning", "reasons"]),
        Some("session: session provider latency high")
    );
    assert_eq!(value_at(&wrapped, &["ok"]), Some(&JsonItem::Bool(true)));
}

#[test]
fn degraded_dependency_warning_wraps_non_object_output() {
    let wrapped = attach_degraded_dependency_warning(
        s("ok"),
        true,
        &[String::from("state: state provider latency high")],
    );
    assert_eq!(str_at(&wrapped, &["result"]), Some("ok"));
    assert_eq!(str_at(&wrapped, &["runtime_dependency_warning", "status"]), Some("degraded"));
    assert_eq!(
        first_str_in_array_at(&wrapped, &["runtime_dependency_warning", "reasons"]),
        Some("state: state provider latency high")
    );
}

#[test]
fn degraded_dependency_warning_is_noop_when_not_degraded() {
    let wrapped = attach_degraded_dependency_warning(
        ok_object(),
        false,
        &[String::from("session: session provider latency high")],
    );
    assert_eq!(wrapped, ok_object());
    assert!(value_at(&wrapped, &["runtime_dependency_warning"]).is_none());
}

#[test]
fn degraded_warning_replaces_an_existing_one() {
    let output = obj(vec![("runtime_dependency_warning", s("old")), ("ok", JsonItem::Bool(true))]);
    let wrapped = attach_degraded_dependency_warning(output, true, &[]);
    match &wrapped {
        JsonItem::Object(m) => {
            assert_eq!(m.len(), 2);
            assert_eq!(m[0].0, "runtime_dependency_warning");
        }
        other => panic!("unexpected {other:?}"),
    }
    assert_eq!(str_at(&wrapped, &["runtime_dependency_warning", "status"]), Some("degraded"));
}

#[test]
fn runtime_outcomes_carry_codes_and_messages() {
    let missing = missing_capability_outcome("cap.x", "op", None);
    assert!(!missing.success);
    assert_eq!(
        missing.error.as_deref(),
        Some("MissingCapability(cap_id=cap.x, op_name=op, component_id=<unknown>)")
    );
    let output = missing.output.expect("output");
    assert_eq!(str_at(&output, &["code"]), Some("missing_capability"));
    assert_eq!(str_at(&output, &["error", "type"]), Some("MissingCapability"));
    assert_eq!(value_at(&output, &["error", "component_id"]), Some(&JsonItem::Null));

    let not_installed = capability_not_installed_outcome("cap.x", "op", "pack::x");
    assert_eq!(
        not_installed.error.as_deref(),
        Some("CapabilityNotInstalled(cap_id=cap.x, op_name=op, stable_id=pack::x)")
    );

    let dependency = runtime_dependency_failure_outcome(
        "session: down".to_string(),
        DependencyFailureMode::Unavailable,
        RunnerExecutionMode::Integration,
    );
    assert_eq!(dependency.error.as_deref(), Some("runtime dependency unavailable: session: down"));
    assert_eq!(dependency.mode, RunnerExecutionMode::Integration);
    let output = dependency.output.expect("output");
    assert_eq!(str_at(&output, &["code"]), Some("runtime_dependency_unavailable"));
    assert_eq!(str_at(&output, &["error", "reason"]), Some("session: down"));

    let denied = pre_hook_denial_outcome("cap.x", "op", "no token");
    assert_eq!(denied.error.as_deref(), Some("operation denied by pre-hook: no token"));
}

fn ctx() -> OperatorContext {
    OperatorContext {
        tenant: "acme".to_string(),
        team: None,
        correlation_id: Some("c-1".to_string()),
    }
}

#[test]
fn operation_envelopes_and_hook_answers() {
    let mut envelope = OperationEnvelope::new("cap.invoke:x", b"payload", &ctx());
    assert_eq!(envelope.op_id.len(), 36);
    assert_eq!(envelope.op_name, "cap.invoke:x");
    assert_eq!(envelope.status, OperationStatus::Pending);
    assert_eq!(envelope.payload_cbor, b"payload".to_vec());

    let deny = HookEvalResponse {
        decision: "DENY".to_string(),
        reason: None,
        envelope: None,
    };
    let outcome = operation_hook_step(HookStage::Pre, OperationHookResult::Decoded(deny), &mut envelope);
    assert_eq!(outcome, HookChainOutcome::Denied("hook denied operation".to_string()));

    let post_deny = HookEvalResponse {
        decision: "deny".to_string(),
        reason: Some("late".to_string()),
        envelope: Some(OperationEnvelope::new("renamed", b"", &ctx())),
    };
    let outcome =
        operation_hook_step(HookStage::Post, OperationHookResult::Decoded(post_deny), &mut envelope);
    assert_eq!(outcome, HookChainOutcome::Continue);
    assert_eq!(envelope.op_name, "renamed");
    assert_eq!(
        operation_hook_step(HookStage::Pre, OperationHookResult::NoOutput, &mut envelope),
        HookChainOutcome::Continue
    );
    assert_eq!(status_after(true), OperationStatus::Succeeded);
    assert_eq!(status_after(false), OperationStatus::Failed);
    assert_eq!(capability_target_op("", "provider.op", false), "provider.op");
    assert_eq!(capability_target_op("asked", "provider.op", false), "asked");
    assert_eq!(capability_target_op("asked", "provider.op", true), "provider.op");
}

fn flow(success: bool, output: Option<JsonItem>, error: Option<&str>) -> FlowOutcome {
    FlowOutcome {
        success,
        output,
        raw: None,
        error: error.map(str::to_string),
        mode: RunnerExecutionMode::Exec,
    }
}

#[test]
fn token_validation_decisions() {
    assert!(token_validation_applies("cap.invoke:other", "greentic.cap.token"));
    assert!(!token_validation_applies("cap.invoke:greentic.cap.token", "greentic.cap.token"));
    let (o, claims) = token_validation_outcome(flow(false, None, None));
    assert_eq!(
        o,
        HookChainOutcome::Denied("token validation capability invocation failed".to_string())
    );
    assert!(claims.is_none());
    let (o, _) = token_validation_outcome(flow(true, None, None));
    assert_eq!(o, HookChainOutcome::Denied("token validation returned no output".to_string()));
    let answer = obj(vec![
        ("valid", JsonItem::Bool(true)),
        ("claims", obj(vec![("sub", s("user-1"))])),
    ]);
    let (o, claims) = token_validation_outcome(flow(true, Some(answer), None));
    assert_eq!(o, HookChainOutcome::Continue);
    assert_eq!(claims, Some(obj(vec![("sub", s("user-1"))])));
    let refused = obj(vec![("valid", JsonItem::Bool(false)), ("reason", s("expired"))]);
    let (o, claims) = token_validation_outcome(flow(true, Some(refused), None));
    assert_eq!(o, HookChainOutcome::Denied("expired".to_string()));
    assert!(claims.is_none());
}

#[test]
fn cbor_blobs_in_hook_answers() {
    let bytes = JsonItem::Array(vec![
        JsonItem::Number("161".to_string()),
        JsonItem::Number("0".to_string()),
    ]);
    assert_eq!(extract_cbor_blob(&bytes), Some(vec![161, 0]));
    assert_eq!(extract_cbor_blob(&JsonItem::Array(vec![JsonItem::Number("256".to_string())])), None);
    assert_eq!(extract_cbor_blob(&s("oQA=")), Some(vec![161, 0]));
    assert_eq!(extract_cbor_blob(&s("***")), None);
    let wrapped = obj(vec![
        ("cbor_b64", s("not base64!")),
        ("hook_decision_cbor", obj(vec![("cbor_b64", s("oQA="))])),
    ]);
    assert_eq!(extract_cbor_blob(&wrapped), Some(vec![161, 0]));
    assert_eq!(extract_cbor_blob(&JsonItem::Bool(true)), None);
}

#[test]
fn base64_blobs_must_be_canonical() {
    assert_eq!(extract_cbor_blob(&s("")), Some(vec![]));
    assert_eq!(extract_cbor_blob(&s("Zm9v")), Some(b"foo".to_vec()));
    assert_eq!(extract_cbor_blob(&s("+/8=")), Some(vec![0xfb, 0xff]));
    // Missing padding, stray trailing bits and inner padding are refused.
    assert_eq!(extract_cbor_blob(&s("oQA")), None);
    assert_eq!(extract_cbor_blob(&s("oQB=")), None);
    assert_eq!(extract_cbor_blob(&s("Zg==Zg==")), None);
}

#[test]
fn egress_attempts_and_errors() {
    assert_eq!(max_send_attempts(0), 1);
    assert_eq!(max_send_attempts(3), 4);
    assert_eq!(max_send_attempts(u32::MAX), u32::MAX);
    let failed = flow(false, None, Some("boom"));
    assert_eq!(ensure_success(&failed, "telegram", "encode").unwrap_err(), "telegram.encode failed: boom");
    let failed = flow(false, None, None);
    assert_eq!(
        ensure_success(&failed, "telegram", "render_plan").unwrap_err(),
        "telegram.render_plan failed: unknown error"
    );
    assert!(ensure_success(&flow(true, None, None), "p", "o").is_ok());

    assert_eq!(node_error_candidate("  oops {\"code\":\"x\"} "), Some("{\"code\":\"x\"}".to_string()));
    assert_eq!(node_error_candidate("no json here"), None);
    let outcome = flow(false, None, Some("send failed"));
    assert_eq!(node_error_text(&outcome), Some("send failed"));

    let parsed = NodeErrorFields {
        code: Some("rate-limited".to_string()),
        message: None,
        retryable: Some(true),
        backoff_ms: Some(1500),
        details: None,
    };
    let details = node_error_details(Some("{...}"), Some(parsed));
    assert_eq!(details.code, "rate-limited");
    assert_eq!(details.message, "{...}");
    assert!(details.retryable);
    assert_eq!(send_step(1, 3, false, &details), SendStep::Retry { backoff_ms: Some(1500) });
    assert_eq!(send_step(3, 3, false, &details), SendStep::DeadLetter);
    assert_eq!(send_step(1, 3, true, &details), SendStep::Sent);
    let plain = node_error_details(None, None);
    assert_eq!(plain.code, "node-error");
    assert_eq!(plain.message, "unknown node error");
    assert_eq!(send_step(1, 3, false, &plain), SendStep::DeadLetter);

    match details.to_json() {
        JsonItem::Object(m) => {
            assert_eq!(m[3], ("backoff_ms".to_string(), JsonItem::Number("1500".to_string())));
            assert_eq!(m[4], ("details".to_string(), JsonItem::Null));
        }
        other => panic!("unexpected {other:?}"),
    }
}

#[test]
fn payloads_for_providers() {
    let wrapped = obj(vec![
        ("ok", JsonItem::Bool(true)),
        ("payload", obj(vec![("content_type", s("text/plain"))])),
    ]);
    assert_eq!(encode_output_payload(wrapped), obj(vec![("content_type", s("text/plain"))]));
    assert_eq!(encode_output_payload(s("bare")), s("bare"));
    let fallback = fallback_payload("{\"text\":\"hi\"}");
    assert_eq!(fallback.content_type, "application/json");
    assert_eq!(fallback.body_b64, "eyJ0ZXh0IjoiaGkifQ==");
    assert_eq!(fallback.metadata_json.as_deref(), Some("{\"text\":\"hi\"}"));

    let payload = ProviderPayloadV1 {
        content_type: "text/plain".to_string(),
        body_b64: "aGk=".to_string(),
        metadata_json: None,
        metadata: None,
    };
    let send = build_send_payload(payload, "telegram".to_string(), "acme".to_string(), None);
    assert_eq!(send.v, 1);
    assert_eq!(send.tenant.tenant, "acme");
    assert!(send.tenant.user.is_none() && send.reply_scope.is_none());

    let request = build_ingress_request(
        "telegram",
        None,
        "POST",
        "/hook",
        Vec::new(),
        Vec::new(),
        b"hello",
        None,
        Some("acme".to_string()),
        None,
    );
    assert_eq!(request.v, 1);
    assert_eq!(request.body_b64, "aGVsbG8=");
    assert_eq!(request.tenant_hint.as_deref(), Some("acme"));
}

#[test]
fn providers_input_by_domain() {
    let value = obj(vec![(
        "Messaging",
        obj(vec![("messaging-telegram", obj(vec![("config", s("value"))]))]),
    )]);
    let input = ProvidersInput::from_value(value).expect("providers");
    let providers = input.providers_for_domain(Domain::Messaging).expect("messaging");
    assert_eq!(
        providers,
        &vec![("messaging-telegram".to_string(), obj(vec![("config", s("value"))]))]
    );
    assert!(input.providers_for_domain(Domain::Events).is_none());

    assert_eq!(
        parse_providers_value(s("x")).unwrap_err(),
        "providers input must be an object keyed by domain names"
    );
    assert_eq!(
        parse_providers_value(obj(vec![("chat", obj(vec![]))])).unwrap_err(),
        "unknown domain 'chat' in providers input (expected messaging|events|secrets|oauth)"
    );
    assert_eq!(
        parse_providers_value(obj(vec![("events", s("x"))])).unwrap_err(),
        "providers for domain 'events' must be an object"
    );
    let twice = parse_providers_value(obj(vec![
        ("messaging", obj(vec![("a", JsonItem::Null)])),
        ("MESSAGING", obj(vec![("b", JsonItem::Null)])),
    ]))
    .expect("providers");
    assert_eq!(twice.len(), 1);
    assert_eq!(twice[0].1[0].0, "b");
}

#[test]
fn secret_error_context_names_the_lookup() {
    assert_eq!(
        greentic_operator::outcomes::secret_error_context(
            "local",
            "demo",
            "default",
            "messaging-telegram",
            "send",
            "telegram.pack",
            "/bundle/providers/messaging/telegram.gtpack",
        ),
        "secret lookup context env=local tenant=demo team=default provider=messaging-telegram flow=send pack_id=telegram.pack pack_path=/bundle/providers/messaging/telegram.gtpack"
    );
}

#[test]
fn payload_is_sent_only_when_asked_and_not_dry() {
    assert!(greentic_operator::egress::sends_payload(true, false));
    assert!(!greentic_operator::egress::sends_payload(true, true));
    assert!(!greentic_operator::egress::sends_payload(false, false));
    assert!(!greentic_operator::egress::sends_payload(false, true));
}
