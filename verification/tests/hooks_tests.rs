use greentic_operator::domains::Domain;
use greentic_operator::host::{JsonItem, OperatorContext};
use greentic_operator::provider_health::{provider_health_report, ProviderHealthRegistry};
use greentic_operator::runtime_core::{RuntimeHealth, RuntimeHealthStatus};
use greentic_operator::hooks::{
    applied_directive_step, apply_control_directive_with_dispatcher, directive_action,
    directive_target_for_audit, ensure_dispatch_target_safe, event_hooks_enabled, hooks_enabled,
    is_safe_segment, post_ingress_hook_step, post_ingress_policy_gate, ControlDirective, DispatchTarget, HookChainStep,
    HookIngressBody, HookInvocation, HookResponseBody, IngressReply,
};

fn test_ctx() -> OperatorContext {
    OperatorContext {
        tenant: "demo".to_string(),
        team: Some("default".to_string()),
        correlation_id: Some("corr-1".to_string()),
    }
}

fn test_body() -> HookIngressBody {
    HookIngressBody {
        request: JsonItem::Object(vec![("x".to_string(), JsonItem::Number("1".to_string()))]),
        response_status: 200,
        response_headers: vec![("a".to_string(), "b".to_string())],
        response_body: Some(HookResponseBody::Bytes(b"ok".to_vec())),
        events: vec![JsonItem::Object(vec![(
            "event".to_string(),
            JsonItem::Str("x".to_string()),
        )])],
    }
}

#[test]
fn apply_continue_keeps_body() {
    let mut body = test_body();
    apply_control_directive_with_dispatcher(
        "/tmp",
        Domain::Messaging,
        &mut body,
        &test_ctx(),
        ControlDirective::Continue,
        |_bundle, _domain, _body, _ctx, _target| Ok(()),
    )
    .expect("apply continue");
    assert_eq!(body, test_body());
}

#[test]
fn apply_respond_overrides_response() {
    let mut body = test_body();
    apply_control_directive_with_dispatcher(
        "/tmp",
        Domain::Messaging,
        &mut body,
        &test_ctx(),
        ControlDirective::Respond {
            reply: IngressReply {
                text: Some("hello".to_string()),
                card_cbor: None,
                status_code: Some(201),
                reason_code: None,
            },
        },
        |_bundle, _domain, _body, _ctx, _target| Ok(()),
    )
    .expect("apply respond");
    assert_eq!(body.response_status, 201);
    assert_eq!(
        body.response_headers,
        vec![("content-type".to_string(), "text/plain".to_string())]
    );
    assert_eq!(body.response_body, Some(HookResponseBody::Bytes(b"hello".to_vec())));
    assert!(body.events.is_empty());
}

#[test]
fn apply_deny_sets_reason_header() {
    let mut body = test_body();
    apply_control_directive_with_dispatcher(
        "/tmp",
        Domain::Messaging,
        &mut body,
        &test_ctx(),
        ControlDirective::Deny {
            reply: IngressReply {
                text: Some("denied".to_string()),
                card_cbor: None,
                status_code: None,
                reason_code: Some("blocked".to_string()),
            },
        },
        |_bundle, _domain, _body, _ctx, _target| Ok(()),
    )
    .expect("apply deny");
    assert_eq!(body.response_status, 403);
    assert!(body
        .response_headers
        .iter()
        .any(|(k, v)| k == "x-reason-code" && v == "blocked"));
    assert!(body.events.is_empty());
}

#[test]
fn apply_dispatch_calls_dispatcher_and_short_circuits() {
    let mut body = test_body();
    let mut called = false;
    apply_control_directive_with_dispatcher(
        "/tmp",
        Domain::Messaging,
        &mut body,
        &test_ctx(),
        ControlDirective::Dispatch {
            target: DispatchTarget {
                tenant: "acme".to_string(),
                team: Some("team-1".to_string()),
                pack: "pack-a".to_string(),
                flow: Some("flow-x".to_string()),
                node: None,
            },
        },
        |_bundle, _domain, _body, _ctx, _target| {
            called = true;
            Ok(())
        },
    )
    .expect("apply dispatch");
    assert!(called);
    assert_eq!(body.response_status, 202);
    assert!(body.events.is_empty());
}

#[test]
fn failed_dispatch_leaves_response() {
    let mut body = test_body();
    let result = apply_control_directive_with_dispatcher(
        "/tmp",
        Domain::Events,
        &mut body,
        &test_ctx(),
        ControlDirective::Dispatch {
            target: DispatchTarget {
                tenant: "acme".to_string(),
                team: None,
                pack: "pack-a".to_string(),
                flow: None,
                node: None,
            },
        },
        |_bundle, _domain, _body, _ctx, _target| Err("no such pack".to_string()),
    );
    assert_eq!(result, Err("no such pack".to_string()));
    assert_eq!(body, test_body());
}

#[test]
fn card_replies_become_json_bodies() {
    let mut body = test_body();
    let card = JsonItem::Object(vec![("title".to_string(), JsonItem::Str("Hi".to_string()))]);
    apply_control_directive_with_dispatcher(
        "/tmp",
        Domain::Messaging,
        &mut body,
        &test_ctx(),
        ControlDirective::Respond {
            reply: IngressReply {
                text: None,
                card_cbor: Some(card),
                status_code: None,
                reason_code: None,
            },
        },
        |_bundle, _domain, _body, _ctx, _target| Ok(()),
    )
    .expect("apply card");
    assert_eq!(body.response_status, 200);
    assert_eq!(
        body.response_headers,
        vec![("content-type".to_string(), "application/json".to_string())]
    );
    assert_eq!(
        body.response_body,
        Some(HookResponseBody::Json(JsonItem::Object(vec![(
            "card".to_string(),
            JsonItem::Object(vec![("title".to_string(), JsonItem::Str("Hi".to_string()))]),
        )])))
    );
}

#[test]
fn hook_switches() {
    assert!(hooks_enabled(None));
    assert!(hooks_enabled(Some("yes")));
    assert!(!hooks_enabled(Some(" OFF ")));
    assert!(!hooks_enabled(Some("0")));
    assert!(!event_hooks_enabled(None));
    assert!(event_hooks_enabled(Some(" True")));
    assert!(!event_hooks_enabled(Some("enabled")));
}

#[test]
fn dispatch_targets_must_be_safe_segments() {
    assert!(is_safe_segment("acme"));
    assert!(!is_safe_segment(""));
    assert!(!is_safe_segment(".."));
    assert!(!is_safe_segment(".hidden"));
    assert!(!is_safe_segment("a/b"));
    assert!(!is_safe_segment("a:b"));
    let target = DispatchTarget {
        tenant: "acme".to_string(),
        team: Some("ops\\x".to_string()),
        pack: "../pack".to_string(),
        flow: None,
        node: None,
    };
    assert_eq!(
        ensure_dispatch_target_safe(&target),
        Err("invalid dispatch team 'ops\\x'".to_string())
    );
    let ok = DispatchTarget {
        tenant: "acme".to_string(),
        team: None,
        pack: "pack".to_string(),
        flow: Some("main".to_string()),
        node: Some("n1".to_string()),
    };
    assert_eq!(ensure_dispatch_target_safe(&ok), Ok(()));
}

#[test]
fn directive_names_and_audit_targets() {
    let dispatch = ControlDirective::Dispatch {
        target: DispatchTarget {
            tenant: "acme".to_string(),
            team: None,
            pack: "pack".to_string(),
            flow: None,
            node: None,
        },
    };
    assert_eq!(directive_action(&dispatch), "dispatch");
    assert_eq!(directive_action(&ControlDirective::Continue), "continue");
    match directive_target_for_audit(&dispatch) {
        Some(JsonItem::Object(m)) => {
            assert_eq!(m.len(), 5);
            assert_eq!(m[0], ("tenant".to_string(), JsonItem::Str("acme".to_string())));
            assert_eq!(m[1], ("team".to_string(), JsonItem::Null));
        }
        other => panic!("unexpected audit target {other:?}"),
    }
    assert!(directive_target_for_audit(&ControlDirective::Continue).is_none());
}

#[test]
fn hook_chain_steps() {
    assert_eq!(
        post_ingress_hook_step(HookInvocation::Failed(None)),
        HookChainStep::ReportFailure("unknown error".to_string())
    );
    assert_eq!(post_ingress_hook_step(HookInvocation::NoOutput), HookChainStep::Next);
    assert_eq!(
        post_ingress_hook_step(HookInvocation::NotADirective),
        HookChainStep::ReportParseError("missing_or_invalid_action".to_string())
    );
    assert_eq!(
        post_ingress_hook_step(HookInvocation::Directive(ControlDirective::Continue)),
        HookChainStep::Next
    );
    assert_eq!(applied_directive_step(Ok(())), None);
    assert_eq!(
        applied_directive_step(Err("boom".to_string())),
        Some("apply_failed:boom".to_string())
    );
}

#[test]
fn apply_post_ingress_hooks_refuses_when_safe_mode_blocks_hooks() {
    let degraded_state = RuntimeHealth {
        status: RuntimeHealthStatus::Degraded,
        reason: Some("state provider latency high".to_string()),
    };
    let healthy = || Some(Ok(RuntimeHealth { status: RuntimeHealthStatus::Available, reason: None }));
    let mut registry = ProviderHealthRegistry::new();
    let round = registry.update(
        1,
        vec![
            provider_health_report("session", true, healthy()),
            provider_health_report("state", true, Some(Ok(degraded_state))),
            provider_health_report("bundle_source", true, healthy()),
            provider_health_report("bundle_resolver", true, healthy()),
            provider_health_report("bundle_fs", true, healthy()),
        ],
    );
    assert!(round.snapshot.safe_mode);
    let err = post_ingress_policy_gate(&round.snapshot).expect_err("safe mode should refuse post-ingress hooks");
    assert!(err.contains("runtime request refused"), "{err}");
}
