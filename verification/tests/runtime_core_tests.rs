use greentic_operator::domains::Domain;
use greentic_operator::runtime_core::{
    default_provider_requirements, require_started, CapabilityOffer, OfferKind, PackOffer, ResolveScope, RuntimeCapabilityDescriptor,
    RuntimeCapabilityRegistry, RuntimeHealth, RuntimeHookDescriptor, RuntimeLifecycleState,
    RuntimeProviderRequirement, RuntimeScope, RuntimeSubscriptionDescriptor, RuntimeWiringPlan,
    CAP_SESSION_PROVIDER_V1, CAP_STATE_PROVIDER_V1, CAP_TELEMETRY_PROVIDER_V1, CONTRACT_SESSION_PROVIDER_V1,
    CONTRACT_TELEMETRY_PROVIDER_V1,
};

fn session_offer(pack: &str, entrypoint: &str, priority: i32, stable_id: &str) -> RuntimeCapabilityDescriptor {
    RuntimeCapabilityDescriptor {
        capability_id: CAP_SESSION_PROVIDER_V1.to_string(),
        contract_id: CONTRACT_SESSION_PROVIDER_V1.to_string(),
        provider_pack: pack.to_string(),
        domain: Domain::Messaging,
        pack_path: format!("/tmp/{pack}.gtpack"),
        entrypoint: entrypoint.to_string(),
        component_ref: "session.component".to_string(),
        priority,
        scope: RuntimeScope::default(),
        applies_to_ops: Vec::new(),
        lifecycle_state: RuntimeLifecycleState::Discovered,
        health: RuntimeHealth::default(),
        requires_setup: false,
        setup_qa_ref: None,
        stable_id: stable_id.to_string(),
    }
}

#[test]
fn wiring_plan_reports_missing_required_providers() {
    let registry = RuntimeCapabilityRegistry::default();
    let plan = registry.build_wiring_plan(&vec![
        RuntimeProviderRequirement {
            role_id: "session".to_string(),
            capability_id: CAP_SESSION_PROVIDER_V1.to_string(),
            contract_id: "greentic.contract.session.v1".to_string(),
            required: true,
        },
        RuntimeProviderRequirement {
            role_id: "telemetry".to_string(),
            capability_id: CAP_TELEMETRY_PROVIDER_V1.to_string(),
            contract_id: CONTRACT_TELEMETRY_PROVIDER_V1.to_string(),
            required: false,
        },
    ]);

    assert_eq!(plan.selected_providers.len(), 0);
    assert_eq!(plan.blocking_failures.len(), 1);
    assert_eq!(plan.warnings.len(), 1);
}

#[test]
fn wiring_plan_selects_highest_priority_provider_for_default_requirements() {
    let registry = RuntimeCapabilityRegistry::from_descriptors(
        vec![
            session_offer("pack.b", "session.low", 50, "pack.b::session"),
            session_offer("pack.a", "session.high", 10, "pack.a::session"),
        ],
        Vec::new(),
        Vec::new(),
    );

    let plan = registry.build_wiring_plan(&default_provider_requirements());
    let selected = plan.selected_provider("session").expect("selected session");
    assert_eq!(selected.provider_pack, "pack.a");
    assert_eq!(selected.entrypoint, "session.high");
}

#[test]
fn resolve_capability_uses_scope_and_requested_op() {
    let mut default_offer = session_offer("pack.default", "default.dispatch", 50, "pack.default::offer");
    default_offer.capability_id = "greentic.cap.test".to_string();
    default_offer.contract_id = "greentic.contract.test.v1".to_string();
    default_offer.pack_path = "/tmp/default.gtpack".to_string();
    default_offer.component_ref = "component".to_string();
    default_offer.applies_to_ops = vec!["op.default".to_string()];
    let mut tenant_offer = session_offer("pack.tenant", "tenant.dispatch", 10, "pack.tenant::offer");
    tenant_offer.capability_id = "greentic.cap.test".to_string();
    tenant_offer.contract_id = "greentic.contract.test.v1".to_string();
    tenant_offer.pack_path = "/tmp/tenant.gtpack".to_string();
    tenant_offer.component_ref = "component".to_string();
    tenant_offer.scope = RuntimeScope {
        envs: Vec::new(),
        tenants: vec!["tenant-a".to_string()],
        teams: Vec::new(),
    };
    tenant_offer.applies_to_ops = vec!["op.special".to_string()];
    let registry =
        RuntimeCapabilityRegistry::from_descriptors(vec![default_offer, tenant_offer], Vec::new(), Vec::new());

    let resolved = registry
        .resolve_capability(
            "greentic.cap.test",
            Some("greentic.contract.test.v1"),
            &ResolveScope {
                env: None,
                tenant: Some("tenant-a".to_string()),
                team: None,
            },
            Some("op.special"),
        )
        .expect("resolved");
    assert_eq!(resolved.pack_id, "pack.tenant");
    assert_eq!(resolved.provider_op, "tenant.dispatch");
}

fn observer_hook() -> RuntimeHookDescriptor {
    RuntimeHookDescriptor {
        offer_key: "observer.pack::post_ingress.audit".to_string(),
        provider_pack: "observer.pack".to_string(),
        pack_path: "/tmp/observer.gtpack".to_string(),
        stage: "post_ingress".to_string(),
        contract_id: "greentic.hook.control.v1".to_string(),
        entrypoint: "observer.post_ingress".to_string(),
        priority: 5,
        lifecycle_state: RuntimeLifecycleState::Discovered,
        health: RuntimeHealth::default(),
    }
}

fn observer_subscription() -> RuntimeSubscriptionDescriptor {
    RuntimeSubscriptionDescriptor {
        offer_key: "observer.pack::bundle.lifecycle".to_string(),
        provider_pack: "observer.pack".to_string(),
        pack_path: "/tmp/observer.gtpack".to_string(),
        contract_id: "greentic.event.bundle_lifecycle.v1".to_string(),
        entrypoint: "observer.bundle_lifecycle".to_string(),
        priority: 10,
        lifecycle_state: RuntimeLifecycleState::Discovered,
        health: RuntimeHealth::default(),
    }
}

#[test]
fn wiring_plan_reports_subscription_provider_presence() {
    let plan = RuntimeWiringPlan {
        hook_chains: vec![(
            "post_ingress:greentic.hook.control.v1".to_string(),
            vec![observer_hook()],
        )],
        subscriptions_by_contract: vec![(
            "greentic.event.bundle_lifecycle.v1".to_string(),
            vec![observer_subscription()],
        )],
        ..RuntimeWiringPlan::default()
    };

    assert!(plan.has_subscription_provider("observer.pack", None));
    assert!(plan.has_subscription_provider(
        "observer.pack",
        Some("greentic.event.bundle_lifecycle.v1")
    ));
    assert_eq!(
        plan.hook_chain("post_ingress", "greentic.hook.control.v1").len(),
        1
    );
    assert!(!plan.has_subscription_provider("observer.pack", Some("greentic.event.unknown.v1")));
    assert!(!plan.has_subscription_provider("other.pack", None));
}

#[test]
fn empty_plan_is_started() {
    assert!(require_started(&RuntimeWiringPlan::default()).is_ok());
}

#[test]
fn plan_with_blocking_failures_is_not_started() {
    let plan = RuntimeWiringPlan {
        blocking_failures: vec!["a".to_string(), "b".to_string()],
        ..RuntimeWiringPlan::default()
    };
    assert_eq!(
        require_started(&plan).unwrap_err(),
        "runtime wiring has blocking failures: a; b"
    );
}

#[test]
fn tied_priority_breaks_on_stable_id() {
    let registry = RuntimeCapabilityRegistry::from_descriptors(
        vec![
            session_offer("pack.z", "z.entry", 10, "pack.z::session"),
            session_offer("pack.m", "m.entry", 10, "pack.m::session"),
        ],
        Vec::new(),
        Vec::new(),
    );
    let plan = registry.build_wiring_plan(&default_provider_requirements());
    let selected = plan.selected_provider("session").expect("selected session");
    assert_eq!(selected.stable_id, "pack.m::session");
}

#[test]
fn setup_plan_keeps_offers_that_resolve_to_themselves() {
    let mut needs_setup = session_offer("pack.setup", "setup.entry", 1, "pack.setup::session");
    needs_setup.requires_setup = true;
    let mut shadowed = session_offer("pack.shadow", "shadow.entry", 5, "pack.shadow::session");
    shadowed.requires_setup = true;
    let registry =
        RuntimeCapabilityRegistry::from_descriptors(vec![shadowed, needs_setup], Vec::new(), Vec::new());
    let plan = registry.setup_plan(&ResolveScope::default());
    assert_eq!(plan.len(), 1);
    assert_eq!(plan[0].stable_id, "pack.setup::session");
    assert!(plan[0].requires_setup);
}

fn declared_capability(offer_id: &str, cap_id: &str, version: &str, op: &str, priority: i32) -> CapabilityOffer {
    CapabilityOffer {
        cap_id: cap_id.to_string(),
        version: version.to_string(),
        pack_id: "session.provider".to_string(),
        domain: Domain::Messaging,
        pack_path: "/tmp/session.gtpack".to_string(),
        provider_op: op.to_string(),
        provider_component_ref: "session.component".to_string(),
        priority,
        envs: Vec::new(),
        tenants: Vec::new(),
        teams: Vec::new(),
        applies_to_ops: Vec::new(),
        requires_setup: false,
        setup_qa_ref: None,
        stable_id: format!("session.provider::{offer_id}"),
    }
}

#[test]
fn registry_discovers_capabilities_hooks_and_subscriptions() {
    let capability_offers = vec![
        declared_capability(
            "session.default",
            CAP_SESSION_PROVIDER_V1,
            "greentic.contract.session.v1",
            "session.dispatch",
            10,
        ),
        declared_capability(
            "state.default",
            CAP_STATE_PROVIDER_V1,
            "greentic.contract.state.v1",
            "state.dispatch",
            20,
        ),
    ];
    let pack_offers = vec![
        PackOffer {
            offer_key: "session.provider::post_ingress.audit".to_string(),
            kind: OfferKind::Hook,
            pack_id: "session.provider".to_string(),
            pack_ref: "/tmp/session.gtpack".to_string(),
            stage: Some("post_ingress".to_string()),
            contract: Some("greentic.hook.control.v1".to_string()),
            provider_op: "observer.post_ingress".to_string(),
            priority: 5,
        },
        PackOffer {
            offer_key: "session.provider::bundle.lifecycle".to_string(),
            kind: OfferKind::Subs,
            pack_id: "session.provider".to_string(),
            pack_ref: "/tmp/session.gtpack".to_string(),
            stage: None,
            contract: Some("greentic.event.bundle_lifecycle.v1".to_string()),
            provider_op: "observer.bundle_lifecycle".to_string(),
            priority: 9,
        },
    ];
    let registry = RuntimeCapabilityRegistry::discover(capability_offers, pack_offers);

    assert_eq!(registry.capability_offers(CAP_SESSION_PROVIDER_V1).len(), 1);
    assert_eq!(
        registry
            .hook_chain("post_ingress", "greentic.hook.control.v1")
            .len(),
        1
    );
    assert_eq!(
        registry
            .subscriptions("greentic.event.bundle_lifecycle.v1")
            .len(),
        1
    );
}
