use greentic_operator::bundle_setup::{discover_tenants, is_qa_process_node, state_root, TenantEntry};
use greentic_operator::cli_args::{
    cli_locale_arg, is_help_replacement_candidate, localize_help_text, replace_text,
    should_delegate_demo_lifecycle, should_print_demo_help, should_print_top_level_help,
};
use greentic_operator::discovery::{
    discover_from_found, extract_pack_id_from_value, CborItem, DetectedDomains, DetectedProvider,
    DiscoveryResult, FoundPackFile, ProviderIdSource,
};
use greentic_operator::domains::Domain;
use greentic_operator::doctor::{build_doctor_args, resolved_manifest_path, select_demo_packs};
use greentic_operator::messaging_app::{
    app_pack_info_from_manifest, app_pack_info_from_manifest_bytes, resolve_app_pack_path, select_app_flow, AppFlowInfo, AppPackInfo,
};
use greentic_operator::provider_select::{resolve_provider_component_with_roots, ProviderPack};

fn args(items: &[&str]) -> Vec<String> {
    items.iter().map(|s| s.to_string()).collect()
}

#[test]
fn select_app_flow_default_precedence() {
    let info = AppPackInfo {
        pack_id: "id".to_string(),
        flows: vec![
            AppFlowInfo { id: "alpha".to_string(), kind: "messaging".to_string() },
            AppFlowInfo { id: "default".to_string(), kind: "messaging".to_string() },
        ],
    };
    let flow = select_app_flow(&info).unwrap();
    assert_eq!(flow.id, "default");
}

#[test]
fn select_app_flow_single_messaging() {
    let info = AppPackInfo {
        pack_id: "id".to_string(),
        flows: vec![AppFlowInfo { id: "single".to_string(), kind: "messaging".to_string() }],
    };
    let flow = select_app_flow(&info).unwrap();
    assert_eq!(flow.id, "single");
}

#[test]
fn select_app_flow_reports_available_flows() {
    let info = AppPackInfo {
        pack_id: "id".to_string(),
        flows: vec![
            AppFlowInfo { id: "a".to_string(), kind: "MESSAGING".to_string() },
            AppFlowInfo { id: "b".to_string(), kind: "messaging".to_string() },
            AppFlowInfo { id: "c".to_string(), kind: "events".to_string() },
        ],
    };
    assert_eq!(
        select_app_flow(&info).unwrap_err(),
        "APP_FLOW_NOT_RESOLVED; available flows: a, b, c"
    );
}

#[test]
fn detects_qa_process_node() {
    assert!(is_qa_process_node("component-qa"));
    assert!(is_qa_process_node("ai.greentic.component-qa"));
    assert!(is_qa_process_node("root:component/component-qa"));
    assert!(is_qa_process_node("qa.process.setup"));
    assert!(!is_qa_process_node("component-llm-openai"));
    assert!(!is_qa_process_node("messaging-telegram"));
}

#[test]
fn delegates_demo_start() {
    assert!(should_delegate_demo_lifecycle(&args(&["demo", "start", "--bundle", "./bundle"]), false));
}

#[test]
fn delegates_demo_stop_with_locale() {
    assert!(should_delegate_demo_lifecycle(&args(&["--locale", "en", "demo", "stop"]), false));
}

#[test]
fn ignores_non_lifecycle_commands() {
    assert!(!should_delegate_demo_lifecycle(&args(&["demo", "status"]), false));
}

#[test]
fn lifecycle_commands_stay_when_started_internally() {
    assert!(!should_delegate_demo_lifecycle(&args(&["demo", "start"]), true));
}

#[test]
fn help_detection_and_locale() {
    assert!(should_print_top_level_help(&args(&["--help"])));
    assert!(should_print_top_level_help(&args(&["--locale", "de", "-h"])));
    assert!(!should_print_top_level_help(&args(&["demo", "--help"])));
    assert!(should_print_demo_help(&args(&["demo", "--help"])));
    assert!(!should_print_demo_help(&args(&["demo", "start", "--help"])));
    assert_eq!(cli_locale_arg(&args(&["--locale=  fr "])), Some("fr".to_string()));
    assert_eq!(cli_locale_arg(&args(&["--locale", " ", "--locale", "nl"])), Some("nl".to_string()));
    assert_eq!(cli_locale_arg(&args(&["--locale"])), None);
}

#[test]
fn help_localization_replaces_longest_first() {
    assert!(is_help_replacement_candidate("Print help"));
    assert!(!is_help_replacement_candidate("Help"));
    assert!(is_help_replacement_candidate("--bundle"));
    assert_eq!(replace_text("aXbXc", "X", "--"), "a--b--c");
    let entries = vec![
        ("Print help".to_string(), Some("Hilfe drucken".to_string())),
        ("Print help information".to_string(), Some("Hilfeinformationen drucken".to_string())),
        ("Usage: thing".to_string(), Some("Usage: thing".to_string())),
        ("Options:".to_string(), None),
    ];
    assert_eq!(
        localize_help_text("Print help information\nPrint help\nOptions:", &entries),
        "Hilfeinformationen drucken\nHilfe drucken\nOptions:"
    );
}

#[test]
fn app_pack_resolution_order_and_errors() {
    let found = resolve_app_pack_path("/b", "tenant", Some("team"), None, &vec![false, true, true]);
    assert_eq!(found, Ok("/b/packs/tenant/default.gtpack".to_string()));
    let missing = resolve_app_pack_path("/b", "t", None, None, &vec![false, false]);
    assert_eq!(
        missing.unwrap_err(),
        "APP_PACK_NOT_FOUND; tried /b/packs/t/default.gtpack, /b/packs/default.gtpack"
    );
    let bad_override = resolve_app_pack_path("/b", "t", None, Some("/x.gtpack"), &vec![false]);
    assert_eq!(
        bad_override.unwrap_err(),
        "APP_PACK_NOT_FOUND override path /x.gtpack does not exist"
    );
}

fn text(s: &str) -> CborItem {
    CborItem::Text(s.to_string())
}

#[test]
fn manifest_pack_ids_and_flows() {
    let manifest = CborItem::Entries(vec![
        (text("pack_id"), CborItem::Integer(1)),
        (
            text("symbols"),
            CborItem::Entries(vec![(text("pack_ids"), CborItem::Array(vec![text("zero"), text("one")]))]),
        ),
        (
            text("flows"),
            CborItem::Array(vec![
                CborItem::Entries(vec![(text("id"), text("main")), (text("flow"), CborItem::Entries(vec![(text("kind"), text("events"))]))]),
                CborItem::Entries(vec![(text("id"), text("plain"))]),
                CborItem::Other,
            ]),
        ),
    ]);
    assert_eq!(extract_pack_id_from_value(&manifest), Some("one".to_string()));
    let info = app_pack_info_from_manifest(&manifest, "\"p.gtpack\"").expect("info");
    assert_eq!(info.pack_id, "one");
    assert_eq!(info.flows.len(), 2);
    assert_eq!(info.flows[0].kind, "events");
    assert_eq!(info.flows[1].kind, "messaging");
    let no_table = CborItem::Entries(vec![(text("meta"), CborItem::Entries(vec![(text("pack_id"), CborItem::Integer(-7))]))]);
    assert_eq!(extract_pack_id_from_value(&no_table), Some("-7".to_string()));
    assert_eq!(
        app_pack_info_from_manifest(&no_table, "\"p\"").unwrap_err(),
        "pack manifest missing pack id in \"p\""
    );
}

#[test]
fn discovery_orders_providers_by_path() {
    let result = discover_from_found(vec![
        FoundPackFile { domain: Domain::OAuth, path: "/b/providers/oauth/z.gtpack".to_string(), manifest_pack_id: None },
        FoundPackFile { domain: Domain::Messaging, path: "/b/providers/messaging/a.b.gtpack".to_string(), manifest_pack_id: Some("msg".to_string()) },
        FoundPackFile { domain: Domain::Messaging, path: "/b/providers/messaging/readme.txt".to_string(), manifest_pack_id: None },
    ]);
    assert_eq!(result.providers.len(), 2);
    assert_eq!(
        result.providers[0],
        DetectedProvider {
            provider_id: "msg".to_string(),
            domain: "messaging".to_string(),
            pack_path: "/b/providers/messaging/a.b.gtpack".to_string(),
            id_source: ProviderIdSource::Manifest,
        }
    );
    assert_eq!(result.providers[1].provider_id, "z");
    assert_eq!(result.providers[1].id_source, ProviderIdSource::Filename);
    assert!(result.domains.messaging && result.domains.oauth && !result.domains.events);
}

#[test]
fn provider_component_matching() {
    let packs = vec![
        ProviderPack { pack_id: "x".to_string(), file_name: "x.gtpack".to_string(), path: "/p/x.gtpack".to_string(), entry_flows: Vec::new() },
        ProviderPack { pack_id: "y".to_string(), file_name: "telegram.gtpack".to_string(), path: "/p/telegram.gtpack".to_string(), entry_flows: Vec::new() },
    ];
    let none_found = DiscoveryResult {
        domains: DetectedDomains { messaging: false, events: false, oauth: false },
        providers: Vec::new(),
    };
    let c = resolve_provider_component_with_roots(packs, &none_found, "telegram").expect("found");
    assert_eq!(c.pack.pack_id, "y");
    let none = resolve_provider_component_with_roots(Vec::new(), &none_found, "slack");
    assert_eq!(none.unwrap_err(), "provider pack not found for slack");
}

#[test]
fn doctor_arguments_and_paths() {
    assert_eq!(
        build_doctor_args("/p/a.gtpack", &vec!["/v/1.gtpack".to_string()], true),
        args(&["doctor", "/p/a.gtpack", "--strict", "--validator-pack", "/v/1.gtpack"])
    );
    assert_eq!(resolved_manifest_path("/r", "t", Some("x")), "/r/state/resolved/t.x.yaml");
    let (selected, skipped) = select_demo_packs("/read", &args(&["a.gtpack", "/abs/b.gtpack", "c.txt"]));
    assert_eq!(selected, args(&["/read/a.gtpack", "/abs/b.gtpack"]));
    assert_eq!(skipped, args(&["c.txt"]));
}

#[test]
fn tenants_from_listings() {
    let listing = vec![
        TenantEntry { path: "/b/messaging/tenants/beta.json".to_string(), is_dir: false, is_file: true },
        TenantEntry { path: "/b/messaging/tenants/alpha".to_string(), is_dir: true, is_file: false },
        TenantEntry { path: "/b/messaging/tenants/alpha.yaml".to_string(), is_dir: false, is_file: true },
    ];
    assert_eq!(discover_tenants(Some(&listing), None), args(&["alpha", "beta"]));
    let general = vec![TenantEntry { path: "/b/tenants/gamma".to_string(), is_dir: true, is_file: false }];
    assert_eq!(discover_tenants(None, Some(&general)), args(&["gamma"]));
    assert!(discover_tenants(None, None).is_empty());
    assert_eq!(state_root("/b"), "/b/state/subscriptions");
}

fn cbor_text(s: &str) -> serde_cbor::Value {
    serde_cbor::Value::Text(s.to_string())
}

fn cbor_entries(pairs: Vec<(&str, serde_cbor::Value)>) -> serde_cbor::Value {
    let mut map = std::collections::BTreeMap::new();
    for (k, v) in pairs {
        map.insert(cbor_text(k), v);
    }
    serde_cbor::Value::Map(map)
}

#[test]
fn app_pack_manifest_bytes_give_id_and_flows() {
    let manifest = cbor_entries(vec![
        ("pack_id", cbor_text("demo-app")),
        (
            "flows",
            serde_cbor::Value::Array(vec![
                cbor_entries(vec![("id", cbor_text("default"))]),
                cbor_entries(vec![
                    ("id", cbor_text("ingest")),
                    ("flow", cbor_entries(vec![("kind", cbor_text("events"))])),
                ]),
            ]),
        ),
    ]);
    let bytes = serde_cbor::to_vec(&manifest).expect("encode");
    let info = app_pack_info_from_manifest_bytes(&bytes, "\"app.gtpack\"").expect("info");
    assert_eq!(info.pack_id, "demo-app");
    assert_eq!(
        info.flows,
        vec![
            AppFlowInfo { id: "default".to_string(), kind: "messaging".to_string() },
            AppFlowInfo { id: "ingest".to_string(), kind: "events".to_string() },
        ]
    );
}

#[test]
fn app_pack_manifest_bytes_without_id_or_not_cbor_are_refused() {
    let no_id = serde_cbor::to_vec(&cbor_entries(vec![("flows", serde_cbor::Value::Array(vec![]))]))
        .expect("encode");
    assert_eq!(
        app_pack_info_from_manifest_bytes(&no_id, "\"app.gtpack\"").unwrap_err(),
        "pack manifest missing pack id in \"app.gtpack\""
    );
    let err = app_pack_info_from_manifest_bytes(&[0xff, 0x00, 0x13], "\"app.gtpack\"").unwrap_err();
    assert!(!err.starts_with("pack manifest missing pack id"), "{err}");
}
