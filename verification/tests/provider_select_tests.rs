use greentic_operator::discovery::{DetectedDomains, DetectedProvider, DiscoveryResult, ProviderIdSource};
use greentic_operator::provider_select::{
    dispatch_pack_candidates, dispatch_pack_not_found, resolve_provider_component_with_roots,
    ProviderPack,
};

fn pack(pack_id: &str, file_name: &str) -> ProviderPack {
    ProviderPack {
        pack_id: pack_id.to_string(),
        file_name: file_name.to_string(),
        path: format!("/bundle/providers/messaging/{file_name}"),
        entry_flows: vec!["main".to_string()],
    }
}

fn discovery(providers: Vec<(&str, &str)>) -> DiscoveryResult {
    DiscoveryResult {
        domains: DetectedDomains { messaging: true, events: false, oauth: false },
        providers: providers
            .into_iter()
            .map(|(id, path)| DetectedProvider {
                provider_id: id.to_string(),
                domain: "messaging".to_string(),
                pack_path: path.to_string(),
                id_source: ProviderIdSource::Manifest,
            })
            .collect(),
    }
}

#[test]
fn provider_component_matches_pack_id_first() {
    let packs = vec![pack("messaging-slack", "slack.gtpack"), pack("messaging-telegram", "tg.gtpack")];
    let component =
        resolve_provider_component_with_roots(packs, &discovery(vec![]), "messaging-telegram")
            .expect("found");
    assert_eq!(component.provider_id, "messaging-telegram");
    assert_eq!(component.pack.file_name, "tg.gtpack");
}

#[test]
fn provider_component_matches_file_name() {
    let packs = vec![pack("other", "messaging-webchat.gtpack")];
    let component =
        resolve_provider_component_with_roots(packs, &discovery(vec![]), "messaging-webchat")
            .expect("found");
    assert_eq!(component.pack.pack_id, "other");
}

#[test]
fn provider_component_uses_discovered_provider_ids() {
    let packs = vec![pack("a", "a.gtpack"), pack("b", "b.gtpack")];
    let found = discovery(vec![
        ("not-it", "/bundle/providers/messaging/a.gtpack"),
        ("demo", "/bundle/providers/messaging/b.gtpack"),
        ("demo", "/bundle/providers/messaging/a.gtpack"),
    ]);
    let component = resolve_provider_component_with_roots(packs, &found, "demo").expect("found");
    assert_eq!(component.provider_id, "demo");
    assert_eq!(component.pack.pack_id, "b");
}

#[test]
fn provider_component_reports_missing_provider() {
    let packs = vec![pack("a", "a.gtpack")];
    let err = resolve_provider_component_with_roots(packs, &discovery(vec![]), "nope").unwrap_err();
    assert_eq!(err, "provider pack not found for nope");
}

#[test]
fn dispatch_pack_candidates_try_path_then_packs_dir() {
    assert_eq!(
        dispatch_pack_candidates("/bundle", "observer"),
        vec![
            "observer".to_string(),
            "/bundle/packs/observer".to_string(),
            "/bundle/packs/observer.gtpack".to_string(),
        ]
    );
    assert_eq!(
        dispatch_pack_not_found("observer", "/bundle/packs"),
        "dispatch target pack observer not found under /bundle/packs"
    );
}

#[test]
fn offer_pack_takes_file_name_from_path() {
    let p = greentic_operator::provider_select::offer_pack(
        "/bundle/packs/observer.gtpack".to_string(),
        "observer.pack".to_string(),
    )
    .expect("file name");
    assert_eq!(p.file_name, "observer.gtpack");
    assert_eq!(p.pack_id, "observer.pack");
    assert!(p.entry_flows.is_empty());
    let err = greentic_operator::provider_select::offer_pack("/".to_string(), "x".to_string())
        .unwrap_err();
    assert_eq!(err, "invalid offer pack file name: /");
}
