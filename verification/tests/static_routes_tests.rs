use greentic_operator::static_routes::{
    cache_control_value, fallback_asset_path, normalize_cache_strategy, normalize_public_path,
    normalize_relative_asset_path, normalize_route_descriptor, parse_route_segments,
    paths_overlap, plan_from_pack_routes, resolve_asset_path, routes_from_extension,
    validate_plan, ActiveRouteTable, CacheStrategy, ReservedRouteSet, RouteScopeSegment,
    StaticRouteCacheRecord, StaticRouteDescriptor, StaticRoutePlan, StaticRouteRecord,
};

fn descriptor(route_id: &str, public_path: &str) -> StaticRouteDescriptor {
    StaticRouteDescriptor {
        route_id: route_id.into(),
        pack_id: "pack".into(),
        pack_path: format!("{route_id}.gtpack"),
        public_path: public_path.into(),
        source_root: "assets".into(),
        index_file: None,
        spa_fallback: None,
        tenant_scoped: false,
        team_scoped: false,
        cache_strategy: CacheStrategy::NoCaching,
        route_segments: parse_route_segments(public_path).expect("segments"),
    }
}

#[test]
fn rejects_reserved_and_overlapping_routes() {
    let reserved = ReservedRouteSet::operator_defaults();
    let mut plan = StaticRoutePlan {
        routes: vec![
            descriptor("one", "/api/onboard/docs"),
            descriptor("two", "/v1/web/docs/admin"),
            descriptor("three", "/v1/web/docs"),
        ],
        warnings: Vec::new(),
        blocking_failures: Vec::new(),
    };
    validate_plan(&mut plan, &reserved);
    assert_eq!(plan.blocking_failures.len(), 2);
}

#[test]
fn active_route_table_matches_placeholders() {
    let route = StaticRouteDescriptor {
        route_id: "tenant-gui".into(),
        pack_id: "web".into(),
        pack_path: "web.gtpack".into(),
        public_path: "/v1/web/webchat/{tenant}/{team}".into(),
        source_root: "assets/webchat".into(),
        index_file: Some("index.html".into()),
        spa_fallback: Some("index.html".into()),
        tenant_scoped: true,
        team_scoped: true,
        cache_strategy: CacheStrategy::NoCaching,
        route_segments: parse_route_segments("/v1/web/webchat/{tenant}/{team}").expect("segments"),
    };
    let table = ActiveRouteTable::from_plan(&StaticRoutePlan {
        routes: vec![route],
        warnings: Vec::new(),
        blocking_failures: Vec::new(),
    });
    let matched = table
        .match_request("/v1/web/webchat/demo/default/app.js")
        .expect("route match");
    assert_eq!(matched.asset_path, "app.js");
}

#[test]
fn validation_messages_name_routes_and_paths() {
    let reserved = ReservedRouteSet::operator_defaults();
    let mut plan = StaticRoutePlan {
        routes: vec![
            descriptor("one", "/healthz"),
            descriptor("two", "/v1/web/a"),
            descriptor("three", "/v1/web/a"),
        ],
        warnings: Vec::new(),
        blocking_failures: vec!["earlier".to_string()],
    };
    validate_plan(&mut plan, &reserved);
    assert_eq!(
        plan.blocking_failures,
        vec![
            "earlier".to_string(),
            "static route one conflicts with reserved operator path space at /healthz".to_string(),
            "static route three duplicates public_path /v1/web/a already claimed by two".to_string(),
            "static routes two (/v1/web/a) and three (/v1/web/a) overlap ambiguously".to_string(),
        ]
    );
}

#[test]
fn reserved_defaults_cover_ingress_and_exact_paths() {
    let reserved = ReservedRouteSet::operator_defaults();
    assert!(reserved.conflicts_with("/v1/messaging/ingress/telegram"));
    assert!(reserved.conflicts_with("oauth/ingress"));
    assert!(reserved.conflicts_with(" /status/ "));
    assert!(!reserved.conflicts_with("/statuses"));
    assert!(!reserved.conflicts_with("/v1/web/docs"));
}

#[test]
fn public_paths_are_normalized() {
    assert_eq!(normalize_public_path("  docs/site//  "), "/docs/site");
    assert_eq!(normalize_public_path("/"), "/");
    assert_eq!(normalize_public_path(""), "/");
    assert!(paths_overlap("/a/b", "/a"));
    assert!(paths_overlap("/a", "/a/"));
    assert!(!paths_overlap("/ab", "/a"));
}

#[test]
fn route_segments_errors() {
    assert_eq!(parse_route_segments("/").unwrap_err(), "public_path must not be /");
    assert_eq!(
        parse_route_segments("/a/{user}/b").unwrap_err(),
        "unsupported public_path segment {user}"
    );
    assert_eq!(
        parse_route_segments("/a/{team}").unwrap_err(),
        "public_path uses {team} without {tenant}"
    );
    assert_eq!(
        parse_route_segments("/{team}/{tenant}").unwrap_err(),
        "public_path must place {team} after {tenant}"
    );
    assert_eq!(
        parse_route_segments("//x/{tenant}/{team}").unwrap(),
        vec![
            RouteScopeSegment::Literal("x".to_string()),
            RouteScopeSegment::Tenant,
            RouteScopeSegment::Team
        ]
    );
}

#[test]
fn relative_asset_paths() {
    assert_eq!(normalize_relative_asset_path("./a//b/./c/"), Some("a/b/c".to_string()));
    assert_eq!(normalize_relative_asset_path("/etc/passwd"), None);
    assert_eq!(normalize_relative_asset_path("a/../b"), None);
    assert_eq!(normalize_relative_asset_path("."), None);
}

#[test]
fn cache_strategies() {
    let max_age = StaticRouteCacheRecord {
        strategy: " public-max-age ".to_string(),
        max_age_seconds: Some(60),
    };
    assert_eq!(
        normalize_cache_strategy(Some(&max_age), "p.gtpack", Some("docs")),
        Ok(CacheStrategy::PublicMaxAge { max_age_seconds: 60 })
    );
    let missing = StaticRouteCacheRecord { strategy: "public-max-age".to_string(), max_age_seconds: None };
    assert_eq!(
        normalize_cache_strategy(Some(&missing), "p.gtpack", None),
        Err("static route <unnamed> in p.gtpack uses public-max-age without max_age_seconds".to_string())
    );
    let odd = StaticRouteCacheRecord { strategy: "forever".to_string(), max_age_seconds: None };
    assert_eq!(
        normalize_cache_strategy(Some(&odd), "p.gtpack", Some("x")),
        Err("static route x in p.gtpack uses unsupported cache.strategy forever".to_string())
    );
    assert_eq!(normalize_cache_strategy(None, "p", None), Ok(CacheStrategy::NoCaching));
    assert_eq!(
        cache_control_value(&CacheStrategy::PublicMaxAge { max_age_seconds: 3600 }),
        Some("public, max-age=3600".to_string())
    );
    assert_eq!(cache_control_value(&CacheStrategy::NoCaching), None);
}

fn record(public_path: &str) -> StaticRouteRecord {
    StaticRouteRecord {
        id: None,
        public_path: public_path.to_string(),
        source_root: "assets/site".to_string(),
        index_file: Some("index.html".to_string()),
        spa_fallback: None,
        tenant: false,
        team: false,
        cache: None,
    }
}

#[test]
fn route_descriptors_from_records() {
    let d = normalize_route_descriptor("web-pack", "web.gtpack", 3, record("v1/web/docs/")).expect("route");
    assert_eq!(d.route_id, "web-pack::3");
    assert_eq!(d.public_path, "/v1/web/docs");
    assert_eq!(d.source_root, "assets/site");
    let mut team_only = record("/v1/{tenant}/{team}");
    team_only.team = true;
    assert_eq!(
        normalize_route_descriptor("p", "p.gtpack", 0, team_only).unwrap_err(),
        "static route <unnamed> in p.gtpack sets team=true but tenant=false"
    );
    let mut flagged = record("/v1/{tenant}");
    flagged.id = Some("t".to_string());
    assert_eq!(
        normalize_route_descriptor("p", "p.gtpack", 0, flagged).unwrap_err(),
        "static route t in p.gtpack has inconsistent tenant flag/public_path"
    );
    let mut bad_root = record("/x");
    bad_root.source_root = "../up".to_string();
    assert_eq!(
        normalize_route_descriptor("p", "p.gtpack", 0, bad_root).unwrap_err(),
        "static route <unnamed> in p.gtpack has invalid source_root ../up"
    );
    let mut bad_index = record("/x");
    bad_index.index_file = Some("/abs.html".to_string());
    assert_eq!(
        normalize_route_descriptor("p", "p.gtpack", 0, bad_index).unwrap_err(),
        "invalid asset path /abs.html"
    );
}

#[test]
fn extension_schema_version_is_checked() {
    assert_eq!(
        routes_from_extension("p", "p.gtpack", 2, vec![record("/a")]).unwrap_err(),
        "unsupported static-routes extension schema_version=2 in p.gtpack"
    );
    let routes = routes_from_extension("p", "p.gtpack", 1, vec![record("/a"), record("/b")]).expect("routes");
    assert_eq!(routes.len(), 2);
    assert_eq!(routes[1].route_id, "p::1");
}

#[test]
fn bundle_plan_collects_routes_and_errors() {
    let reserved = ReservedRouteSet::operator_defaults();
    let plan = plan_from_pack_routes(
        vec![
            Ok(Some(vec![descriptor("a", "/v1/web/a")])),
            Ok(None),
            Err("broken pack".to_string()),
            Ok(Some(vec![descriptor("b", "/v1/web/b")])),
        ],
        &reserved,
    );
    assert_eq!(plan.routes.len(), 2);
    assert_eq!(plan.blocking_failures, vec!["broken pack".to_string()]);
}

#[test]
fn more_specific_routes_win_and_assets_resolve() {
    let mut general = descriptor("general", "/v1/web");
    general.index_file = Some("index.html".to_string());
    general.spa_fallback = Some("spa.html".to_string());
    let specific = descriptor("specific", "/v1/web/docs");
    let table = ActiveRouteTable::from_plan(&StaticRoutePlan {
        routes: vec![general, specific],
        warnings: Vec::new(),
        blocking_failures: Vec::new(),
    });
    assert_eq!(table.routes()[0].route_id, "specific");
    let m = table.match_request("/v1/web/docs/page").expect("match");
    assert_eq!(m.descriptor.route_id, "specific");
    let m = table.match_request("/v1/web/").expect("match");
    assert_eq!(m.descriptor.route_id, "general");
    assert!(m.request_is_directory);
    assert_eq!(resolve_asset_path(&m), Some("index.html".to_string()));
    assert_eq!(fallback_asset_path(&m), Some("spa.html".to_string()));
    let m = table.match_request("/v1/web/app.js").expect("match");
    assert_eq!(resolve_asset_path(&m), Some("app.js".to_string()));
    assert!(table.match_request("/other").is_none());
}
