//! Runtime services: changes, refusals, and how they become configuration.

use gatel_core::config::types::{
    AppConfig, HandlerConfig, HoopConfig, LbPolicy, SiteConfig, SiteTlsConfig,
};
use gatel_core::router::matcher::RequestMatcher;
use gatel_core::runtime_services::merge::merge_runtime_config;
use gatel_core::runtime_services::types::{
    default_drain_timeout, default_lb_policy, RuntimeHealthCheck, RuntimeListener,
    RuntimeListenerProtocol, RuntimeRoute, RuntimeRoutePatch, RuntimeService, RuntimeServiceError,
    RuntimeServicePatch, RuntimeState, RuntimeTarget, RuntimeTargetGroup, RuntimeTargetPatch,
    RuntimeTargetState, RuntimeTlsPolicy,
};
fn service_with_listener(
    id: &str,
    listener_id: &str,
    protocol: RuntimeListenerProtocol,
) -> RuntimeService {
    RuntimeService {
        id: id.to_string(),
        revision: 0,
        listeners: vec![RuntimeListener {
            id: listener_id.to_string(),
            protocol,
        }],
        routes: vec![RuntimeRoute {
            id: "api".to_string(),
            hosts: vec!["example.com".to_string()],
            path_prefix: "/api".to_string(),
            matchers: Vec::new(),
            strip_path_prefix: true,
            lb: default_lb_policy(),
            lb_header: None,
            lb_cookie: None,
            target_groups: vec![RuntimeTargetGroup {
                id: "primary".to_string(),
                weight: 100,
                targets: vec![RuntimeTarget {
                    id: "app-1".to_string(),
                    addr: "127.0.0.1:3000".to_string(),
                    weight: 100,
                    state: RuntimeTargetState::Active,
                    drain_timeout: default_drain_timeout(),
                    last_error: None,
                }],
            }],
            health_check: RuntimeHealthCheck::default(),
        }],
        tls: None,
    }
}

#[test]
fn upsert_and_get_service() {
    let mut state = RuntimeState::default();
    let inserted = state
        .upsert_service(
            service_with_listener("api", "https", RuntimeListenerProtocol::Https),
            None,
        )
        .unwrap();

    assert_eq!(inserted.id, "api");
    assert_eq!(inserted.revision, 1);
    assert_eq!(
        state.get_service("api").unwrap().routes[0].path_prefix,
        "/api"
    );
}

#[test]
fn rejects_overlapping_host_and_path_for_same_protocol() {
    let mut state = RuntimeState::default();
    state
        .upsert_service(
            service_with_listener("api", "https", RuntimeListenerProtocol::Https),
            None,
        )
        .unwrap();

    let error = state
        .upsert_service(
            service_with_listener("assets", "https", RuntimeListenerProtocol::Https),
            None,
        )
        .unwrap_err();

    assert_eq!(
        error,
        RuntimeServiceError::RouteConflict {
            existing_service_id: "api".to_string(),
            existing_route_id: "api".to_string(),
            host: "example.com".to_string(),
            path: "/api".to_string(),
            protocol: "https".to_string(),
        }
    );
}

#[test]
fn allows_same_host_and_path_when_listener_protocol_differs() {
    let mut state = RuntimeState::default();
    state
        .upsert_service(
            service_with_listener("api-http", "http", RuntimeListenerProtocol::Http),
            None,
        )
        .unwrap();

    state
        .upsert_service(
            service_with_listener("api-https", "https", RuntimeListenerProtocol::Https),
            None,
        )
        .unwrap();

    assert_eq!(state.list_services().len(), 2);
}

#[test]
fn allows_nested_path_routes_with_deterministic_precedence() {
    let mut service = service_with_listener("api", "https", RuntimeListenerProtocol::Https);
    service.routes.push(RuntimeRoute {
        id: "api-v2".to_string(),
        hosts: vec!["example.com".to_string()],
        path_prefix: "/api/v2".to_string(),
        matchers: Vec::new(),
        strip_path_prefix: true,
        lb: default_lb_policy(),
        lb_header: None,
        lb_cookie: None,
        target_groups: vec![RuntimeTargetGroup {
            id: "secondary".to_string(),
            weight: 100,
            targets: vec![RuntimeTarget {
                id: "app-2".to_string(),
                addr: "127.0.0.1:3001".to_string(),
                weight: 100,
                state: RuntimeTargetState::Active,
                drain_timeout: default_drain_timeout(),
                last_error: None,
            }],
        }],
        health_check: RuntimeHealthCheck::default(),
    });

    let mut state = RuntimeState::default();
    state.upsert_service(service, None).unwrap();

    let routes = state.list_routes("api").unwrap();
    assert_eq!(routes[0].id, "api-v2");
    assert_eq!(routes[1].id, "api");
}

#[test]
fn allows_same_path_with_header_canary_and_fallback_routes() {
    let mut service = service_with_listener("api", "https", RuntimeListenerProtocol::Https);
    service.routes.push(RuntimeRoute {
        id: "api-canary".to_string(),
        hosts: vec!["example.com".to_string()],
        path_prefix: "/api".to_string(),
        matchers: vec![RequestMatcher::Header {
            name: "x-deploy".to_string(),
            pattern: "canary".to_string(),
        }],
        strip_path_prefix: true,
        lb: LbPolicy::CookieHash,
        lb_header: None,
        lb_cookie: Some("deploy".to_string()),
        target_groups: vec![RuntimeTargetGroup {
            id: "canary".to_string(),
            weight: 20,
            targets: vec![RuntimeTarget {
                id: "app-2".to_string(),
                addr: "127.0.0.1:3001".to_string(),
                weight: 100,
                state: RuntimeTargetState::Active,
                drain_timeout: default_drain_timeout(),
                last_error: None,
            }],
        }],
        health_check: RuntimeHealthCheck::default(),
    });

    let mut state = RuntimeState::default();
    state.upsert_service(service, None).unwrap();

    let routes = state.list_routes("api").unwrap();
    assert_eq!(routes[0].id, "api-canary");
    assert_eq!(routes[1].id, "api");
}

#[test]
fn rejects_same_path_routes_with_peer_matcher_specificity() {
    let mut service = service_with_listener("api", "https", RuntimeListenerProtocol::Https);
    service.routes.push(RuntimeRoute {
        id: "api-cookie".to_string(),
        hosts: vec!["example.com".to_string()],
        path_prefix: "/api".to_string(),
        matchers: vec![RequestMatcher::Cookie {
            name: "deploy".to_string(),
            pattern: "canary".to_string(),
        }],
        strip_path_prefix: true,
        lb: default_lb_policy(),
        lb_header: None,
        lb_cookie: None,
        target_groups: vec![RuntimeTargetGroup {
            id: "cookie".to_string(),
            weight: 100,
            targets: vec![RuntimeTarget {
                id: "app-2".to_string(),
                addr: "127.0.0.1:3001".to_string(),
                weight: 100,
                state: RuntimeTargetState::Active,
                drain_timeout: default_drain_timeout(),
                last_error: None,
            }],
        }],
        health_check: RuntimeHealthCheck::default(),
    });
    service.routes.push(RuntimeRoute {
        id: "api-header".to_string(),
        hosts: vec!["example.com".to_string()],
        path_prefix: "/api".to_string(),
        matchers: vec![RequestMatcher::Header {
            name: "x-deploy".to_string(),
            pattern: "canary".to_string(),
        }],
        strip_path_prefix: true,
        lb: default_lb_policy(),
        lb_header: None,
        lb_cookie: None,
        target_groups: vec![RuntimeTargetGroup {
            id: "header".to_string(),
            weight: 100,
            targets: vec![RuntimeTarget {
                id: "app-3".to_string(),
                addr: "127.0.0.1:3002".to_string(),
                weight: 100,
                state: RuntimeTargetState::Active,
                drain_timeout: default_drain_timeout(),
                last_error: None,
            }],
        }],
        health_check: RuntimeHealthCheck::default(),
    });

    let mut state = RuntimeState::default();
    let error = state.upsert_service(service, None).unwrap_err();
    assert!(matches!(error, RuntimeServiceError::RouteConflict { .. }));
}

#[test]
fn updates_nested_target_and_bumps_service_revision() {
    let mut state = RuntimeState::default();
    let service = state
        .upsert_service(
            service_with_listener("api", "https", RuntimeListenerProtocol::Https),
            None,
        )
        .unwrap();

    let target = state
        .patch_target(
            "api",
            "api",
            "primary",
            "app-1",
            RuntimeTargetPatch {
                state: Some(RuntimeTargetState::Draining),
                ..RuntimeTargetPatch::default()
            },
            Some(service.revision),
        )
        .unwrap();

    assert_eq!(target.state, RuntimeTargetState::Draining);
    assert_eq!(state.get_service("api").unwrap().revision, 2);
}

#[test]
fn rejects_stale_revision() {
    let mut state = RuntimeState::default();
    let service = state
        .upsert_service(
            service_with_listener("api", "https", RuntimeListenerProtocol::Https),
            None,
        )
        .unwrap();

    let error = state
        .patch_service(
            "api",
            RuntimeServicePatch {
                tls: Some(RuntimeTlsPolicy {
                    https_redirect: Some(true),
                    ..RuntimeTlsPolicy::default()
                }),
                ..RuntimeServicePatch::default()
            },
            Some(service.revision + 1),
        )
        .unwrap_err();

    assert_eq!(
        error,
        RuntimeServiceError::RevisionConflict {
            expected: service.revision + 1,
            actual: service.revision,
        }
    );
}

#[test]
fn merges_active_runtime_routes_into_config() {
    let mut state = RuntimeState::default();
    state
        .upsert_service(
            RuntimeService {
                id: "api".to_string(),
                revision: 0,
                listeners: vec![RuntimeListener {
                    id: "https".to_string(),
                    protocol: RuntimeListenerProtocol::Https,
                }],
                routes: vec![RuntimeRoute {
                    id: "api".to_string(),
                    hosts: vec!["example.com".to_string()],
                    path_prefix: "/api".to_string(),
                    matchers: vec![
                        RequestMatcher::Header {
                            name: "x-deploy".to_string(),
                            pattern: "canary".to_string(),
                        },
                        RequestMatcher::Cookie {
                            name: "deploy".to_string(),
                            pattern: "canary".to_string(),
                        },
                    ],
                    strip_path_prefix: true,
                    lb: LbPolicy::CookieHash,
                    lb_header: None,
                    lb_cookie: Some("deploy".to_string()),
                    target_groups: vec![RuntimeTargetGroup {
                        id: "primary".to_string(),
                        weight: 50,
                        targets: vec![
                            RuntimeTarget {
                                id: "warming".to_string(),
                                addr: "127.0.0.1:3001".to_string(),
                                weight: 100,
                                state: RuntimeTargetState::Warming,
                                drain_timeout: default_drain_timeout(),
                                last_error: None,
                            },
                            RuntimeTarget {
                                id: "active".to_string(),
                                addr: "127.0.0.1:3002".to_string(),
                                weight: 100,
                                state: RuntimeTargetState::Active,
                                drain_timeout: default_drain_timeout(),
                                last_error: None,
                            },
                        ],
                    }],
                    health_check: RuntimeHealthCheck::default(),
                }],
                tls: Some(RuntimeTlsPolicy {
                    https_redirect: Some(true),
                    ..RuntimeTlsPolicy::default()
                }),
            },
            None,
        )
        .unwrap();

    let base = AppConfig::default();
    let merged = merge_runtime_config(&base, &state).unwrap();
    let site = merged
        .sites
        .iter()
        .find(|site| site.host == "example.com")
        .unwrap();
    let route = site
        .routes
        .iter()
        .find(|route| route.path == "/api/*")
        .unwrap();

    match &route.handler {
        HandlerConfig::Proxy(proxy) => {
            assert_eq!(proxy.upstreams.len(), 1);
            assert_eq!(proxy.upstreams[0].addr, "127.0.0.1:3002");
            assert_eq!(proxy.upstreams[0].weight, 5000);
            assert_eq!(proxy.lb, LbPolicy::CookieHash);
            assert_eq!(proxy.lb_cookie.as_deref(), Some("deploy"));
        }
        other => panic!("unexpected handler: {other:?}"),
    }

    assert!(
        route
            .matchers
            .iter()
            .any(|matcher| matches!(matcher, RequestMatcher::Header { name, pattern } if name == "x-deploy" && pattern == "canary"))
    );
    assert!(
        route
            .matchers
            .iter()
            .any(|matcher| matches!(matcher, RequestMatcher::Cookie { name, pattern } if name == "deploy" && pattern == "canary"))
    );
    assert!(route.matchers.iter().any(
        |matcher| matches!(matcher, RequestMatcher::Protocol(protocol) if protocol == "https")
    ));
    assert!(
        route
            .middlewares
            .iter()
            .any(|middleware| matches!(middleware, HoopConfig::ForceHttps { .. }))
    );
}

#[test]
fn rejects_conflicting_runtime_tls_hosts() {
    let mut state = RuntimeState::default();

    let mut api = service_with_listener("api", "https", RuntimeListenerProtocol::Https);
    api.tls = Some(RuntimeTlsPolicy {
        certificate_ref: Some("api-cert.pem".to_string()),
        private_key_ref: Some("api-key.pem".to_string()),
        ..RuntimeTlsPolicy::default()
    });
    state.upsert_service(api, None).unwrap();

    let mut assets = service_with_listener("assets", "https", RuntimeListenerProtocol::Https);
    assets.routes[0].path_prefix = "/assets".to_string();
    assets.tls = Some(RuntimeTlsPolicy {
        certificate_ref: Some("assets-cert.pem".to_string()),
        private_key_ref: Some("assets-key.pem".to_string()),
        ..RuntimeTlsPolicy::default()
    });

    let error = state.upsert_service(assets, None).unwrap_err();
    assert_eq!(
        error,
        RuntimeServiceError::TlsHostConflict {
            host: "example.com".to_string(),
            existing_service_id: "api".to_string(),
            service_id: "assets".to_string(),
        }
    );
}

#[test]
fn rejects_conflicting_static_tls_host_on_merge() {
    let mut service = service_with_listener("api", "https", RuntimeListenerProtocol::Https);
    service.tls = Some(RuntimeTlsPolicy {
        certificate_ref: Some("runtime-cert.pem".to_string()),
        private_key_ref: Some("runtime-key.pem".to_string()),
        ..RuntimeTlsPolicy::default()
    });

    let mut state = RuntimeState::default();
    state.upsert_service(service, None).unwrap();

    let mut base = AppConfig::default();
    base.sites.push(SiteConfig {
        host: "example.com".to_string(),
        tls: Some(SiteTlsConfig {
            cert: "static-cert.pem".to_string(),
            key: "static-key.pem".to_string(),
        }),
        routes: Vec::new(),
    });

    let error = merge_runtime_config(&base, &state).unwrap_err();
    assert_eq!(
        error,
        RuntimeServiceError::StaticTlsHostConflict {
            host: "example.com".to_string(),
            service_id: "api".to_string(),
        }
    );
}

#[test]
fn merges_runtime_tls_and_canonical_host_policy() {
    let mut service = service_with_listener("api", "https", RuntimeListenerProtocol::Https);
    service.routes[0].hosts = vec!["example.com".to_string(), "www.example.com".to_string()];
    service.tls = Some(RuntimeTlsPolicy {
        certificate_ref: Some("runtime-cert.pem".to_string()),
        private_key_ref: Some("runtime-key.pem".to_string()),
        https_redirect: Some(true),
        canonical_host: Some("example.com".to_string()),
    });

    let mut state = RuntimeState::default();
    state.upsert_service(service, None).unwrap();

    let merged = merge_runtime_config(&AppConfig::default(), &state).unwrap();
    let canonical_site = merged
        .sites
        .iter()
        .find(|site| site.host == "example.com")
        .unwrap();
    assert_eq!(
        canonical_site.tls,
        Some(SiteTlsConfig {
            cert: "runtime-cert.pem".to_string(),
            key: "runtime-key.pem".to_string(),
        })
    );

    let canonical_route = canonical_site
        .routes
        .iter()
        .find(|route| route.path == "/api/*")
        .unwrap();
    assert!(matches!(canonical_route.handler, HandlerConfig::Proxy(_)));
    assert!(
        canonical_route
            .middlewares
            .iter()
            .any(|middleware| matches!(middleware, HoopConfig::ForceHttps { .. }))
    );

    let redirect_site = merged
        .sites
        .iter()
        .find(|site| site.host == "www.example.com")
        .unwrap();
    assert_eq!(redirect_site.tls, canonical_site.tls);

    let redirect_route = redirect_site
        .routes
        .iter()
        .find(|route| route.path == "/api/*")
        .unwrap();
    assert!(redirect_route.matchers.iter().any(
        |matcher| matches!(matcher, RequestMatcher::Protocol(protocol) if protocol == "https")
    ));
    match &redirect_route.handler {
        HandlerConfig::Redirect { to, permanent } => {
            assert_eq!(to, "https://example.com{path}{query_suffix}");
            assert!(*permanent);
        }
        other => panic!("unexpected handler: {other:?}"),
    }
}

fn route(id: &str, path_prefix: &str) -> RuntimeRoute {
    let mut service = service_with_listener("x", "https", RuntimeListenerProtocol::Https);
    let mut route = service.routes.remove(0);
    route.id = id.to_string();
    route.path_prefix = path_prefix.to_string();
    route
}

fn target(id: &str, addr: &str) -> RuntimeTarget {
    let mut route = route("x", "/");
    let mut target = route.target_groups.remove(0).targets.remove(0);
    target.id = id.to_string();
    target.addr = addr.to_string();
    target
}

fn state_with_api() -> RuntimeState {
    let mut state = RuntimeState::default();
    let mut service = service_with_listener(" api ", "https", RuntimeListenerProtocol::Https);
    service.routes[0].target_groups.push(RuntimeTargetGroup {
        id: "spare".to_string(),
        weight: 1,
        targets: vec![target("app-9", "127.0.0.1:3009")],
    });
    state.upsert_service(service, None).unwrap();
    state
}

#[test]
fn services_are_listed_by_trimmed_id() {
    let mut state = state_with_api();
    for id in ["zoo ", " b", "m"] {
        let mut service = service_with_listener(id, "http", RuntimeListenerProtocol::Http);
        service.routes[0].hosts = vec![format!("{}.example.com", id.trim())];
        state.upsert_service(service, None).unwrap();
    }
    let ids: Vec<String> = state.list_services().iter().map(|s| s.id.clone()).collect();
    assert_eq!(ids, vec!["api", "b", "m", "zoo"]);
    for id in &ids {
        assert_eq!(&state.get_service(id).unwrap().id, id);
    }
    assert!(state.get_service(" b").is_none());
    let blank = service_with_listener("  ", "http", RuntimeListenerProtocol::Http);
    assert_eq!(state.upsert_service(blank, None), Err(RuntimeServiceError::EmptyServiceId));
}

#[test]
fn longer_prefixes_are_listed_first() {
    let mut state = state_with_api();
    state.upsert_route("api", "root", route("ignored", "/"), None).unwrap();
    let set = state.upsert_route("api", " deep ", route("ignored", " /api/v2/ "), None).unwrap();
    assert_eq!(set.id, "deep");
    assert_eq!(set.path_prefix, "/api/v2");
    let mut again = route("ignored", "/api/v2");
    again.hosts = vec![" B.example.com".to_string(), "a.example.com".to_string()];
    let set = state.upsert_route("api", "deep", again, None).unwrap();
    assert_eq!(set.hosts, vec!["a.example.com".to_string(), "b.example.com".to_string()]);
    let ids: Vec<String> =
        state.list_routes("api").unwrap().iter().map(|r| r.id.clone()).collect();
    assert_eq!(ids, vec!["deep", "api", "root"]);
}

#[test]
fn an_empty_patch_changes_the_revisions_alone() {
    let mut state = state_with_api();
    let before = state.get_service("api").unwrap();
    let old = state.get_route("api", "api").unwrap();
    let patch = RuntimeRoutePatch::default();
    assert_eq!(state.patch_route("api", "api", patch, None), Ok(old));
    let after = state.get_service("api").unwrap();
    assert_eq!(state.revision, 2);
    assert_eq!(after.revision, 2);
    assert_eq!(after.routes, before.routes);
    assert_eq!(after.listeners, before.listeners);
}

#[test]
fn a_target_id_is_taken_in_all_groups() {
    let mut state = state_with_api();
    let unchanged = state_with_api();
    assert_eq!(
        state.upsert_target("api", "api", "spare", " app-1 ", target("", "127.0.0.1:1"), None),
        Err(RuntimeServiceError::DuplicateTargetId("app-1".to_string()))
    );
    assert_eq!(
        state.upsert_target("api", "api", "primary", "app-9", target("", "127.0.0.1:1"), None),
        Err(RuntimeServiceError::DuplicateTargetId("app-9".to_string()))
    );
    assert_eq!(state, unchanged);
    assert!(state
        .upsert_target("api", "api", "spare", "app-9", target("", "127.0.0.1:1"), None)
        .is_ok());
}

#[test]
fn a_removed_target_leaves_its_group() {
    let mut state = state_with_api();
    state
        .upsert_target("api", "api", "primary", "app-0", target("", "127.0.0.1:1"), None)
        .unwrap();
    let gone = state.get_target("api", "api", "primary", "app-0").unwrap();
    let listed = state.list_route_targets("api", "api").unwrap();
    assert_eq!(listed.len(), 3);
    assert_eq!(state.remove_target("api", "api", "primary", "app-0", None), Ok(gone));
    assert_eq!(state.list_route_targets("api", "api").unwrap(), listed[1..]);
    state.remove_target("api", "api", "spare", "app-9", None).unwrap();
    assert_eq!(state.list_targets("api", "api", "spare"), Ok(vec![]));
    assert_eq!(
        state.get_target("api", "api", "spare", "app-9"),
        Err(RuntimeServiceError::UnknownTarget {
            service_id: "api".to_string(),
            route_id: "api".to_string(),
            group_id: "spare".to_string(),
            target_id: "app-9".to_string(),
        })
    );
    assert_eq!(state.revision, 4);
    assert_eq!(state.list_route_targets("api", "api").unwrap().len(), 1);
}

#[test]
fn listeners_are_listed_by_id() {
    let mut state = state_with_api();
    let set = state
        .upsert_listener(
            "api",
            " a-http ",
            RuntimeListener {
                id: "ignored".to_string(),
                protocol: RuntimeListenerProtocol::Http,
            },
            None,
        )
        .unwrap();
    assert_eq!(set.id, "a-http");
    assert_eq!(set.protocol, RuntimeListenerProtocol::Http);
    assert_eq!(state.get_listener("api", "a-http"), Ok(set));
    let ids: Vec<String> =
        state.list_listeners("api").unwrap().iter().map(|l| l.id.clone()).collect();
    assert_eq!(ids, vec!["a-http", "https"]);
    assert_eq!(state.revision, 2);
    assert_eq!(state.get_service("api").unwrap().revision, 2);
    let refused = state.upsert_listener(
        "api",
        "third",
        RuntimeListener { id: String::new(), protocol: RuntimeListenerProtocol::Http },
        None,
    );
    assert_eq!(
        refused,
        Err(RuntimeServiceError::DuplicateListenerProtocol("http".to_string()))
    );
    assert_eq!(state.list_listeners("api").unwrap().len(), 2);
    assert_eq!(state.revision, 2);
}

#[test]
fn a_moved_target_is_read_back() {
    let mut state = state_with_api();
    let was = state.get_target("api", "api", "primary", "app-1").unwrap();
    let other = state.get_target("api", "api", "spare", "app-9").unwrap();
    let failed = state
        .set_target_state(
            "api",
            "api",
            "primary",
            "app-1",
            RuntimeTargetState::Failed,
            Some("no answer".to_string()),
        )
        .unwrap();
    assert_eq!(failed.state, RuntimeTargetState::Failed);
    assert_eq!(failed.last_error, Some("no answer".to_string()));
    assert_eq!(failed.addr, was.addr);
    assert_eq!(failed.weight, was.weight);
    assert_eq!(failed.drain_timeout, was.drain_timeout);
    assert_eq!(state.get_target("api", "api", "primary", "app-1"), Ok(failed));
    assert_eq!(state.get_target("api", "api", "spare", "app-9"), Ok(other));
    assert_eq!(state.revision, 2);
    assert_eq!(state.get_service("api").unwrap().revision, 2);
    let active = state
        .set_target_state(
            "api",
            "api",
            "primary",
            "app-1",
            RuntimeTargetState::Active,
            Some("ignored".to_string()),
        )
        .unwrap();
    assert_eq!(active.last_error, None);
    assert_eq!(active, was);
}
