//! The administration interface.

use gatel_core::admin::answers::{
    error_answer, expected_revision, finish_config_reload, finish_post_config, handle_health,
    handle_post_config, handle_runtime, handle_stop, handle_test_config, handle_upstreams,
    json_pretty_response, json_runtime_service_error, json_runtime_state_error, runtime_actor,
    ReloadFailure, RuntimeStateError,
};
use gatel_core::admin::calls::{
    admin_request_needs_write, authorize_admin_request, handle_admin_request, path_segments,
    read_call, Action, AdminCall,
};
use gatel_core::admin::report::{
    render_runtime_state_status_metrics, render_runtime_target_metrics, summarize_runtime_diff,
    RuntimeStateStatus,
};
use gatel_core::admin::resources::{
    change_resource, handle_metrics, log_runtime_mutation, read_resource, status_of_change,
    word_of_change, Changed, Payload, Resource,
};
use gatel_core::config::types::{GlobalConfig, LbPolicy};
use gatel_core::hoops::metrics::Metrics;
use gatel_core::message::{Headers, Request, Uri, Version};
use gatel_core::proxy::activity::BackendActivityTracker;
use gatel_core::runtime_services::state::route_health_check;
use gatel_core::runtime_services::registry::{
    runtime_target_activity_key, RuntimeServiceRegistry,
};
use gatel_core::runtime_services::types::{
    default_drain_timeout, default_group_weight, default_path_prefix, default_state_version,
    default_strip_path_prefix, default_target_weight, RuntimeHealthCheck, RuntimeListener, RuntimeListenerProtocol,
    RuntimeRoute, RuntimeService, RuntimeServiceError, RuntimeState, RuntimeTarget,
    RuntimeTargetGroup, RuntimeTargetPatch, RuntimeTargetState,
};
use gatel_core::time::Duration;

fn request(method: &str) -> Request {
    request_for(method, "/services")
}

fn request_for(method: &str, path: &str) -> Request {
    Request {
        method: method.to_string(),
        uri: Uri {
            scheme: None,
            authority: None,
            path_and_query: Some(path.to_string()),
        },
        version: Version::Http11,
        headers: Headers::new(),
    }
}

fn text(body: &[u8]) -> String {
    String::from_utf8_lossy(body).into_owned()
}

#[test]
fn write_token_denies_mutation_for_read_only_token() {
    let mut req = request("POST");
    req.headers.insert("authorization", b"Bearer read-token".to_vec());
    let global = GlobalConfig {
        admin_read_token: Some("read-token".to_string()),
        admin_write_token: Some("write-token".to_string()),
        ..GlobalConfig::default()
    };

    let response = authorize_admin_request(
        &req.headers,
        &global,
        &req.method,
        &vec!["services".to_string()],
    )
    .unwrap_err();
    assert_eq!(response.status, 403);
}

#[test]
fn write_token_allows_reads_and_writes() {
    let mut req = request("GET");
    req.headers.insert("authorization", b"Bearer write-token".to_vec());
    let global = GlobalConfig {
        admin_write_token: Some("write-token".to_string()),
        ..GlobalConfig::default()
    };

    authorize_admin_request(
        &req.headers,
        &global,
        &req.method,
        &vec!["services".to_string()],
    )
    .unwrap();
    assert!(admin_request_needs_write("POST", &vec!["services".to_string()]));
}

#[test]
fn without_a_token_nothing_is_told() {
    let global = GlobalConfig {
        admin_read_token: Some("read-token".to_string()),
        ..GlobalConfig::default()
    };
    let response = handle_admin_request(&request("GET"), &global).unwrap_err();
    assert_eq!(response.status, 401);
    let open = GlobalConfig::default();
    assert_eq!(
        handle_admin_request(&request("GET"), &open).unwrap(),
        AdminCall::ListServices
    );
    let unknown = handle_admin_request(&request_for("GET", "/nothing/here"), &open);
    assert_eq!(unknown.unwrap_err().status, 404);
}

#[test]
fn calls_are_read_from_paths() {
    let call = |method: &str, path: &str| read_call(method, &path_segments(path));
    assert_eq!(call("GET", "/health"), AdminCall::Health);
    assert_eq!(call("POST", "/config/reload"), AdminCall::ReloadConfig);
    assert_eq!(
        call("PUT", "/services/api"),
        AdminCall::Service(Action::Replace, "api".to_string())
    );
    assert_eq!(
        call("DELETE", "/services/api/listeners/http/"),
        AdminCall::Listener(Action::Remove, "api".to_string(), "http".to_string())
    );
    assert_eq!(
        call("PATCH", "/services/s/routes/r/target-groups/g/targets/t"),
        AdminCall::Target(
            Action::Patch,
            "s".to_string(),
            "r".to_string(),
            "g".to_string(),
            "t".to_string()
        )
    );
    assert!(!admin_request_needs_write("GET", &path_segments("/services/api")));
    assert!(admin_request_needs_write("DELETE", &path_segments("/services/api")));
}

fn draining_service() -> RuntimeService {
    RuntimeService {
        id: "api".to_string(),
        revision: 0,
        listeners: Vec::new(),
        routes: vec![RuntimeRoute {
            id: "api".to_string(),
            hosts: vec!["example.com".to_string()],
            path_prefix: "/api".to_string(),
            matchers: Vec::new(),
            strip_path_prefix: true,
            lb: LbPolicy::RoundRobin,
            lb_header: None,
            lb_cookie: None,
            target_groups: vec![RuntimeTargetGroup {
                id: "primary".to_string(),
                weight: 100,
                targets: vec![RuntimeTarget {
                    id: "app-1".to_string(),
                    addr: "127.0.0.1:3000".to_string(),
                    weight: 100,
                    state: RuntimeTargetState::Draining,
                    drain_timeout: Duration::from_secs(5),
                    last_error: None,
                }],
            }],
            health_check: RuntimeHealthCheck::default(),
        }],
        tls: None,
    }
}

#[test]
fn render_runtime_target_metrics_includes_activity_gauge() {
    let mut runtime = RuntimeState::default();
    runtime.upsert_service(draining_service(), None).unwrap();

    let mut activity = BackendActivityTracker::default();
    let _guard = activity.acquire(&runtime_target_activity_key(
        "api", "api", "primary", "app-1",
    ));

    let metrics = render_runtime_target_metrics(&runtime, &activity);
    assert!(metrics.contains("gatel_runtime_targets"));
    assert!(metrics.contains("gatel_runtime_target_activity"));
    assert!(metrics.contains("target=\"app-1\""));
    assert!(metrics.contains("state=\"draining\""));
    assert!(metrics.contains("} 1"));
}

#[test]
fn runtime_service_and_target_crud_via_admin_api() {
    let mut state = RuntimeState::default();
    let tracker = BackendActivityTracker::default();
    let call = |method: &str, path: &str| read_call(method, &path_segments(path));

    let put = call("PUT", "/services/api");
    let service = RuntimeService {
        id: "api".to_string(),
        revision: 0,
        listeners: vec![RuntimeListener {
            id: "https".to_string(),
            protocol: RuntimeListenerProtocol::Https,
        }],
        routes: vec![RuntimeRoute {
            id: "api".to_string(),
            hosts: vec!["example.com".to_string()],
            path_prefix: "/api".to_string(),
            matchers: Vec::new(),
            strip_path_prefix: false,
            lb: LbPolicy::WeightedRoundRobin,
            lb_header: None,
            lb_cookie: None,
            target_groups: vec![RuntimeTargetGroup {
                id: "primary".to_string(),
                weight: 100,
                targets: vec![RuntimeTarget {
                    id: "app-1".to_string(),
                    addr: "127.0.0.1:3000".to_string(),
                    weight: 100,
                    state: RuntimeTargetState::Active,
                    drain_timeout: default_drain_timeout(),
                    last_error: None,
                }],
            }],
            health_check: RuntimeHealthCheck::default(),
        }],
        tls: None,
    };
    assert!(change_resource(&mut state, &put, Payload::Service(service), None).unwrap().is_ok());
    assert_eq!(status_of_change(&put), 200);
    assert!(state.get_service("api").is_some());

    let path = "/services/api/routes/api/target-groups/primary/targets/app-1";
    match read_resource(&state, &tracker, &call("GET", path)) {
        Some(Ok(Resource::Target(t))) => {
            assert_eq!(t.activity, 0);
            assert_eq!(t.service_id, "api");
            assert_eq!(t.route_id, "api");
            assert_eq!(t.group_id, "primary");
        }
        other => panic!("no target: {other:?}"),
    }

    let patch = RuntimeTargetPatch {
        weight: Some(250),
        drain_timeout: Some(Duration::from_secs(2)),
        ..RuntimeTargetPatch::default()
    };
    let changed =
        change_resource(&mut state, &call("PATCH", path), Payload::TargetPatch(patch), None);
    assert!(changed.unwrap().is_ok());
    assert_eq!(status_of_change(&call("PATCH", path)), 200);
    assert_eq!(
        state.get_target("api", "api", "primary", "app-1").unwrap().weight,
        250
    );

    let delete = call("DELETE", path);
    match change_resource(&mut state, &delete, Payload::Nothing, None) {
        Some(Ok(Changed::Target(t))) => assert_eq!(t.state, RuntimeTargetState::Draining),
        other => panic!("not draining: {other:?}"),
    }
    assert_eq!(status_of_change(&delete), 202);
    // Nothing is under way, so the target may go.
    assert!(state.remove_target("api", "api", "primary", "app-1", None).is_ok());
    assert!(state.get_target("api", "api", "primary", "app-1").is_err());

    let delete = call("DELETE", "/services/api");
    assert!(change_resource(&mut state, &delete, Payload::Nothing, None).unwrap().is_ok());
    assert_eq!(status_of_change(&delete), 200);
    assert!(state.get_service("api").is_none());
}

#[test]
fn reading_leaves_the_state_alone() {
    let mut state = RuntimeState::default();
    state.upsert_service(draining_service(), None).unwrap();
    let before = state.clone();
    let call = read_call("GET", &path_segments("/services"));
    assert!(change_resource(&mut state, &call, Payload::Nothing, None).is_none());
    assert_eq!(state, before);
    let tracker = BackendActivityTracker::default();
    match read_resource(&state, &tracker, &call) {
        Some(Ok(Resource::Services(list))) => assert_eq!(list.len(), 1),
        other => panic!("no list: {other:?}"),
    }
    let missing = read_call("GET", &path_segments("/services/none"));
    match read_resource(&state, &tracker, &missing) {
        Some(Err(answer)) => assert_eq!(answer.status, 404),
        other => panic!("found: {other:?}"),
    }
}

#[test]
fn changes_are_counted() {
    let before = RuntimeState::default();
    assert_eq!(summarize_runtime_diff(&before, &before.clone()), summarize_runtime_diff(&before, &before));
    let mut after = before.clone();
    after.upsert_service(draining_service(), None).unwrap();
    let line = log_runtime_mutation("me", "put service", &before, &after);
    assert!(line.contains("me"));
    assert!(line.contains("put service"));
    assert!(summarize_runtime_diff(&before, &after) != summarize_runtime_diff(&before, &before));
}

#[test]
fn the_registry_hands_out_what_was_put_in() {
    let mut registry = RuntimeServiceRegistry::default();
    assert!(registry.get("api").is_none());
    let mut state = RuntimeState::default();
    state.upsert_service(draining_service(), None).unwrap();
    registry.replace(state.clone());
    assert_eq!(registry.snapshot(), state);
    assert_eq!(registry.list().len(), 1);
    assert_eq!(registry.get("api").unwrap().id, "api");
}

#[test]
fn answers_are_json() {
    let health = handle_health();
    assert_eq!(health.status, 200);
    assert_eq!(health.headers.text("content-type"), Some("application/json".to_string()));
    assert!(text(&handle_runtime().body).contains("tokio"));
    assert_eq!(handle_stop().status, 200);
    let refused = error_answer(400, "bad");
    assert_eq!(refused.status, 400);
    assert_eq!(text(&refused.body), "{\"error\":\"bad\"}");
    let e = RuntimeServiceError::UnknownService("x".to_string());
    assert_eq!(json_runtime_service_error(&e).status, 404);
    let e = RuntimeServiceError::RevisionConflict { expected: 1, actual: 2 };
    assert_eq!(json_runtime_service_error(&e).status, 409);
    assert_eq!(json_pretty_response(200, Ok("{}".to_string())).status, 200);
    assert_eq!(json_pretty_response(200, Err("no".to_string())).status, 500);
    let state_error = RuntimeStateError::Validation(RuntimeServiceError::EmptyServiceId);
    assert_eq!(json_runtime_state_error(&state_error).status, 400);
}

#[test]
fn configurations_are_tried_before_they_are_used() {
    assert_eq!(handle_test_config("site {").status, 400);
    assert_eq!(handle_test_config("").status, 200);
    let config = handle_post_config(
        "site \"a\" {\n route \"/*\" {\n proxy \"localhost:3000\"\n }\n}\n",
    )
    .unwrap();
    let rows = handle_upstreams(&config);
    assert_eq!(rows.len(), 1);
    assert_eq!(finish_post_config(&config, Ok(())).status, 200);
    assert!(handle_post_config("nonsense {").is_err());
    assert_eq!(finish_config_reload(Ok(())).status, 200);
    assert_eq!(finish_config_reload(Err(ReloadFailure::NoPath)).status, 200);
    let unreadable = finish_config_reload(Err(ReloadFailure::Unreadable("gone".to_string())));
    assert_eq!(unreadable.status, 400);
    assert_eq!(text(&unreadable.body), "{\"error\":\"config reload failed: gone\"}");
}

#[test]
fn revisions_and_actors_are_read_from_fields() {
    let mut headers = Headers::new();
    assert_eq!(expected_revision(&headers), None);
    assert_eq!(runtime_actor(&headers), "admin_api");
    headers.insert("if-match", b"\"42\"".to_vec());
    headers.insert("x-gatel-actor", b"deploy".to_vec());
    assert_eq!(expected_revision(&headers), Some(42));
    assert_eq!(runtime_actor(&headers), "deploy");
}

#[test]
fn metrics_tell_of_the_state() {
    let status = RuntimeStateStatus { available: true, corrupted: false };
    let lines = render_runtime_state_status_metrics(&status);
    assert!(lines.contains(" 1\n"));
    assert!(lines.contains(" 0\n"));
    let answer = handle_metrics(
        &Metrics::new(),
        &RuntimeState::default(),
        &BackendActivityTracker::default(),
        &status,
    );
    assert_eq!(answer.status, 200);
    assert!(text(&answer.body).contains("gatel_active_connections 0"));
}

#[test]
fn changes_have_names() {
    let call = |method: &str, path: &str| read_call(method, &path_segments(path));
    assert_eq!(word_of_change(&call("PUT", "/services/a")), Some("upsert_service"));
    assert_eq!(
        word_of_change(&call("DELETE", "/services/s/routes/r/target-groups/g/targets/t")),
        Some("drain_target")
    );
    assert_eq!(word_of_change(&call("GET", "/services/a")), None);
}

#[test]
fn a_state_without_a_service_is_still_valid() {
    let mut state = RuntimeState::default();
    state.upsert_service(draining_service(), None).unwrap();
    let mut other = draining_service();
    other.id = "web".to_string();
    other.routes[0].path_prefix = "/web".to_string();
    state.upsert_service(other.clone(), None).unwrap();
    state.remove_service("api", None).unwrap();
    // What was valid beside the other service can be set again.
    state.upsert_service(other, None).unwrap();
    assert_eq!(state.list_services().len(), 1);
    assert_eq!(state.ensure_supported_version(), Ok(()));
}

#[test]
fn targets_move_between_states() {
    let mut state = RuntimeState::default();
    state.upsert_service(draining_service(), None).unwrap();
    let target = state
        .set_target_state(
            "api",
            "api",
            "primary",
            "app-1",
            RuntimeTargetState::Failed,
            Some("refused".to_string()),
        )
        .unwrap();
    assert_eq!(target.last_error, Some("refused".to_string()));
    let target = state
        .set_target_state(
            "api",
            "api",
            "primary",
            "app-1",
            RuntimeTargetState::Active,
            Some("refused".to_string()),
        )
        .unwrap();
    assert_eq!(target.last_error, None);
    let check = route_health_check(&state, "api", "api").unwrap();
    assert_eq!(check.path, "/up");
}

#[test]
fn what_is_left_out_has_a_value() {
    assert_eq!(default_state_version(), 1);
    assert_eq!(default_path_prefix(), "/");
    assert!(default_strip_path_prefix());
    assert_eq!(default_group_weight(), 100);
    assert_eq!(default_target_weight(), 100);
}
