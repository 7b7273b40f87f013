//! Backends, load balancing, and the protocols that requests are passed on by.

use gatel_core::config::types::{
    BasicAuthUser, DnsUpstreamConfig, HealthCheckConfig, LbPolicy, PassiveHealthConfig,
    ProxyConfig, SrvUpstreamConfig, UpstreamConfig,
};
use gatel_core::message::{ClientAddr, Headers, Request, Uri, Version};
use gatel_core::net::parse_ip;
use gatel_core::proxy::activity::BackendActivityTracker;
use gatel_core::proxy::cgi;
use gatel_core::proxy::cgi::CgiHandler;
use gatel_core::proxy::circuit_breaker::{BreakerState, CircuitBreaker};
use gatel_core::proxy::dns_upstream;
use gatel_core::proxy::dns_upstream::{build_tracking_vecs, DynamicBackends};
use gatel_core::proxy::fastcgi;
use gatel_core::proxy::fastcgi::{
    build_record, encode_length, encode_params, padding_for, read_record_header,
    split_script_path, FastCgiReply, FastCgiTransport, FCGI_BEGIN_REQUEST, FCGI_END_REQUEST,
    FCGI_HEADER_LEN, FCGI_PARAMS, FCGI_STDERR, FCGI_STDOUT, FCGI_VERSION_1,
};
use gatel_core::proxy::forward_proxy::{ForwardProxy, Tunnel};
use gatel_core::proxy::health::{health_check_uri, HealthChecker, PassiveHealthChecker};
use gatel_core::proxy::lb::{
    Balancer, CookieHashLb, FirstLb, HeaderHashLb, IpHashLb, LbContext, LeastConnLb,
    LoadBalancer, RandomLb, RoundRobinLb, TwoRandomChoicesLb, UriHashLb, WeightedRoundRobinLb,
};
use gatel_core::proxy::reverse::{
    sanitize_path, AnswerBody, ProxyStart, ReverseProxy, Verdict,
};
use gatel_core::proxy::scgi::{push_scgi_header, ScgiHandler};
use gatel_core::proxy::srv_upstream;
use gatel_core::proxy::srv_upstream::SrvRecord;
use gatel_core::proxy::unix_upstream::{is_unix_addr, parse_unix_path};
use gatel_core::proxy::upstream::{Backend, UpstreamPool};
use gatel_core::proxy::websocket::{
    absorb, build_raw_upgrade_request, finish_upgrade, is_websocket_upgrade,
};
use gatel_core::sorted_map::SortedMap;
use gatel_core::time::{Duration, Instant};
use gatel_core::ProxyError;

fn proxy_config(upstreams: Vec<UpstreamConfig>) -> ProxyConfig {
    ProxyConfig {
        upstreams,
        lb: LbPolicy::RoundRobin,
        lb_header: None,
        lb_cookie: None,
        health_check: None,
        passive_health: None,
        headers_up: SortedMap::new(),
        headers_down: SortedMap::new(),
        retries: 0,
        dynamic_upstreams: None,
        error_pages: SortedMap::new(),
        headers_up_replace: Vec::new(),
        tls_skip_verify: false,
        upstream_http2: false,
        max_connections: None,
        keepalive_timeout: None,
        sanitize_uri: true,
        srv_upstream: None,
    }
}

fn upstream(addr: &str, weight: u32) -> UpstreamConfig {
    UpstreamConfig {
        addr: addr.to_string(),
        weight,
        activity_key: None,
    }
}

fn backend(addr: &str, weight: u32) -> Backend {
    Backend {
        addr: addr.to_string(),
        weight,
        activity_key: None,
    }
}

fn request(method: &str, target: &str) -> Request {
    Request {
        method: method.to_string(),
        uri: Uri {
            scheme: None,
            authority: None,
            path_and_query: Some(target.to_string()),
        },
        version: Version::Http11,
        headers: Headers::new(),
    }
}

fn client(ip: &str) -> ClientAddr {
    ClientAddr {
        ip: parse_ip(ip).unwrap(),
        ip_text: ip.to_string(),
        port: 1234,
    }
}

fn second(n: u64) -> Instant {
    Instant { nanos: u128::from(n) * 1_000_000_000 }
}

fn three() -> UpstreamPool {
    UpstreamPool::from_config(&proxy_config(vec![
        upstream("a:1", 1),
        upstream("b:1", 1),
        upstream("c:1", 2),
    ]))
}

fn context(uri: &str) -> LbContext {
    LbContext {
        client: client("10.0.0.7"),
        uri: uri.to_string(),
        headers: Headers::new(),
    }
}

#[test]
fn tracks_active_backend_requests() {
    let mut tracker = BackendActivityTracker::default();
    assert_eq!(tracker.active("api/route/group/target"), 0);

    let guard_a = tracker.acquire("api/route/group/target");
    let guard_b = tracker.acquire("api/route/group/target");
    assert_eq!(tracker.active("api/route/group/target"), 2);

    tracker.release(guard_a);
    assert_eq!(tracker.active("api/route/group/target"), 1);

    tracker.release(guard_b);
    assert_eq!(tracker.active("api/route/group/target"), 0);
}

#[test]
fn starts_closed() {
    let mut cb = CircuitBreaker::new(3, Duration::from_secs(5));
    assert_eq!(cb.state(), BreakerState::Closed);
    assert!(cb.allow_request(0));
}

#[test]
fn opens_after_threshold() {
    let mut cb = CircuitBreaker::new(3, Duration::from_secs(60));
    cb.record_failure(0);
    cb.record_failure(0);
    assert_eq!(cb.state(), BreakerState::Closed);
    cb.record_failure(0);
    assert_eq!(cb.state(), BreakerState::Open);
    assert!(!cb.allow_request(0));
}

#[test]
fn success_resets() {
    let mut cb = CircuitBreaker::new(3, Duration::from_secs(60));
    cb.record_failure(0);
    cb.record_failure(0);
    cb.record_success();
    assert_eq!(cb.state(), BreakerState::Closed);
    // Three more failures are needed to open it again.
    cb.record_failure(0);
    cb.record_failure(0);
    assert_eq!(cb.state(), BreakerState::Closed);
}

#[test]
fn half_open_after_cooldown() {
    let mut cb = CircuitBreaker::new(2, Duration::from_millis(1));
    cb.record_failure(0);
    cb.record_failure(0);
    assert_eq!(cb.state(), BreakerState::Open);
    assert!(cb.allow_request(10));
    assert_eq!(cb.state(), BreakerState::HalfOpen);
}

#[test]
fn half_open_failure_reopens() {
    let mut cb = CircuitBreaker::new(2, Duration::from_millis(1));
    cb.record_failure(0);
    cb.record_failure(0);
    cb.allow_request(10);
    cb.record_failure(10);
    assert_eq!(cb.state(), BreakerState::Open);
}

#[test]
fn half_open_success_closes() {
    let mut cb = CircuitBreaker::new(2, Duration::from_millis(1));
    cb.record_failure(0);
    cb.record_failure(0);
    cb.allow_request(10);
    cb.record_success();
    assert_eq!(cb.state(), BreakerState::Closed);
}

#[test]
fn test_dynamic_backends_store_load() {
    let mut db = DynamicBackends::new();
    assert!(db.load().is_empty());

    db.store(vec![backend("1.2.3.4:8080", 1), backend("5.6.7.8:8080", 1)]);
    let loaded = db.load();
    assert_eq!(loaded.len(), 2);
    assert_eq!(loaded[0].addr, "1.2.3.4:8080");
}

#[test]
fn test_build_tracking_vecs() {
    let (healthy, conns) = build_tracking_vecs(3);
    assert_eq!(healthy.len(), 3);
    assert_eq!(conns.len(), 3);
    assert!(healthy[0]);
}

#[test]
fn addresses_that_were_found_replace_the_backends() {
    let mut db = DynamicBackends::new();
    let found = vec![
        "9.9.9.9:80".to_string(),
        "1.1.1.1:80".to_string(),
        "9.9.9.9:80".to_string(),
    ];
    assert!(dns_upstream::resolve_and_update(Some(&found), &mut db));
    let addrs: Vec<&str> = db.load().iter().map(|b| b.addr.as_str()).collect();
    assert_eq!(addrs, vec!["1.1.1.1:80", "9.9.9.9:80"]);
    // Nothing that is found, and a lookup that fails, leave them as they are.
    assert!(!dns_upstream::resolve_and_update(Some(&Vec::new()), &mut db));
    assert!(!dns_upstream::resolve_and_update(None, &mut db));
    assert_eq!(db.load().len(), 2);
}

#[test]
fn srv_backends_starts_empty() {
    let backends = DynamicBackends::new();
    assert!(backends.load().is_empty());
}

#[test]
fn service_records_become_backends() {
    let mut backends = DynamicBackends::new();
    let found = vec![SrvRecord {
        target: "node1.example.".to_string(),
        port: 8080,
        priority: 10,
        weight: 0,
    }];
    assert!(srv_upstream::resolve_and_update(Some(&found), &mut backends));
    assert_eq!(backends.load()[0].addr, "node1.example:8080");
    assert_eq!(backends.load()[0].weight, 1);
}

#[test]
fn health_check_uri_preserves_explicit_backend_scheme() {
    assert_eq!(
        health_check_uri("https://example.com", "/health"),
        "https://example.com/health"
    );
    assert_eq!(
        health_check_uri("127.0.0.1:3000", "health"),
        "http://127.0.0.1:3000/health"
    );
}

#[test]
fn passive_health_tracks_backends_by_address() {
    let mut pool = UpstreamPool::from_config(&proxy_config(vec![upstream("127.0.0.1:3000", 1)]));
    let snapshot = pool.snapshot();
    let addr = snapshot.get(0).unwrap().backend.addr.clone();
    let mut checker = PassiveHealthChecker::new(&PassiveHealthConfig {
        max_fails: 1,
        fail_window: Duration::from_secs(30),
        cooldown: Duration::from_secs(60),
    });

    checker.record_failure(&mut pool, &addr, second(0));

    assert!(checker.is_disabled("127.0.0.1:3000"));
    assert!(!pool.snapshot().is_healthy(&pool, 0));
}

#[test]
fn a_disabled_backend_comes_back_after_the_cooldown() {
    let mut pool = UpstreamPool::from_config(&proxy_config(vec![upstream("127.0.0.1:3000", 1)]));
    let mut checker = PassiveHealthChecker::new(&PassiveHealthConfig {
        max_fails: 2,
        fail_window: Duration::from_secs(30),
        cooldown: Duration::from_secs(60),
    });
    checker.record_failure(&mut pool, "127.0.0.1:3000", second(0));
    // The first failure is out of the window.
    checker.record_failure(&mut pool, "127.0.0.1:3000", second(31));
    assert!(!checker.is_disabled("127.0.0.1:3000"));
    checker.record_failure(&mut pool, "127.0.0.1:3000", second(40));
    assert!(checker.is_disabled("127.0.0.1:3000"));
    checker.maybe_recover(&mut pool, second(99));
    assert!(!pool.is_healthy(0));
    checker.maybe_recover(&mut pool, second(100));
    assert!(pool.is_healthy(0));
    assert!(!checker.is_disabled("127.0.0.1:3000"));
}

#[test]
fn probes_move_a_backend_at_the_thresholds() {
    let mut pool = UpstreamPool::from_config(&proxy_config(vec![upstream("a:1", 1)]));
    let mut checker = HealthChecker::new(&HealthCheckConfig {
        uri: "/health".to_string(),
        interval: Duration::from_secs(1),
        timeout: Duration::from_secs(1),
        unhealthy_threshold: 2,
        healthy_threshold: 2,
    });
    checker.begin_round(&pool.snapshot());
    checker.record_probe(&mut pool, "a:1", false);
    assert!(pool.is_healthy(0));
    checker.record_probe(&mut pool, "a:1", false);
    assert!(!pool.is_healthy(0));
    checker.record_probe(&mut pool, "a:1", true);
    assert!(!pool.is_healthy(0));
    checker.record_probe(&mut pool, "a:1", true);
    assert!(pool.is_healthy(0));
}

#[test]
fn snapshot_preserves_state_by_backend_address() {
    let mut pool = UpstreamPool::from_config(&proxy_config(vec![
        upstream("127.0.0.1:3000", 1),
        upstream("127.0.0.1:3001", 1),
    ]));
    let snapshot = pool.snapshot();

    snapshot.set_healthy(&mut pool, 1, false);
    let guard = snapshot.acquire_conn(&mut pool, 1);

    let refreshed = pool.snapshot();
    assert!(refreshed.is_healthy(&pool, 0));
    assert!(!refreshed.is_healthy(&pool, 1));
    assert_eq!(refreshed.conn_count(&pool, 1), 1);

    pool.release_conn(guard);
    assert_eq!(pool.snapshot().conn_count(&pool, 1), 0);
}

#[test]
fn snapshot_deduplicates_backends_by_address() {
    let pool = UpstreamPool::from_config(&proxy_config(vec![
        upstream("127.0.0.1:3000", 1),
        upstream("127.0.0.1:3000", 10),
    ]));

    let snapshot = pool.snapshot();

    assert_eq!(snapshot.len(), 1);
    assert_eq!(snapshot.get(0).unwrap().backend.weight, 1);
}

#[test]
fn snapshot_merges_static_dns_and_srv_backends() {
    let mut config = proxy_config(vec![upstream("127.0.0.1:3000", 1)]);
    config.dynamic_upstreams = Some(DnsUpstreamConfig {
        dns_name: "dynamic.invalid".to_string(),
        port: 8080,
        refresh_interval: Duration::from_secs(3600),
    });
    config.srv_upstream = Some(SrvUpstreamConfig {
        service_name: "_http._tcp.dynamic.invalid".to_string(),
        refresh_interval: Duration::from_secs(3600),
    });
    let mut pool = UpstreamPool::from_config(&config);

    pool.set_dns_backends(vec![backend("127.0.0.1:3001", 1)]);
    pool.set_srv_backends(vec![backend("svc.example:8080", 5)]);

    let snapshot = pool.snapshot();
    let addrs: Vec<&str> = snapshot
        .entries()
        .iter()
        .map(|entry| entry.backend.addr.as_str())
        .collect();

    assert_eq!(
        addrs,
        vec!["127.0.0.1:3000", "127.0.0.1:3001", "svc.example:8080"]
    );
    assert_eq!(snapshot.get(2).unwrap().backend.weight, 5);
}

#[test]
fn every_strategy_leaves_out_what_is_down() {
    let mut pool = three();
    pool.set_healthy(0, false);
    pool.set_healthy(1, false);
    let ctx = context("/x");
    assert_eq!(RoundRobinLb::new().select(&pool, &ctx), Some(2));
    assert_eq!(RandomLb::new().select(&pool, &ctx), Some(2));
    assert_eq!(TwoRandomChoicesLb::new().select(&pool, &ctx), Some(2));
    assert_eq!(WeightedRoundRobinLb::new(&[1, 1, 2]).select(&pool, &ctx), Some(2));
    assert_eq!(IpHashLb::new().select(&pool, &ctx), Some(2));
    assert_eq!(UriHashLb::new().select(&pool, &ctx), Some(2));
    assert_eq!(HeaderHashLb::new("x".to_string()).select(&pool, &ctx), Some(2));
    assert_eq!(CookieHashLb::new("x".to_string()).select(&pool, &ctx), Some(2));
    assert_eq!(LeastConnLb::new().select(&pool, &ctx), Some(2));
    assert_eq!(FirstLb::new().select(&pool, &ctx), Some(2));
    pool.set_healthy(2, false);
    assert_eq!(RandomLb::new().select(&pool, &ctx), None);
    assert_eq!(FirstLb::new().select(&pool, &ctx), None);
}

#[test]
fn turns_are_taken() {
    let pool = three();
    let ctx = context("/");
    let mut lb = RoundRobinLb::new();
    let picks: Vec<usize> = (0..4).map(|_| lb.select(&pool, &ctx).unwrap()).collect();
    assert_eq!(picks, vec![0, 1, 2, 0]);
    let mut lb = WeightedRoundRobinLb::new(&[1, 1, 2]);
    let mut times = [0, 0, 0];
    for _ in 0..8 {
        times[lb.select(&pool, &ctx).unwrap()] += 1;
    }
    assert_eq!(times, [2, 2, 4]);
}

#[test]
fn chance_stays_within_the_backends() {
    let pool = three();
    let ctx = context("/");
    let mut seen = [false, false, false];
    let mut lb = RandomLb::new();
    for _ in 0..200 {
        seen[lb.select(&pool, &ctx).unwrap()] = true;
    }
    assert_eq!(seen, [true, true, true]);
}

#[test]
fn hashes_keep_to_one_backend() {
    let pool = three();
    let mut lb = UriHashLb::new();
    let first = lb.select(&pool, &context("/a"));
    assert_eq!(lb.select(&pool, &context("/a")), first);
    // Not everything goes to one place.
    let others: Vec<Option<usize>> = (0..50)
        .map(|i| lb.select(&pool, &context(&format!("/{i}"))))
        .collect();
    assert!(others.iter().any(|r| *r != others[0]));
    let mut ctx = context("/");
    ctx.headers.insert("cookie", b"a=1; sid=abc; b=2".to_vec());
    let mut other = context("/");
    other.headers.insert("cookie", b"sid=abc".to_vec());
    let mut lb = CookieHashLb::new("sid".to_string());
    assert_eq!(lb.select(&pool, &ctx), lb.select(&pool, &other));
}

#[test]
fn the_least_busy_backend_is_taken() {
    let mut pool = three();
    pool.connect("a:1");
    pool.connect("c:1");
    let mut lb = LeastConnLb::new();
    assert_eq!(lb.select(&pool, &context("/")), Some(1));
    let mut config = proxy_config(Vec::new());
    config.lb = LbPolicy::LeastConn;
    let mut lb = Balancer::from_config(&config);
    assert_eq!(lb.select(&pool, &context("/")), Some(1));
    assert_eq!(pool.total_active_conns(), 2);
}

#[test]
fn a_request_is_retried_on_another_backend() {
    let mut config = proxy_config(vec![upstream("a:1", 1), upstream("b:1", 1)]);
    config.retries = 1;
    config.headers_up.insert("x-added".to_string(), "{client_ip}".to_string());
    config.error_pages.insert(503, "sorry".to_string());
    let mut proxy = ReverseProxy::new(&config);
    let mut req = request("GET", "/a/../b//c?q=1");
    req.headers.insert("host", b"example.com".to_vec());
    let from = client("10.0.0.7");
    let run = match proxy.begin(&req, &from) {
        ProxyStart::Try(run) => run,
        other => panic!("not tried: {other:?}"),
    };
    let first = proxy.next_attempt(&run, &req, &from).unwrap();
    assert_eq!(first.addr, "a:1");
    assert_eq!(first.request.uri.full_text(), "http://a:1/b/c?q=1");
    assert_eq!(first.request.headers.text("x-added"), Some("10.0.0.7".to_string()));
    let failure = ProxyError::Client("refused".to_string());
    let run = match proxy.on_failure(&run, &first, failure, second(0)) {
        Verdict::Retry(run) => run,
        other => panic!("not retried: {other:?}"),
    };
    let second_try = proxy.next_attempt(&run, &req, &from).unwrap();
    assert_eq!(second_try.addr, "b:1");
    match proxy.on_response(&run, &second_try, 503, "Service Unavailable", Headers::new(), second(1)) {
        Verdict::Answer { body, .. } => assert_eq!(body, AnswerBody::Page("sorry".to_string())),
        other => panic!("not answered: {other:?}"),
    }
}

#[test]
fn without_backends_a_request_fails() {
    let mut proxy = ReverseProxy::new(&proxy_config(Vec::new()));
    let req = request("GET", "/");
    let from = client("10.0.0.7");
    match proxy.begin(&req, &from) {
        ProxyStart::Fail(e) => assert_eq!(e.status(), 502),
        ProxyStart::Try(run) => {
            let e = proxy.next_attempt(&run, &req, &from).unwrap_err();
            assert_eq!(e, ProxyError::NoUpstream);
            assert_eq!(e.status(), 502);
        }
        other => panic!("unexpected start: {other:?}"),
    }
}

#[test]
fn paths_are_made_plain() {
    assert_eq!(sanitize_path("/a/./b/../c"), "/a/c");
    assert_eq!(sanitize_path("/../../x"), "/x");
    assert_eq!(sanitize_path("//a//b"), "/a/b");
    assert_eq!(sanitize_path("/"), "/");
}

#[test]
fn build_raw_upgrade_request_normalizes_upgrade_headers() {
    let mut req = request("GET", "/socket?room=1");
    req.headers.insert("host", b"client.example".to_vec());
    req.headers.append("connection", b"keep-alive, x-smuggled".to_vec());
    req.headers.append("connection", b"Upgrade".to_vec());
    req.headers.insert("upgrade", b"websocket".to_vec());
    req.headers.insert("x-smuggled", b"secret".to_vec());
    req.headers.insert("sec-websocket-version", b"13".to_vec());
    req.headers.insert("sec-websocket-key", b"test-key".to_vec());

    let raw = build_raw_upgrade_request(&req, "127.0.0.1:3000");

    assert!(raw.starts_with("GET /socket?room=1 HTTP/1.1\r\n"));
    assert!(raw.contains("Host: 127.0.0.1:3000\r\n"));
    assert!(raw.contains("Connection: Upgrade\r\n"));
    assert!(raw.contains("Upgrade: websocket\r\n"));
    assert!(!raw.contains("client.example"));
    assert!(!raw.contains("Connection: keep-alive"));
    assert!(!raw.contains("x-smuggled"));
    assert!(raw.contains("sec-websocket-version: 13\r\n"));
    assert!(raw.contains("sec-websocket-key: test-key\r\n"));
    assert!(is_websocket_upgrade(&req));
}

#[test]
fn an_upgrade_is_answered_as_the_backend_says() {
    let mut buf = Vec::new();
    assert!(!absorb(&mut buf, b"HTTP/1.1 101 Switching Protocols\r\n").unwrap());
    assert!(absorb(&mut buf, b"Upgrade: websocket\r\n\r\n").unwrap());
    let answer = finish_upgrade(&buf).unwrap();
    assert_eq!(answer.status, 101);
    assert_eq!(answer.headers.text("upgrade"), Some("websocket".to_string()));
    assert!(absorb(&mut buf, b"").is_err());
}

#[test]
fn test_parse_cgi_response_with_status() {
    let data = b"Status: 404 Not Found\r\nContent-Type: text/plain\r\n\r\nNot here";
    let resp = cgi::parse_cgi_response(data);
    assert_eq!(resp.status, 404);
    assert_eq!(resp.headers.text("content-type").unwrap(), "text/plain");
}

#[test]
fn test_parse_cgi_response_default_status() {
    let data = b"Content-Type: text/html\r\n\r\n<h1>Hello</h1>";
    let resp = cgi::parse_cgi_response(data);
    assert_eq!(resp.status, 200);
}

#[test]
fn test_parse_cgi_response_lf_separator() {
    let data = b"Content-Type: text/plain\n\nHello";
    let resp = cgi::parse_cgi_response(data);
    assert_eq!(resp.status, 200);
}

#[test]
fn test_parse_cgi_response_no_headers() {
    let data = b"just a body with no headers";
    let resp = cgi::parse_cgi_response(data);
    assert_eq!(resp.status, 200);
}

#[test]
fn scripts_are_told_of_the_request() {
    let handler = CgiHandler::new("/srv/cgi".to_string(), SortedMap::new());
    let mut req = request("POST", "/run.sh?x=1");
    req.headers.insert("host", b"example.com:8080".to_vec());
    req.headers.insert("x-token", b"t".to_vec());
    let script = handler.script_path("/run.sh").unwrap();
    assert_eq!(script, "/srv/cgi/run.sh");
    assert_eq!(handler.script_path("/../bin/sh"), None);
    assert_eq!(handler.script_path("/a/../../sh"), None);
    assert_eq!(handler.script_path("/a..b"), Some("/srv/cgi/a..b".to_string()));
    let vars = handler.variables(&script, &req, &client("10.0.0.7"), 5);
    let value = |name: &str| {
        vars.iter().find(|v| v.0 == name).map(|v| v.1.clone()).unwrap_or_default()
    };
    assert_eq!(value("REQUEST_METHOD"), "POST");
    assert_eq!(value("QUERY_STRING"), "x=1");
    assert_eq!(value("CONTENT_LENGTH"), "5");
    assert_eq!(value("HTTP_X_TOKEN"), "t");
    assert_eq!(value("REMOTE_ADDR"), "10.0.0.7");
}

#[test]
fn test_push_scgi_header() {
    let mut buf = Vec::new();
    push_scgi_header(&mut buf, "CONTENT_LENGTH", "0");
    // The name (14), NUL (1), "0" (1) and NUL (1).
    assert_eq!(buf.len(), 17);
    assert_eq!(buf[14], 0);
    assert_eq!(buf[15], b'0');
    assert_eq!(buf[16], 0);
}

#[test]
fn the_payload_begins_with_its_length() {
    let handler = ScgiHandler::new("127.0.0.1:4000".to_string(), SortedMap::new());
    let payload = handler.payload(&request("GET", "/"), &client("10.0.0.7"), b"hi");
    let text = String::from_utf8_lossy(&payload).into_owned();
    let colon = text.find(':').unwrap();
    let length: usize = text[..colon].parse().unwrap();
    assert_eq!(payload.len(), colon + 1 + length + 1 + 2);
    assert!(text[colon + 1..].starts_with("CONTENT_LENGTH\u{0}2\u{0}SCGI\u{0}1\u{0}"));
    assert!(text.ends_with(",hi"));
}

#[test]
fn test_build_record() {
    let record = build_record(FCGI_BEGIN_REQUEST, 1, &[0; 8]);
    assert_eq!(record[0], FCGI_VERSION_1);
    assert_eq!(record[1], FCGI_BEGIN_REQUEST);
    assert_eq!(record.len(), FCGI_HEADER_LEN + 8);
}

#[test]
fn test_encode_length_short() {
    let mut buf = Vec::new();
    encode_length(&mut buf, 5);
    assert_eq!(buf.len(), 1);
    assert_eq!(buf[0], 5);
}

#[test]
fn test_encode_length_long() {
    let mut buf = Vec::new();
    encode_length(&mut buf, 300);
    assert_eq!(buf.len(), 4);
    assert_eq!(buf[0] & 0x80, 0x80);
}

#[test]
fn test_parse_cgi_response_basic() {
    let data = b"Status: 200 OK\r\nContent-Type: text/html\r\n\r\n<h1>Hello</h1>";
    let resp = fastcgi::parse_cgi_response(data);
    assert_eq!(resp.status, 200);
    assert_eq!(resp.headers.text("content-type").unwrap(), "text/html");
}

#[test]
fn test_parse_cgi_response_no_status() {
    let data = b"Content-Type: text/plain\r\n\r\nHello";
    let resp = fastcgi::parse_cgi_response(data);
    assert_eq!(resp.status, 200);
}

#[test]
fn test_split_script_path() {
    let (script, info) = split_script_path("/app/index.php/foo/bar", ".php");
    assert_eq!(script, "/app/index.php");
    assert_eq!(info, "/foo/bar");
}

#[test]
fn test_split_script_path_no_match() {
    let (script, info) = split_script_path("/app/style.css", ".php");
    assert_eq!(script, "/app/style.css");
    assert_eq!(info, "");
}

#[test]
fn test_padding_for() {
    assert_eq!(padding_for(0), 0);
    assert_eq!(padding_for(8), 0);
    assert_eq!(padding_for(1), 7);
    assert_eq!(padding_for(10), 6);
}

#[test]
fn test_encode_params() {
    let params = vec![("KEY".to_string(), "val".to_string())];
    let encoded = encode_params(&params);
    // Two lengths of a byte each, "KEY" and "val".
    assert_eq!(encoded.len(), 8);
    assert_eq!(encoded[0], 3);
    assert_eq!(encoded[1], 3);
}

#[test]
fn a_request_is_a_row_of_records() {
    let transport = FastCgiTransport::new(
        "127.0.0.1:9000".to_string(),
        "/srv".to_string(),
        vec!["index.php".to_string()],
        Some(".php".to_string()),
        SortedMap::new(),
    );
    let sent = transport.send_request(&request("GET", "/app/"), b"body");
    let first = read_record_header(&sent[..8]);
    assert_eq!(first.record_type, FCGI_BEGIN_REQUEST);
    assert_eq!(first.content_length, 8);
    let second_header = read_record_header(&sent[16..24]);
    assert_eq!(second_header.record_type, FCGI_PARAMS);
    let params = transport.build_params(&request("GET", "/app/"), 4);
    let file = params.iter().find(|p| p.0 == "SCRIPT_FILENAME").unwrap();
    assert_eq!(file.1, "/srv/app/index.php");
}

#[test]
fn what_a_responder_says_is_gathered() {
    let mut reply = FastCgiReply::new();
    assert!(!reply.absorb(FCGI_STDOUT, b"Status: 201 Created\r\n"));
    assert!(!reply.absorb(FCGI_STDERR, b"warning"));
    assert!(!reply.absorb(FCGI_STDOUT, b"\r\nok"));
    assert!(reply.absorb(FCGI_END_REQUEST, &[0; 8]));
    assert_eq!(reply.stderr, b"warning".to_vec());
    let answer = reply.answer();
    assert_eq!(answer.status, 201);
    assert_eq!(answer.body, b"ok".to_vec());
}

#[test]
fn tunnels_are_opened_for_users() {
    let proxy = ForwardProxy::new(vec![BasicAuthUser {
        username: "Aladdin".to_string(),
        password_hash: "open sesame".to_string(),
    }]);
    let mut req = request("CONNECT", "/");
    req.uri.path_and_query = None;
    req.uri.authority = Some("example.com:443".to_string());
    match proxy.run(&req) {
        Tunnel::Answer(r) => {
            assert_eq!(r.status, 407);
            assert!(r.headers.contains_key("proxy-authenticate"));
        }
        other => panic!("unexpected: {other:?}"),
    }
    req.headers.insert(
        "proxy-authorization",
        b"Basic QWxhZGRpbjpvcGVuIHNlc2FtZQ==".to_vec(),
    );
    match proxy.run(&req) {
        Tunnel::Connect(to) => assert_eq!(to, "example.com:443"),
        other => panic!("unexpected: {other:?}"),
    }
}

#[test]
fn sockets_of_the_file_system_are_told_by_their_addresses() {
    assert!(is_unix_addr("unix:/run/app.sock"));
    assert!(is_unix_addr("/run/app.sock"));
    assert!(!is_unix_addr("127.0.0.1:80"));
    assert_eq!(parse_unix_path("unix:/run/app.sock"), "/run/app.sock");
    assert_eq!(parse_unix_path("/run/app.sock"), "/run/app.sock");
}

#[test]
fn names_are_looked_up_with_their_ports() {
    assert_eq!(dns_upstream::lookup_target("app.internal", 8080), "app.internal:8080");
}

#[test]
fn weights_come_out_even() {
    let pool = three();
    let ctx = context("/");
    let mut lb = WeightedRoundRobinLb::new(&[5, 0, 2]);
    let start = WeightedRoundRobinLb::new(&[5, 0, 2]);
    let mut times = [0, 0, 0];
    for _ in 0..7 {
        times[lb.select(&pool, &ctx).unwrap()] += 1;
    }
    assert_eq!(times, [5, 0, 2]);
    assert_eq!(lb, start);
}

#[test]
fn a_script_that_is_not_there_is_not_found() {
    assert_eq!(CgiHandler::not_found().status, 404);
}

#[test]
fn a_half_open_breaker_lets_one_probe_through() {
    let mut cb = CircuitBreaker::new(2, Duration::from_millis(1));
    cb.record_failure(0);
    cb.record_failure(0);
    assert!(cb.allow_request(10));
    assert!(!cb.allow_request(20));
    assert_eq!(cb.state(), BreakerState::HalfOpen);
    cb.record_success();
    assert!(cb.allow_request(30));
    assert_eq!(cb.state(), BreakerState::Closed);
}

#[test]
fn every_snapshot_sees_every_change() {
    let mut pool = three();
    let earlier = pool.snapshot();
    let snapshot = earlier.clone();
    snapshot.set_healthy(&mut pool, 0, false);
    assert!(!snapshot.is_healthy(&pool, 0));
    assert!(!earlier.is_healthy(&pool, 0));
    assert!(earlier.is_healthy(&pool, 1));
    assert!(!pool.is_healthy(0));
    let first = snapshot.acquire_conn(&mut pool, 2);
    let second = earlier.get(2).unwrap().acquire_conn(&mut pool);
    assert_eq!(snapshot.conn_count(&pool, 2), 2);
    assert_eq!(earlier.conn_count(&pool, 2), 2);
    assert_eq!(earlier.get(2).unwrap().conn_count(&pool), 2);
    assert_eq!(pool.conn_count(2), 2);
    assert_eq!(earlier.total_active_conns(&pool), 2);
    pool.release_conn(first);
    assert_eq!(snapshot.conn_count(&pool, 2), 1);
    assert_eq!(earlier.conn_count(&pool, 2), 1);
    pool.release_conn(second);
    assert_eq!(pool.total_active_conns(), 0);
    earlier.get(0).unwrap().set_healthy(&mut pool, true);
    assert!(snapshot.get(0).unwrap().is_healthy(&pool));
    // There is no backend at this index.
    snapshot.set_healthy(&mut pool, 7, false);
    assert!(!snapshot.is_healthy(&pool, 7));
    let none = snapshot.acquire_conn(&mut pool, 7);
    assert_eq!(pool.total_active_conns(), 0);
    pool.release_conn(none);
    assert_eq!(pool.total_active_conns(), 0);
    assert_eq!(snapshot.conn_count(&pool, 1), 0);
    assert_eq!(snapshot.conn_count(&pool, 7), usize::MAX);
}

#[test]
fn the_query_does_not_move_a_request() {
    let pool = three();
    let mut lb = UriHashLb::new();
    for i in 0..20 {
        let path = format!("/page/{i}");
        let first = lb.select(&pool, &context(&path));
        assert_eq!(lb.select(&pool, &context(&format!("{path}?a=1"))), first);
        assert_eq!(lb.select(&pool, &context(&format!("{path}?b={i}"))), first);
    }
}

#[test]
fn weights_are_spread_out() {
    let pool = UpstreamPool::from_config(&proxy_config(vec![
        upstream("a:1", 3),
        upstream("b:1", 1),
    ]));
    let ctx = context("/");
    let mut lb = WeightedRoundRobinLb::new(&[3, 1]);
    for _ in 0..3 {
        let turns: Vec<Option<usize>> = (0..4).map(|_| lb.select(&pool, &ctx)).collect();
        assert_eq!(turns, vec![Some(0), Some(0), Some(1), Some(0)]);
    }
}

#[test]
fn many_heavy_backends_get_their_turns() {
    let weights = vec![u32::MAX; 5];
    let pool = UpstreamPool::from_config(&proxy_config(
        (0..5).map(|i| upstream(&format!("a:{i}"), u32::MAX)).collect(),
    ));
    let ctx = context("/");
    let mut lb = WeightedRoundRobinLb::new(&weights);
    let mut times = [0; 5];
    for _ in 0..50 {
        times[lb.select(&pool, &ctx).unwrap()] += 1;
    }
    assert_eq!(times, [10, 10, 10, 10, 10]);
}
