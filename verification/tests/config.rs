//! Reading the configuration.

use gatel_core::config::error::ConfigError;
use gatel_core::config::parse::{auto_config_from_env, parse_config, AutoConfigVars};
use gatel_core::config::types::{HandlerConfig, HoopConfig, LbPolicy, RouteCondition};
use gatel_core::config::values::{parse_duration, parse_listen_addr};
use gatel_core::net::parse_socket;
use gatel_core::router::matcher::RequestMatcher;
use gatel_core::time::Duration;

#[test]
fn test_parse_minimal_config() {
    let input = r#"
site "app.example.com" {
    route "/*" {
        proxy "localhost:3001"
    }
}
"#;
    let config = parse_config(input).unwrap();
    assert_eq!(config.sites.len(), 1);
    assert_eq!(config.sites[0].host, "app.example.com");
    assert_eq!(config.sites[0].routes.len(), 1);
    assert_eq!(config.sites[0].routes[0].path, "/*");
    match &config.sites[0].routes[0].handler {
        HandlerConfig::Proxy(p) => {
            assert_eq!(p.upstreams[0].addr, "localhost:3001");
        }
        _ => panic!("expected proxy handler"),
    }
}

#[test]
fn test_parse_full_config() {
    let input = r#"
global {
    admin ":2019"
    log level="info" format="json"
    grace-period "30s"
}

tls {
    acme {
        email "admin@example.com"
        ca "letsencrypt"
        challenge "http-01"
    }
}

site "app.example.com" {
    route "/api/*" {
        rate-limit window="1m" max=100
        proxy {
            upstream "localhost:3001" weight=3
            upstream "localhost:3002" weight=1
            lb "weighted_round_robin"
            health-check uri="/health" interval="10s"
            header-up "X-Real-IP" "{client_ip}"
            header-down "-Server"
        }
    }
    route "/*" {
        encode "gzip" "zstd"
        root "/var/www/html"
        file-server
    }
}

site "api.example.com" {
    tls {
        cert "/path/to/cert.pem"
        key "/path/to/key.pem"
    }
    route "/*" {
        basic-auth {
            user "admin" hash="$2b$12$..."
        }
        proxy "localhost:8080"
    }
}
"#;
    let config = parse_config(input).unwrap();
    assert_eq!(config.sites.len(), 2);

    assert_eq!(config.global.admin_addr, Some(parse_socket("0.0.0.0:2019").unwrap()));
    assert_eq!(config.global.grace_period, Duration::from_secs(30));

    let acme = config.tls.as_ref().unwrap().acme.as_ref().unwrap();
    assert_eq!(acme.email, "admin@example.com");

    let site0 = &config.sites[0];
    assert_eq!(site0.routes.len(), 2);
    match &site0.routes[0].handler {
        HandlerConfig::Proxy(p) => {
            assert_eq!(p.upstreams.len(), 2);
            assert_eq!(p.lb, LbPolicy::WeightedRoundRobin);
        }
        _ => panic!("expected proxy"),
    }

    let site1 = &config.sites[1];
    assert!(site1.tls.is_some());
}

#[test]
fn test_parse_duration() {
    assert_eq!(parse_duration("30s").unwrap(), Duration::from_secs(30));
    assert_eq!(parse_duration("1m").unwrap(), Duration::from_secs(60));
    assert_eq!(parse_duration("2h").unwrap(), Duration::from_secs(7200));
}

#[test]
fn test_parse_listen_addr() {
    assert_eq!(parse_listen_addr(":8080").unwrap(), parse_socket("0.0.0.0:8080").unwrap());
    assert_eq!(
        parse_listen_addr("127.0.0.1:3000").unwrap(),
        parse_socket("127.0.0.1:3000").unwrap()
    );
}

#[test]
fn test_parse_fastcgi_config() {
    let input = r#"
site "app.example.com" {
    route "*.php" {
        fastcgi "127.0.0.1:9000" {
            root "/var/www/html"
            index "index.php"
            split ".php"
            env "APP_ENV" "production"
        }
    }
}
"#;
    let config = parse_config(input).unwrap();
    let route = &config.sites[0].routes[0];
    assert_eq!(route.path, "*.php");
    match &route.handler {
        HandlerConfig::FastCgi(cfg) => {
            assert_eq!(cfg.addr, "127.0.0.1:9000");
            assert_eq!(cfg.script_root, "/var/www/html");
            assert_eq!(cfg.index, vec!["index.php"]);
            assert_eq!(cfg.split_path, Some(".php".to_string()));
            assert_eq!(cfg.env.get(&"APP_ENV".to_string()).unwrap(), "production");
        }
        _ => panic!("expected FastCgi handler"),
    }
}

#[test]
fn test_parse_dns_upstream() {
    let input = r#"
site "app.example.com" {
    route "/api/*" {
        proxy {
            upstream "fallback:8080"
            dns-upstream name="app.svc.cluster.local" port=8080 refresh="30s"
        }
    }
}
"#;
    let config = parse_config(input).unwrap();
    match &config.sites[0].routes[0].handler {
        HandlerConfig::Proxy(p) => {
            assert_eq!(p.upstreams.len(), 1);
            let dns = p.dynamic_upstreams.as_ref().unwrap();
            assert_eq!(dns.dns_name, "app.svc.cluster.local");
            assert_eq!(dns.port, 8080);
            assert_eq!(dns.refresh_interval, Duration::from_secs(30));
        }
        _ => panic!("expected proxy handler"),
    }
}

#[test]
fn test_parse_matchers() {
    let input = r#"
site "app.example.com" {
    route "/api/*" {
        match method="GET,POST"
        match header="X-Custom" pattern="foo*"
        proxy "localhost:8080"
    }
}
"#;
    let config = parse_config(input).unwrap();
    let route = &config.sites[0].routes[0];
    assert_eq!(route.matchers.len(), 2);
    match &route.matchers[0] {
        RequestMatcher::Method(methods) => {
            assert!(methods.contains(&"GET".to_string()));
            assert!(methods.contains(&"POST".to_string()));
        }
        _ => panic!("expected Method matcher"),
    }
    match &route.matchers[1] {
        RequestMatcher::Header { name, pattern } => {
            assert_eq!(name, "X-Custom");
            assert_eq!(pattern, "foo*");
        }
        _ => panic!("expected Header matcher"),
    }
}

#[test]
fn refuses_what_is_no_kdl() {
    match parse_config("site \"a") {
        Err(ConfigError::Kdl(words)) => assert!(!words.is_empty()),
        other => panic!("unexpected outcome: {other:?}"),
    }
}

#[test]
fn refuses_unknown_directives() {
    let input = r#"
site "a" {
    route "/*" {
        flux-capacitor
        proxy "localhost:1"
    }
}
"#;
    let config = parse_config(input).unwrap();
    match &config.sites[0].routes[0].middlewares[0] {
        HoopConfig::Module { name, .. } => assert_eq!(name, "flux-capacitor"),
        other => panic!("unexpected middleware: {other:?}"),
    }
    match parse_config("nonsense \"x\"") {
        Err(ConfigError::UnknownDirective(name)) => assert_eq!(name, "nonsense"),
        other => panic!("unexpected outcome: {other:?}"),
    }
}

#[test]
fn refuses_what_is_missing_or_wrong() {
    match parse_config("site {\n}") {
        Err(ConfigError::MissingField(_)) => {}
        other => panic!("unexpected outcome: {other:?}"),
    }
    match parse_duration("ten seconds") {
        Err(ConfigError::InvalidValue { .. }) => {}
        other => panic!("unexpected outcome: {other:?}"),
    }
    match parse_listen_addr("somewhere") {
        Err(ConfigError::InvalidValue { detail, .. }) => {
            assert_eq!(detail, "invalid socket address: somewhere")
        }
        other => panic!("unexpected outcome: {other:?}"),
    }
}

#[test]
fn a_route_takes_in_a_snippet() {
    let input = r#"
snippet "limits" {
    rate-limit window="1m" max=10
}
site "a" {
    route "/*" {
        use "limits"
        proxy "localhost:1"
    }
}
"#;
    let config = parse_config(input).unwrap();
    let route = &config.sites[0].routes[0];
    assert!(matches!(
        &route.middlewares[0],
        HoopConfig::RateLimit { max: 10, .. }
    ));
}

#[test]
fn durations_count_in_their_unit() {
    assert_eq!(parse_duration("45").unwrap().as_secs(), 45);
    assert_eq!(parse_duration(" 3h ").unwrap().as_secs(), 10_800);
}

fn no_settings() -> AutoConfigVars {
    AutoConfigVars {
        http_addr: None,
        https_addr: None,
        admin_addr: None,
        acme_email: None,
        acme_ca: None,
        host: None,
        upstream: None,
    }
}

#[test]
fn settings_alone_make_a_configuration() {
    assert_eq!(auto_config_from_env(&no_settings()), None);
    let vars = AutoConfigVars {
        http_addr: Some(":8080".to_string()),
        acme_email: Some("me@example.com".to_string()),
        upstream: Some("localhost:3000".to_string()),
        ..no_settings()
    };
    let text = auto_config_from_env(&vars).unwrap();
    assert_eq!(
        text,
        "global {\n    http \":8080\"\n}\ntls {\n    acme {\n        email \"me@example.com\"\n        ca \"letsencrypt\"\n    }\n}\nsite \"*\" {\n    route \"/*\" {\n        proxy \"localhost:3000\"\n    }\n}\n"
    );
    let config = parse_config(&text).unwrap();
    assert_eq!(config.global.http_addr, parse_socket("0.0.0.0:8080").unwrap());
    assert_eq!(config.sites[0].host, "*");
}

#[test]
fn conditions_guard_routes() {
    let input = r#"
site "a" {
    route "/*" {
        if remote-ip="10.0.0.0/8"
        proxy "localhost:1"
    }
}
"#;
    let config = parse_config(input).unwrap();
    assert_eq!(
        config.sites[0].routes[0].condition,
        Some(RouteCondition::RemoteIp(vec!["10.0.0.0/8".to_string()]))
    );
}
