//! Which requests a route takes.

use gatel_core::config::parse::parse_config;
use gatel_core::config::types::RouteCondition;
use gatel_core::glob::glob_matches;
use gatel_core::message::{ClientAddr, Headers, Request, Uri, Version};
use gatel_core::net::{parse_ip, IpAddr};
use gatel_core::router::matcher::{
    match_cidr, match_query_param, path_matches, pattern_specificity, RequestMatcher,
};
use gatel_core::router::signature::{matcher_signatures, write_signature};
use gatel_core::salvo_service::{
    answer_without_module, evaluate_condition, extract_host, order_routes, plan_hoop,
    select_route, Algorithm, Allowed, HoopPlan, ModuleOutcome, RedirectGoal, RespondGoal,
};

fn request(method: &str, target: &str) -> Request {
    Request {
        method: method.to_string(),
        uri: Uri {
            scheme: None,
            authority: None,
            path_and_query: Some(target.to_string()),
        },
        version: Version::Http11,
        headers: Headers::new(),
    }
}

fn client(ip: &str, port: u16) -> ClientAddr {
    ClientAddr {
        ip: parse_ip(ip).unwrap(),
        ip_text: ip.to_string(),
        port,
    }
}

#[test]
fn test_wildcard() {
    assert!(path_matches("/*", "/anything"));
    assert!(path_matches("/*", "/"));
    assert!(path_matches("*", "/foo"));
}

#[test]
fn test_prefix() {
    assert!(path_matches("/api/*", "/api/users"));
    assert!(path_matches("/api/*", "/api/"));
    assert!(path_matches("/api/*", "/api"));
    assert!(!path_matches("/api/*", "/apifoo"));
    assert!(!path_matches("/api/*", "/other"));
}

#[test]
fn test_exact() {
    assert!(path_matches("/health", "/health"));
    assert!(!path_matches("/health", "/health/check"));
}

#[test]
fn test_extension_match() {
    assert!(path_matches("*.php", "/index.php"));
    assert!(path_matches("*.php", "/app/page.php"));
    assert!(!path_matches("*.php", "/index.html"));
}

#[test]
fn test_specificity_ordering() {
    assert!(pattern_specificity("/api/*") > pattern_specificity("/*"));
    assert!(pattern_specificity("/api/v1/*") > pattern_specificity("/api/*"));
    assert!(pattern_specificity("/exact") > pattern_specificity("/api/v1/*"));
}

#[test]
fn test_glob_matches_star() {
    assert!(glob_matches("foo*", "foobar"));
    assert!(glob_matches("foo*", "foo"));
    assert!(!glob_matches("foo*", "baz"));
    assert!(glob_matches("*bar", "foobar"));
    assert!(!glob_matches("foo*", "foo/bar"));
}

#[test]
fn test_glob_matches_double_star() {
    assert!(glob_matches("**", "anything/at/all"));
    assert!(glob_matches("/api/**", "/api/v1/users"));
    assert!(glob_matches("foo/**/bar", "foo/a/b/c/bar"));
}

#[test]
fn test_glob_matches_question() {
    assert!(glob_matches("fo?", "foo"));
    assert!(glob_matches("fo?", "fob"));
    assert!(!glob_matches("fo?", "fooo"));
}

#[test]
fn matches_star() {
    assert!(glob_matches("foo*", "foobar"));
    assert!(glob_matches("*bar", "foobar"));
    assert!(!glob_matches("foo*", "foo/bar"));
}

#[test]
fn matches_double_star() {
    assert!(glob_matches("/api/**", "/api/v1/users"));
    assert!(glob_matches("foo/**/bar", "foo/a/b/c/bar"));
}

#[test]
fn matches_question() {
    assert!(glob_matches("fo?", "foo"));
    assert!(!glob_matches("fo?", "fooo"));
}

#[test]
fn test_query_param() {
    assert!(match_query_param("a=1&b=2", "a", Some("1")));
    assert!(match_query_param("a=1&b=2", "b", None));
    assert!(!match_query_param("a=1&b=2", "c", None));
    assert!(!match_query_param("a=1", "a", Some("2")));
}

#[test]
fn test_cidr_match_v4() {
    let ip = parse_ip("192.168.1.100").unwrap();
    assert!(match_cidr("192.168.0.0/16", &ip));
    assert!(match_cidr("192.168.1.0/24", &ip));
    assert!(!match_cidr("10.0.0.0/8", &ip));
    assert!(match_cidr("192.168.1.100", &ip));
}

#[test]
fn test_cidr_match_v6() {
    let ip = parse_ip("::1").unwrap();
    assert!(match_cidr("::1", &ip));
    assert!(match_cidr("::0/0", &ip));
}

#[test]
fn test_request_matcher_method() {
    let req = request("GET", "/test");
    let addr = client("127.0.0.1", 1234);

    let matcher = RequestMatcher::Method(vec!["GET".into(), "POST".into()]);
    assert!(matcher.matches(&req, &addr));

    let matcher = RequestMatcher::Method(vec!["POST".into()]);
    assert!(!matcher.matches(&req, &addr));
}

#[test]
fn test_request_matcher_query() {
    let req = request("GET", "/test?foo=bar&baz=1");
    let addr = client("127.0.0.1", 1234);

    let matcher = RequestMatcher::Query {
        key: "foo".into(),
        value: Some("bar".into()),
    };
    assert!(matcher.matches(&req, &addr));

    let matcher = RequestMatcher::Query {
        key: "baz".into(),
        value: None,
    };
    assert!(matcher.matches(&req, &addr));

    let matcher = RequestMatcher::Query {
        key: "missing".into(),
        value: None,
    };
    assert!(!matcher.matches(&req, &addr));
}

#[test]
fn test_request_matcher_not() {
    let req = request("GET", "/test");
    let addr = client("127.0.0.1", 1234);

    let matcher = RequestMatcher::Not(Box::new(RequestMatcher::Method(vec!["POST".into()])));
    assert!(matcher.matches(&req, &addr));
}

#[test]
fn test_request_matcher_and_or() {
    let req = request("GET", "/api/test?debug=1");
    let addr = client("127.0.0.1", 1234);

    let matcher = RequestMatcher::And(vec![
        RequestMatcher::Method(vec!["GET".into()]),
        RequestMatcher::Path("/api/*".into()),
    ]);
    assert!(matcher.matches(&req, &addr));

    let matcher = RequestMatcher::Or(vec![
        RequestMatcher::Method(vec!["POST".into()]),
        RequestMatcher::Path("/api/*".into()),
    ]);
    assert!(matcher.matches(&req, &addr));
}

#[test]
fn test_request_matcher_remote_ip() {
    let req = request("GET", "/test");
    let addr = client("192.168.1.50", 1234);

    let matcher = RequestMatcher::RemoteIp(vec!["192.168.0.0/16".into()]);
    assert!(matcher.matches(&req, &addr));

    let matcher = RequestMatcher::RemoteIp(vec!["10.0.0.0/8".into()]);
    assert!(!matcher.matches(&req, &addr));
}

#[test]
fn addresses_are_read_in_every_form() {
    assert_eq!(parse_ip("1.2.3.4"), Some(IpAddr::V4(0x0102_0304)));
    assert_eq!(parse_ip("::1"), Some(IpAddr::V6(1)));
    assert_eq!(parse_ip("::ffff:1.2.3.4"), Some(IpAddr::V6(0xffff_0102_0304)));
    assert_eq!(parse_ip("1.2.3"), None);
    assert_eq!(parse_ip("1.2.3.256"), None);
    assert_eq!(parse_ip("01.2.3.4"), None);
}

#[test]
fn host_is_that_of_the_field_or_the_uri() {
    let mut req = request("GET", "/");
    assert_eq!(extract_host(&req), "");
    req.uri.authority = Some("user:secret@Example.com:8443".to_string());
    assert_eq!(extract_host(&req), "Example.com");
    req.headers.insert("Host", b"app.example.com:80".to_vec());
    assert_eq!(extract_host(&req), "app.example.com");
}

#[test]
fn the_more_specific_route_answers() {
    let config = parse_config(
        r#"
site "other" {
    route "/*" {
        respond "no"
    }
}
site "a" {
    route "/*" {
        respond "all"
    }
    route "/api/*" {
        respond "api"
    }
    route "/api/v1" {
        respond "v1"
    }
}
"#,
    )
    .unwrap();
    let order: Vec<usize> = order_routes(&config.sites[1].routes)
        .iter()
        .map(|r| r.index)
        .collect();
    assert_eq!(order, vec![2, 1, 0]);
    let from = client("127.0.0.1", 1);
    let mut req = request("GET", "/api/v1");
    assert_eq!(select_route(&config, &req, &from), None);
    req.headers.insert("host", b"a".to_vec());
    assert_eq!(select_route(&config, &req, &from), Some((1, 2)));
    req.uri.path_and_query = Some("/api/v2".to_string());
    assert_eq!(select_route(&config, &req, &from), Some((1, 1)));
    req.uri.path_and_query = Some("/".to_string());
    assert_eq!(select_route(&config, &req, &from), Some((1, 0)));
}

#[test]
fn conditions_look_at_addresses_and_fields() {
    let mut req = request("GET", "/");
    req.headers.insert("x-internal", b"yes".to_vec());
    let from = client("10.1.2.3", 1);
    let ranges = vec!["10.0.0.0/8".to_string()];
    assert!(evaluate_condition(&RouteCondition::RemoteIp(ranges.clone()), &req, &from));
    assert!(!evaluate_condition(&RouteCondition::NotRemoteIp(ranges), &req, &from));
    let header = RouteCondition::Header {
        name: "X-Internal".to_string(),
        value: "yes".to_string(),
    };
    assert!(evaluate_condition(&header, &req, &from));
    let header = RouteCondition::NotHeader {
        name: "X-Internal".to_string(),
        value: "no".to_string(),
    };
    assert!(evaluate_condition(&header, &req, &from));
}

#[test]
fn steps_are_built_as_configured() {
    let config = parse_config(
        r#"
site "a" {
    route "/*" {
        encode "gzip" "br" "unheard-of"
        cors {
            allow-method "GET" "NOT A METHOD"
            expose-header "x-a"
            max-age 60
        }
        request-id header="bad name"
        trailing-slash "remove"
        respond "ok"
    }
}
"#,
    )
    .unwrap();
    let route = &config.sites[0].routes[0];
    for hoop in &route.middlewares {
        match plan_hoop(hoop) {
            HoopPlan::Compression { algorithms, level } => {
                assert_eq!(algorithms, vec![Algorithm::Gzip, Algorithm::Brotli]);
                assert_eq!(level, None);
            }
            HoopPlan::Cors(plan) => {
                assert_eq!(plan.origins, Allowed::Anything);
                assert_eq!(plan.methods, Allowed::Listed(vec!["GET".to_string()]));
                assert_eq!(plan.headers, Allowed::Anything);
                assert_eq!(plan.max_age, Some(60));
            }
            HoopPlan::RequestId { header_name, .. } => assert_eq!(header_name, None),
            HoopPlan::TrailingSlash { remove } => assert!(remove),
            other => panic!("unexpected plan: {other:?}"),
        }
    }
    assert_eq!(route.middlewares.len(), 4);
}

#[test]
fn goals_answer_in_one_way() {
    let elsewhere = RedirectGoal {
        target: "https://example.com/".to_string(),
        permanent: false,
    };
    let answer = elsewhere.handle();
    assert_eq!(answer.status, 307);
    assert_eq!(answer.headers.text("location"), Some("https://example.com/".to_string()));
    let always = RespondGoal {
        status: 7,
        body: "no such status".to_string(),
    };
    let answer = always.handle();
    assert_eq!(answer.status, 500);
    assert_eq!(answer.body, b"no such status".to_vec());
    let answer = answer_without_module("waf", ModuleOutcome::Failed("broken".to_string()));
    assert_eq!(answer.status, 500);
    assert_eq!(answer.body, b"module 'waf' error: broken".to_vec());
    let answer = answer_without_module("waf", ModuleOutcome::Nothing);
    assert_eq!(answer.body, b"module 'waf' did not provide a handler".to_vec());
    let answer = answer_without_module("waf", ModuleOutcome::Unknown);
    assert_eq!(answer.body, b"unknown module: waf".to_vec());
}

#[test]
fn matchers_are_written_as_json() {
    let path = RequestMatcher::Path("/a\"b\\c\n\u{8}\u{c}\u{1}\u{7f}\u{e9}".to_string());
    assert_eq!(
        write_signature(&path),
        "{\"Path\":\"/a\\\"b\\\\c\\n\\b\\f\\u0001\u{7f}\u{e9}\"}"
    );
    assert_eq!(
        matcher_signatures(&vec![RequestMatcher::Protocol("\t\r\u{1f}".to_string())]),
        vec!["{\"Protocol\":\"\\t\\r\\u001f\"}".to_string()]
    );
}

#[test]
fn an_exact_pattern_beats_every_wildcard() {
    let long = format!("/{}*", "a".repeat(998));
    assert_eq!(long.len(), 1000);
    for wildcard in ["*", "/*", "*.php", "/api/*", "/ap*", long.as_str()] {
        assert!(pattern_specificity("e") > pattern_specificity(wildcard));
    }
    assert_eq!(pattern_specificity("e"), 1001);
    assert_eq!(pattern_specificity("*"), 0);
    assert_eq!(pattern_specificity("/*"), 0);
    assert!(pattern_specificity("b/*") > 0);
    assert!(pattern_specificity("aa/*") > pattern_specificity("b/*"));
}
