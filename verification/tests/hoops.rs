//! What happens to requests and answers on their way.

use gatel_core::config::types::{BasicAuthUser, CacheConfig, HeadersConfig};
use gatel_core::hoops::acme_challenge::answer_challenge;
use gatel_core::hoops::auth::{extract_basic_credentials, BasicAuthHoop};
use gatel_core::hoops::buffer::{collect_res_body_limited, BodyLimitError, BufferLimitHoop};
use gatel_core::hoops::cache::{CacheHoop, CacheStep};
use gatel_core::hoops::compress::CompressHoop;
use gatel_core::hoops::decompress::DecompressHoop;
use gatel_core::hoops::error_pages::ErrorPagesHoop;
use gatel_core::hoops::forward_auth::ForwardAuthHoop;
use gatel_core::hoops::headers::HeadersHoop;
use gatel_core::hoops::ip_filter::{CidrRange, IpFilterHoop};
use gatel_core::hoops::logging::{
    fill_headers_within, format_log_line, rotated_path, write_timestamp, LogEntry, LoggingHoop,
    RotatingLogWriter, RotationStep,
};
use gatel_core::hoops::metrics::{Metrics, MetricsHoop};
use gatel_core::hoops::rate_limit::RateLimitHoop;
use gatel_core::hoops::replace::ReplaceHoop;
use gatel_core::hoops::rewrite::{apply_rewrite, RewriteHoop};
use gatel_core::hoops::stream_replace::{replace_all, replace_first, StreamReplaceHoop};
use gatel_core::hoops::templates::{
    assemble, may_take_in, process_template, safe_relative_path, set_page, template_of,
    TemplatePart, TemplateVars, TemplatesHoop,
};
use gatel_core::message::{ClientAddr, Headers, Request, Response, Uri, Version};
use gatel_core::net::parse_ip;
use gatel_core::passwords::{check_password, detect_hash_type, HashType};
use gatel_core::salvo_service::Algorithm;
use gatel_core::sorted_map::SortedMap;
use gatel_core::time::{Duration, Instant, SystemTime};
use password_hash::{PasswordHasher, SaltString};

fn request(method: &str, target: &str) -> Request {
    Request {
        method: method.to_string(),
        uri: uri(target),
        version: Version::Http11,
        headers: Headers::new(),
    }
}

fn uri(target: &str) -> Uri {
    Uri {
        scheme: None,
        authority: None,
        path_and_query: Some(target.to_string()),
    }
}

fn client(ip: &str) -> ClientAddr {
    ClientAddr {
        ip: parse_ip(ip).unwrap(),
        ip_text: ip.to_string(),
        port: 12345,
    }
}

fn second(n: u64) -> Instant {
    Instant { nanos: u128::from(n) * 1_000_000_000 }
}

fn page(kind: &str, body: &str) -> Response {
    let mut headers = Headers::new();
    headers.insert("content-type", kind.as_bytes().to_vec());
    Response { status: 200, headers, body: body.as_bytes().to_vec() }
}

fn user(name: &str, hash: &str) -> BasicAuthUser {
    BasicAuthUser {
        username: name.to_string(),
        password_hash: hash.to_string(),
    }
}

#[test]
fn test_record_and_render() {
    let mut m = Metrics::new();
    m.record_request("example.com", "GET", 200, Duration::from_millis(50));
    m.record_request("example.com", "GET", 200, Duration::from_millis(30));
    m.record_request("example.com", "POST", 201, Duration::from_millis(100));
    m.inc_active_connections();
    m.inc_active_connections();
    m.dec_active_connections();

    let output = m.render_prometheus();

    assert!(output.contains("gatel_requests_total"));
    assert!(output.contains("gatel_request_duration_seconds"));
    assert!(output.contains("gatel_active_connections 1"));
    assert!(output.contains(
        "gatel_requests_total{host=\"example.com\",method=\"GET\",status=\"200\"} 2\n"
    ));
    assert!(output.contains("gatel_request_duration_seconds_count{host=\"example.com\",method=\"GET\"} 2\n"));
}

#[test]
fn a_request_is_counted_while_it_runs() {
    let mut m = Metrics::new();
    let mut headers = Headers::new();
    headers.insert("host", b"example.com".to_vec());
    let hoop = MetricsHoop::begin(&mut m, &headers, "GET");
    assert_eq!(m.active_connections(), 1);
    hoop.finish(&mut m, Some(204), Duration::from_millis(1500));
    assert_eq!(m.active_connections(), 0);
    let output = m.render_prometheus();
    assert!(output.contains("status=\"204\"} 1\n"));
    assert!(output.contains("gatel_request_duration_seconds_sum{host=\"example.com\",method=\"GET\"} 1.5"));
}

fn vars() -> TemplateVars {
    TemplateVars {
        host: "example.com".to_string(),
        path: "/index.html".to_string(),
        method: "GET".to_string(),
        scheme: "https".to_string(),
        client_ip: "127.0.0.1".to_string(),
        query: String::new(),
        uri: "/index.html".to_string(),
        remote_addr: "127.0.0.1:12345".to_string(),
        server_name: "example.com".to_string(),
    }
}

/// The page, where nothing that is looked up is found.
fn render(template: &str, hoop: &TemplatesHoop) -> String {
    render_with(template, hoop, "")
}

/// The page, where what is looked up is `found`.
fn render_with(template: &str, hoop: &TemplatesHoop, found: &str) -> String {
    let parts = process_template(template, &vars(), hoop);
    let lookups = parts
        .iter()
        .filter(|p| !matches!(p, TemplatePart::Text(_)))
        .count();
    assemble(&parts, &vec![found.to_string(); lookups])
}

#[test]
fn env_lookup_is_disabled_by_default() {
    let hoop = TemplatesHoop::new(None, false, false);

    let output = render("token={{.Env.PATH}}", &hoop);

    assert_eq!(output, "token={{.Env.PATH}}");
}

#[test]
fn include_is_disabled_by_default() {
    let root = tempfile::tempdir().unwrap();
    let hoop = TemplatesHoop::new(
        Some(root.path().to_string_lossy().into_owned()),
        false,
        false,
    );

    let output = render_with(r#"{{include "header.html"}}"#, &hoop, "safe");

    assert_eq!(output, r#"{{include "header.html"}}"#);
}

#[test]
fn include_reads_root_confined_relative_file_when_enabled() {
    let root = tempfile::tempdir().unwrap();
    let root_text = root.path().to_string_lossy().into_owned();
    let hoop = TemplatesHoop::new(Some(root_text), false, true);

    let template = r#"{{include "partials/header.html"}}"#;
    let parts = process_template(template, &vars(), &hoop);
    assert_eq!(
        parts,
        vec![
            TemplatePart::Text(String::new()),
            TemplatePart::File("partials/header.html".to_string()),
            TemplatePart::Text(String::new()),
        ]
    );
    let output = render_with(template, &hoop, "safe");

    assert_eq!(output, "safe");
}

#[test]
fn include_rejects_parent_traversal() {
    let root = tempfile::tempdir().unwrap();
    let hoop = TemplatesHoop::new(
        Some(root.path().to_string_lossy().into_owned()),
        false,
        true,
    );

    let output = render_with(r#"{{include "../secret.txt"}}"#, &hoop, "secret");

    assert_eq!(output, "");
}

#[test]
fn include_rejects_absolute_path() {
    let root = tempfile::tempdir().unwrap();
    let outside = tempfile::NamedTempFile::new().unwrap();
    let hoop = TemplatesHoop::new(
        Some(root.path().to_string_lossy().into_owned()),
        false,
        true,
    );
    let template = format!(r#"{{{{include "{}"}}}}"#, outside.path().display());

    let output = render_with(&template, &hoop, "secret");

    assert_eq!(output, "");
}

#[test]
fn process_template_preserves_utf8_text() {
    let hoop = TemplatesHoop::new(None, false, false);

    let rendered = render("你好 {{path}}", &hoop);

    assert_eq!(rendered, "你好 /index.html");
}

#[test]
fn safe_paths_stay_below_the_root() {
    assert_eq!(safe_relative_path("a/./b"), Some("a/b".to_string()));
    assert_eq!(safe_relative_path("a/../b"), None);
    assert_eq!(safe_relative_path("/etc/passwd"), None);
}

#[test]
fn collect_response_body_limited_accepts_body_within_limit() {
    let body = vec![b"hello".to_vec()];

    let collected = collect_res_body_limited(&body, 5).unwrap();

    assert_eq!(collected, b"hello");
}

#[test]
fn collect_response_body_limited_rejects_oversized_body() {
    let body = vec![b"hello".to_vec()];

    let error = collect_res_body_limited(&body, 4).unwrap_err();

    assert_eq!(error, BodyLimitError::TooLarge);
}

#[test]
fn bodies_that_are_too_large_are_refused() {
    let mut headers = Headers::new();
    let answer = BufferLimitHoop::on_request(&mut headers, &Err(BodyLimitError::TooLarge));
    assert_eq!(answer.unwrap().status, 413);
    assert!(BufferLimitHoop::on_request(&mut headers, &Ok(b"ok".to_vec())).is_none());
    assert_eq!(headers.text("content-length"), Some("2".to_string()));
    let mut answer = page("text/plain", "");
    BufferLimitHoop::on_response(&mut answer, Err(BodyLimitError::TooLarge));
    assert_eq!(answer.status, 502);
}

#[test]
fn every_kind_of_hash_is_checked() {
    let salt = SaltString::from_b64("c29tZXNhbHRzb21lc2FsdA").unwrap();
    let bcrypt_hash = bcrypt::hash("secret", 4).unwrap();
    let argon2_hash = argon2::Argon2::default()
        .hash_password(b"secret", &salt)
        .unwrap()
        .to_string();
    let scrypt_hash = scrypt::Scrypt
        .hash_password_customized(
            b"secret",
            None,
            None,
            scrypt::Params::new(4, 8, 1, 32).unwrap(),
            &salt,
        )
        .unwrap()
        .to_string();
    let pbkdf2_hash = pbkdf2::Pbkdf2
        .hash_password_customized(
            b"secret",
            None,
            None,
            pbkdf2::Params { rounds: 1000, output_length: 32 },
            &salt,
        )
        .unwrap()
        .to_string();
    for (hash, kind) in [
        (bcrypt_hash, HashType::Bcrypt),
        (argon2_hash, HashType::Argon2),
        (scrypt_hash, HashType::Scrypt),
        (pbkdf2_hash, HashType::Pbkdf2),
        ("secret".to_string(), HashType::Plaintext),
    ] {
        assert_eq!(detect_hash_type(&hash), kind);
        assert!(check_password(kind, "secret", &hash));
        assert!(!check_password(kind, "Secret", &hash));
    }
    assert!(!check_password(HashType::Bcrypt, "secret", "$2b$nonsense"));
    assert!(!check_password(HashType::Argon2, "secret", "$argon2id$nonsense"));
    assert!(!check_password(HashType::Scrypt, "secret", "$scrypt$"));
    assert!(!check_password(HashType::Pbkdf2, "secret", "$pbkdf2$"));
}

#[test]
fn users_are_let_in() {
    let mut hoop = BasicAuthHoop::new(&vec![user("Aladdin", "open sesame")], Some(2), Some(Duration::from_secs(60)));
    let from = client("10.0.0.7");
    let mut good = Headers::new();
    good.insert("authorization", b"Basic QWxhZGRpbjpvcGVuIHNlc2FtZQ==".to_vec());
    assert_eq!(
        extract_basic_credentials(&good),
        Some(("Aladdin".to_string(), "open sesame".to_string()))
    );
    assert_eq!(hoop.handle(&good, &from, second(0)).unwrap(), "Aladdin");
    let refused = hoop.handle(&Headers::new(), &from, second(1)).unwrap_err();
    assert_eq!(refused.status, 401);
    assert!(refused.headers.contains_key("www-authenticate"));
    let mut bad = Headers::new();
    bad.insert("authorization", b"Basic QWxhZGRpbjp3cm9uZw==".to_vec());
    assert_eq!(hoop.handle(&bad, &from, second(3)).unwrap_err().status, 401);
    // Too many failures: even the right password has to wait.
    assert!(hoop.is_blocked("10.0.0.7", second(4)));
    assert_eq!(hoop.handle(&good, &from, second(4)).unwrap_err().status, 429);
    assert!(hoop.handle(&good, &client("10.0.0.8"), second(4)).is_ok());
    assert!(hoop.handle(&good, &from, second(63)).is_ok());
}

#[test]
fn addresses_are_filtered() {
    let hoop = IpFilterHoop::new(
        &vec!["10.0.0.0/8".to_string(), "not a range".to_string()],
        &vec!["10.1.0.0/16".to_string()],
        true,
    );
    let headers = Headers::new();
    assert!(hoop.handle(&headers, &client("10.2.0.1")).is_none());
    assert_eq!(hoop.handle(&headers, &client("10.1.0.1")).unwrap().status, 403);
    assert_eq!(hoop.handle(&headers, &client("192.168.0.1")).unwrap().status, 403);
    let mut forwarded = Headers::new();
    forwarded.insert("x-forwarded-for", b"10.2.0.1, 1.1.1.1".to_vec());
    assert!(hoop.handle(&forwarded, &client("192.168.0.1")).is_none());
    assert!(CidrRange::parse("10.0.0.0/33").is_none());
    assert!(CidrRange::parse("::/0").unwrap().contains(&parse_ip("::1").unwrap()));
}

#[test]
fn fields_are_set_and_removed() {
    let mut request_set = SortedMap::new();
    request_set.insert("x-client".to_string(), "{client_ip}".to_string());
    let mut response_set = SortedMap::new();
    response_set.insert("x-path".to_string(), "{path}".to_string());
    let hoop = HeadersHoop::new(HeadersConfig {
        request_set,
        response_set,
        response_remove: vec!["server".to_string()],
    });
    let mut req = request("GET", "/a?b=1");
    let values = hoop.on_request(&mut req, &client("10.0.0.7"));
    assert_eq!(req.headers.text("x-client"), Some("10.0.0.7".to_string()));
    let mut headers = Headers::new();
    headers.insert("server", b"secret".to_vec());
    hoop.on_response(&mut headers, &values);
    assert!(!headers.contains_key("server"));
    assert_eq!(headers.text("x-path"), Some("/a".to_string()));
}

#[test]
fn pages_stand_for_errors() {
    let mut pages = SortedMap::new();
    pages.insert(404, "<h1>gone</h1>".to_string());
    let hoop = ErrorPagesHoop::new(pages);
    let mut answer = page("text/plain", "not found");
    hoop.apply(&mut answer);
    assert_eq!(answer.body, b"not found".to_vec());
    answer.status = 404;
    hoop.apply(&mut answer);
    assert_eq!(answer.status, 404);
    assert_eq!(answer.body, b"<h1>gone</h1>".to_vec());
}

#[test]
fn answers_are_kept_and_told_apart_by_vary() {
    let mut hoop = CacheHoop::new(&CacheConfig {
        max_entries: 2,
        max_entry_size: 1000,
        default_max_age: Duration::from_secs(60),
    });
    let mut req = request("GET", "/a");
    req.headers.insert("accept-encoding", b"gzip".to_vec());
    assert!(matches!(hoop.begin(&req, second(0)), CacheStep::Fetch));
    let mut answer = page("text/plain", "kept");
    answer.headers.insert("vary", b"accept-encoding".to_vec());
    let age = hoop.keep_time(200, &answer.headers).unwrap();
    assert_eq!(age, Duration::from_secs(60));
    let answer = hoop.complete(&req, answer, age, second(0));
    assert_eq!(answer.headers.text("x-cache"), Some("MISS".to_string()));
    match hoop.begin(&req, second(10)) {
        CacheStep::Answer(r) => {
            assert_eq!(r.body, b"kept".to_vec());
            assert_eq!(r.headers.text("x-cache"), Some("HIT".to_string()));
            assert_eq!(r.headers.text("age"), Some("10".to_string()));
        }
        other => panic!("not answered: {other:?}"),
    }
    let mut other = request("GET", "/a");
    other.headers.insert("accept-encoding", b"br".to_vec());
    assert!(matches!(hoop.begin(&other, second(10)), CacheStep::Fetch));
    assert!(matches!(hoop.begin(&req, second(60)), CacheStep::Fetch));
    assert!(matches!(hoop.begin(&request("POST", "/a"), second(0)), CacheStep::Pass));
    let mut unkept = Headers::new();
    unkept.insert("cache-control", b"no-store".to_vec());
    assert!(hoop.keep_time(200, &unkept).is_none());
    assert!(hoop.keep_time(500, &Headers::new()).is_none());
}

#[test]
fn paths_are_rewritten() {
    let hoop = RewriteHoop::new(
        Some("/api".to_string()),
        None,
        vec![("^/v([0-9]+)/".to_string(), "/version/$1/".to_string())],
        false,
        false,
        None,
        false,
    );
    let to = apply_rewrite(&hoop, &uri("/api/v2/users?q=1"), false, false).unwrap();
    assert_eq!(to.full_text(), "/version/2/users?q=1");
    let hoop = RewriteHoop::new(
        None,
        Some("/index.php?path={path}".to_string()),
        Vec::new(),
        true,
        false,
        Some("/srv".to_string()),
        true,
    );
    assert_eq!(hoop.path_to_check(&uri("/a.css")), Some("/srv/a.css".to_string()));
    assert_eq!(apply_rewrite(&hoop, &uri("/a.css"), true, false).unwrap().full_text(), "/a.css");
    assert_eq!(hoop.normalize(&uri("//a///b?x=//")).unwrap().full_text(), "/a/b?x=//");
    // What is no pattern leaves the path alone.
    let broken = RewriteHoop::new(
        None,
        None,
        vec![("(".to_string(), "x".to_string())],
        false,
        false,
        None,
        false,
    );
    assert_eq!(apply_rewrite(&broken, &uri("/(a"), false, false).unwrap().full_text(), "/(a");
    let empty_query = apply_rewrite(&broken, &uri("/a?"), false, false).unwrap();
    assert_eq!(empty_query.path_and_query, Some("/a?".to_string()));
}

#[test]
fn bodies_are_rewritten() {
    let rules = vec![("a".to_string(), "bb".to_string())];
    let all = ReplaceHoop::new(rules.clone(), false);
    let answer = all.apply(page("text/html", "a-a"));
    assert_eq!(answer.body, b"bb-bb".to_vec());
    assert_eq!(answer.headers.text("content-length"), Some("5".to_string()));
    let once = ReplaceHoop::new(rules.clone(), true);
    assert_eq!(once.apply(page("text/html", "a-a")).body, b"bb-a".to_vec());
    assert_eq!(all.apply(page("image/png", "a-a")).body, b"a-a".to_vec());
    let stream = StreamReplaceHoop::new(rules, false);
    assert_eq!(stream.apply(page("text/plain", "a-a")).body, b"bb-bb".to_vec());
    assert_eq!(replace_all(b"aaa", b"aa", b"x"), b"xa".to_vec());
    assert_eq!(replace_first(b"aaaa", b"aa", b""), b"aa".to_vec());
}

#[test]
fn answers_are_compressed_where_it_pays() {
    let hoop = CompressHoop::new(&vec!["gzip".to_string(), "br".to_string()], None);
    let mut req = Headers::new();
    let long = "x".repeat(5000);
    assert_eq!(hoop.plan(&req, &page("text/html", &long)), None);
    req.insert("accept-encoding", b"gzip, br".to_vec());
    let way = hoop.plan(&req, &page("text/html", &long)).unwrap();
    assert_eq!(way, Algorithm::Gzip);
    assert_eq!(hoop.plan(&req, &page("image/png", &long)), None);
    assert_eq!(hoop.plan(&req, &page("text/html", "short")), None);
    let mut answer = page("text/html", &long);
    CompressHoop::finish(&mut answer, way, b"packed".to_vec());
    assert_eq!(answer.headers.text("content-encoding"), Some("gzip".to_string()));
    assert_eq!(answer.headers.text("content-length"), Some("6".to_string()));
    // What is compressed is not compressed again.
    assert_eq!(hoop.plan(&req, &answer), None);
}

#[test]
fn bodies_are_unpacked_up_to_a_limit() {
    let hoop = DecompressHoop::new(Some(4));
    let mut headers = Headers::new();
    assert_eq!(DecompressHoop::plan(&headers, b"xx"), None);
    headers.insert("content-encoding", b"gzip".to_vec());
    assert_eq!(DecompressHoop::plan(&headers, b"xx"), Some(Algorithm::Gzip));
    let mut output = Vec::new();
    assert!(hoop.read_limited(&mut output, b"abc").is_ok());
    assert!(hoop.read_limited(&mut output, b"de").is_err());
    DecompressHoop::finish(&mut headers, 3);
    assert!(!headers.contains_key("content-encoding"));
    assert_eq!(headers.text("content-length"), Some("3".to_string()));
    assert_eq!(DecompressHoop::refuse().status, 400);
}

#[test]
fn another_server_lets_requests_in() {
    let hoop = ForwardAuthHoop::new(
        "http://auth/".to_string(),
        vec!["x-user".to_string()],
    );
    let mut req = request("GET", "/a");
    req.headers.insert("cookie", b"c=1".to_vec());
    let question = ForwardAuthHoop::question(&req);
    assert_eq!(question.text("cookie"), Some("c=1".to_string()));
    assert_eq!(question.text("x-forwarded-method"), Some("GET".to_string()));
    let mut yes = page("text/plain", "");
    yes.headers.insert("x-user", b"bob".to_vec());
    assert!(hoop.on_answer(&mut req.headers, &yes).is_none());
    assert_eq!(req.headers.text("x-user"), Some("bob".to_string()));
    let mut no = page("text/plain", "go away");
    no.status = 401;
    assert_eq!(hoop.on_answer(&mut req.headers, &no).unwrap().status, 401);
    assert_eq!(ForwardAuthHoop::unreachable("down").status, 500);
}

#[test]
fn challenges_are_answered() {
    let answer = answer_challenge(200, "token.key");
    assert_eq!(answer.status, 200);
    assert_eq!(answer.headers.text("content-type"), Some("text/plain".to_string()));
    assert_eq!(answer.body, b"token.key".to_vec());
    assert_eq!(answer_challenge(7, "").status, 500);
}

#[test]
fn buckets_are_filled_and_forgotten() {
    let mut hoop = RateLimitHoop::new(Duration::from_secs(10), 5, None);
    assert_eq!(hoop.max_tokens(), 5);
    assert_eq!(hoop.burst(), 5);
    assert_eq!(hoop.window(), Duration::from_secs(10));
    assert_eq!(hoop.bucket("10.0.0.7", second(0)), None);
    hoop.refill("10.0.0.7", 4, second(0));
    assert_eq!(hoop.bucket("10.0.0.7", second(1)), Some((4, 1_000_000_000)));
    hoop.cleanup_expired(second(1000));
    assert_eq!(hoop.bucket("10.0.0.7", second(1000)), None);
    let refused = RateLimitHoop::refuse(3);
    assert_eq!(refused.status, 429);
    assert_eq!(refused.headers.text("retry-after"), Some("3".to_string()));
}

#[test]
fn requests_are_logged_in_a_line() {
    let writer = RotatingLogWriter::open("access.log".to_string(), 0, None, None);
    let hoop = LoggingHoop::with_rotating_writer(
        writer,
        Some("{client_ip} {method} {path} {status} {latency_ms} {header:user-agent}".to_string()),
    );
    let mut headers = Headers::new();
    headers.insert("user-agent", b"curl".to_vec());
    let line = hoop.line(
        &client("10.0.0.7"),
        "GET",
        &uri("/a?b"),
        &headers,
        Some(200),
        &Headers::new(),
        Duration::from_millis(12),
        SystemTime { secs: 0, nanos: 0 },
    );
    assert_eq!(line, Some("10.0.0.7 GET /a 200 12 curl".to_string()));
    assert_eq!(write_timestamp(784_111_777), "1994-11-06T08:49:37Z");
    // A field whose value asks for itself never settles.
    let mut headers = Headers::new();
    headers.insert("x", b"{header:x}".to_vec());
    assert_eq!(fill_headers_within("{header:x}", &headers, 10), None);
    assert_eq!(fill_headers_within("{header:y}", &headers, 10), Some("-".to_string()));
}

#[test]
fn log_files_move_on() {
    let mut writer = RotatingLogWriter::open("a.log".to_string(), 90, Some(100), Some(2));
    assert!(!writer.must_rotate(10));
    assert!(writer.must_rotate(11));
    assert_eq!(writer.keep(), 2);
    assert_eq!(
        writer.rotate(2),
        vec![
            RotationStep::Remove(2),
            RotationStep::Rename { from: 1, to: 2 },
            RotationStep::Rename { from: 0, to: 1 },
        ]
    );
    writer.wrote(11);
    assert!(!writer.must_rotate(89));
    assert_eq!(rotated_path("a.log", 1), "a.log.1");
}

#[test]
fn every_field_of_a_line_is_filled_in() {
    let from = client("10.0.0.7");
    let mut headers = Headers::new();
    headers.insert("referer", b"http://a/".to_vec());
    let entry = LogEntry {
        client: &from,
        method: "GET",
        path: "/a",
        path_and_query: "/a?b",
        status: 404,
        latency: Duration::from_millis(3),
        headers: &headers,
        content_length: None,
        at: SystemTime { secs: 0, nanos: 0 },
    };
    assert_eq!(
        format_log_line("{client_ip}:{client_port} {method} {path} {status} {header:referer} {header:x}", &entry),
        "10.0.0.7:12345 GET /a 404 http://a/ -"
    );
    assert_eq!(
        format_log_line("[{timestamp}]", &entry),
        "[1970-01-01T00:00:00Z]"
    );
    let hoop = LoggingHoop::with_files(
        RotatingLogWriter::open("a.log".to_string(), 0, None, None),
        RotatingLogWriter::open("e.log".to_string(), 0, None, None),
        None,
    );
    assert!(hoop.error_log_file.is_some());
    assert!(LoggingHoop::new().log_file.is_none());
}

#[test]
fn templates_are_pages_of_text() {
    let mut answer = page("text/html; charset=utf-8", "<p>{{path}}</p>");
    assert_eq!(template_of(&answer), Some("<p>{{path}}</p>".to_string()));
    assert_eq!(template_of(&page("text/plain", "{{path}}")), None);
    set_page(&mut answer, "<p>/</p>");
    assert_eq!(answer.body, b"<p>/</p>".to_vec());
    assert_eq!(answer.headers.text("content-length"), Some("8".to_string()));
    assert!(may_take_in(true, 10));
    assert!(!may_take_in(false, 10));
    assert!(!may_take_in(true, u64::MAX));
}

#[test]
fn what_is_not_kept_is_marked() {
    let mut headers = Headers::new();
    CacheHoop::bypass(&mut headers);
    assert_eq!(headers.text("x-cache"), Some("BYPASS".to_string()));
}

#[test]
fn an_allow_list_that_cannot_be_read_allows_nobody() {
    let hoop = IpFilterHoop::new(&vec!["not-a-cidr".to_string()], &vec![], false);
    let headers = Headers::new();
    assert_eq!(hoop.handle(&headers, &client("10.0.0.1")).unwrap().status, 403);
    let open = IpFilterHoop::new(&vec![], &vec!["not-a-cidr".to_string()], false);
    assert!(open.handle(&headers, &client("10.0.0.1")).is_none());
}

#[test]
fn a_line_with_many_placeholders_is_written() {
    let count = 10_050;
    let format: String = (0..count).map(|i| format!("{{header:{i}}}")).collect();
    let writer = RotatingLogWriter::open("access.log".to_string(), 0, None, None);
    let hoop = LoggingHoop::with_rotating_writer(writer, Some(format));
    let mut headers = Headers::new();
    headers.insert("7", b"seven}".to_vec());
    let line = hoop.line(
        &client("10.0.0.7"),
        "GET",
        &uri("/a"),
        &headers,
        None,
        &Headers::new(),
        Duration::from_millis(1),
        SystemTime { secs: 0, nanos: 0 },
    );
    assert_eq!(line, Some(format!("{}seven}}{}", "-".repeat(7), "-".repeat(count - 8))));
}

#[test]
fn a_line_that_never_settles_is_not_written() {
    let writer = RotatingLogWriter::open("access.log".to_string(), 0, None, None);
    let hoop = LoggingHoop::with_rotating_writer(writer, Some("{header:x}".to_string()));
    let mut headers = Headers::new();
    headers.insert("x", b"{header:x}".to_vec());
    let line = hoop.line(
        &client("10.0.0.7"),
        "GET",
        &uri("/a"),
        &headers,
        None,
        &Headers::new(),
        Duration::from_millis(1),
        SystemTime { secs: 0, nanos: 0 },
    );
    assert_eq!(line, None);
    // A value that names another field is filled in as well.
    headers.insert("x", b"<{header:y}>".to_vec());
    headers.insert("y", b"why".to_vec());
    let line = hoop.line(
        &client("10.0.0.7"),
        "GET",
        &uri("/a"),
        &headers,
        None,
        &Headers::new(),
        Duration::from_millis(1),
        SystemTime { secs: 0, nanos: 0 },
    );
    assert_eq!(line, Some("<why>".to_string()));
}
