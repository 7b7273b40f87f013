//! Encodings, dates, comparisons and other small things.

use gatel_core::cache_control::{build_vary_key, parse_cache_control};
use gatel_core::crypto::constant_time_eq;
use gatel_core::depot::Depot;
use gatel_core::encoding::{
    base64_decode, base64_decode_relaxed, html_escape, percent_decode, percent_encode,
};
use gatel_core::events::Event;
use gatel_core::http_date::{format_http_date, generate_etag, parse_http_date, parse_range};
use gatel_core::message::Headers;
use gatel_core::mime_guess::{format_size, mime_from_path};
use gatel_core::observability::{json_escape, LogfileBackend, StdlogBackend, StdlogOutput};
use gatel_core::hoops::logging::RotationStep;
use gatel_core::placeholder::expand_placeholders;
use gatel_core::runtime::info;
use gatel_core::runtime_services::registry;
use gatel_core::sd_notify::{notify_socket, NotifySocket};
use gatel_core::sorted_map::SortedMap;
use gatel_core::time::{Duration, SystemTime};

#[test]
fn parse_no_store() {
    let directives = parse_cache_control("no-store");
    assert!(directives.no_store);
    assert!(!directives.no_cache);
}

#[test]
fn parse_no_cache() {
    let directives = parse_cache_control("no-cache");
    assert!(directives.no_cache);
    assert!(!directives.no_store);
}

#[test]
fn parse_max_age() {
    let directives = parse_cache_control("max-age=3600");
    assert_eq!(directives.max_age, Some(Duration::from_secs(3600)));
    assert!(directives.s_maxage.is_none());
}

#[test]
fn build_vary_key_with_values() {
    let mut response_headers = Headers::new();
    response_headers.insert("vary", b"Accept-Encoding, Accept-Language".to_vec());
    let mut request_headers = Headers::new();
    request_headers.insert("accept-encoding", b"gzip".to_vec());
    request_headers.insert("accept-language", b"en-US".to_vec());
    let key = build_vary_key(&response_headers, &request_headers);
    assert!(key.contains("accept-encoding=gzip"));
    assert!(key.contains("accept-language=en-US"));
}

#[test]
fn equal_slices() {
    assert!(constant_time_eq(b"hello", b"hello"));
}

#[test]
fn different_content() {
    assert!(!constant_time_eq(b"hello", b"world"));
}

#[test]
fn different_length() {
    assert!(!constant_time_eq(b"hello", b"hello!"));
}

#[test]
fn insert_and_get_by_string_key() {
    let mut depot = Depot::new();
    depot.insert("name", "alice".to_string());
    assert_eq!(depot.get::<String>("name"), Some(&"alice".to_string()));
    assert!(depot.get::<u32>("name").is_none());
    assert!(depot.get::<String>("other").is_none());
}

#[test]
fn inject_and_obtain_by_type() {
    let mut depot = Depot::new();
    depot.inject(42u64);
    assert_eq!(depot.obtain::<u64>(), Some(&42));
    assert!(depot.obtain::<u32>().is_none());
}

#[test]
fn remove_returns_value() {
    let mut depot = Depot::new();
    depot.insert("x", 100u32);
    assert_eq!(depot.remove::<u32>("x"), Some(100));
    assert!(depot.get::<u32>("x").is_none());
}

#[test]
fn scrape_removes_typed_value() {
    let mut depot = Depot::new();
    depot.inject(String::from("hello"));
    assert_eq!(depot.scrape::<String>(), Some(String::from("hello")));
    assert!(depot.obtain::<String>().is_none());
}

#[test]
fn a_value_can_be_changed_in_place() {
    let mut depot = Depot::new();
    assert!(depot.is_empty());
    depot.insert("hits", 1u64);
    depot.insert("user", "bob".to_string());
    if let Some(n) = depot.get_mut::<u64>("hits") {
        *n = 2;
    }
    assert!(depot.get_mut::<u64>("user").is_none());
    assert_eq!(depot.get::<u64>("hits"), Some(&2));
    assert_eq!(depot.get::<String>("user"), Some(&"bob".to_string()));
    assert!(depot.contains_key("user"));
    assert!(!depot.contains_key("nobody"));
}

#[test]
fn percent_round_trip() {
    assert_eq!(percent_decode("%2F"), "/");
}

#[test]
fn percent_encoding_is_undone() {
    for s in ["", "a b/c", "100%", "%2F", "grüße", "\u{1F600}"] {
        assert_eq!(percent_decode(&percent_encode(s)), s);
    }
    assert_eq!(percent_encode("a b"), "a%20b");
    assert_eq!(percent_decode("100%"), "100%");
    assert_eq!(percent_decode("%zz"), "%zz");
    assert_eq!(percent_decode("%ff"), "%ff");
}

#[test]
fn base64_decoding() {
    assert_eq!(base64_decode("SGVsbG8="), Some(b"Hello".to_vec()));
}

#[test]
fn base64_rejects_trailing_data_after_padding() {
    assert_eq!(base64_decode("SGVsbG8=bad"), None);
}

#[test]
fn base64_rejects_invalid_padding_length() {
    assert_eq!(base64_decode("A="), None);
    assert_eq!(base64_decode("A==="), None);
}

#[test]
fn relaxed_base64_stops_at_padding() {
    assert_eq!(base64_decode_relaxed("SGVs\nbG8=bad"), Some(b"Hello".to_vec()));
    assert_eq!(base64_decode_relaxed("SGVs!"), None);
    assert_eq!(base64_decode_relaxed("  "), Some(Vec::new()));
}

#[test]
fn markup_is_made_harmless() {
    assert_eq!(html_escape("<a href=\"x\">&'</a>"), "&lt;a href=&quot;x&quot;&gt;&amp;&#39;&lt;/a&gt;");
}

#[test]
fn round_trip_http_date() {
    let time = SystemTime { secs: 784_111_777, nanos: 0 };
    let formatted = format_http_date(time);
    let parsed = parse_http_date(&formatted).unwrap();
    let diff = if time.secs > parsed.secs {
        time.secs - parsed.secs
    } else {
        parsed.secs - time.secs
    };
    assert!(diff <= 1);
}

#[test]
fn dates_are_written_as_http_wants_them() {
    let at = |secs: u64| format_http_date(SystemTime { secs, nanos: 0 });
    assert_eq!(at(784_111_777), "Sun, 06 Nov 1994 08:49:37 GMT");
    assert_eq!(at(0), "Thu, 01 Jan 1970 00:00:00 GMT");
    assert_eq!(at(951_782_400), "Tue, 29 Feb 2000 00:00:00 GMT");
    assert!(parse_http_date("yesterday").is_none());
    assert!(parse_http_date("Sun, 06 Nov 1969 08:49:37 GMT").is_none());
}

#[test]
fn tags_hold_time_and_size() {
    let modified = Some(SystemTime { secs: 255, nanos: 7 });
    assert_eq!(generate_etag(4096, modified), "\"ff-1000\"");
    assert_eq!(generate_etag(0, None), "\"0-0\"");
}

#[test]
fn parse_range_explicit() {
    assert_eq!(parse_range("bytes=0-499", 1000), Some((0, 499)));
}

#[test]
fn parse_range_suffix() {
    assert_eq!(parse_range("bytes=-200", 1000), Some((800, 999)));
}

#[test]
fn ranges_stay_within_the_file() {
    assert_eq!(parse_range("bytes=500-", 1000), Some((500, 999)));
    assert_eq!(parse_range("bytes=0-5000", 1000), Some((0, 999)));
    assert_eq!(parse_range("bytes=1000-", 1000), None);
    assert_eq!(parse_range("lines=0-1", 1000), None);
}

#[test]
fn json_escape_special_chars() {
    assert_eq!(json_escape("hello"), "\"hello\"");
    assert_eq!(json_escape("a\"b"), "\"a\\\"b\"");
    assert_eq!(json_escape("a\nb"), "\"a\\nb\"");
}

#[test]
fn control_characters_are_numbered() {
    assert_eq!(json_escape("a\u{1}b\u{7f}\u{85}"), "\"a\\u0001b\\u007f\\u0085\"");
    assert_eq!(json_escape("\\\t\r"), "\"\\\\\\t\\r\"");
}

#[test]
fn stdlog_json_format() {
    let backend = StdlogBackend::new(StdlogOutput::Stderr, true);
    assert_eq!(
        backend.write_entry("info", "test message with \"quotes\"", 12),
        "{\"timestamp\":\"12\",\"level\":\"info\",\"message\":\"test message with \\\"quotes\\\"\"}"
    );
    let plain = StdlogBackend::new(StdlogOutput::Stdout, false);
    assert_eq!(plain.write_entry("warn", "careful", 12), "[warn] careful");
}

#[test]
fn logfile_write_and_rotate() {
    let mut backend = LogfileBackend::new("test.log".to_string(), 50, 3, 0);
    let mut rotations = 0;
    for i in 0..10 {
        if backend.write_line(&format!("line {i} with some padding")) {
            rotations += 1;
            let steps = backend.rotate();
            assert_eq!(
                steps,
                vec![
                    RotationStep::Rename { from: 2, to: 3 },
                    RotationStep::Rename { from: 1, to: 2 },
                    RotationStep::Remove(3),
                    RotationStep::Rename { from: 0, to: 1 },
                ]
            );
            assert_eq!(backend.bytes_written, 0);
        }
    }
    assert_eq!(rotations, 5);
}

#[test]
fn basic_replacement() {
    let mut values = SortedMap::new();
    values.insert("name".to_string(), "Alice".to_string());
    let result = expand_placeholders("Hello {name}", &values);
    assert_eq!(result, "Hello Alice");
}

#[test]
fn unknown_placeholders_stay() {
    let values: SortedMap<String, String> = SortedMap::new();
    assert_eq!(expand_placeholders("Hello {name}", &values), "Hello {name}");
}

#[test]
fn events_are_put_into_words() {
    assert_eq!(Event::ConfigReloaded.message(), "config_reloaded");
    let event = Event::UpstreamHealthChanged {
        address: "10.0.0.1:80".to_string(),
        healthy: false,
    };
    assert_eq!(event.message(), "upstream_health: 10.0.0.1:80 healthy=false");
    let event = Event::Custom {
        name: "my_plugin".to_string(),
        data: "something happened".to_string(),
    };
    assert_eq!(event.message(), "custom:my_plugin: something happened");
    let event = Event::CertRenewalFailed {
        domain: "a".to_string(),
        error: "b".to_string(),
    };
    assert_eq!(event.message(), "cert_renewal_failed: a: b");
}

#[test]
fn abstract_sockets_begin_with_an_at_sign() {
    assert_eq!(notify_socket(b"@run"), NotifySocket::Abstract(b"run".to_vec()));
    assert_eq!(notify_socket(b"/run/x"), NotifySocket::Path(b"/run/x".to_vec()));
}

#[test]
fn tokio_runs_the_tasks() {
    let i = info();
    assert_eq!(i.name, "tokio");
    assert!(i.send_tasks);
    assert!(!i.io_uring);
}

#[test]
fn durations_of_the_runtime_state() {
    let read = |s: &str| registry::parse_duration(s);
    assert_eq!(read(" 2s "), Ok(Duration::from_secs(2)));
    assert_eq!(read("7"), Ok(Duration::from_secs(7)));
    assert_eq!(read("250ms"), Ok(Duration::from_millis(250)));
    assert_eq!(read("3m"), Ok(Duration::from_secs(180)));
    assert_eq!(read("1 h"), Ok(Duration::from_secs(3600)));
    assert_eq!(read("18446744073709551615h"), Ok(Duration::from_secs(u64::MAX)));
    assert_eq!(read(" "), Err("duration must not be empty".to_string()));
    assert_eq!(read("s"), Err("invalid duration value 's'".to_string()));
    assert_eq!(read("5d"), Err("unsupported duration suffix 'd'".to_string()));
}

#[test]
fn kinds_and_sizes_of_files() {
    assert_eq!(mime_from_path("/a/index.html"), "text/html; charset=utf-8");
    assert_eq!(mime_from_path("/a/unheard.of"), "application/octet-stream");
    assert_eq!(format_size(512), "512 B");
}

#[test]
fn values_of_two_types_stand_side_by_side() {
    let mut depot = Depot::new();
    depot.inject(1u64).inject(2u32).insert("a", true).insert("b", vec![1u8, 2]);
    assert_eq!(depot.obtain::<u64>(), Some(&1));
    assert_eq!(depot.obtain::<u32>(), Some(&2));
    assert_eq!(depot.obtain::<bool>(), None);
    depot.inject(3u64);
    assert_eq!(depot.scrape::<u64>(), Some(3));
    assert_eq!(depot.obtain::<u32>(), Some(&2));
    assert_eq!(depot.get::<bool>("a"), Some(&true));
    assert_eq!(depot.get::<Vec<u8>>("b"), Some(&vec![1u8, 2]));
}

#[test]
fn a_log_without_old_files_keeps_one() {
    let mut backend = LogfileBackend::new("test.log".to_string(), 10, 0, 0);
    assert!(backend.write_line("long enough"));
    assert_eq!(
        backend.rotate(),
        vec![RotationStep::Remove(0), RotationStep::Rename { from: 0, to: 1 }]
    );
}

#[test]
fn spans_keep_their_nanoseconds() {
    let d = Duration::new(1, 1_500_000_001);
    assert_eq!(d.as_secs(), 2);
    assert_eq!(d.as_nanos(), 2_500_000_001);
    assert_eq!(Duration::new(0, 1_999).as_micros(), 1);
}

#[test]
fn names_and_types_do_not_meet() {
    let mut depot = Depot::new();
    depot.inject(String::from("typed"));
    assert!(!depot.is_empty());
    for name in ["String", "__type_String", "u64"] {
        assert!(!depot.contains_key(name));
        assert_eq!(depot.get::<String>(name), None);
    }
    depot.insert("String", 1u64);
    assert_eq!(depot.obtain::<String>(), Some(&"typed".to_string()));
    assert_eq!(depot.get::<u64>("String"), Some(&1));
    assert_eq!(depot.scrape::<String>(), Some("typed".to_string()));
    assert!(depot.contains_key("String"));
    // A value of another type is gone all the same.
    assert_eq!(depot.remove::<u32>("String"), None);
    assert!(!depot.contains_key("String"));
    assert!(depot.is_empty());
    depot.insert("a", 1u64).insert("a", true);
    assert!(depot.contains_key("a"));
    depot.remove::<bool>("a");
    depot.insert("a", 2u32);
    assert_eq!(depot.get::<u32>("a"), Some(&2));
}
