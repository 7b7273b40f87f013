//! Reading the directives of a route that are not its handler.

use vstd::prelude::*;
use crate::config::document;
use crate::config::document::{text_or, Node, NodeView, ValueView};
use crate::config::error;
use crate::config::error::{invalid_value, missing_field, ConfigError, ConfigErrorView};
use crate::config::types::{
    BasicAuthUser, BasicAuthUserView, CacheConfig, CacheConfigView, HoopConfig, HoopConfigView,
    RouteCondition, RouteConditionView,
};
use crate::config::types;
use crate::config::values;
use crate::config::values::{parse_duration, read_duration_or};
use crate::data;
use crate::data::Data;
use crate::router::matcher;
use crate::router::matcher::{MatcherView, RequestMatcher};
use crate::sorted_map;
use crate::sorted_map::SortedMap;
use crate::text;
use crate::time::Duration;

verus! {

/// The outcome of reading something.
pub type Read<T> = Result<T, ConfigErrorView>;

/// The nodes of a block, or an empty list where there is no block.
pub fn nodes_or<'a>(n: &'a Node, none: &'a Vec<Node>) -> (r: &'a Vec<Node>)
    requires
        none@.len() == 0,
    ensures
        r.deep_view() == document::block(n.deep_view()),
{
    proof {
        document::lemma_children(*n);
    }
    match &n.children {
        Some(c) => c,
        None => {
            assert(none.deep_view() =~= seq![]);
            none
        },
    }
}

// ---------------------------------------------------------------------------
// Limits, encodings, authentication
// ---------------------------------------------------------------------------

/// What a `rate-limit` node says.
pub open spec fn rate_limit(n: NodeView) -> Read<HoopConfigView> {
    match values::duration_or(document::as_text(document::property(n, "window"@)), 60) {
        Ok(window) => Ok(
            HoopConfigView::RateLimit {
                window,
                max: match document::as_int(document::property(n, "max"@)) {
                    Some(v) => v as u64,
                    None => 100,
                },
                burst: match document::as_int(document::property(n, "burst"@)) {
                    Some(v) => Some(v as u64),
                    None => None,
                },
            },
        ),
        Err(e) => Err(e),
    }
}

/// Reads a `rate-limit` node.
pub fn parse_rate_limit(n: &Node) -> (r: Result<HoopConfig, ConfigError>)
    ensures
        data::outcome(r) == rate_limit(n.deep_view()),
{
    let window = match read_duration_or(n.text("window"), 60) {
        Ok(d) => d,
        Err(e) => return Err(e),
    };
    let max: u64 = match n.number("max") {
        Some(v) => v as u64,
        None => 100,
    };
    let burst: Option<u64> = match n.number("burst") {
        Some(v) => Some(v as u64),
        None => None,
    };
    Ok(HoopConfig::RateLimit { window, max, burst })
}

/// What an `encode` node says.
pub open spec fn encode(n: NodeView) -> Read<HoopConfigView> {
    let t = document::texts(n);
    Ok(
        HoopConfigView::Encode {
            encodings: if t.len() == 0 {
                seq!["gzip"@]
            } else {
                t
            },
            level: match document::as_int(document::property(n, "level"@)) {
                Some(v) => Some(v as u32),
                None => None,
            },
        },
    )
}

/// A list with one text.
pub fn single(s: &str) -> (r: Vec<String>)
    ensures
        r.deep_view() == seq![s@],
{
    let mut v: Vec<String> = Vec::new();
    v.push(s.to_owned());
    assert(v.deep_view() =~= seq![s@]);
    v
}

/// Reads an `encode` node.
pub fn parse_encode(n: &Node) -> (r: Result<HoopConfig, ConfigError>)
    ensures
        data::outcome(r) == encode(n.deep_view()),
{
    let encodings = n.texts();
    let level: Option<u32> = match n.number("level") {
        Some(v) => Some(v as u32),
        None => None,
    };
    if encodings.len() == 0 {
        return Ok(HoopConfig::Encode { encodings: single("gzip"), level });
    }
    Ok(HoopConfig::Encode { encodings, level })
}

/// What a `user` node says: a name and the hash of a password.
pub open spec fn user(n: NodeView, what: Seq<char>) -> Read<BasicAuthUserView> {
    match document::first_text(n) {
        Some(username) => Ok(
            BasicAuthUserView {
                username,
                password_hash: document::or(
                    document::as_text(document::property(n, "hash"@)),
                    ""@,
                ),
            },
        ),
        None => Err(error::missing(what)),
    }
}

/// Reads a `user` node.
pub fn parse_user(n: &Node, what: &str) -> (r: Result<BasicAuthUser, ConfigError>)
    ensures
        data::outcome(r) == user(n.deep_view(), what@),
{
    match n.first_text() {
        Some(username) => Ok(
            BasicAuthUser { username, password_hash: text_or(n.text("hash"), "") },
        ),
        None => Err(missing_field(what)),
    }
}

/// What the nodes of a `basic-auth` block say, from node `i` on.
pub open spec fn basic_auth_from(
    ns: Seq<NodeView>,
    i: int,
    users: Seq<BasicAuthUserView>,
    max: Option<u32>,
    window: Option<nat>,
) -> Read<HoopConfigView>
    decreases ns.len() - i,
{
    if i < 0 || i >= ns.len() {
        Ok(HoopConfigView::BasicAuth { users, brute_force_max: max, brute_force_window: window })
    } else if ns[i].name == "user"@ {
        match user(ns[i], "basic-auth username"@) {
            Ok(u) => basic_auth_from(ns, i + 1, users.push(u), max, window),
            Err(e) => Err(e),
        }
    } else if ns[i].name == "brute-force-max"@ {
        let max = match document::as_int(document::argument(ns[i])) {
            Some(v) => Some(v as u32),
            None => None,
        };
        basic_auth_from(ns, i + 1, users, max, window)
    } else if ns[i].name == "brute-force-window"@ {
        match document::first_text(ns[i]) {
            Some(s) => match values::duration(s) {
                Ok(d) => basic_auth_from(ns, i + 1, users, max, Some(d)),
                Err(e) => Err(e),
            },
            None => basic_auth_from(ns, i + 1, users, max, None),
        }
    } else {
        basic_auth_from(ns, i + 1, users, max, window)
    }
}

/// What a `basic-auth` node says.
pub open spec fn basic_auth(n: NodeView) -> Read<HoopConfigView> {
    basic_auth_from(document::block(n), 0, seq![], None, None)
}

/// Reads a `basic-auth` node.
pub fn parse_basic_auth(n: &Node) -> (r: Result<HoopConfig, ConfigError>)
    ensures
        data::outcome(r) == basic_auth(n.deep_view()),
{
    let mut users: Vec<BasicAuthUser> = Vec::new();
    let mut brute_force_max: Option<u32> = None;
    let mut brute_force_window: Option<Duration> = None;
    assert(users.deep_view() =~= seq![]);
    let none: Vec<Node> = Vec::new();
    let ns = nodes_or(n, &none);
    for i in 0..ns.len()
        invariant
            basic_auth(n.deep_view()) == basic_auth_from(
                ns.deep_view(),
                i as int,
                users.deep_view(),
                brute_force_max,
                brute_force_window.deep_view(),
            ),
    {
        assert(ns.deep_view()[i as int] == ns@[i as int].deep_view());
        let c = &ns[i];
        if c.is("user") {
            match parse_user(c, "basic-auth username") {
                Ok(u) => {
                    let ghost before = users.deep_view();
                    let ghost x = u.deep_view();
                    users.push(u);
                    assert(users.deep_view() =~= before.push(x));
                },
                Err(e) => return Err(e),
            }
        } else if c.is("brute-force-max") {
            brute_force_max = match c.first_int() {
                Some(v) => Some(v as u32),
                None => None,
            };
        } else if c.is("brute-force-window") {
            brute_force_window = match c.first_text() {
                Some(s) => match parse_duration(s.as_str()) {
                    Ok(d) => Some(d),
                    Err(e) => return Err(e),
                },
                None => None,
            };
        }
    }
    Ok(HoopConfig::BasicAuth { users, brute_force_max, brute_force_window })
}

/// What an `ip-filter` node says.
pub open spec fn ip_filter(n: NodeView) -> Read<HoopConfigView> {
    let ns = document::block(n);
    Ok(
        HoopConfigView::IpFilter {
            allow: document::all_texts(ns, "allow"@, 0),
            deny: document::all_texts(ns, "deny"@, 0),
            forwarded_for: document::as_bool(document::property(n, "forwarded-for"@)) == Some(true),
        },
    )
}

/// Reads an `ip-filter` node.
pub fn parse_ip_filter(n: &Node) -> (r: Result<HoopConfig, ConfigError>)
    ensures
        data::outcome(r) == ip_filter(n.deep_view()),
{
    let none: Vec<Node> = Vec::new();
    let ns = nodes_or(n, &none);
    Ok(
        HoopConfig::IpFilter {
            allow: document::texts_of(ns, "allow"),
            deny: document::texts_of(ns, "deny"),
            forwarded_for: n.bool_or("forwarded-for", false),
        },
    )
}

// ---------------------------------------------------------------------------
// Changes to requests and responses
// ---------------------------------------------------------------------------

/// What a `rewrite` node says.
pub open spec fn rewrite(n: NodeView) -> Read<HoopConfigView> {
    let ns = document::block(n);
    Ok(
        HoopConfigView::Rewrite {
            strip_prefix: document::last_text(ns, "strip-prefix"@),
            uri: document::last_text(ns, "uri"@),
            regex_rules: document::all_pairs(ns, "regex"@, 0),
            if_not_file: document::last_switch(ns, "if-not-file"@),
            if_not_dir: document::last_switch(ns, "if-not-dir"@),
            root: document::last_text(ns, "root"@),
            normalize_slashes: document::last_switch(ns, "normalize-slashes"@),
        },
    )
}

/// Reads a `rewrite` node.
pub fn parse_rewrite(n: &Node) -> (r: Result<HoopConfig, ConfigError>)
    ensures
        data::outcome(r) == rewrite(n.deep_view()),
{
    let none: Vec<Node> = Vec::new();
    let ns = nodes_or(n, &none);
    Ok(
        HoopConfig::Rewrite {
            strip_prefix: document::text_of(ns, "strip-prefix"),
            uri: document::text_of(ns, "uri"),
            regex_rules: document::pairs_of(ns, "regex"),
            if_not_file: document::switch_of(ns, "if-not-file"),
            if_not_dir: document::switch_of(ns, "if-not-dir"),
            root: document::text_of(ns, "root"),
            normalize_slashes: document::switch_of(ns, "normalize-slashes"),
        },
    )
}

/// What a `replace` node says.
pub open spec fn replace(n: NodeView) -> Read<HoopConfigView> {
    let ns = document::block(n);
    Ok(
        HoopConfigView::Replace {
            rules: document::all_pairs(ns, "rule"@, 0),
            once: document::last_switch(ns, "once"@),
        },
    )
}

/// Reads a `replace` node.
pub fn parse_replace(n: &Node) -> (r: Result<HoopConfig, ConfigError>)
    ensures
        data::outcome(r) == replace(n.deep_view()),
{
    let none: Vec<Node> = Vec::new();
    let ns = nodes_or(n, &none);
    Ok(
        HoopConfig::Replace {
            rules: document::pairs_of(ns, "rule"),
            once: document::switch_of(ns, "once"),
        },
    )
}

/// What a `stream-replace` node says.
pub open spec fn stream_replace(n: NodeView) -> Read<HoopConfigView> {
    let ns = document::block(n);
    Ok(
        HoopConfigView::StreamReplace {
            rules: document::all_pairs(ns, "rule"@, 0),
            once: document::last_switch(ns, "once"@),
        },
    )
}

/// Reads a `stream-replace` node.
pub fn parse_stream_replace(n: &Node) -> (r: Result<HoopConfig, ConfigError>)
    ensures
        data::outcome(r) == stream_replace(n.deep_view()),
{
    let none: Vec<Node> = Vec::new();
    let ns = nodes_or(n, &none);
    Ok(
        HoopConfig::StreamReplace {
            rules: document::pairs_of(ns, "rule"),
            once: document::switch_of(ns, "once"),
        },
    )
}

/// What a `cache` node says.
pub open spec fn cache(n: NodeView) -> Read<HoopConfigView> {
    let d = types::default_cache();
    let max_entries = match document::as_int(document::property(n, "max-entries"@)) {
        Some(v) => v as usize,
        None => d.max_entries,
    };
    let max_entry_size = match document::as_int(document::property(n, "max-entry-size"@)) {
        Some(v) => v as usize,
        None => d.max_entry_size,
    };
    match document::as_text(document::property(n, "max-age"@)) {
        Some(s) => match values::duration(s) {
            Ok(default_max_age) => Ok(
                HoopConfigView::Cache(
                    CacheConfigView { max_entries, max_entry_size, default_max_age },
                ),
            ),
            Err(e) => Err(e),
        },
        None => Ok(
            HoopConfigView::Cache(CacheConfigView { max_entries, max_entry_size, ..d }),
        ),
    }
}

/// Reads a `cache` node.
pub fn parse_cache(n: &Node) -> (r: Result<HoopConfig, ConfigError>)
    ensures
        data::outcome(r) == cache(n.deep_view()),
{
    let mut cfg = CacheConfig::default();
    if let Some(v) = n.number("max-entries") {
        cfg.max_entries = v as usize;
    }
    if let Some(v) = n.number("max-entry-size") {
        cfg.max_entry_size = v as usize;
    }
    if let Some(s) = n.text("max-age") {
        match parse_duration(s.as_str()) {
            Ok(d) => {
                cfg.default_max_age = d;
            },
            Err(e) => return Err(e),
        }
    }
    Ok(HoopConfig::Cache(cfg))
}

/// What a `forward-auth` node says.
pub open spec fn forward_auth(n: NodeView) -> Read<HoopConfigView> {
    match document::first_text(n) {
        Some(url) => Ok(
            HoopConfigView::ForwardAuth {
                url,
                copy_headers: document::all_texts(document::block(n), "copy-headers"@, 0),
            },
        ),
        None => Err(error::missing("forward-auth url"@)),
    }
}

/// Reads a `forward-auth` node.
pub fn parse_forward_auth(n: &Node) -> (r: Result<HoopConfig, ConfigError>)
    ensures
        data::outcome(r) == forward_auth(n.deep_view()),
{
    match n.first_text() {
        Some(url) => {
            let none: Vec<Node> = Vec::new();
            let ns = nodes_or(n, &none);
            Ok(
                HoopConfig::ForwardAuth {
                    url,
                    copy_headers: document::texts_of(ns, "copy-headers"),
                },
            )
        },
        None => Err(missing_field("forward-auth url")),
    }
}

/// What a `buffer-limit` node says.
pub open spec fn buffer_limit(n: NodeView) -> Read<HoopConfigView> {
    Ok(
        HoopConfigView::BufferLimit {
            max_request_body: match document::as_int(document::property(n, "max-request-body"@)) {
                Some(v) => Some(v as usize),
                None => None,
            },
            max_response_body: match document::as_int(
                document::property(n, "max-response-body"@),
            ) {
                Some(v) => Some(v as usize),
                None => None,
            },
        },
    )
}

/// Reads a `buffer-limit` node.
pub fn parse_buffer_limit(n: &Node) -> (r: Result<HoopConfig, ConfigError>)
    ensures
        data::outcome(r) == buffer_limit(n.deep_view()),
{
    let max_request_body: Option<usize> = match n.number("max-request-body") {
        Some(v) => Some(v as usize),
        None => None,
    };
    let max_response_body: Option<usize> = match n.number("max-response-body") {
        Some(v) => Some(v as usize),
        None => None,
    };
    Ok(HoopConfig::BufferLimit { max_request_body, max_response_body })
}

/// A list, or `*` where it is empty.
pub open spec fn or_any(t: Seq<Seq<char>>) -> Seq<Seq<char>> {
    if t.len() == 0 {
        seq!["*"@]
    } else {
        t
    }
}

/// A list, or `*` where it is empty.
fn list_or_any(t: Vec<String>) -> (r: Vec<String>)
    ensures
        r.deep_view() == or_any(t.deep_view()),
{
    if t.len() == 0 {
        single("*")
    } else {
        t
    }
}

/// What a `cors` node says; what is not said is allowed.
pub open spec fn cors(n: NodeView) -> Read<HoopConfigView> {
    let ns = document::block(n);
    Ok(
        HoopConfigView::Cors {
            allow_origins: or_any(document::all_texts(ns, "allow-origin"@, 0)),
            allow_methods: or_any(document::all_texts(ns, "allow-method"@, 0)),
            allow_headers: or_any(document::all_texts(ns, "allow-header"@, 0)),
            allow_credentials: document::last_switch(ns, "allow-credentials"@),
            expose_headers: document::all_texts(ns, "expose-header"@, 0),
            max_age: match document::last_int(ns, "max-age"@) {
                Some(v) => Some(v as u64),
                None => None,
            },
        },
    )
}

/// Reads a `cors` node.
pub fn parse_cors(n: &Node) -> (r: Result<HoopConfig, ConfigError>)
    ensures
        data::outcome(r) == cors(n.deep_view()),
{
    let none: Vec<Node> = Vec::new();
    let ns = nodes_or(n, &none);
    let max_age: Option<u64> = match document::int_of(ns, "max-age") {
        Some(v) => Some(v as u64),
        None => None,
    };
    Ok(
        HoopConfig::Cors {
            allow_origins: list_or_any(document::texts_of(ns, "allow-origin")),
            allow_methods: list_or_any(document::texts_of(ns, "allow-method")),
            allow_headers: list_or_any(document::texts_of(ns, "allow-header")),
            allow_credentials: document::switch_of(ns, "allow-credentials"),
            expose_headers: document::texts_of(ns, "expose-header"),
            max_age,
        },
    )
}

/// What a `timeout` node says.
pub open spec fn timeout(n: NodeView) -> Read<HoopConfigView> {
    match values::duration_or(document::first_text(n), 30) {
        Ok(duration) => Ok(HoopConfigView::Timeout { duration }),
        Err(e) => Err(e),
    }
}

/// Reads a `timeout` node.
pub fn parse_timeout(n: &Node) -> (r: Result<HoopConfig, ConfigError>)
    ensures
        data::outcome(r) == timeout(n.deep_view()),
{
    match read_duration_or(n.first_text(), 30) {
        Ok(duration) => Ok(HoopConfig::Timeout { duration }),
        Err(e) => Err(e),
    }
}

/// What a `request-id` node says.
pub open spec fn request_id(n: NodeView) -> Read<HoopConfigView> {
    Ok(
        HoopConfigView::RequestId {
            header_name: document::as_text(document::property(n, "header"@)),
            overwrite: document::as_bool(document::property(n, "overwrite"@)) != Some(false),
        },
    )
}

/// Reads a `request-id` node.
pub fn parse_request_id(n: &Node) -> (r: Result<HoopConfig, ConfigError>)
    ensures
        data::outcome(r) == request_id(n.deep_view()),
{
    Ok(
        HoopConfig::RequestId {
            header_name: n.text("header"),
            overwrite: n.bool_or("overwrite", true),
        },
    )
}

/// The port that a text stands for.
pub open spec fn port(s: Option<Seq<char>>) -> Option<u16> {
    match s {
        Some(t) => match text::number(t, u16::MAX as nat) {
            Some(p) => Some(p as u16),
            None => None,
        },
        None => None,
    }
}

/// What a `force-https` node says.
pub open spec fn force_https(n: NodeView) -> Read<HoopConfigView> {
    Ok(
        HoopConfigView::ForceHttps {
            https_port: match document::as_int(document::property(n, "port"@)) {
                Some(v) => Some(v as u16),
                None => port(document::first_text(n)),
            },
        },
    )
}

/// Reads a `force-https` node.
pub fn parse_force_https(n: &Node) -> (r: Result<HoopConfig, ConfigError>)
    ensures
        data::outcome(r) == force_https(n.deep_view()),
{
    let https_port: Option<u16> = match n.number("port") {
        Some(v) => Some(v as u16),
        None => match n.first_text() {
            Some(s) => match text::parse_number(s.as_str(), u16::MAX as u64) {
                Some(p) => Some(p as u16),
                None => None,
            },
            None => None,
        },
    };
    Ok(HoopConfig::ForceHttps { https_port })
}

/// What a `trailing-slash` node says.
pub open spec fn trailing_slash(n: NodeView) -> Read<HoopConfigView> {
    let action = document::or(document::first_text(n), "add"@);
    if action != "add"@ && action != "remove"@ {
        Err(
            error::invalid(
                "trailing-slash"@,
                "action must be 'add' or 'remove', got '"@ + action + "'"@,
            ),
        )
    } else {
        Ok(HoopConfigView::TrailingSlash { action })
    }
}

/// Reads a `trailing-slash` node.
pub fn parse_trailing_slash(n: &Node) -> (r: Result<HoopConfig, ConfigError>)
    ensures
        data::outcome(r) == trailing_slash(n.deep_view()),
{
    let action = text_or(n.first_text(), "add");
    if !text::same(action.as_str(), "add") && !text::same(action.as_str(), "remove") {
        return Err(
            invalid_value(
                "trailing-slash",
                text::join3("action must be 'add' or 'remove', got '", action.as_str(), "'"),
            ),
        );
    }
    Ok(HoopConfig::TrailingSlash { action })
}

/// The pages that the nodes from `i` on put under the status that they are named
/// after.
pub open spec fn pages_from(
    ns: Seq<NodeView>,
    i: int,
    pages: Seq<(u16, Seq<char>)>,
) -> Seq<(u16, Seq<char>)>
    decreases ns.len() - i,
{
    if i < 0 || i >= ns.len() {
        pages
    } else {
        match (port(Some(ns[i].name)), document::first_text(ns[i])) {
            (Some(code), Some(body)) => pages_from(
                ns,
                i + 1,
                sorted_map::put::<u16, Seq<char>>(pages, code, body),
            ),
            _ => pages_from(ns, i + 1, pages),
        }
    }
}

/// What an `error-pages` node says.
pub open spec fn error_pages(n: NodeView) -> Read<HoopConfigView> {
    Ok(HoopConfigView::ErrorPages { pages: pages_from(document::block(n), 0, seq![]) })
}

/// Reads an `error-pages` node.
pub fn parse_error_pages(n: &Node) -> (r: Result<HoopConfig, ConfigError>)
    ensures
        data::outcome(r) == error_pages(n.deep_view()),
{
    let none: Vec<Node> = Vec::new();
    let ns = nodes_or(n, &none);
    let mut pages: SortedMap<u16, String> = SortedMap::new();
    assert(pages.deep_view() =~= seq![]);
    let ghost all = ns.deep_view();
    for i in 0..ns.len()
        invariant
            all == ns.deep_view(),
            pages_from(all, i as int, pages.deep_view()) == pages_from(all, 0, seq![]),
    {
        assert(all[i as int] == ns@[i as int].deep_view());
        if let Some(code) = text::parse_number(ns[i].name.as_str(), u16::MAX as u64) {
            if let Some(body) = ns[i].first_text() {
                pages.insert(code as u16, body);
            }
        }
    }
    Ok(HoopConfig::ErrorPages { pages })
}

/// What a `decompress` node says.
pub open spec fn decompress(n: NodeView) -> Read<HoopConfigView> {
    Ok(
        HoopConfigView::Decompress {
            max_size: match document::as_int(document::property(n, "max-size"@)) {
                Some(v) => Some(v as usize),
                None => None,
            },
        },
    )
}

/// Reads a `decompress` node.
pub fn parse_decompress(n: &Node) -> (r: Result<HoopConfig, ConfigError>)
    ensures
        data::outcome(r) == decompress(n.deep_view()),
{
    let max_size: Option<usize> = match n.number("max-size") {
        Some(v) => Some(v as usize),
        None => None,
    };
    Ok(HoopConfig::Decompress { max_size })
}

/// What a `templates` node says.
pub open spec fn templates(n: NodeView) -> Read<HoopConfigView> {
    Ok(
        HoopConfigView::Templates {
            root: match document::first_text(n) {
                Some(s) => Some(s),
                None => document::as_text(document::property(n, "root"@)),
            },
        },
    )
}

/// Reads a `templates` node.
pub fn parse_templates(n: &Node) -> (r: Result<HoopConfig, ConfigError>)
    ensures
        data::outcome(r) == templates(n.deep_view()),
{
    let root = match n.first_text() {
        Some(s) => Some(s),
        None => n.text("root"),
    };
    Ok(HoopConfig::Templates { root })
}

// ---------------------------------------------------------------------------
// Matchers and conditions
// ---------------------------------------------------------------------------

/// The matcher that a `match` node stands for.
///
/// - `match method="GET"`
/// - `match path="/api/*"`
/// - `match header="X-Custom" pattern="foo*"`
/// - `match query="key" value="val"`
/// - `match remote-ip="192.168.0.0/16"`
/// - `match protocol="https"`
/// - `match expression="{method} == GET && {path} ~ /api/*"`
/// - `match language="de,en"`
/// - `match "not" { ... }`, with another matcher between the braces
pub open spec fn match_node(n: NodeView) -> Read<MatcherView>
    decreases n,
{
    if let Some(s) = document::as_text(document::property(n, "method"@)) {
        Ok(MatcherView::Method(text::listed(s)))
    } else if let Some(s) = document::as_text(document::property(n, "path"@)) {
        Ok(MatcherView::Path(s))
    } else if let Some(name) = document::as_text(document::property(n, "header"@)) {
        let pattern = document::or(document::as_text(document::property(n, "pattern"@)), "*"@);
        Ok(MatcherView::Header { name, pattern })
    } else if let Some(key) = document::as_text(document::property(n, "query"@)) {
        Ok(
            MatcherView::Query {
                key,
                value: document::as_text(document::property(n, "value"@)),
            },
        )
    } else if let Some(s) = document::as_text(document::property(n, "remote-ip"@)) {
        Ok(MatcherView::RemoteIp(text::listed(s)))
    } else if let Some(s) = document::as_text(document::property(n, "protocol"@)) {
        Ok(MatcherView::Protocol(s))
    } else if let Some(s) = document::as_text(document::property(n, "expression"@)) {
        Ok(MatcherView::Expression(s))
    } else if let Some(s) = document::as_text(document::property(n, "language"@)) {
        Ok(MatcherView::Language(text::listed(s)))
    } else {
        let kind = document::or(document::first_text(n), ""@);
        if kind == "not"@ && n.children is Some && n.children->0.len() > 0 {
            match match_node(n.children->0[0]) {
                Ok(inner) => Ok(MatcherView::Not(Box::new(inner))),
                Err(e) => Err(e),
            }
        } else if kind.len() > 0 {
            Ok(MatcherView::Path(kind))
        } else {
            Err(error::invalid("match"@, "unrecognized matcher format"@))
        }
    }
}

/// Reads a `match` node.
pub fn parse_matcher(n: &Node) -> (r: Result<RequestMatcher, ConfigError>)
    ensures
        data::outcome(r) == match_node(n.deep_view()),
    decreases n,
{
    proof {
        document::lemma_children(*n);
    }
    if let Some(s) = n.text("method") {
        return Ok(RequestMatcher::Method(text::comma_list(s.as_str())));
    }
    if let Some(s) = n.text("path") {
        return Ok(RequestMatcher::Path(s));
    }
    if let Some(name) = n.text("header") {
        return Ok(RequestMatcher::Header { name, pattern: text_or(n.text("pattern"), "*") });
    }
    if let Some(key) = n.text("query") {
        return Ok(RequestMatcher::Query { key, value: n.text("value") });
    }
    if let Some(s) = n.text("remote-ip") {
        return Ok(RequestMatcher::RemoteIp(text::comma_list(s.as_str())));
    }
    if let Some(s) = n.text("protocol") {
        return Ok(RequestMatcher::Protocol(s));
    }
    if let Some(s) = n.text("expression") {
        return Ok(RequestMatcher::Expression(s));
    }
    if let Some(s) = n.text("language") {
        return Ok(RequestMatcher::Language(text::comma_list(s.as_str())));
    }
    let kind = text_or(n.first_text(), "");
    if text::same(kind.as_str(), "not") {
        if let Some(c) = &n.children {
            if c.len() > 0 {
                assert(c.deep_view()[0] == c@[0].deep_view());
                return match parse_matcher(&c[0]) {
                    Ok(inner) => Ok(RequestMatcher::Not(Box::new(inner))),
                    Err(e) => Err(e),
                };
            }
        }
    }
    if !kind.as_str().is_empty() {
        return Ok(RequestMatcher::Path(kind));
    }
    Err(invalid_value("match", "unrecognized matcher format".to_owned()))
}

/// The condition that an `if` or `if-not` node stands for.
///
/// - `if remote-ip="10.0.0.0/8"`
/// - `if header="X-Internal" value="yes"`
pub open spec fn condition(n: NodeView, negate: bool) -> Read<RouteConditionView> {
    if let Some(s) = document::as_text(document::property(n, "remote-ip"@)) {
        Ok(
            if negate {
                RouteConditionView::NotRemoteIp(text::listed(s))
            } else {
                RouteConditionView::RemoteIp(text::listed(s))
            },
        )
    } else if let Some(name) = document::as_text(document::property(n, "header"@)) {
        let value = document::or(document::as_text(document::property(n, "value"@)), ""@);
        Ok(
            if negate {
                RouteConditionView::NotHeader { name, value }
            } else {
                RouteConditionView::Header { name, value }
            },
        )
    } else {
        Err(
            error::invalid(
                if negate {
                    "if-not"@
                } else {
                    "if"@
                },
                "expected remote-ip or header attribute"@,
            ),
        )
    }
}

/// Reads an `if` or `if-not` node.
pub fn parse_route_condition(n: &Node, negate: bool) -> (r: Result<RouteCondition, ConfigError>)
    ensures
        data::outcome(r) == condition(n.deep_view(), negate),
{
    if let Some(s) = n.text("remote-ip") {
        let cidrs = text::comma_list(s.as_str());
        return Ok(
            if negate {
                RouteCondition::NotRemoteIp(cidrs)
            } else {
                RouteCondition::RemoteIp(cidrs)
            },
        );
    }
    if let Some(name) = n.text("header") {
        let value = text_or(n.text("value"), "");
        return Ok(
            if negate {
                RouteCondition::NotHeader { name, value }
            } else {
                RouteCondition::Header { name, value }
            },
        );
    }
    let detail = "expected remote-ip or header attribute".to_owned();
    Err(
        if negate {
            invalid_value("if-not", detail)
        } else {
            invalid_value("if", detail)
        },
    )
}

/// A matcher is of the kind that its property names, and a text alone is a path.
pub proof fn lemma_matcher_read(n: NodeView, s: Seq<char>)
    ensures
        document::as_text(document::property(n, "method"@)) == Some(s) ==> match_node(n) == Ok::<
            MatcherView,
            ConfigErrorView,
        >(MatcherView::Method(text::listed(s))),
        ({
            let none = |k: Seq<char>| document::as_text(document::property(n, k)) is None;
            let plain = none("method"@) && none("path"@) && none("header"@) && none("query"@)
                && none("remote-ip"@) && none("protocol"@) && none("expression"@) && none(
                "language"@,
            );
            &&& none("method"@) && document::as_text(document::property(n, "path"@)) == Some(s)
                ==> match_node(n) == Ok::<MatcherView, ConfigErrorView>(MatcherView::Path(s))
            &&& none("method"@) && none("path"@) && none("header"@) && document::as_text(
                document::property(n, "query"@),
            ) == Some(s) ==> match_node(n) == Ok::<MatcherView, ConfigErrorView>(
                MatcherView::Query {
                    key: s,
                    value: document::as_text(document::property(n, "value"@)),
                },
            )
            &&& none("method"@) && none("path"@) && none("header"@) && none("query"@)
                && document::as_text(document::property(n, "remote-ip"@)) == Some(s) ==> match_node(
                n,
            ) == Ok::<MatcherView, ConfigErrorView>(MatcherView::RemoteIp(text::listed(s)))
            &&& plain && s.len() > 0 && s != "not"@ && document::first_text(n) == Some(s)
                ==> match_node(n) == Ok::<MatcherView, ConfigErrorView>(MatcherView::Path(s))
            &&& plain && document::first_text(n) is None ==> match_node(n) is Err
            &&& plain && document::first_text(n) == Some("not"@) && (n.children matches Some(c)
                && c.len() > 0) ==> (match match_node(n.children->0[0]) {
                Ok(m) => match_node(n) == Ok::<MatcherView, ConfigErrorView>(
                    MatcherView::Not(Box::new(m)),
                ),
                Err(e) => match_node(n) is Err,
            })
        }),
{
    reveal_strlit("");
    reveal_strlit("not");
    assert(""@.len() == 0 && "not"@.len() == 3);
}

/// A condition and its negation are read from the same properties, and are about the same.
pub proof fn lemma_condition_read(n: NodeView, s: Seq<char>, name: Seq<char>)
    ensures
        document::as_text(document::property(n, "remote-ip"@)) == Some(s) ==> condition(n, false)
            == Ok::<RouteConditionView, ConfigErrorView>(
            RouteConditionView::RemoteIp(text::listed(s)),
        ) && condition(n, true) == Ok::<RouteConditionView, ConfigErrorView>(
            RouteConditionView::NotRemoteIp(text::listed(s)),
        ),
        document::as_text(document::property(n, "remote-ip"@)) is None && document::as_text(
            document::property(n, "header"@),
        ) == Some(name) && document::as_text(document::property(n, "value"@)) == Some(s)
            ==> condition(n, false) == Ok::<RouteConditionView, ConfigErrorView>(
            RouteConditionView::Header { name, value: s },
        ) && condition(n, true) == Ok::<RouteConditionView, ConfigErrorView>(
            RouteConditionView::NotHeader { name, value: s },
        ),
        document::as_text(document::property(n, "remote-ip"@)) is None && document::as_text(
            document::property(n, "header"@),
        ) is None ==> condition(n, false) is Err && condition(n, true) is Err,
{
}

/// A limit is 100 requests in a minute where nothing else is said.
pub proof fn lemma_rate_limit_read(n: NodeView, max: u64, burst: u64)
    ensures
        n.entries.len() == 0 ==> rate_limit(n) == Ok::<HoopConfigView, ConfigErrorView>(
            HoopConfigView::RateLimit { window: 60_000_000_000, max: 100, burst: None },
        ),
        document::property(n, "window"@) is None && document::property(n, "max"@) == Some(
            ValueView::Integer(max as i128),
        ) && document::property(n, "burst"@) == Some(ValueView::Integer(burst as i128))
            ==> rate_limit(n) == Ok::<HoopConfigView, ConfigErrorView>(
            HoopConfigView::RateLimit { window: 60_000_000_000, max, burst: Some(burst) },
        ),
{
}

/// The users of a block are those that its nodes name, in their order.
pub proof fn lemma_users_in_order(
    ns: Seq<NodeView>,
    i: int,
    users: Seq<BasicAuthUserView>,
    max: Option<u32>,
    window: Option<nat>,
)
    requires
        0 <= i <= ns.len(),
        forall|k: int|
            0 <= k < ns.len() ==> (#[trigger] ns[k]).name == "user"@ && user(
                ns[k],
                "basic-auth username"@,
            ) is Ok,
    ensures
        basic_auth_from(ns, i, users, max, window) == Ok::<HoopConfigView, ConfigErrorView>(
            HoopConfigView::BasicAuth {
                users: users + Seq::new(
                    (ns.len() - i) as nat,
                    |k: int| user(ns[i + k], "basic-auth username"@)->Ok_0,
                ),
                brute_force_max: max,
                brute_force_window: window,
            },
        ),
    decreases ns.len() - i,
{
    let what = "basic-auth username"@;
    let own = Seq::new((ns.len() - i) as nat, |k: int| user(ns[i + k], what)->Ok_0);
    if i < ns.len() {
        assert(ns[i].name == "user"@ && user(ns[i], what) is Ok);
        let u = user(ns[i], what)->Ok_0;
        lemma_users_in_order(ns, i + 1, users.push(u), max, window);
        let rest = Seq::new((ns.len() - (i + 1)) as nat, |k: int| user(ns[i + 1 + k], what)->Ok_0);
        assert(users.push(u) + rest =~= users + own);
    } else {
        assert(users + own =~= users);
    }
}

} // verus!
