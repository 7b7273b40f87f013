//! Reading the handler of a route.

use vstd::prelude::*;
use crate::config::document;
use crate::config::document::{text_or, Node, NodeView, Value, ValueView};
use crate::config::error;
use crate::config::error::{invalid_value, missing_field, ConfigError, ConfigErrorView};
use crate::config::parse_hoop;
use crate::config::parse_hoop::{nodes_or, parse_user, Read};
use crate::config::types::{
    BasicAuthUser, BasicAuthUserView, CgiConfig, CgiConfigView, DnsUpstreamConfig,
    DnsUpstreamConfigView, FastCgiConfig, FastCgiConfigView, FileServerConfig,
    FileServerConfigView, ForwardProxyConfig, ForwardProxyConfigView, HandlerConfig,
    HandlerConfigView, HealthCheckConfig, HealthCheckConfigView, LbPolicy, PassiveHealthConfig,
    PassiveHealthConfigView, ProxyConfig, ProxyConfigView, ScgiConfig, ScgiConfigView,
    SrvUpstreamConfig, SrvUpstreamConfigView, UpstreamConfig, UpstreamConfigView,
};
use crate::config::values;
use crate::config::values::{parse_duration, read_duration_or};
use crate::data;
use crate::sorted_map;
use crate::sorted_map::SortedMap;
use crate::text;

verus! {

// ---------------------------------------------------------------------------
// Proxy
// ---------------------------------------------------------------------------

/// A number that a property gives, cut to 32 bits, or the other number.
pub open spec fn u32_or(n: NodeView, key: Seq<char>, other: u32) -> u32 {
    match document::as_int(document::property(n, key)) {
        Some(v) => v as u32,
        None => other,
    }
}

/// A number that a property gives, cut to 32 bits, or the other number.
fn read_u32_or(n: &Node, key: &str, other: u32) -> (r: u32)
    ensures
        r == u32_or(n.deep_view(), key@, other),
{
    match n.number(key) {
        Some(v) => v as u32,
        None => other,
    }
}

/// The span that a text property gives, or so many seconds.
pub open spec fn span_or(n: NodeView, key: Seq<char>, secs: nat) -> Read<nat> {
    values::duration_or(document::as_text(document::property(n, key)), secs)
}

/// The strategy of a name.
pub open spec fn lb_policy(s: Seq<char>) -> Option<LbPolicy> {
    if s == "round_robin"@ {
        Some(LbPolicy::RoundRobin)
    } else if s == "random"@ {
        Some(LbPolicy::Random)
    } else if s == "weighted_round_robin"@ {
        Some(LbPolicy::WeightedRoundRobin)
    } else if s == "ip_hash"@ {
        Some(LbPolicy::IpHash)
    } else if s == "least_conn"@ {
        Some(LbPolicy::LeastConn)
    } else if s == "uri_hash"@ {
        Some(LbPolicy::UriHash)
    } else if s == "header_hash"@ {
        Some(LbPolicy::HeaderHash)
    } else if s == "cookie_hash"@ {
        Some(LbPolicy::CookieHash)
    } else if s == "first"@ {
        Some(LbPolicy::First)
    } else if s == "two_random_choices"@ {
        Some(LbPolicy::TwoRandomChoices)
    } else {
        None
    }
}

/// The strategy of a name.
fn parse_lb_policy(s: &str) -> (r: Option<LbPolicy>)
    ensures
        r == lb_policy(s@),
{
    if text::same(s, "round_robin") {
        Some(LbPolicy::RoundRobin)
    } else if text::same(s, "random") {
        Some(LbPolicy::Random)
    } else if text::same(s, "weighted_round_robin") {
        Some(LbPolicy::WeightedRoundRobin)
    } else if text::same(s, "ip_hash") {
        Some(LbPolicy::IpHash)
    } else if text::same(s, "least_conn") {
        Some(LbPolicy::LeastConn)
    } else if text::same(s, "uri_hash") {
        Some(LbPolicy::UriHash)
    } else if text::same(s, "header_hash") {
        Some(LbPolicy::HeaderHash)
    } else if text::same(s, "cookie_hash") {
        Some(LbPolicy::CookieHash)
    } else if text::same(s, "first") {
        Some(LbPolicy::First)
    } else if text::same(s, "two_random_choices") {
        Some(LbPolicy::TwoRandomChoices)
    } else {
        None
    }
}

/// What an `upstream` node says.
pub open spec fn upstream(n: NodeView) -> Read<UpstreamConfigView> {
    match document::first_text(n) {
        Some(addr) => Ok(
            UpstreamConfigView { addr, weight: u32_or(n, "weight"@, 1), activity_key: None },
        ),
        None => Err(error::missing("upstream address"@)),
    }
}

/// Reads an `upstream` node.
fn parse_upstream(n: &Node) -> (r: Result<UpstreamConfig, ConfigError>)
    ensures
        data::outcome(r) == upstream(n.deep_view()),
{
    match n.first_text() {
        Some(addr) => Ok(
            UpstreamConfig { addr, weight: read_u32_or(n, "weight", 1), activity_key: None },
        ),
        None => Err(missing_field("upstream address")),
    }
}

/// What a `health-check` node says.
pub open spec fn health_check(n: NodeView) -> Read<HealthCheckConfigView> {
    match (span_or(n, "interval"@, 10), span_or(n, "timeout"@, 5)) {
        (Err(e), _) => Err(e),
        (Ok(_), Err(e)) => Err(e),
        (Ok(interval), Ok(timeout)) => Ok(
            HealthCheckConfigView {
                uri: document::or(document::as_text(document::property(n, "uri"@)), "/health"@),
                interval,
                timeout,
                unhealthy_threshold: u32_or(n, "unhealthy-threshold"@, 3),
                healthy_threshold: u32_or(n, "healthy-threshold"@, 2),
            },
        ),
    }
}

/// Reads a `health-check` node.
fn parse_health_check(n: &Node) -> (r: Result<HealthCheckConfig, ConfigError>)
    ensures
        data::outcome(r) == health_check(n.deep_view()),
{
    let uri = text_or(n.text("uri"), "/health");
    let interval = match read_duration_or(n.text("interval"), 10) {
        Ok(d) => d,
        Err(e) => return Err(e),
    };
    let timeout = match read_duration_or(n.text("timeout"), 5) {
        Ok(d) => d,
        Err(e) => return Err(e),
    };
    Ok(
        HealthCheckConfig {
            uri,
            interval,
            timeout,
            unhealthy_threshold: read_u32_or(n, "unhealthy-threshold", 3),
            healthy_threshold: read_u32_or(n, "healthy-threshold", 2),
        },
    )
}

/// What a `passive-health` node says.
pub open spec fn passive_health(n: NodeView) -> Read<PassiveHealthConfigView> {
    match (span_or(n, "fail-window"@, 30), span_or(n, "cooldown"@, 60)) {
        (Err(e), _) => Err(e),
        (Ok(_), Err(e)) => Err(e),
        (Ok(fail_window), Ok(cooldown)) => Ok(
            PassiveHealthConfigView {
                max_fails: u32_or(n, "max-fails"@, 5),
                fail_window,
                cooldown,
            },
        ),
    }
}

/// Reads a `passive-health` node.
fn parse_passive_health(n: &Node) -> (r: Result<PassiveHealthConfig, ConfigError>)
    ensures
        data::outcome(r) == passive_health(n.deep_view()),
{
    let max_fails = read_u32_or(n, "max-fails", 5);
    let fail_window = match read_duration_or(n.text("fail-window"), 30) {
        Ok(d) => d,
        Err(e) => return Err(e),
    };
    let cooldown = match read_duration_or(n.text("cooldown"), 60) {
        Ok(d) => d,
        Err(e) => return Err(e),
    };
    Ok(PassiveHealthConfig { max_fails, fail_window, cooldown })
}

/// The number of retries that a `retries` node gives, as a number or as a text.
pub open spec fn retries(n: NodeView) -> u32 {
    match document::argument(n) {
        Some(ValueView::Text(s)) => match text::number(s, u32::MAX as nat) {
            Some(k) => k as u32,
            None => 0,
        },
        Some(ValueView::Integer(i)) => if 0 <= i <= u32::MAX {
            i as u32
        } else {
            0
        },
        _ => 0,
    }
}

/// Reads a `retries` node.
fn parse_retries(n: &Node) -> (r: u32)
    ensures
        r == retries(n.deep_view()),
{
    match n.argument() {
        Some(Value::Text(s)) => match text::parse_number(s.as_str(), u32::MAX as u64) {
            Some(k) => k as u32,
            None => 0,
        },
        Some(Value::Integer(i)) => {
            if 0 <= *i && *i <= u32::MAX as i128 {
                *i as u32
            } else {
                0
            }
        },
        _ => 0,
    }
}

/// The name that a node gives as a property or as an argument.
pub open spec fn named(n: NodeView) -> Option<Seq<char>> {
    match document::as_text(document::property(n, "name"@)) {
        Some(s) => Some(s),
        None => document::first_text(n),
    }
}

/// The name that a node gives as a property or as an argument.
fn name_of(n: &Node) -> (r: Option<String>)
    ensures
        r.deep_view() == named(n.deep_view()),
{
    match n.text("name") {
        Some(s) => Some(s),
        None => n.first_text(),
    }
}

/// What a `dns-upstream` node says.
pub open spec fn dns_upstream(n: NodeView) -> Read<DnsUpstreamConfigView> {
    match named(n) {
        None => Err(error::missing("dns-upstream name"@)),
        Some(dns_name) => match span_or(n, "refresh"@, 30) {
            Err(e) => Err(e),
            Ok(refresh_interval) => Ok(
                DnsUpstreamConfigView {
                    dns_name,
                    port: match document::as_int(document::property(n, "port"@)) {
                        Some(v) => v as u16,
                        None => 80,
                    },
                    refresh_interval,
                },
            ),
        },
    }
}

/// Reads a `dns-upstream` node.
fn parse_dns_upstream(n: &Node) -> (r: Result<DnsUpstreamConfig, ConfigError>)
    ensures
        data::outcome(r) == dns_upstream(n.deep_view()),
{
    let dns_name = match name_of(n) {
        Some(s) => s,
        None => return Err(missing_field("dns-upstream name")),
    };
    let port: u16 = match n.number("port") {
        Some(v) => v as u16,
        None => 80,
    };
    match read_duration_or(n.text("refresh"), 30) {
        Ok(refresh_interval) => Ok(DnsUpstreamConfig { dns_name, port, refresh_interval }),
        Err(e) => Err(e),
    }
}

/// What an `srv-upstream` node says.
pub open spec fn srv_upstream(n: NodeView) -> Read<SrvUpstreamConfigView> {
    match named(n) {
        None => Err(error::missing("srv-upstream name"@)),
        Some(service_name) => match span_or(n, "refresh"@, 30) {
            Err(e) => Err(e),
            Ok(refresh_interval) => Ok(SrvUpstreamConfigView { service_name, refresh_interval }),
        },
    }
}

/// Reads an `srv-upstream` node.
fn parse_srv_upstream(n: &Node) -> (r: Result<SrvUpstreamConfig, ConfigError>)
    ensures
        data::outcome(r) == srv_upstream(n.deep_view()),
{
    let service_name = match name_of(n) {
        Some(s) => s,
        None => return Err(missing_field("srv-upstream name")),
    };
    match read_duration_or(n.text("refresh"), 30) {
        Ok(refresh_interval) => Ok(SrvUpstreamConfig { service_name, refresh_interval }),
        Err(e) => Err(e),
    }
}

/// A proxy to the upstreams for which nothing else is said.
pub open spec fn plain_proxy(upstreams: Seq<UpstreamConfigView>) -> ProxyConfigView {
    ProxyConfigView {
        upstreams,
        lb: LbPolicy::RoundRobin,
        lb_header: None,
        lb_cookie: None,
        health_check: None,
        passive_health: None,
        headers_up: seq![],
        headers_down: seq![],
        retries: 0,
        dynamic_upstreams: None,
        error_pages: seq![],
        headers_up_replace: seq![],
        tls_skip_verify: false,
        upstream_http2: false,
        max_connections: None,
        keepalive_timeout: None,
        sanitize_uri: true,
        srv_upstream: None,
    }
}

/// A proxy to the upstreams for which nothing else is said.
pub fn new_proxy(upstreams: Vec<UpstreamConfig>) -> (p: ProxyConfig)
    ensures
        p.deep_view() == plain_proxy(upstreams.deep_view()),
{
    let p = ProxyConfig {
        upstreams,
        lb: LbPolicy::RoundRobin,
        lb_header: None,
        lb_cookie: None,
        health_check: None,
        passive_health: None,
        headers_up: SortedMap::new(),
        headers_down: SortedMap::new(),
        retries: 0,
        dynamic_upstreams: None,
        error_pages: SortedMap::new(),
        headers_up_replace: Vec::new(),
        tls_skip_verify: false,
        upstream_http2: false,
        max_connections: None,
        keepalive_timeout: None,
        sanitize_uri: true,
        srv_upstream: None,
    };
    assert(p.deep_view() =~= plain_proxy(upstreams.deep_view()));
    p
}

/// A proxy as one node of its block changes it.
pub open spec fn proxy_step(p: ProxyConfigView, n: NodeView) -> Read<ProxyConfigView> {
    if n.name == "upstream"@ {
        match upstream(n) {
            Ok(u) => Ok(ProxyConfigView { upstreams: p.upstreams.push(u), ..p }),
            Err(e) => Err(e),
        }
    } else if n.name == "lb"@ {
        let policy = document::or(document::first_text(n), ""@);
        match lb_policy(policy) {
            Some(lb) => Ok(
                ProxyConfigView {
                    lb,
                    lb_header: match document::as_text(document::property(n, "header"@)) {
                        Some(h) => Some(h),
                        None => p.lb_header,
                    },
                    lb_cookie: match document::as_text(document::property(n, "cookie"@)) {
                        Some(c) => Some(c),
                        None => p.lb_cookie,
                    },
                    ..p
                },
            ),
            None => Err(error::invalid("lb"@, "unknown policy: "@ + policy)),
        }
    } else if n.name == "health-check"@ {
        match health_check(n) {
            Ok(h) => Ok(ProxyConfigView { health_check: Some(h), ..p }),
            Err(e) => Err(e),
        }
    } else if n.name == "passive-health"@ {
        match passive_health(n) {
            Ok(h) => Ok(ProxyConfigView { passive_health: Some(h), ..p }),
            Err(e) => Err(e),
        }
    } else if n.name == "retries"@ {
        Ok(ProxyConfigView { retries: retries(n), ..p })
    } else if n.name == "header-up"@ {
        Ok(
            ProxyConfigView {
                headers_up: values::header_rule(p.headers_up, document::texts(n)),
                ..p
            },
        )
    } else if n.name == "header-down"@ {
        Ok(
            ProxyConfigView {
                headers_down: values::header_rule(p.headers_down, document::texts(n)),
                ..p
            },
        )
    } else if n.name == "dns-upstream"@ {
        match dns_upstream(n) {
            Ok(d) => Ok(ProxyConfigView { dynamic_upstreams: Some(d), ..p }),
            Err(e) => Err(e),
        }
    } else if n.name == "error-page"@ {
        match (
            document::as_int(document::argument(n)),
            document::as_text(document::second_argument(n)),
        ) {
            (Some(code), Some(body)) => Ok(
                ProxyConfigView {
                    error_pages: sorted_map::put::<u16, Seq<char>>(
                        p.error_pages,
                        code as u16,
                        body,
                    ),
                    ..p
                },
            ),
            _ => Ok(p),
        }
    } else if n.name == "header-up-replace"@ {
        let t = document::texts(n);
        if t.len() >= 3 {
            Ok(
                ProxyConfigView {
                    headers_up_replace: p.headers_up_replace.push((t[0], t[1], t[2])),
                    ..p
                },
            )
        } else {
            Ok(p)
        }
    } else if n.name == "tls-skip-verify"@ {
        Ok(ProxyConfigView { tls_skip_verify: document::switch(n), ..p })
    } else if n.name == "http2"@ {
        Ok(ProxyConfigView { upstream_http2: document::switch(n), ..p })
    } else if n.name == "max-connections"@ {
        Ok(
            ProxyConfigView {
                max_connections: match document::as_int(document::argument(n)) {
                    Some(v) => Some(v as usize),
                    None => None,
                },
                ..p
            },
        )
    } else if n.name == "keepalive"@ {
        match document::first_text(n) {
            Some(s) => match values::duration(s) {
                Ok(d) => Ok(ProxyConfigView { keepalive_timeout: Some(d), ..p }),
                Err(e) => Err(e),
            },
            None => Ok(ProxyConfigView { keepalive_timeout: None, ..p }),
        }
    } else if n.name == "sanitize-uri"@ {
        Ok(ProxyConfigView { sanitize_uri: document::switch(n), ..p })
    } else if n.name == "srv-upstream"@ {
        match srv_upstream(n) {
            Ok(s) => Ok(ProxyConfigView { srv_upstream: Some(s), ..p }),
            Err(e) => Err(e),
        }
    } else {
        Ok(p)
    }
}

/// Changes a proxy as one node of its block says.
fn add_to_proxy(cfg: ProxyConfig, n: &Node) -> (r: Result<ProxyConfig, ConfigError>)
    ensures
        data::outcome(r) == proxy_step(cfg.deep_view(), n.deep_view()),
{
    let mut p = cfg;
    if n.is("upstream") {
        match parse_upstream(n) {
            Ok(u) => {
                let ghost before = p.upstreams.deep_view();
                let ghost x = u.deep_view();
                p.upstreams.push(u);
                assert(p.upstreams.deep_view() =~= before.push(x));
            },
            Err(e) => return Err(e),
        }
    } else if n.is("lb") {
        let policy = text_or(n.first_text(), "");
        match parse_lb_policy(policy.as_str()) {
            Some(lb) => {
                p.lb = lb;
            },
            None => return Err(
                invalid_value("lb", text::join("unknown policy: ", policy.as_str())),
            ),
        }
        if let Some(h) = n.text("header") {
            p.lb_header = Some(h);
        }
        if let Some(c) = n.text("cookie") {
            p.lb_cookie = Some(c);
        }
    } else if n.is("health-check") {
        match parse_health_check(n) {
            Ok(h) => {
                p.health_check = Some(h);
            },
            Err(e) => return Err(e),
        }
    } else if n.is("passive-health") {
        match parse_passive_health(n) {
            Ok(h) => {
                p.passive_health = Some(h);
            },
            Err(e) => return Err(e),
        }
    } else if n.is("retries") {
        p.retries = parse_retries(n);
    } else if n.is("header-up") {
        values::add_header_rule(&mut p.headers_up, &n.texts());
    } else if n.is("header-down") {
        values::add_header_rule(&mut p.headers_down, &n.texts());
    } else if n.is("dns-upstream") {
        match parse_dns_upstream(n) {
            Ok(d) => {
                p.dynamic_upstreams = Some(d);
            },
            Err(e) => return Err(e),
        }
    } else if n.is("error-page") {
        match (n.argument(), n.second_argument()) {
            (Some(Value::Integer(code)), Some(Value::Text(body))) => {
                p.error_pages.insert(*code as u16, body.clone());
            },
            _ => {},
        }
    } else if n.is("header-up-replace") {
        let t = n.texts();
        if t.len() >= 3 {
            let ghost before = p.headers_up_replace.deep_view();
            assert(forall|i: int| 0 <= i < t@.len() ==> #[trigger] t.deep_view()[i] == t@[i]@);
            p.headers_up_replace.push((t[0].clone(), t[1].clone(), t[2].clone()));
            assert(p.headers_up_replace.deep_view() =~= before.push((t@[0]@, t@[1]@, t@[2]@)));
        }
    } else if n.is("tls-skip-verify") {
        p.tls_skip_verify = n.switch();
    } else if n.is("http2") {
        p.upstream_http2 = n.switch();
    } else if n.is("max-connections") {
        p.max_connections = match n.first_int() {
            Some(v) => Some(v as usize),
            None => None,
        };
    } else if n.is("keepalive") {
        p.keepalive_timeout = match n.first_text() {
            Some(s) => match parse_duration(s.as_str()) {
                Ok(d) => Some(d),
                Err(e) => return Err(e),
            },
            None => None,
        };
    } else if n.is("sanitize-uri") {
        p.sanitize_uri = n.switch();
    } else if n.is("srv-upstream") {
        match parse_srv_upstream(n) {
            Ok(s) => {
                p.srv_upstream = Some(s);
            },
            Err(e) => return Err(e),
        }
    }
    Ok(p)
}

/// A proxy as the nodes of its block from `i` on change it.
pub open spec fn proxy_from(p: ProxyConfigView, ns: Seq<NodeView>, i: int) -> Read<ProxyConfigView>
    decreases ns.len() - i,
{
    if i < 0 || i >= ns.len() {
        Ok(p)
    } else {
        match proxy_step(p, ns[i]) {
            Ok(q) => proxy_from(q, ns, i + 1),
            Err(e) => Err(e),
        }
    }
}

/// What a `proxy` node says: one upstream as its argument, or a block.
pub open spec fn proxy(n: NodeView) -> Read<ProxyConfigView> {
    match (n.children, document::first_text(n)) {
        (None, Some(addr)) => Ok(
            plain_proxy(seq![UpstreamConfigView { addr, weight: 1, activity_key: None }]),
        ),
        (None, None) => Err(error::missing("proxy upstream"@)),
        (Some(ns), _) => match proxy_from(plain_proxy(seq![]), ns, 0) {
            Ok(p) => if p.upstreams.len() == 0 && p.dynamic_upstreams is None
                && p.srv_upstream is None {
                Err(
                    error::missing(
                        "proxy must have at least one upstream, a dns-upstream, or srv-upstream"@,
                    ),
                )
            } else {
                Ok(p)
            },
            Err(e) => Err(e),
        },
    }
}

/// Reads a `proxy` node.
pub fn parse_proxy(n: &Node) -> (r: Result<ProxyConfig, ConfigError>)
    ensures
        data::outcome(r) == proxy(n.deep_view()),
{
    proof {
        document::lemma_children(*n);
    }
    let ns = match &n.children {
        Some(c) => c,
        None => {
            return match n.first_text() {
                Some(addr) => {
                    let mut upstreams: Vec<UpstreamConfig> = Vec::new();
                    let ghost x = UpstreamConfigView { addr: addr@, weight: 1, activity_key: None };
                    upstreams.push(UpstreamConfig { addr, weight: 1, activity_key: None });
                    assert(upstreams.deep_view() =~= seq![x]);
                    Ok(new_proxy(upstreams))
                },
                None => Err(missing_field("proxy upstream")),
            };
        },
    };
    let upstreams: Vec<UpstreamConfig> = Vec::new();
    assert(upstreams.deep_view() =~= seq![]);
    let mut p = new_proxy(upstreams);
    for i in 0..ns.len()
        invariant
            proxy_from(plain_proxy(seq![]), ns.deep_view(), 0) == proxy_from(
                p.deep_view(),
                ns.deep_view(),
                i as int,
            ),
            n.deep_view().children == Some(ns.deep_view()),
    {
        assert(ns.deep_view()[i as int] == ns@[i as int].deep_view());
        p = match add_to_proxy(p, &ns[i]) {
            Ok(q) => q,
            Err(e) => return Err(e),
        };
    }
    if p.upstreams.len() == 0 && p.dynamic_upstreams.is_none() && p.srv_upstream.is_none() {
        return Err(
            missing_field("proxy must have at least one upstream, a dns-upstream, or srv-upstream"),
        );
    }
    Ok(p)
}

// ---------------------------------------------------------------------------
// Other handlers
// ---------------------------------------------------------------------------

/// The users that the `user` nodes from `i` on name.
pub open spec fn users_from(
    ns: Seq<NodeView>,
    i: int,
    users: Seq<BasicAuthUserView>,
) -> Read<Seq<BasicAuthUserView>>
    decreases ns.len() - i,
{
    if i < 0 || i >= ns.len() {
        Ok(users)
    } else if ns[i].name == "user"@ {
        match parse_hoop::user(ns[i], "forward-proxy user username"@) {
            Ok(u) => users_from(ns, i + 1, users.push(u)),
            Err(e) => Err(e),
        }
    } else {
        users_from(ns, i + 1, users)
    }
}

/// What a `forward-proxy` node says.
pub open spec fn forward_proxy(n: NodeView) -> Read<ForwardProxyConfigView> {
    match users_from(document::block(n), 0, seq![]) {
        Ok(auth_users) => Ok(ForwardProxyConfigView { auth_users }),
        Err(e) => Err(e),
    }
}

/// Reads a `forward-proxy` node.
pub fn parse_forward_proxy(n: &Node) -> (r: Result<ForwardProxyConfig, ConfigError>)
    ensures
        data::outcome(r) == forward_proxy(n.deep_view()),
{
    let none: Vec<Node> = Vec::new();
    let ns = nodes_or(n, &none);
    let mut auth_users: Vec<BasicAuthUser> = Vec::new();
    assert(auth_users.deep_view() =~= seq![]);
    for i in 0..ns.len()
        invariant
            ns.deep_view() == document::block(n.deep_view()),
            users_from(ns.deep_view(), 0, seq![]) == users_from(
                ns.deep_view(),
                i as int,
                auth_users.deep_view(),
            ),
    {
        assert(ns.deep_view()[i as int] == ns@[i as int].deep_view());
        if ns[i].is("user") {
            match parse_user(&ns[i], "forward-proxy user username") {
                Ok(u) => {
                    let ghost before = auth_users.deep_view();
                    let ghost x = u.deep_view();
                    auth_users.push(u);
                    assert(auth_users.deep_view() =~= before.push(x));
                },
                Err(e) => return Err(e),
            }
        }
    }
    Ok(ForwardProxyConfig { auth_users })
}

/// A list of texts, or one other text where it is empty.
pub open spec fn texts_or(t: Seq<Seq<char>>, other: Seq<char>) -> Seq<Seq<char>> {
    if t.len() == 0 {
        seq![other]
    } else {
        t
    }
}

/// A list of texts, or one other text where it is empty.
fn list_or(t: Vec<String>, other: &str) -> (r: Vec<String>)
    ensures
        r.deep_view() == texts_or(t.deep_view(), other@),
{
    if t.len() == 0 {
        parse_hoop::single(other)
    } else {
        t
    }
}

/// The last node among the first `k` that is named either way.
pub open spec fn last_either(
    ns: Seq<NodeView>,
    a: Seq<char>,
    b: Seq<char>,
    k: int,
) -> Option<NodeView>
    decreases k,
{
    if k <= 0 || k > ns.len() {
        None
    } else if ns[k - 1].name == a || ns[k - 1].name == b {
        Some(ns[k - 1])
    } else {
        last_either(ns, a, b, k - 1)
    }
}

/// The directory that a `script-root` or `root` node sets.
pub open spec fn script_root(ns: Seq<NodeView>) -> Seq<char> {
    match last_either(ns, "script-root"@, "root"@, ns.len() as int) {
        Some(n) => document::or(document::first_text(n), ""@),
        None => ""@,
    }
}

/// The directory that a `script-root` or `root` node sets.
fn read_script_root(ns: &Vec<Node>) -> (r: String)
    ensures
        r@ == script_root(ns.deep_view()),
{
    let mut k: usize = ns.len();
    while k > 0
        invariant
            k <= ns.len(),
            last_either(
                ns.deep_view(),
                "script-root"@,
                "root"@,
                ns.deep_view().len() as int,
            ) == last_either(ns.deep_view(), "script-root"@, "root"@, k as int),
        decreases k,
    {
        assert(ns.deep_view()[k - 1] == ns@[k - 1].deep_view());
        if ns[k - 1].is("script-root") || ns[k - 1].is("root") {
            return text_or(ns[k - 1].first_text(), "");
        }
        k = k - 1;
    }
    "".to_owned()
}

/// What a `fastcgi` node says.
pub open spec fn fastcgi(n: NodeView) -> Read<FastCgiConfigView> {
    let ns = document::block(n);
    match document::first_text(n) {
        Some(addr) => Ok(
            FastCgiConfigView {
                addr,
                script_root: script_root(ns),
                index: texts_or(document::all_texts(ns, "index"@, 0), "index.php"@),
                split_path: document::last_text(ns, "split"@),
                env: values::environment(ns),
            },
        ),
        None => Err(error::missing("fastcgi address"@)),
    }
}

/// Reads a `fastcgi` node.
///
/// ```kdl
/// fastcgi "127.0.0.1:9000" {
///     script-root "/var/www/html"
///     split ".php"
///     index "index.php"
///     env "SERVER_SOFTWARE" "gatel"
/// }
/// ```
pub fn parse_fastcgi(n: &Node) -> (r: Result<FastCgiConfig, ConfigError>)
    ensures
        data::outcome(r) == fastcgi(n.deep_view()),
{
    let addr = match n.first_text() {
        Some(s) => s,
        None => return Err(missing_field("fastcgi address")),
    };
    let none: Vec<Node> = Vec::new();
    let ns = nodes_or(n, &none);
    Ok(
        FastCgiConfig {
            addr,
            script_root: read_script_root(ns),
            index: list_or(document::texts_of(ns, "index"), "index.php"),
            split_path: document::text_of(ns, "split"),
            env: values::environment_of(ns),
        },
    )
}

/// What a `cgi` node says.
pub open spec fn cgi(n: NodeView) -> Read<CgiConfigView> {
    let root = match document::first_text(n) {
        Some(s) => Some(s),
        None => document::as_text(document::property(n, "root"@)),
    };
    match root {
        Some(root) => Ok(CgiConfigView { root, env: values::environment(document::block(n)) }),
        None => Err(error::missing("cgi root directory"@)),
    }
}

/// Reads a `cgi` node.
pub fn parse_cgi(n: &Node) -> (r: Result<CgiConfig, ConfigError>)
    ensures
        data::outcome(r) == cgi(n.deep_view()),
{
    let root = match n.first_text() {
        Some(s) => s,
        None => match n.text("root") {
            Some(s) => s,
            None => return Err(missing_field("cgi root directory")),
        },
    };
    let none: Vec<Node> = Vec::new();
    let ns = nodes_or(n, &none);
    Ok(CgiConfig { root, env: values::environment_of(ns) })
}

/// What an `scgi` node says.
pub open spec fn scgi(n: NodeView) -> Read<ScgiConfigView> {
    match document::first_text(n) {
        Some(addr) => Ok(ScgiConfigView { addr, env: values::environment(document::block(n)) }),
        None => Err(error::missing("scgi address"@)),
    }
}

/// Reads an `scgi` node.
pub fn parse_scgi(n: &Node) -> (r: Result<ScgiConfig, ConfigError>)
    ensures
        data::outcome(r) == scgi(n.deep_view()),
{
    match n.first_text() {
        Some(addr) => {
            let none: Vec<Node> = Vec::new();
            let ns = nodes_or(n, &none);
            Ok(ScgiConfig { addr, env: values::environment_of(ns) })
        },
        None => Err(missing_field("scgi address")),
    }
}

/// What a `redirect` node says.
pub open spec fn redirect(n: NodeView) -> Read<HandlerConfigView> {
    match document::first_text(n) {
        Some(to) => Ok(
            HandlerConfigView::Redirect {
                to,
                permanent: document::as_bool(document::property(n, "permanent"@)) == Some(true),
            },
        ),
        None => Err(error::missing("redirect target"@)),
    }
}

/// Reads a `redirect` node.
pub fn parse_redirect(n: &Node) -> (r: Result<HandlerConfig, ConfigError>)
    ensures
        data::outcome(r) == redirect(n.deep_view()),
{
    match n.first_text() {
        Some(to) => Ok(
            HandlerConfig::Redirect { to, permanent: n.bool_or("permanent", false) },
        ),
        None => Err(missing_field("redirect target")),
    }
}

/// What a `respond` node says.
pub open spec fn respond(n: NodeView) -> HandlerConfigView {
    HandlerConfigView::Respond {
        status: match document::as_int(document::property(n, "status"@)) {
            Some(v) => v as u16,
            None => 200,
        },
        body: document::or(document::first_text(n), ""@),
    }
}

/// Reads a `respond` node.
pub fn parse_respond(n: &Node) -> (r: HandlerConfig)
    ensures
        r.deep_view() == respond(n.deep_view()),
{
    let status: u16 = match n.number("status") {
        Some(v) => v as u16,
        None => 200,
    };
    HandlerConfig::Respond { status, body: text_or(n.first_text(), "") }
}

/// What a `file-server` node says of the directory that the first `root` node
/// beside it sets.
pub open spec fn file_server(n: NodeView, beside: Seq<NodeView>) -> FileServerConfigView {
    FileServerConfigView {
        root: match document::first_named(beside, "root"@, 0) {
            Some(r) => document::or(document::first_text(r), "."@),
            None => "."@,
        },
        browse: document::as_bool(document::property(n, "browse"@)) == Some(true),
        trailing_slash: document::as_bool(document::property(n, "trailing-slash"@)) != Some(false),
        index: texts_or(
            document::all_texts(document::block(n), "index"@, 0),
            "index.html"@,
        ),
    }
}

/// Reads a `file-server` node.
pub fn parse_file_server(n: &Node, beside: &Vec<&Node>) -> (r: FileServerConfig)
    ensures
        r.deep_view() == file_server(n.deep_view(), beside.deep_view()),
{
    let root = match document::find_first(beside, "root") {
        Some(r) => text_or(r.first_text(), "."),
        None => ".".to_owned(),
    };
    let none: Vec<Node> = Vec::new();
    let ns = nodes_or(n, &none);
    FileServerConfig {
        root,
        browse: n.bool_or("browse", false),
        trailing_slash: n.bool_or("trailing-slash", true),
        index: list_or(document::texts_of(ns, "index"), "index.html"),
    }
}

/// The name of a strategy.
pub open spec fn policy_name(p: LbPolicy) -> Seq<char> {
    match p {
        LbPolicy::RoundRobin => "round_robin"@,
        LbPolicy::Random => "random"@,
        LbPolicy::WeightedRoundRobin => "weighted_round_robin"@,
        LbPolicy::IpHash => "ip_hash"@,
        LbPolicy::LeastConn => "least_conn"@,
        LbPolicy::UriHash => "uri_hash"@,
        LbPolicy::HeaderHash => "header_hash"@,
        LbPolicy::CookieHash => "cookie_hash"@,
        LbPolicy::First => "first"@,
        LbPolicy::TwoRandomChoices => "two_random_choices"@,
    }
}

/// A strategy is read from its name, and from no other text.
pub proof fn lemma_policy_names(p: LbPolicy, s: Seq<char>)
    ensures
        lb_policy(s) == Some(p) <==> s == policy_name(p),
{
    reveal_strlit("round_robin");
    reveal_strlit("random");
    reveal_strlit("weighted_round_robin");
    reveal_strlit("ip_hash");
    reveal_strlit("least_conn");
    reveal_strlit("uri_hash");
    reveal_strlit("header_hash");
    reveal_strlit("cookie_hash");
    reveal_strlit("first");
    reveal_strlit("two_random_choices");
    assert("round_robin"@.len() == 11 && "random"@.len() == 6 && "weighted_round_robin"@.len() == 20
        && "ip_hash"@.len() == 7 && "least_conn"@.len() == 10 && "uri_hash"@.len() == 8
        && "header_hash"@.len() == 11 && "cookie_hash"@.len() == 11 && "first"@.len() == 5
        && "two_random_choices"@.len() == 18);
    assert("round_robin"@[0] == 'r' && "header_hash"@[0] == 'h' && "cookie_hash"@[0] == 'c');
}

/// A backend has the address that its node names and the weight that it gives, or one.
pub proof fn lemma_upstream_read(n: NodeView, addr: Seq<char>, w: u32)
    requires
        document::argument(n) == Some(ValueView::Text(addr)),
    ensures
        document::property(n, "weight"@) == Some(ValueView::Integer(w as i128)) ==> upstream(n)
            == Ok::<UpstreamConfigView, ConfigErrorView>(
            UpstreamConfigView { addr, weight: w, activity_key: None },
        ),
        document::property(n, "weight"@) is None ==> upstream(n) == Ok::<
            UpstreamConfigView,
            ConfigErrorView,
        >(UpstreamConfigView { addr, weight: 1, activity_key: None }),
{
}

/// The nodes of a block take effect one after the other.
pub proof fn lemma_nodes_in_order(p: ProxyConfigView, ns: Seq<NodeView>, n: NodeView, i: int)
    requires
        0 <= i <= ns.len(),
    ensures
        proxy_from(p, ns.push(n), i) == match proxy_from(p, ns, i) {
            Ok(q) => proxy_step(q, n),
            Err(e) => Err(e),
        },
    decreases ns.len() - i,
{
    let all = ns.push(n);
    if i < ns.len() {
        assert(all[i] == ns[i]);
        if let Ok(q) = proxy_step(p, ns[i]) {
            lemma_nodes_in_order(q, ns, n, i + 1);
        }
    } else {
        assert(all[i] == n);
        if let Ok(q) = proxy_step(p, n) {
            assert(proxy_from(q, all, i + 1) == Ok::<ProxyConfigView, ConfigErrorView>(q));
        }
    }
}

/// A proxy hands requests on to the backends that its nodes name, in their order; one
/// without any is refused.
pub proof fn lemma_upstreams_in_order(p: ProxyConfigView, ns: Seq<NodeView>, i: int)
    requires
        0 <= i <= ns.len(),
        forall|k: int|
            0 <= k < ns.len() ==> (#[trigger] ns[k]).name == "upstream"@ && upstream(ns[k]) is Ok,
    ensures
        proxy_from(p, ns, i) matches Ok(q) && q.upstreams == p.upstreams + Seq::new(
            (ns.len() - i) as nat,
            |k: int| upstream(ns[i + k])->Ok_0,
        ) && q == (ProxyConfigView { upstreams: q.upstreams, ..p }),
    decreases ns.len() - i,
{
    let own = Seq::new((ns.len() - i) as nat, |k: int| upstream(ns[i + k])->Ok_0);
    if i < ns.len() {
        assert(ns[i].name == "upstream"@ && upstream(ns[i]) is Ok);
        let u = upstream(ns[i])->Ok_0;
        let next = ProxyConfigView { upstreams: p.upstreams.push(u), ..p };
        lemma_upstreams_in_order(next, ns, i + 1);
        let rest = Seq::new((ns.len() - (i + 1)) as nat, |k: int| upstream(ns[i + 1 + k])->Ok_0);
        assert(p.upstreams.push(u) + rest =~= p.upstreams + own);
    } else {
        assert(p.upstreams + own =~= p.upstreams);
    }
}

/// A proxy in one line has its one backend, and one with an empty block is refused.
pub proof fn lemma_short_proxy(n: NodeView, addr: Seq<char>)
    ensures
        n.children is None && document::argument(n) == Some(ValueView::Text(addr)) ==> (
        proxy(n) matches Ok(p) && p.upstreams == seq![
            UpstreamConfigView { addr, weight: 1, activity_key: None },
        ]),
        n.children is None && document::argument(n) is None ==> proxy(n) is Err,
        n.children == Some(Seq::<NodeView>::empty()) ==> proxy(n) is Err,
{
}

/// Each node changes what it is about and nothing else.
pub proof fn lemma_node_of_proxy(p: ProxyConfigView, n: NodeView)
    ensures
        n.name == "retries"@ ==> proxy_step(p, n) == Ok::<ProxyConfigView, ConfigErrorView>(
            ProxyConfigView { retries: retries(n), ..p },
        ),
        n.name == "header-up"@ ==> (proxy_step(p, n) matches Ok(q) && q == (ProxyConfigView {
            headers_up: values::header_rule(p.headers_up, document::texts(n)),
            ..p
        })),
        n.name == "header-down"@ ==> (proxy_step(p, n) matches Ok(q) && q == (ProxyConfigView {
            headers_down: values::header_rule(p.headers_down, document::texts(n)),
            ..p
        })),
        n.name == "passive-health"@ ==> (match passive_health(n) {
            Ok(h) => proxy_step(p, n) matches Ok(q) && q == (ProxyConfigView {
                passive_health: Some(h),
                ..p
            }),
            Err(e) => proxy_step(p, n) is Err,
        }),
        n.name == "health-check"@ ==> (match health_check(n) {
            Ok(h) => proxy_step(p, n) matches Ok(q) && q == (ProxyConfigView {
                health_check: Some(h),
                ..p
            }),
            Err(e) => proxy_step(p, n) is Err,
        }),
{
    reveal_strlit("upstream");
    reveal_strlit("lb");
    reveal_strlit("health-check");
    reveal_strlit("passive-health");
    reveal_strlit("retries");
    reveal_strlit("header-up");
    reveal_strlit("header-down");
    assert("upstream"@.len() == 8 && "lb"@.len() == 2 && "health-check"@.len() == 12
        && "passive-health"@.len() == 14 && "retries"@.len() == 7 && "header-up"@.len() == 9
        && "header-down"@.len() == 11);
}

/// The number of retries is what the node says, as a number or as a text, and none where
/// that cannot be counted.
pub proof fn lemma_retries_read(n: NodeView, k: u32)
    ensures
        document::argument(n) == Some(ValueView::Integer(k as i128)) ==> retries(n) == k,
        document::argument(n) == Some(ValueView::Text(text::decimal(k as nat))) ==> retries(n) == k,
        document::argument(n) is None ==> retries(n) == 0,
{
    text::lemma_decimal_value(k as nat);
}

} // verus!
