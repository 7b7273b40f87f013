//! Reading a configuration.

use vstd::prelude::*;
use crate::config::document;
use crate::config::document::{
    parse_document, refs, text_or, Entry, EntryView, Node, NodeView, Value, ValueView,
};
use crate::config::error;
use crate::config::error::{
    invalid_value, missing_field, unknown_directive, ConfigError, ConfigErrorView,
};
use crate::config::parse_handler;
use crate::config::parse_handler::{
    parse_cgi, parse_fastcgi, parse_file_server, parse_forward_proxy, parse_proxy, parse_redirect,
    parse_respond, parse_scgi,
};
use crate::config::parse_hoop;
use crate::config::parse_hoop::{
    nodes_or, parse_basic_auth, parse_buffer_limit, parse_cache, parse_cors, parse_decompress,
    parse_encode, parse_error_pages, parse_force_https, parse_forward_auth, parse_ip_filter,
    parse_matcher, parse_rate_limit, parse_replace, parse_request_id, parse_rewrite,
    parse_route_condition, parse_stream_replace, parse_templates, parse_timeout,
    parse_trailing_slash, Read,
};
use crate::config::types;
use crate::config::types::{
    AcmeConfig, AcmeConfigView, AppConfig, AppConfigView, CertAuthority, ChallengeType,
    ClientAuthConfig, ClientAuthConfigView, DnsProviderConfig, DnsProviderConfigView, EabConfig,
    EabConfigView, GlobalConfig, GlobalConfigView, HandlerConfig, HandlerConfigView, HoopConfig,
    HoopConfigView, LogFileConfig, LogFileConfigView, OnDemandTlsConfig, OnDemandTlsConfigView,
    RouteCondition, RouteConditionView, RouteConfig, RouteConfigView, SiteConfig, SiteConfigView,
    SiteTlsConfig, SiteTlsConfigView, StreamConfig, StreamConfigView, StreamListenerConfig,
    StreamListenerConfigView, TlsConfig, TlsConfigView,
};
use crate::config::values;
use crate::config::values::{parse_duration, parse_listen_addr};
use crate::data;
use crate::data::Data;
use crate::router::matcher::{MatcherView, RequestMatcher};
use crate::sorted_map;
use crate::sorted_map::SortedMap;
use crate::text;

verus! {

// ---------------------------------------------------------------------------
// Blocks
// ---------------------------------------------------------------------------

/// Something that is read from a block, node by node. `doc` is the whole document,
/// which holds the snippets that a route may use.
pub trait Section: DeepView + Sized {
    /// The value as one more node changes it.
    spec fn step(a: Self::V, n: NodeView, doc: Seq<NodeView>) -> Read<Self::V>;

    /// Changes the value as one more node says.
    fn apply(self, n: &Node, doc: &Vec<Node>) -> (r: Result<Self, ConfigError>)
        ensures
            data::outcome(r) == Self::step(self.deep_view(), n.deep_view(), doc.deep_view()),
    ;
}

/// A value as the nodes from `i` on change it, up to the first that is wrong.
pub open spec fn read<S: Section>(a: S::V, ns: Seq<NodeView>, i: int, doc: Seq<NodeView>) -> Read<
    S::V,
>
    decreases ns.len() - i,
{
    if i < 0 || i >= ns.len() {
        Ok(a)
    } else {
        match S::step(a, ns[i], doc) {
            Ok(b) => read::<S>(b, ns, i + 1, doc),
            Err(e) => Err(e),
        }
    }
}

/// Changes a value as the nodes say, up to the first that is wrong.
pub fn read_all<S: Section>(start: S, ns: &Vec<&Node>, doc: &Vec<Node>) -> (r: Result<
    S,
    ConfigError,
>)
    ensures
        data::outcome(r) == read::<S>(start.deep_view(), ns.deep_view(), 0, doc.deep_view()),
{
    let ghost first = start.deep_view();
    let mut a = start;
    for i in 0..ns.len()
        invariant
            first == start.deep_view(),
            read::<S>(first, ns.deep_view(), 0, doc.deep_view()) == read::<S>(
                a.deep_view(),
                ns.deep_view(),
                i as int,
                doc.deep_view(),
            ),
    {
        assert(ns.deep_view()[i as int] == ns@[i as int].deep_view());
        a = match a.apply(ns[i], doc) {
            Ok(b) => b,
            Err(e) => return Err(e),
        };
    }
    Ok(a)
}

// ---------------------------------------------------------------------------
// Global
// ---------------------------------------------------------------------------

/// What an `access-log` or `error-log` node says.
pub open spec fn log_file(n: NodeView) -> Read<LogFileConfigView> {
    let ns = document::block(n);
    match document::first_text(n) {
        Some(path) => Ok(
            LogFileConfigView {
                path,
                format: document::last_text(ns, "format"@),
                rotate_size: match document::last_int(ns, "rotate-size"@) {
                    Some(v) => Some(v as u64),
                    None => None,
                },
                rotate_keep: match document::last_int(ns, "rotate-keep"@) {
                    Some(v) => Some(v as usize),
                    None => None,
                },
            },
        ),
        None => Err(error::missing("log file path"@)),
    }
}

/// Reads an `access-log` or `error-log` node.
pub fn parse_log_file_config(n: &Node) -> (r: Result<LogFileConfig, ConfigError>)
    ensures
        data::outcome(r) == log_file(n.deep_view()),
{
    let path = match n.first_text() {
        Some(s) => s,
        None => return Err(missing_field("log file path")),
    };
    let none: Vec<Node> = Vec::new();
    let ns = nodes_or(n, &none);
    let rotate_size: Option<u64> = match document::int_of(ns, "rotate-size") {
        Some(v) => Some(v as u64),
        None => None,
    };
    let rotate_keep: Option<usize> = match document::int_of(ns, "rotate-keep") {
        Some(v) => Some(v as usize),
        None => None,
    };
    Ok(LogFileConfig { path, format: document::text_of(ns, "format"), rotate_size, rotate_keep })
}

/// A property that must be a text where it is there.
pub open spec fn text_property(n: NodeView, key: Seq<char>, other: Seq<char>) -> Option<Seq<char>> {
    match document::property(n, key) {
        None => Some(other),
        Some(ValueView::Text(s)) => Some(s),
        Some(_) => None,
    }
}

/// A property that must be a text where it is there.
fn read_text_property(n: &Node, key: &str, other: &String) -> (r: Option<String>)
    ensures
        r.deep_view() == text_property(n.deep_view(), key@, other@),
{
    match n.property(key) {
        None => Some(other.clone()),
        Some(v) => v.as_text(),
    }
}

/// The size that an argument gives, cut to the size of a machine word.
pub open spec fn size_argument(n: NodeView) -> Option<usize> {
    match document::as_int(document::argument(n)) {
        Some(v) => Some(v as usize),
        None => None,
    }
}

/// The size that an argument gives, cut to the size of a machine word.
fn read_size_argument(n: &Node) -> (r: Option<usize>)
    ensures
        r == size_argument(n.deep_view()),
{
    match n.first_int() {
        Some(v) => Some(v as usize),
        None => None,
    }
}

impl Section for GlobalConfig {
    open spec fn step(a: GlobalConfigView, n: NodeView, doc: Seq<NodeView>) -> Read<
        GlobalConfigView,
    > {
        if n.name == "admin"@ {
            match document::first_text(n) {
                Some(s) => match values::listen_addr(s) {
                    Ok(addr) => Ok(GlobalConfigView { admin_addr: Some(addr), ..a }),
                    Err(e) => Err(e),
                },
                None => Ok(a),
            }
        } else if n.name == "log"@ {
            match text_property(n, "level"@, a.log_level) {
                None => Err(error::invalid("log level"@, "expected string"@)),
                Some(log_level) => match text_property(n, "format"@, a.log_format) {
                    None => Err(error::invalid("log format"@, "expected string"@)),
                    Some(log_format) => Ok(GlobalConfigView { log_level, log_format, ..a }),
                },
            }
        } else if n.name == "grace-period"@ {
            match document::first_text(n) {
                Some(s) => match values::duration(s) {
                    Ok(d) => Ok(GlobalConfigView { grace_period: d, ..a }),
                    Err(e) => Err(e),
                },
                None => Ok(a),
            }
        } else if n.name == "http"@ {
            match document::first_text(n) {
                Some(s) => match values::listen_addr(s) {
                    Ok(addr) => Ok(GlobalConfigView { http_addr: addr, ..a }),
                    Err(e) => Err(e),
                },
                None => Ok(a),
            }
        } else if n.name == "https"@ {
            match document::first_text(n) {
                Some(s) => match values::listen_addr(s) {
                    Ok(addr) => Ok(GlobalConfigView { https_addr: addr, ..a }),
                    Err(e) => Err(e),
                },
                None => Ok(a),
            }
        } else if n.name == "http3"@ {
            Ok(GlobalConfigView { http3: document::switch(n), ..a })
        } else if n.name == "proxy-protocol"@ {
            Ok(GlobalConfigView { proxy_protocol: document::switch(n), ..a })
        } else if n.name == "access-log"@ {
            match log_file(n) {
                Ok(l) => Ok(GlobalConfigView { access_log: Some(l), ..a }),
                Err(e) => Err(e),
            }
        } else if n.name == "error-log"@ {
            match log_file(n) {
                Ok(l) => Ok(GlobalConfigView { error_log: Some(l), ..a }),
                Err(e) => Err(e),
            }
        } else if n.name == "tcp-nodelay"@ {
            Ok(GlobalConfigView { tcp_nodelay: document::switch(n), ..a })
        } else if n.name == "tcp-send-buffer"@ {
            Ok(GlobalConfigView { tcp_send_buffer: size_argument(n), ..a })
        } else if n.name == "tcp-recv-buffer"@ {
            Ok(GlobalConfigView { tcp_recv_buffer: size_argument(n), ..a })
        } else if n.name == "otlp-endpoint"@ {
            Ok(GlobalConfigView { otlp_endpoint: document::first_text(n), ..a })
        } else if n.name == "otlp-service-name"@ {
            Ok(GlobalConfigView { otlp_service_name: document::first_text(n), ..a })
        } else if n.name == "admin-auth-token"@ {
            Ok(GlobalConfigView { admin_auth_token: document::first_text(n), ..a })
        } else {
            Err(ConfigErrorView::UnknownDirective(n.name))
        }
    }

    fn apply(self, n: &Node, doc: &Vec<Node>) -> (r: Result<GlobalConfig, ConfigError>) {
        let mut a = self;
        if n.is("admin") {
            if let Some(s) = n.first_text() {
                match parse_listen_addr(s.as_str()) {
                    Ok(addr) => {
                        a.admin_addr = Some(addr);
                    },
                    Err(e) => return Err(e),
                }
            }
        } else if n.is("log") {
            match read_text_property(n, "level", &a.log_level) {
                Some(s) => {
                    a.log_level = s;
                },
                None => return Err(invalid_value("log level", "expected string".to_owned())),
            }
            match read_text_property(n, "format", &a.log_format) {
                Some(s) => {
                    a.log_format = s;
                },
                None => return Err(invalid_value("log format", "expected string".to_owned())),
            }
        } else if n.is("grace-period") {
            if let Some(s) = n.first_text() {
                match parse_duration(s.as_str()) {
                    Ok(d) => {
                        a.grace_period = d;
                    },
                    Err(e) => return Err(e),
                }
            }
        } else if n.is("http") {
            if let Some(s) = n.first_text() {
                match parse_listen_addr(s.as_str()) {
                    Ok(addr) => {
                        a.http_addr = addr;
                    },
                    Err(e) => return Err(e),
                }
            }
        } else if n.is("https") {
            if let Some(s) = n.first_text() {
                match parse_listen_addr(s.as_str()) {
                    Ok(addr) => {
                        a.https_addr = addr;
                    },
                    Err(e) => return Err(e),
                }
            }
        } else if n.is("http3") {
            a.http3 = n.switch();
        } else if n.is("proxy-protocol") {
            a.proxy_protocol = n.switch();
        } else if n.is("access-log") {
            match parse_log_file_config(n) {
                Ok(l) => {
                    a.access_log = Some(l);
                },
                Err(e) => return Err(e),
            }
        } else if n.is("error-log") {
            match parse_log_file_config(n) {
                Ok(l) => {
                    a.error_log = Some(l);
                },
                Err(e) => return Err(e),
            }
        } else if n.is("tcp-nodelay") {
            a.tcp_nodelay = n.switch();
        } else if n.is("tcp-send-buffer") {
            a.tcp_send_buffer = read_size_argument(n);
        } else if n.is("tcp-recv-buffer") {
            a.tcp_recv_buffer = read_size_argument(n);
        } else if n.is("otlp-endpoint") {
            a.otlp_endpoint = n.first_text();
        } else if n.is("otlp-service-name") {
            a.otlp_service_name = n.first_text();
        } else if n.is("admin-auth-token") {
            a.admin_auth_token = n.first_text();
        } else {
            return Err(unknown_directive(n.name.as_str()));
        }
        Ok(a)
    }
}

/// What a `global` node says.
pub open spec fn global(n: NodeView) -> Read<GlobalConfigView> {
    read::<GlobalConfig>(types::default_global(), document::block(n), 0, seq![])
}

/// Reads a `global` node.
pub fn parse_global(n: &Node) -> (r: Result<GlobalConfig, ConfigError>)
    ensures
        data::outcome(r) == global(n.deep_view()),
{
    let none: Vec<Node> = Vec::new();
    assert(none.deep_view() =~= seq![]);
    read_all(GlobalConfig::default(), &refs(nodes_or(n, &none)), &none)
}

// ---------------------------------------------------------------------------
// TLS
// ---------------------------------------------------------------------------

/// What an `eab` node says.
pub open spec fn eab(n: NodeView) -> EabConfigView {
    let ns = document::block(n);
    EabConfigView {
        kid: document::or(document::last_text(ns, "kid"@), ""@),
        hmac_key: document::or(document::last_text(ns, "hmac-key"@), ""@),
    }
}

/// Reads an `eab` node.
pub fn parse_eab(n: &Node) -> (r: EabConfig)
    ensures
        r.deep_view() == eab(n.deep_view()),
{
    let none: Vec<Node> = Vec::new();
    let ns = nodes_or(n, &none);
    EabConfig {
        kid: text_or(document::text_of(ns, "kid"), ""),
        hmac_key: text_or(document::text_of(ns, "hmac-key"), ""),
    }
}

/// The texts that nodes other than those of the three known names give, from node
/// `i` on.
pub open spec fn options_from(ns: Seq<NodeView>, i: int, m: values::TextMap) -> values::TextMap
    decreases ns.len() - i,
{
    if i < 0 || i >= ns.len() {
        m
    } else if ns[i].name == "api-token"@ || ns[i].name == "api-key"@ || ns[i].name
        == "api-secret"@ {
        options_from(ns, i + 1, m)
    } else {
        match document::first_text(ns[i]) {
            Some(s) => options_from(ns, i + 1, values::put(m, ns[i].name, s)),
            None => options_from(ns, i + 1, m),
        }
    }
}

/// What a `dns-provider` node says.
pub open spec fn dns_provider(n: NodeView) -> Read<DnsProviderConfigView> {
    let ns = document::block(n);
    match document::first_text(n) {
        Some(provider) => Ok(
            DnsProviderConfigView {
                provider,
                api_token: document::last_text(ns, "api-token"@),
                api_key: document::last_text(ns, "api-key"@),
                api_secret: document::last_text(ns, "api-secret"@),
                options: options_from(ns, 0, seq![]),
            },
        ),
        None => Err(error::missing("dns-provider name"@)),
    }
}

/// Reads a `dns-provider` node.
pub fn parse_dns_provider(n: &Node) -> (r: Result<DnsProviderConfig, ConfigError>)
    ensures
        data::outcome(r) == dns_provider(n.deep_view()),
{
    let provider = match n.first_text() {
        Some(s) => s,
        None => return Err(missing_field("dns-provider name")),
    };
    let none: Vec<Node> = Vec::new();
    let ns = nodes_or(n, &none);
    let mut options: SortedMap<String, String> = SortedMap::new();
    assert(options.deep_view() =~= seq![]);
    let ghost all = ns.deep_view();
    for i in 0..ns.len()
        invariant
            all == ns.deep_view(),
            options_from(all, i as int, options.deep_view()) == options_from(all, 0, seq![]),
    {
        assert(all[i as int] == ns@[i as int].deep_view());
        if !ns[i].is("api-token") && !ns[i].is("api-key") && !ns[i].is("api-secret") {
            if let Some(s) = ns[i].first_text() {
                options.insert(ns[i].name.clone(), s);
            }
        }
    }
    Ok(
        DnsProviderConfig {
            provider,
            api_token: document::text_of(ns, "api-token"),
            api_key: document::text_of(ns, "api-key"),
            api_secret: document::text_of(ns, "api-secret"),
            options,
        },
    )
}

/// The authority of a name.
pub open spec fn authority(s: Seq<char>) -> Option<CertAuthority> {
    if s == "letsencrypt"@ || s == "le"@ {
        Some(CertAuthority::LetsEncrypt)
    } else if s == "letsencrypt-staging"@ || s == "le-staging"@ {
        Some(CertAuthority::LetsEncryptStaging)
    } else if s == "zerossl"@ {
        Some(CertAuthority::ZeroSsl)
    } else {
        None
    }
}

/// The challenge of a name.
pub open spec fn challenge(s: Seq<char>) -> Option<ChallengeType> {
    if s == "http-01"@ {
        Some(ChallengeType::Http01)
    } else if s == "tls-alpn-01"@ {
        Some(ChallengeType::TlsAlpn01)
    } else if s == "dns-01"@ {
        Some(ChallengeType::Dns01)
    } else {
        None
    }
}

/// The authority of a name.
fn parse_authority(s: &str) -> (r: Option<CertAuthority>)
    ensures
        r == authority(s@),
{
    if text::same(s, "letsencrypt") || text::same(s, "le") {
        Some(CertAuthority::LetsEncrypt)
    } else if text::same(s, "letsencrypt-staging") || text::same(s, "le-staging") {
        Some(CertAuthority::LetsEncryptStaging)
    } else if text::same(s, "zerossl") {
        Some(CertAuthority::ZeroSsl)
    } else {
        None
    }
}

/// The challenge of a name.
fn parse_challenge(s: &str) -> (r: Option<ChallengeType>)
    ensures
        r == challenge(s@),
{
    if text::same(s, "http-01") {
        Some(ChallengeType::Http01)
    } else if text::same(s, "tls-alpn-01") {
        Some(ChallengeType::TlsAlpn01)
    } else if text::same(s, "dns-01") {
        Some(ChallengeType::Dns01)
    } else {
        None
    }
}

impl Section for AcmeConfig {
    open spec fn step(a: AcmeConfigView, n: NodeView, doc: Seq<NodeView>) -> Read<AcmeConfigView> {
        let v = document::or(document::first_text(n), ""@);
        if n.name == "email"@ {
            match document::first_text(n) {
                Some(email) => Ok(AcmeConfigView { email, ..a }),
                None => Err(error::missing("acme email value"@)),
            }
        } else if n.name == "ca"@ {
            match authority(v) {
                Some(ca) => Ok(AcmeConfigView { ca, ..a }),
                None => Err(error::invalid("ca"@, "unknown CA: "@ + v)),
            }
        } else if n.name == "challenge"@ {
            match challenge(v) {
                Some(challenge) => Ok(AcmeConfigView { challenge, ..a }),
                None => Err(error::invalid("challenge"@, "unknown challenge type: "@ + v)),
            }
        } else if n.name == "eab"@ {
            Ok(AcmeConfigView { eab: Some(eab(n)), ..a })
        } else if n.name == "dns-provider"@ {
            match dns_provider(n) {
                Ok(p) => Ok(AcmeConfigView { dns_provider: Some(p), ..a }),
                Err(e) => Err(e),
            }
        } else {
            Err(ConfigErrorView::UnknownDirective(n.name))
        }
    }

    fn apply(self, n: &Node, doc: &Vec<Node>) -> (r: Result<AcmeConfig, ConfigError>) {
        let mut a = self;
        if n.is("email") {
            match n.first_text() {
                Some(s) => {
                    a.email = s;
                },
                None => return Err(missing_field("acme email value")),
            }
        } else if n.is("ca") {
            let v = text_or(n.first_text(), "");
            match parse_authority(v.as_str()) {
                Some(ca) => {
                    a.ca = ca;
                },
                None => return Err(
                    invalid_value("ca", text::join("unknown CA: ", v.as_str())),
                ),
            }
        } else if n.is("challenge") {
            let v = text_or(n.first_text(), "");
            match parse_challenge(v.as_str()) {
                Some(c) => {
                    a.challenge = c;
                },
                None => return Err(
                    invalid_value("challenge", text::join("unknown challenge type: ", v.as_str())),
                ),
            }
        } else if n.is("eab") {
            a.eab = Some(parse_eab(n));
        } else if n.is("dns-provider") {
            match parse_dns_provider(n) {
                Ok(p) => {
                    a.dns_provider = Some(p);
                },
                Err(e) => return Err(e),
            }
        } else {
            return Err(unknown_directive(n.name.as_str()));
        }
        Ok(a)
    }
}

/// What an `acme` node says; it must name an address for mail.
pub open spec fn acme(n: NodeView) -> Read<AcmeConfigView> {
    let start = AcmeConfigView {
        email: ""@,
        ca: CertAuthority::LetsEncrypt,
        challenge: ChallengeType::Http01,
        eab: None,
        dns_provider: None,
    };
    match read::<AcmeConfig>(start, document::block(n), 0, seq![]) {
        Ok(a) => if a.email.len() == 0 {
            Err(error::missing("acme email"@))
        } else {
            Ok(a)
        },
        Err(e) => Err(e),
    }
}

/// Reads an `acme` node.
pub fn parse_acme(n: &Node) -> (r: Result<AcmeConfig, ConfigError>)
    ensures
        data::outcome(r) == acme(n.deep_view()),
{
    let none: Vec<Node> = Vec::new();
    assert(none.deep_view() =~= seq![]);
    let start = AcmeConfig {
        email: "".to_owned(),
        ca: CertAuthority::LetsEncrypt,
        challenge: ChallengeType::Http01,
        eab: None,
        dns_provider: None,
    };
    match read_all(start, &refs(nodes_or(n, &none)), &none) {
        Ok(a) => {
            if a.email.as_str().is_empty() {
                Err(missing_field("acme email"))
            } else {
                Ok(a)
            }
        },
        Err(e) => Err(e),
    }
}

/// The files that the `ca-cert` nodes from `i` on name.
pub open spec fn ca_certs_from(ns: Seq<NodeView>, i: int) -> Seq<Seq<char>>
    decreases ns.len() - i,
{
    if i < 0 || i >= ns.len() {
        seq![]
    } else if ns[i].name == "ca-cert"@ && document::first_text(ns[i]) is Some {
        seq![document::first_text(ns[i])->0] + ca_certs_from(ns, i + 1)
    } else {
        ca_certs_from(ns, i + 1)
    }
}

/// What a `client-auth` node says.
pub open spec fn client_auth(n: NodeView) -> ClientAuthConfigView {
    ClientAuthConfigView {
        ca_certs: ca_certs_from(document::block(n), 0),
        required: document::as_bool(document::property(n, "required"@)) != Some(false),
    }
}

/// Reads a `client-auth` node.
fn parse_client_auth(n: &Node) -> (r: ClientAuthConfig)
    ensures
        r.deep_view() == client_auth(n.deep_view()),
{
    let none: Vec<Node> = Vec::new();
    let ns = nodes_or(n, &none);
    let mut ca_certs: Vec<String> = Vec::new();
    let ghost all = ns.deep_view();
    assert(ca_certs.deep_view() + ca_certs_from(all, 0) =~= ca_certs_from(all, 0));
    for i in 0..ns.len()
        invariant
            all == ns.deep_view(),
            ca_certs.deep_view() + ca_certs_from(all, i as int) == ca_certs_from(all, 0),
    {
        assert(all[i as int] == ns@[i as int].deep_view());
        if ns[i].is("ca-cert") {
            if let Some(s) = ns[i].first_text() {
                let ghost before = ca_certs.deep_view();
                let ghost x = s@;
                ca_certs.push(s);
                assert(ca_certs.deep_view() =~= before.push(x));
                assert(ca_certs.deep_view() + ca_certs_from(all, i + 1) =~= before + (seq![x]
                    + ca_certs_from(all, i + 1)));
            }
        }
    }
    assert(ca_certs.deep_view() =~= ca_certs.deep_view() + ca_certs_from(all, all.len() as int));
    ClientAuthConfig { ca_certs, required: n.bool_or("required", true) }
}

impl Section for TlsConfig {
    open spec fn step(a: TlsConfigView, n: NodeView, doc: Seq<NodeView>) -> Read<TlsConfigView> {
        if n.name == "acme"@ {
            match acme(n) {
                Ok(c) => Ok(TlsConfigView { acme: Some(c), ..a }),
                Err(e) => Err(e),
            }
        } else if n.name == "client-auth"@ {
            Ok(TlsConfigView { client_auth: Some(client_auth(n)), ..a })
        } else if n.name == "on-demand"@ {
            Ok(
                TlsConfigView {
                    on_demand: Some(
                        OnDemandTlsConfigView {
                            ask: document::as_text(document::property(n, "ask"@)),
                            rate_limit: match document::as_int(
                                document::property(n, "rate-limit"@),
                            ) {
                                Some(v) => Some(v as u32),
                                None => None,
                            },
                        },
                    ),
                    ..a
                },
            )
        } else if n.name == "min-version"@ {
            Ok(TlsConfigView { min_version: document::first_text(n), ..a })
        } else if n.name == "max-version"@ {
            Ok(TlsConfigView { max_version: document::first_text(n), ..a })
        } else if n.name == "cipher-suites"@ {
            Ok(
                TlsConfigView {
                    cipher_suites: a.cipher_suites + values::all_words(document::texts(n), 0),
                    ..a
                },
            )
        } else if n.name == "ocsp-stapling"@ {
            Ok(TlsConfigView { ocsp_stapling: document::switch(n), ..a })
        } else if n.name == "ecdh-curves"@ {
            Ok(
                TlsConfigView {
                    ecdh_curves: a.ecdh_curves + values::all_words(document::texts(n), 0),
                    ..a
                },
            )
        } else {
            Err(ConfigErrorView::UnknownDirective(n.name))
        }
    }

    fn apply(self, n: &Node, doc: &Vec<Node>) -> (r: Result<TlsConfig, ConfigError>) {
        let mut a = self;
        if n.is("acme") {
            match parse_acme(n) {
                Ok(c) => {
                    a.acme = Some(c);
                },
                Err(e) => return Err(e),
            }
        } else if n.is("client-auth") {
            a.client_auth = Some(parse_client_auth(n));
        } else if n.is("on-demand") {
            let rate_limit: Option<u32> = match n.number("rate-limit") {
                Some(v) => Some(v as u32),
                None => None,
            };
            a.on_demand = Some(OnDemandTlsConfig { ask: n.text("ask"), rate_limit });
        } else if n.is("min-version") {
            a.min_version = n.first_text();
        } else if n.is("max-version") {
            a.max_version = n.first_text();
        } else if n.is("cipher-suites") {
            values::add_all_words(&mut a.cipher_suites, &n.texts());
        } else if n.is("ocsp-stapling") {
            a.ocsp_stapling = n.switch();
        } else if n.is("ecdh-curves") {
            values::add_all_words(&mut a.ecdh_curves, &n.texts());
        } else {
            return Err(unknown_directive(n.name.as_str()));
        }
        Ok(a)
    }
}

/// What a `tls` node at the top says.
pub open spec fn tls(n: NodeView) -> Read<TlsConfigView> {
    let start = TlsConfigView {
        acme: None,
        client_auth: None,
        on_demand: None,
        min_version: None,
        max_version: None,
        cipher_suites: seq![],
        ocsp_stapling: false,
        ecdh_curves: seq![],
    };
    read::<TlsConfig>(start, document::block(n), 0, seq![])
}

/// Reads a `tls` node at the top.
pub fn parse_tls(n: &Node) -> (r: Result<TlsConfig, ConfigError>)
    ensures
        data::outcome(r) == tls(n.deep_view()),
{
    let none: Vec<Node> = Vec::new();
    assert(none.deep_view() =~= seq![]);
    let start = TlsConfig {
        acme: None,
        client_auth: None,
        on_demand: None,
        min_version: None,
        max_version: None,
        cipher_suites: Vec::new(),
        ocsp_stapling: false,
        ecdh_curves: Vec::new(),
    };
    assert(start.deep_view().cipher_suites =~= seq![]);
    assert(start.deep_view().ecdh_curves =~= seq![]);
    read_all(start, &refs(nodes_or(n, &none)), &none)
}

// ---------------------------------------------------------------------------
// Routes
// ---------------------------------------------------------------------------

/// What a node says that sets a middleware.
pub open spec fn hoop(n: NodeView) -> Option<Read<HoopConfigView>> {
    if n.name == "rate-limit"@ {
        Some(parse_hoop::rate_limit(n))
    } else if n.name == "encode"@ {
        Some(parse_hoop::encode(n))
    } else if n.name == "basic-auth"@ {
        Some(parse_hoop::basic_auth(n))
    } else if n.name == "cache"@ {
        Some(parse_hoop::cache(n))
    } else if n.name == "ip-filter"@ {
        Some(parse_hoop::ip_filter(n))
    } else if n.name == "rewrite"@ {
        Some(parse_hoop::rewrite(n))
    } else if n.name == "replace"@ {
        Some(parse_hoop::replace(n))
    } else if n.name == "forward-auth"@ {
        Some(parse_hoop::forward_auth(n))
    } else if n.name == "buffer-limit"@ {
        Some(parse_hoop::buffer_limit(n))
    } else if n.name == "cors"@ {
        Some(parse_hoop::cors(n))
    } else if n.name == "timeout"@ {
        Some(parse_hoop::timeout(n))
    } else if n.name == "request-id"@ {
        Some(parse_hoop::request_id(n))
    } else if n.name == "force-https"@ {
        Some(parse_hoop::force_https(n))
    } else if n.name == "trailing-slash"@ {
        Some(parse_hoop::trailing_slash(n))
    } else if n.name == "decompress"@ {
        Some(parse_hoop::decompress(n))
    } else if n.name == "error-pages"@ {
        Some(parse_hoop::error_pages(n))
    } else if n.name == "stream-replace"@ {
        Some(parse_hoop::stream_replace(n))
    } else if n.name == "templates"@ {
        Some(parse_hoop::templates(n))
    } else {
        None
    }
}

/// Reads a node that sets a middleware.
fn parse_hoop_node(n: &Node) -> (r: Option<Result<HoopConfig, ConfigError>>)
    ensures
        match r {
            Some(h) => hoop(n.deep_view()) == Some(data::outcome(h)),
            None => hoop(n.deep_view()) is None,
        },
{
    if n.is("rate-limit") {
        Some(parse_rate_limit(n))
    } else if n.is("encode") {
        Some(parse_encode(n))
    } else if n.is("basic-auth") {
        Some(parse_basic_auth(n))
    } else if n.is("cache") {
        Some(parse_cache(n))
    } else if n.is("ip-filter") {
        Some(parse_ip_filter(n))
    } else if n.is("rewrite") {
        Some(parse_rewrite(n))
    } else if n.is("replace") {
        Some(parse_replace(n))
    } else if n.is("forward-auth") {
        Some(parse_forward_auth(n))
    } else if n.is("buffer-limit") {
        Some(parse_buffer_limit(n))
    } else if n.is("cors") {
        Some(parse_cors(n))
    } else if n.is("timeout") {
        Some(parse_timeout(n))
    } else if n.is("request-id") {
        Some(parse_request_id(n))
    } else if n.is("force-https") {
        Some(parse_force_https(n))
    } else if n.is("trailing-slash") {
        Some(parse_trailing_slash(n))
    } else if n.is("decompress") {
        Some(parse_decompress(n))
    } else if n.is("error-pages") {
        Some(parse_error_pages(n))
    } else if n.is("stream-replace") {
        Some(parse_stream_replace(n))
    } else if n.is("templates") {
        Some(parse_templates(n))
    } else {
        None
    }
}

/// What a node says that sets the handler.
pub open spec fn handler(n: NodeView) -> Option<Read<HandlerConfigView>> {
    if n.name == "proxy"@ {
        Some(
            match parse_handler::proxy(n) {
                Ok(c) => Ok(HandlerConfigView::Proxy(c)),
                Err(e) => Err(e),
            },
        )
    } else if n.name == "fastcgi"@ {
        Some(
            match parse_handler::fastcgi(n) {
                Ok(c) => Ok(HandlerConfigView::FastCgi(c)),
                Err(e) => Err(e),
            },
        )
    } else if n.name == "forward-proxy"@ {
        Some(
            match parse_handler::forward_proxy(n) {
                Ok(c) => Ok(HandlerConfigView::ForwardProxy(c)),
                Err(e) => Err(e),
            },
        )
    } else if n.name == "cgi"@ {
        Some(
            match parse_handler::cgi(n) {
                Ok(c) => Ok(HandlerConfigView::Cgi(c)),
                Err(e) => Err(e),
            },
        )
    } else if n.name == "scgi"@ {
        Some(
            match parse_handler::scgi(n) {
                Ok(c) => Ok(HandlerConfigView::Scgi(c)),
                Err(e) => Err(e),
            },
        )
    } else if n.name == "redirect"@ {
        Some(parse_handler::redirect(n))
    } else if n.name == "respond"@ {
        Some(Ok(parse_handler::respond(n)))
    } else {
        None
    }
}

/// Reads a node that sets the handler.
fn parse_handler_node(n: &Node) -> (r: Option<Result<HandlerConfig, ConfigError>>)
    ensures
        match r {
            Some(h) => handler(n.deep_view()) == Some(data::outcome(h)),
            None => handler(n.deep_view()) is None,
        },
{
    if n.is("proxy") {
        Some(
            match parse_proxy(n) {
                Ok(c) => Ok(HandlerConfig::Proxy(c)),
                Err(e) => Err(e),
            },
        )
    } else if n.is("fastcgi") {
        Some(
            match parse_fastcgi(n) {
                Ok(c) => Ok(HandlerConfig::FastCgi(c)),
                Err(e) => Err(e),
            },
        )
    } else if n.is("forward-proxy") {
        Some(
            match parse_forward_proxy(n) {
                Ok(c) => Ok(HandlerConfig::ForwardProxy(c)),
                Err(e) => Err(e),
            },
        )
    } else if n.is("cgi") {
        Some(
            match parse_cgi(n) {
                Ok(c) => Ok(HandlerConfig::Cgi(c)),
                Err(e) => Err(e),
            },
        )
    } else if n.is("scgi") {
        Some(
            match parse_scgi(n) {
                Ok(c) => Ok(HandlerConfig::Scgi(c)),
                Err(e) => Err(e),
            },
        )
    } else if n.is("redirect") {
        Some(parse_redirect(n))
    } else if n.is("respond") {
        Some(Ok(parse_respond(n)))
    } else {
        None
    }
}

/// The text that a value is written as.
pub open spec fn value_text(v: ValueView) -> Option<Seq<char>> {
    match v {
        ValueView::Text(s) => Some(s),
        ValueView::Integer(i) => Some(values::int_text(i)),
        ValueView::Bool(true) => Some("true"@),
        ValueView::Bool(false) => Some("false"@),
        ValueView::Other => None,
    }
}

/// The text that a value is written as.
fn write_value(v: &Value) -> (r: Option<String>)
    ensures
        r.deep_view() == value_text(v.deep_view()),
{
    match v {
        Value::Text(s) => Some(s.clone()),
        Value::Integer(i) => Some(values::write_int(*i)),
        Value::Bool(b) => Some(
            if *b {
                "true".to_owned()
            } else {
                "false".to_owned()
            },
        ),
        Value::Other => None,
    }
}

/// The settings that the properties from entry `i` on give; where `plain` is set
/// only those that are texts count.
pub open spec fn settings_from(
    es: Seq<EntryView>,
    i: int,
    plain: bool,
    m: values::TextMap,
) -> values::TextMap
    decreases es.len() - i,
{
    if i < 0 || i >= es.len() {
        m
    } else {
        let v = if plain {
            document::as_text(Some(es[i].value))
        } else {
            value_text(es[i].value)
        };
        match (es[i].label, v) {
            (Some(k), Some(s)) => settings_from(es, i + 1, plain, values::put(m, k, s)),
            _ => settings_from(es, i + 1, plain, m),
        }
    }
}

/// The settings that the nodes from `i` on give: the first argument of each.
pub open spec fn nested_from(ns: Seq<NodeView>, i: int, m: values::TextMap) -> values::TextMap
    decreases ns.len() - i,
{
    if i < 0 || i >= ns.len() {
        m
    } else {
        match document::first_text(ns[i]) {
            Some(s) => nested_from(ns, i + 1, values::put(m, ns[i].name, s)),
            None => nested_from(ns, i + 1, m),
        }
    }
}

/// The middleware of an extension that a node of another name stands for.
pub open spec fn module_hoop(n: NodeView) -> HoopConfigView {
    HoopConfigView::Module {
        name: n.name,
        config: nested_from(
            document::block(n),
            0,
            settings_from(n.entries, 0, false, seq![]),
        ),
    }
}

/// The handler of an extension that a node of another name stands for.
pub open spec fn module_handler(n: NodeView) -> HandlerConfigView {
    HandlerConfigView::Module {
        name: n.name,
        config: settings_from(n.entries, 0, true, seq![]),
    }
}

/// The settings that the properties of a node give.
fn read_settings(n: &Node, plain: bool) -> (m: SortedMap<String, String>)
    ensures
        m.deep_view() == settings_from(n.deep_view().entries, 0, plain, seq![]),
{
    let mut m: SortedMap<String, String> = SortedMap::new();
    assert(m.deep_view() =~= seq![]);
    let ghost es = n.entries.deep_view();
    for i in 0..n.entries.len()
        invariant
            es == n.entries.deep_view(),
            settings_from(es, i as int, plain, m.deep_view()) == settings_from(
                es,
                0,
                plain,
                seq![],
            ),
    {
        assert(es[i as int] == n.entries@[i as int].deep_view());
        let e = &n.entries[i];
        let v = if plain {
            e.value.as_text()
        } else {
            write_value(&e.value)
        };
        if let Some(k) = &e.label {
            if let Some(s) = v {
                m.insert(k.clone(), s);
            }
        }
    }
    m
}

/// Reads a node as the middleware of an extension.
fn parse_module_hoop(n: &Node) -> (r: HoopConfig)
    ensures
        r.deep_view() == module_hoop(n.deep_view()),
{
    let mut m = read_settings(n, false);
    let none: Vec<Node> = Vec::new();
    let ns = nodes_or(n, &none);
    let ghost all = ns.deep_view();
    let ghost start = m.deep_view();
    for i in 0..ns.len()
        invariant
            all == ns.deep_view(),
            nested_from(all, i as int, m.deep_view()) == nested_from(all, 0, start),
    {
        assert(all[i as int] == ns@[i as int].deep_view());
        if let Some(s) = ns[i].first_text() {
            m.insert(ns[i].name.clone(), s);
        }
    }
    HoopConfig::Module { name: n.name.clone(), config: m }
}

/// Names of directives that mean something without an extension.
pub open spec fn known_directive(s: Seq<char>) -> bool {
    ||| s == "match"@
    ||| s == "rate-limit"@
    ||| s == "encode"@
    ||| s == "basic-auth"@
    ||| s == "cache"@
    ||| s == "templates"@
    ||| s == "header-up"@
    ||| s == "header-down"@
    ||| s == "proxy"@
    ||| s == "fastcgi"@
    ||| s == "forward-proxy"@
    ||| s == "cgi"@
    ||| s == "scgi"@
    ||| s == "file-server"@
    ||| s == "root"@
    ||| s == "redirect"@
    ||| s == "respond"@
    ||| s == "ip-filter"@
    ||| s == "rewrite"@
    ||| s == "replace"@
    ||| s == "forward-auth"@
    ||| s == "headers"@
    ||| s == "buffer-limit"@
    ||| s == "cors"@
    ||| s == "timeout"@
    ||| s == "request-id"@
    ||| s == "force-https"@
    ||| s == "trailing-slash"@
    ||| s == "decompress"@
    ||| s == "error-pages"@
    ||| s == "stream-replace"@
    ||| s == "use"@
    ||| s == "if"@
    ||| s == "if-not"@
}

/// Tells whether a directive means something without an extension.
pub fn is_known_directive(s: &str) -> (r: bool)
    ensures
        r == known_directive(s@),
{
    text::same(s, "match") || text::same(s, "rate-limit") || text::same(s, "encode") || text::same(s, "basic-auth") || text::same(s, "cache") || text::same(s, "templates") || text::same(s, "header-up") || text::same(s, "header-down") || text::same(s, "proxy") || text::same(s, "fastcgi") || text::same(s, "forward-proxy") || text::same(s, "cgi") || text::same(s, "scgi") || text::same(s, "file-server") || text::same(s, "root") || text::same(s, "redirect") || text::same(s, "respond") || text::same(s, "ip-filter") || text::same(s, "rewrite") || text::same(s, "replace") || text::same(s, "forward-auth") || text::same(s, "headers") || text::same(s, "buffer-limit") || text::same(s, "cors") || text::same(s, "timeout") || text::same(s, "request-id") || text::same(s, "force-https") || text::same(s, "trailing-slash") || text::same(s, "decompress") || text::same(s, "error-pages") || text::same(s, "stream-replace") || text::same(s, "use") || text::same(s, "if") || text::same(s, "if-not")
}

/// The plain values of a [`RouteParts`].
#[verifier::ext_equal]
pub struct RoutePartsView {
    pub matchers: Seq<MatcherView>,
    pub middlewares: Seq<HoopConfigView>,
    pub handler: Option<HandlerConfigView>,
    pub condition: Option<RouteConditionView>,
}

/// What has been read of a route.
#[derive(Debug, PartialEq, Eq)]
pub struct RouteParts {
    pub matchers: Vec<RequestMatcher>,
    pub middlewares: Vec<HoopConfig>,
    pub handler: Option<HandlerConfig>,
    pub condition: Option<RouteCondition>,
}

impl DeepView for RouteParts {
    type V = RoutePartsView;

    open spec fn deep_view(&self) -> RoutePartsView {
        RoutePartsView {
            matchers: self.matchers.deep_view(),
            middlewares: self.middlewares.deep_view(),
            handler: self.handler.deep_view(),
            condition: self.condition.deep_view(),
        }
    }
}

impl Data for RouteParts {
    fn duplicate(&self) -> (r: RouteParts) {
        RouteParts {
            matchers: self.matchers.duplicate(),
            middlewares: self.middlewares.duplicate(),
            handler: self.handler.duplicate(),
            condition: self.condition.duplicate(),
        }
    }

    fn same_as(&self, other: &RouteParts) -> (r: bool) {
        self.matchers.same_as(&other.matchers) && self.middlewares.same_as(&other.middlewares) && self.handler.same_as(&other.handler) && self.condition.same_as(&other.condition)
    }
}

impl Clone for RouteParts {
    fn clone(&self) -> (r: RouteParts)
        ensures
            r.deep_view() == self.deep_view(),
    {
        self.duplicate()
    }
}

impl Section for RouteParts {
    open spec fn step(a: RoutePartsView, n: NodeView, doc: Seq<NodeView>) -> Read<RoutePartsView> {
        if n.name == "match"@ {
            match parse_hoop::match_node(n) {
                Ok(m) => Ok(RoutePartsView { matchers: a.matchers.push(m), ..a }),
                Err(e) => Err(e),
            }
        } else if n.name == "if"@ || n.name == "if-not"@ {
            match parse_hoop::condition(n, n.name != "if"@) {
                Ok(c) => Ok(RoutePartsView { condition: Some(c), ..a }),
                Err(e) => Err(e),
            }
        } else if let Some(h) = hoop(n) {
            match h {
                Ok(h) => Ok(RoutePartsView { middlewares: a.middlewares.push(h), ..a }),
                Err(e) => Err(e),
            }
        } else if let Some(h) = handler(n) {
            match h {
                Ok(h) => Ok(RoutePartsView { handler: Some(h), ..a }),
                Err(e) => Err(e),
            }
        } else if n.name == "header-up"@ || n.name == "header-down"@ || n.name == "file-server"@
            || n.name == "root"@ {
            Ok(a)
        } else {
            Ok(RoutePartsView { middlewares: a.middlewares.push(module_hoop(n)), ..a })
        }
    }

    fn apply(self, n: &Node, doc: &Vec<Node>) -> (r: Result<RouteParts, ConfigError>) {
        let mut a = self;
        if n.is("match") {
            match parse_matcher(n) {
                Ok(m) => {
                    let ghost before = a.matchers.deep_view();
                    let ghost x = m.deep_view();
                    a.matchers.push(m);
                    assert(a.matchers.deep_view() =~= before.push(x));
                },
                Err(e) => return Err(e),
            }
        } else if n.is("if") || n.is("if-not") {
            match parse_route_condition(n, !n.is("if")) {
                Ok(c) => {
                    a.condition = Some(c);
                },
                Err(e) => return Err(e),
            }
        } else if let Some(h) = parse_hoop_node(n) {
            match h {
                Ok(h) => {
                    let ghost before = a.middlewares.deep_view();
                    let ghost x = h.deep_view();
                    a.middlewares.push(h);
                    assert(a.middlewares.deep_view() =~= before.push(x));
                },
                Err(e) => return Err(e),
            }
        } else if let Some(h) = parse_handler_node(n) {
            match h {
                Ok(h) => {
                    a.handler = Some(h);
                },
                Err(e) => return Err(e),
            }
        } else if n.is("header-up") || n.is("header-down") || n.is("file-server") || n.is("root") {
        } else {
            let ghost before = a.middlewares.deep_view();
            let h = parse_module_hoop(n);
            let ghost x = h.deep_view();
            a.middlewares.push(h);
            assert(a.middlewares.deep_view() =~= before.push(x));
        }
        Ok(a)
    }
}

/// The snippet of a name among the first `k` nodes of a document: the last counts.
pub open spec fn snippet(doc: Seq<NodeView>, name: Seq<char>, k: int) -> Option<NodeView>
    decreases k,
{
    if k <= 0 || k > doc.len() {
        None
    } else if doc[k - 1].name == "snippet"@ && document::first_text(doc[k - 1]) == Some(name) {
        Some(doc[k - 1])
    } else {
        snippet(doc, name, k - 1)
    }
}

/// The snippet of a name.
fn find_snippet<'a>(doc: &'a Vec<Node>, name: &str) -> (r: Option<&'a Node>)
    ensures
        match r {
            Some(n) => snippet(doc.deep_view(), name@, doc@.len() as int) == Some(n.deep_view()),
            None => snippet(doc.deep_view(), name@, doc@.len() as int) is None,
        },
{
    let mut k: usize = doc.len();
    while k > 0
        invariant
            k <= doc.len(),
            snippet(doc.deep_view(), name@, doc@.len() as int) == snippet(
                doc.deep_view(),
                name@,
                k as int,
            ),
        decreases k,
    {
        assert(doc.deep_view()[k - 1] == doc@[k - 1].deep_view());
        if doc[k - 1].is("snippet") {
            if let Some(s) = doc[k - 1].first_text() {
                if text::same(s.as_str(), name) {
                    return Some(&doc[k - 1]);
                }
            }
        }
        k = k - 1;
    }
    None
}

/// The nodes of a route from `i` on, with the nodes of a snippet in place of each
/// `use` of it.
pub open spec fn effective_from(ns: Seq<NodeView>, i: int, doc: Seq<NodeView>) -> Read<
    Seq<NodeView>,
>
    decreases ns.len() - i,
{
    if i < 0 || i >= ns.len() {
        Ok(seq![])
    } else {
        let here = if ns[i].name != "use"@ {
            Ok(seq![ns[i]])
        } else {
            match document::first_text(ns[i]) {
                None => Ok(seq![]),
                Some(name) => match snippet(doc, name, doc.len() as int) {
                    Some(s) => Ok(document::block(s)),
                    None => Err(error::invalid("use"@, "unknown snippet: "@ + name)),
                },
            }
        };
        match here {
            Err(e) => Err(e),
            Ok(h) => match effective_from(ns, i + 1, doc) {
                Ok(rest) => Ok(h + rest),
                Err(e) => Err(e),
            },
        }
    }
}

/// What comes before joined to what was read after it.
pub open spec fn prepended(before: Seq<NodeView>, rest: Read<Seq<NodeView>>) -> Read<
    Seq<NodeView>,
> {
    match rest {
        Ok(r) => Ok(before + r),
        Err(e) => Err(e),
    }
}

/// Appends the nodes of a list.
fn add_nodes<'a>(out: &mut Vec<&'a Node>, ns: &'a Vec<Node>)
    ensures
        final(out).deep_view() == old(out).deep_view() + ns.deep_view(),
{
    let ghost start = out.deep_view();
    assert(start =~= start + ns.deep_view().take(0));
    for i in 0..ns.len()
        invariant
            out.deep_view() == start + ns.deep_view().take(i as int),
    {
        let ghost before = out.deep_view();
        out.push(&ns[i]);
        assert(out.deep_view() =~= before.push(ns@[i as int].deep_view()));
        assert(ns.deep_view().take(i + 1) =~= ns.deep_view().take(i as int).push(
            ns@[i as int].deep_view(),
        ));
    }
    assert(ns.deep_view().take(ns.deep_view().len() as int) =~= ns.deep_view());
}

/// The nodes of a route, with the nodes of a snippet in place of each `use` of it.
fn effective_nodes<'a>(ns: &'a Vec<Node>, doc: &'a Vec<Node>) -> (r: Result<
    Vec<&'a Node>,
    ConfigError,
>)
    ensures
        match r {
            Ok(v) => effective_from(ns.deep_view(), 0, doc.deep_view()) == Ok::<
                Seq<NodeView>,
                ConfigErrorView,
            >(v.deep_view()),
            Err(e) => effective_from(ns.deep_view(), 0, doc.deep_view()) == Err::<
                Seq<NodeView>,
                ConfigErrorView,
            >(e.deep_view()),
        },
{
    let ghost (all, d) = (ns.deep_view(), doc.deep_view());
    let mut out: Vec<&'a Node> = Vec::new();
    assert(out.deep_view() =~= seq![]);
    proof {
        if let Ok(x) = effective_from(all, 0, d) {
            assert(out.deep_view() + x =~= x);
        }
    }
    for i in 0..ns.len()
        invariant
            all == ns.deep_view(),
            d == doc.deep_view(),
            prepended(out.deep_view(), effective_from(all, i as int, d)) == effective_from(
                all,
                0,
                d,
            ),
    {
        assert(all[i as int] == ns@[i as int].deep_view());
        let ghost before = out.deep_view();
        let ghost rest = effective_from(all, i + 1, d);
        if !ns[i].is("use") {
            out.push(&ns[i]);
            assert(out.deep_view() =~= before.push(all[i as int]));
            proof {
                if let Ok(x) = rest {
                    assert(out.deep_view() + x =~= before + (seq![all[i as int]] + x));
                }
            }
        } else if let Some(name) = ns[i].first_text() {
            match find_snippet(doc, name.as_str()) {
                Some(s) => {
                    proof {
                        document::lemma_children(*s);
                    }
                    let ghost block = document::block(s.deep_view());
                    if let Some(c) = &s.children {
                        add_nodes(&mut out, c);
                    } else {
                        assert(out.deep_view() + block =~= out.deep_view());
                    }
                    proof {
                        if let Ok(x) = rest {
                            assert(out.deep_view() + x =~= before + (block + x));
                        }
                    }
                },
                None => return Err(
                    invalid_value("use", text::join("unknown snippet: ", name.as_str())),
                ),
            }
        } else {
            proof {
                if let Ok(x) = rest {
                    assert(before + (seq![] + x) =~= before + x);
                }
            }
        }
    }
    assert(out.deep_view() + seq![] =~= out.deep_view());
    Ok(out)
}

/// The first node from `i` on whose name means nothing without an extension.
pub open spec fn first_unknown(ns: Seq<NodeView>, i: int) -> Option<NodeView>
    decreases ns.len() - i,
{
    if i < 0 || i >= ns.len() {
        None
    } else if !known_directive(ns[i].name) {
        Some(ns[i])
    } else {
        first_unknown(ns, i + 1)
    }
}

/// The first node whose name means nothing without an extension.
fn find_unknown<'a>(ns: &Vec<&'a Node>) -> (r: Option<&'a Node>)
    ensures
        match r {
            Some(n) => first_unknown(ns.deep_view(), 0) == Some(n.deep_view()),
            None => first_unknown(ns.deep_view(), 0) is None,
        },
{
    for i in 0..ns.len()
        invariant
            first_unknown(ns.deep_view(), 0) == first_unknown(ns.deep_view(), i as int),
    {
        assert(ns.deep_view()[i as int] == ns@[i as int].deep_view());
        if !is_known_directive(ns[i].name.as_str()) {
            return Some(ns[i]);
        }
    }
    None
}

/// The handler that the nodes give where none of them sets one directly: files, or
/// an extension.
pub open spec fn implied_handler(ns: Seq<NodeView>) -> Option<HandlerConfigView> {
    match document::first_named(ns, "file-server"@, 0) {
        Some(n) => Some(HandlerConfigView::FileServer(parse_handler::file_server(n, ns))),
        None => match first_unknown(ns, 0) {
            Some(n) => Some(module_handler(n)),
            None => None,
        },
    }
}

/// The handler that the nodes give where none of them sets one directly.
fn find_implied_handler(ns: &Vec<&Node>) -> (r: Option<HandlerConfig>)
    ensures
        r.deep_view() == implied_handler(ns.deep_view()),
{
    match document::find_first(ns, "file-server") {
        Some(n) => Some(HandlerConfig::FileServer(parse_file_server(n, ns))),
        None => match find_unknown(ns) {
            Some(n) => Some(
                HandlerConfig::Module { name: n.name.clone(), config: read_settings(n, true) },
            ),
            None => None,
        },
    }
}

/// A route of which nothing has been read.
pub open spec fn no_parts() -> RoutePartsView {
    RoutePartsView { matchers: seq![], middlewares: seq![], handler: None, condition: None }
}

/// What a `route` node says.
pub open spec fn route(path: Seq<char>, n: NodeView, doc: Seq<NodeView>) -> Read<RouteConfigView> {
    match n.children {
        None => Err(error::missing("route handler"@)),
        Some(c) => match effective_from(c, 0, doc) {
            Err(e) => Err(e),
            Ok(ns) => match read::<RouteParts>(no_parts(), ns, 0, doc) {
                Err(e) => Err(e),
                Ok(p) => {
                    let h = match p.handler {
                        Some(h) => Some(h),
                        None => implied_handler(ns),
                    };
                    match h {
                        None => Err(error::missing("route must have a handler"@)),
                        Some(handler) => Ok(
                            RouteConfigView {
                                path,
                                matchers: p.matchers,
                                middlewares: p.middlewares,
                                handler,
                                condition: p.condition,
                            },
                        ),
                    }
                },
            },
        },
    }
}

/// Reads a `route` node.
pub fn parse_route(path: &str, n: &Node, doc: &Vec<Node>) -> (r: Result<RouteConfig, ConfigError>)
    ensures
        data::outcome(r) == route(path@, n.deep_view(), doc.deep_view()),
{
    proof {
        document::lemma_children(*n);
    }
    let c = match &n.children {
        Some(c) => c,
        None => return Err(missing_field("route handler")),
    };
    let ns = match effective_nodes(c, doc) {
        Ok(ns) => ns,
        Err(e) => return Err(e),
    };
    let start = RouteParts {
        matchers: Vec::new(),
        middlewares: Vec::new(),
        handler: None,
        condition: None,
    };
    assert(start.deep_view() =~= no_parts());
    let p = match read_all(start, &ns, doc) {
        Ok(p) => p,
        Err(e) => return Err(e),
    };
    let handler = match p.handler {
        Some(h) => Some(h),
        None => find_implied_handler(&ns),
    };
    match handler {
        Some(handler) => Ok(
            RouteConfig {
                path: path.to_owned(),
                matchers: p.matchers,
                middlewares: p.middlewares,
                handler,
                condition: p.condition,
            },
        ),
        None => Err(missing_field("route must have a handler")),
    }
}

// ---------------------------------------------------------------------------
// Sites and streams
// ---------------------------------------------------------------------------

impl Section for SiteTlsConfig {
    open spec fn step(a: SiteTlsConfigView, n: NodeView, doc: Seq<NodeView>) -> Read<
        SiteTlsConfigView,
    > {
        if n.name == "cert"@ {
            match document::first_text(n) {
                Some(cert) => Ok(SiteTlsConfigView { cert, ..a }),
                None => Err(error::missing("tls cert path"@)),
            }
        } else if n.name == "key"@ {
            match document::first_text(n) {
                Some(key) => Ok(SiteTlsConfigView { key, ..a }),
                None => Err(error::missing("tls key path"@)),
            }
        } else {
            Err(ConfigErrorView::UnknownDirective(n.name))
        }
    }

    fn apply(self, n: &Node, doc: &Vec<Node>) -> (r: Result<SiteTlsConfig, ConfigError>) {
        let mut a = self;
        if n.is("cert") {
            match n.first_text() {
                Some(s) => {
                    a.cert = s;
                },
                None => return Err(missing_field("tls cert path")),
            }
        } else if n.is("key") {
            match n.first_text() {
                Some(s) => {
                    a.key = s;
                },
                None => return Err(missing_field("tls key path")),
            }
        } else {
            return Err(unknown_directive(n.name.as_str()));
        }
        Ok(a)
    }
}

/// What a `tls` node of a site says.
pub open spec fn site_tls(n: NodeView) -> Read<SiteTlsConfigView> {
    match n.children {
        None => Err(error::missing("tls cert/key"@)),
        Some(ns) => match read::<SiteTlsConfig>(
            SiteTlsConfigView { cert: ""@, key: ""@ },
            ns,
            0,
            seq![],
        ) {
            Err(e) => Err(e),
            Ok(a) => if a.cert.len() == 0 || a.key.len() == 0 {
                Err(error::missing("tls cert and key"@))
            } else {
                Ok(a)
            },
        },
    }
}

/// Reads a `tls` node of a site.
pub fn parse_site_tls(n: &Node) -> (r: Result<SiteTlsConfig, ConfigError>)
    ensures
        data::outcome(r) == site_tls(n.deep_view()),
{
    proof {
        document::lemma_children(*n);
    }
    let c = match &n.children {
        Some(c) => c,
        None => return Err(missing_field("tls cert/key")),
    };
    let none: Vec<Node> = Vec::new();
    assert(none.deep_view() =~= seq![]);
    match read_all(SiteTlsConfig { cert: "".to_owned(), key: "".to_owned() }, &refs(c), &none) {
        Ok(a) => {
            if a.cert.as_str().is_empty() || a.key.as_str().is_empty() {
                Err(missing_field("tls cert and key"))
            } else {
                Ok(a)
            }
        },
        Err(e) => Err(e),
    }
}

impl Section for SiteConfig {
    open spec fn step(a: SiteConfigView, n: NodeView, doc: Seq<NodeView>) -> Read<SiteConfigView> {
        if n.name == "tls"@ {
            match site_tls(n) {
                Ok(t) => Ok(SiteConfigView { tls: Some(t), ..a }),
                Err(e) => Err(e),
            }
        } else if n.name == "route"@ {
            match document::first_text(n) {
                None => Err(error::missing("route path"@)),
                Some(path) => match route(path, n, doc) {
                    Ok(r) => Ok(SiteConfigView { routes: a.routes.push(r), ..a }),
                    Err(e) => Err(e),
                },
            }
        } else {
            Err(ConfigErrorView::UnknownDirective(n.name))
        }
    }

    fn apply(self, n: &Node, doc: &Vec<Node>) -> (r: Result<SiteConfig, ConfigError>) {
        let mut a = self;
        if n.is("tls") {
            match parse_site_tls(n) {
                Ok(t) => {
                    a.tls = Some(t);
                },
                Err(e) => return Err(e),
            }
        } else if n.is("route") {
            let path = match n.first_text() {
                Some(s) => s,
                None => return Err(missing_field("route path")),
            };
            match parse_route(path.as_str(), n, doc) {
                Ok(r) => {
                    let ghost before = a.routes.deep_view();
                    let ghost x = r.deep_view();
                    a.routes.push(r);
                    assert(a.routes.deep_view() =~= before.push(x));
                },
                Err(e) => return Err(e),
            }
        } else {
            return Err(unknown_directive(n.name.as_str()));
        }
        Ok(a)
    }
}

/// What a `site` node says.
pub open spec fn site(host: Seq<char>, n: NodeView, doc: Seq<NodeView>) -> Read<SiteConfigView> {
    read::<SiteConfig>(
        SiteConfigView { host, tls: None, routes: seq![] },
        document::block(n),
        0,
        doc,
    )
}

/// Reads a `site` node.
pub fn parse_site(host: &str, n: &Node, doc: &Vec<Node>) -> (r: Result<SiteConfig, ConfigError>)
    ensures
        data::outcome(r) == site(host@, n.deep_view(), doc.deep_view()),
{
    let none: Vec<Node> = Vec::new();
    let start = SiteConfig { host: host.to_owned(), tls: None, routes: Vec::new() };
    assert(start.deep_view().routes =~= seq![]);
    read_all(start, &refs(nodes_or(n, &none)), doc)
}

impl Section for StreamConfig {
    open spec fn step(a: StreamConfigView, n: NodeView, doc: Seq<NodeView>) -> Read<
        StreamConfigView,
    > {
        if n.name != "listen"@ {
            Ok(a)
        } else {
            match document::first_text(n) {
                None => Err(error::missing("stream listen address"@)),
                Some(s) => match values::listen_addr(s) {
                    Err(e) => Err(e),
                    Ok(listen) => {
                        let target = match document::first_named(
                            document::block(n),
                            "proxy"@,
                            0,
                        ) {
                            Some(p) => document::first_text(p),
                            None => None,
                        };
                        match target {
                            None => Err(error::missing("stream proxy target"@)),
                            Some(proxy) => Ok(
                                StreamConfigView {
                                    listeners: a.listeners.push(
                                        StreamListenerConfigView { listen, proxy },
                                    ),
                                },
                            ),
                        }
                    },
                },
            }
        }
    }

    fn apply(self, n: &Node, doc: &Vec<Node>) -> (r: Result<StreamConfig, ConfigError>) {
        let mut a = self;
        if n.is("listen") {
            let s = match n.first_text() {
                Some(s) => s,
                None => return Err(missing_field("stream listen address")),
            };
            let listen = match parse_listen_addr(s.as_str()) {
                Ok(l) => l,
                Err(e) => return Err(e),
            };
            let none: Vec<Node> = Vec::new();
            let ns = refs(nodes_or(n, &none));
            let target = match document::find_first(&ns, "proxy") {
                Some(p) => p.first_text(),
                None => None,
            };
            match target {
                Some(proxy) => {
                    let ghost before = a.listeners.deep_view();
                    let ghost x = StreamListenerConfigView { listen, proxy: proxy@ };
                    a.listeners.push(StreamListenerConfig { listen, proxy });
                    assert(a.listeners.deep_view() =~= before.push(x));
                },
                None => return Err(missing_field("stream proxy target")),
            }
        }
        Ok(a)
    }
}

/// What a `stream` node says.
pub open spec fn stream(n: NodeView) -> Read<StreamConfigView> {
    read::<StreamConfig>(StreamConfigView { listeners: seq![] }, document::block(n), 0, seq![])
}

/// Reads a `stream` node.
pub fn parse_stream(n: &Node) -> (r: Result<StreamConfig, ConfigError>)
    ensures
        data::outcome(r) == stream(n.deep_view()),
{
    let none: Vec<Node> = Vec::new();
    assert(none.deep_view() =~= seq![]);
    let start = StreamConfig { listeners: Vec::new() };
    assert(start.deep_view().listeners =~= seq![]);
    read_all(start, &refs(nodes_or(n, &none)), &none)
}

// ---------------------------------------------------------------------------
// The whole configuration
// ---------------------------------------------------------------------------

impl Section for AppConfig {
    open spec fn step(a: AppConfigView, n: NodeView, doc: Seq<NodeView>) -> Read<AppConfigView> {
        if n.name == "snippet"@ {
            Ok(a)
        } else if n.name == "global"@ {
            match global(n) {
                Ok(g) => Ok(AppConfigView { global: g, ..a }),
                Err(e) => Err(e),
            }
        } else if n.name == "tls"@ {
            match tls(n) {
                Ok(t) => Ok(AppConfigView { tls: Some(t), ..a }),
                Err(e) => Err(e),
            }
        } else if n.name == "site"@ {
            match document::first_text(n) {
                None => Err(error::missing("site host"@)),
                Some(host) => match site(host, n, doc) {
                    Ok(s) => Ok(AppConfigView { sites: a.sites.push(s), ..a }),
                    Err(e) => Err(e),
                },
            }
        } else if n.name == "stream"@ {
            match stream(n) {
                Ok(s) => Ok(AppConfigView { stream: Some(s), ..a }),
                Err(e) => Err(e),
            }
        } else {
            Err(ConfigErrorView::UnknownDirective(n.name))
        }
    }

    fn apply(self, n: &Node, doc: &Vec<Node>) -> (r: Result<AppConfig, ConfigError>) {
        let mut a = self;
        if n.is("snippet") {
        } else if n.is("global") {
            match parse_global(n) {
                Ok(g) => {
                    a.global = g;
                },
                Err(e) => return Err(e),
            }
        } else if n.is("tls") {
            match parse_tls(n) {
                Ok(t) => {
                    a.tls = Some(t);
                },
                Err(e) => return Err(e),
            }
        } else if n.is("site") {
            let host = match n.first_text() {
                Some(s) => s,
                None => return Err(missing_field("site host")),
            };
            match parse_site(host.as_str(), n, doc) {
                Ok(s) => {
                    let ghost before = a.sites.deep_view();
                    let ghost x = s.deep_view();
                    a.sites.push(s);
                    assert(a.sites.deep_view() =~= before.push(x));
                },
                Err(e) => return Err(e),
            }
        } else if n.is("stream") {
            match parse_stream(n) {
                Ok(s) => {
                    a.stream = Some(s);
                },
                Err(e) => return Err(e),
            }
        } else {
            return Err(unknown_directive(n.name.as_str()));
        }
        Ok(a)
    }
}

/// The configuration for which nothing is said.
pub open spec fn default_config() -> AppConfigView {
    AppConfigView { global: types::default_global(), tls: None, sites: seq![], stream: None }
}

/// The configuration that a document stands for.
pub open spec fn configured(doc: Seq<NodeView>) -> Read<AppConfigView> {
    read::<AppConfig>(default_config(), doc, 0, doc)
}

/// Reads the configuration that a document stands for.
pub fn parse_nodes(doc: &Vec<Node>) -> (r: Result<AppConfig, ConfigError>)
    ensures
        data::outcome(r) == configured(doc.deep_view()),
{
    read_all(AppConfig::default(), &refs(doc), doc)
}

/// Reads a configuration in the KDL language.
///
/// Blocks named `snippet` are kept aside; a route takes one in with `use`.
pub fn parse_config(input: &str) -> (r: Result<AppConfig, ConfigError>)
    ensures
        data::outcome(r) == (match document::kdl_document(input@) {
            Ok(doc) => configured(doc),
            Err(e) => Err(ConfigErrorView::Kdl(e)),
        }),
{
    match parse_document(input) {
        Ok(doc) => parse_nodes(&doc),
        Err(e) => Err(ConfigError::Kdl(e)),
    }
}

// ---------------------------------------------------------------------------
// A configuration out of a few settings
// ---------------------------------------------------------------------------

/// The plain values of [`AutoConfigVars`].
#[verifier::ext_equal]
pub struct AutoConfigVarsView {
    pub http_addr: Option<Seq<char>>,
    pub https_addr: Option<Seq<char>>,
    pub admin_addr: Option<Seq<char>>,
    pub acme_email: Option<Seq<char>>,
    pub acme_ca: Option<Seq<char>>,
    pub host: Option<Seq<char>>,
    pub upstream: Option<Seq<char>>,
}

/// The settings that a short configuration is made of. Each is the value of an
/// environment variable, where it is set.
#[derive(Debug, PartialEq, Eq)]
pub struct AutoConfigVars {
    /// `GATEL_HTTP_ADDR`: where plain HTTP is served.
    pub http_addr: Option<String>,
    /// `GATEL_HTTPS_ADDR`: where HTTPS is served.
    pub https_addr: Option<String>,
    /// `GATEL_ADMIN_ADDR`: where the admin API is served.
    pub admin_addr: Option<String>,
    /// `GATEL_ACME_EMAIL`: turns certificates on.
    pub acme_email: Option<String>,
    /// `GATEL_ACME_CA`: `letsencrypt` where it is not set.
    pub acme_ca: Option<String>,
    /// `GATEL_HOST`: the host of the site.
    pub host: Option<String>,
    /// `GATEL_UPSTREAM`: where the site is proxied to.
    pub upstream: Option<String>,
}

impl DeepView for AutoConfigVars {
    type V = AutoConfigVarsView;

    open spec fn deep_view(&self) -> AutoConfigVarsView {
        AutoConfigVarsView {
            http_addr: self.http_addr.deep_view(),
            https_addr: self.https_addr.deep_view(),
            admin_addr: self.admin_addr.deep_view(),
            acme_email: self.acme_email.deep_view(),
            acme_ca: self.acme_ca.deep_view(),
            host: self.host.deep_view(),
            upstream: self.upstream.deep_view(),
        }
    }
}

/// A line that sets something, where it is set.
pub open spec fn setting_line(start: Seq<char>, v: Option<Seq<char>>) -> Seq<char> {
    match v {
        Some(s) => start + s + "\"\n"@,
        None => ""@,
    }
}

/// The text of a configuration out of a few settings; none where nothing of weight
/// is set.
pub open spec fn auto_config(v: AutoConfigVarsView) -> Option<Seq<char>> {
    if v.http_addr is None && v.https_addr is None && v.admin_addr is None && v.acme_email is None
        && v.host is None && v.upstream is None {
        None
    } else {
        Some(
            "global {\n"@ + setting_line("    http \""@, v.http_addr) + setting_line(
                "    https \""@,
                v.https_addr,
            ) + setting_line("    admin \""@, v.admin_addr) + "}\n"@ + (match v.acme_email {
                Some(email) => "tls {\n    acme {\n"@ + setting_line(
                    "        email \""@,
                    Some(email),
                ) + setting_line(
                    "        ca \""@,
                    Some(document::or(v.acme_ca, "letsencrypt"@)),
                ) + "    }\n}\n"@,
                None => ""@,
            }) + (match v.upstream {
                Some(addr) => "site \""@ + document::or(v.host, "*"@)
                    + "\" {\n    route \"/*\" {\n"@ + setting_line(
                    "        proxy \""@,
                    Some(addr),
                ) + "    }\n}\n"@,
                None => ""@,
            }),
        )
    }
}

/// Writes a line that sets something, where it is set.
fn write_setting(start: &str, v: &Option<String>) -> (r: String)
    ensures
        r@ == setting_line(start@, v.deep_view()),
{
    match v {
        Some(s) => text::join3(start, s.as_str(), "\"\n"),
        None => "".to_owned(),
    }
}

/// Writes a configuration out of a few settings; none where nothing of weight is
/// set.
pub fn auto_config_from_env(v: &AutoConfigVars) -> (r: Option<String>)
    ensures
        r.deep_view() == auto_config(v.deep_view()),
{
    if v.http_addr.is_none() && v.https_addr.is_none() && v.admin_addr.is_none()
        && v.acme_email.is_none() && v.host.is_none() && v.upstream.is_none() {
        return None;
    }
    let out = text::join("global {\n", write_setting("    http \"", &v.http_addr).as_str());
    let out = text::join(out.as_str(), write_setting("    https \"", &v.https_addr).as_str());
    let out = text::join3(
        out.as_str(),
        write_setting("    admin \"", &v.admin_addr).as_str(),
        "}\n",
    );
    let tls = match &v.acme_email {
        Some(email) => {
            let ca = text_or(v.acme_ca.duplicate(), "letsencrypt");
            let t = text::join(
                "tls {\n    acme {\n",
                write_setting("        email \"", &v.acme_email).as_str(),
            );
            text::join3(
                t.as_str(),
                write_setting("        ca \"", &Some(ca)).as_str(),
                "    }\n}\n",
            )
        },
        None => "".to_owned(),
    };
    let site = match &v.upstream {
        Some(addr) => {
            let host = text_or(v.host.duplicate(), "*");
            let t = text::join3("site \"", host.as_str(), "\" {\n    route \"/*\" {\n");
            text::join3(
                t.as_str(),
                write_setting("        proxy \"", &v.upstream).as_str(),
                "    }\n}\n",
            )
        },
        None => "".to_owned(),
    };
    Some(text::join3(out.as_str(), tls.as_str(), site.as_str()))
}

// ---------------------------------------------------------------------------
// What holds of every document
// ---------------------------------------------------------------------------

/// The nodes of a block take effect one after the other, and the first that is wrong ends
/// the reading.
pub proof fn lemma_read_in_order<S: Section>(
    a: S::V,
    ns: Seq<NodeView>,
    n: NodeView,
    i: int,
    doc: Seq<NodeView>,
)
    requires
        0 <= i <= ns.len(),
    ensures
        read::<S>(a, ns.push(n), i, doc) == match read::<S>(a, ns, i, doc) {
            Ok(b) => S::step(b, n, doc),
            Err(e) => Err(e),
        },
    decreases ns.len() - i,
{
    let all = ns.push(n);
    if i < ns.len() {
        assert(all[i] == ns[i]);
        if let Ok(b) = S::step(a, ns[i], doc) {
            lemma_read_in_order::<S>(b, ns, n, i + 1, doc);
        }
    } else {
        assert(all[i] == n);
        if let Ok(b) = S::step(a, n, doc) {
            assert(read::<S>(b, all, i + 1, doc) == Ok::<S::V, ConfigErrorView>(b));
        }
    }
}

/// A site of a document stands behind those before it, with its host and its routes; the
/// rest of the configuration stays. A node that is none of the known ones is refused.
pub proof fn lemma_site_added(
    a: AppConfigView,
    n: NodeView,
    doc: Seq<NodeView>,
    host: Seq<char>,
    s: SiteConfigView,
)
    ensures
        n.name == "site"@ && document::first_text(n) == Some(host) && site(host, n, doc) == Ok::<
            SiteConfigView,
            ConfigErrorView,
        >(s) ==> <AppConfig as Section>::step(a, n, doc) == Ok::<AppConfigView, ConfigErrorView>(
            AppConfigView { sites: a.sites.push(s), ..a },
        ),
        n.name == "site"@ && document::first_text(n) is None ==> <AppConfig as Section>::step(
            a,
            n,
            doc,
        ) is Err,
        n.name == "snippet"@ ==> <AppConfig as Section>::step(a, n, doc) == Ok::<
            AppConfigView,
            ConfigErrorView,
        >(a),
        n.name != "snippet"@ && n.name != "global"@ && n.name != "tls"@ && n.name != "site"@
            && n.name != "stream"@ ==> <AppConfig as Section>::step(a, n, doc) == Err::<
            AppConfigView,
            ConfigErrorView,
        >(ConfigErrorView::UnknownDirective(n.name)),
{
    lemma_names_of_sections();
}

/// The names of the sections of a document differ.
proof fn lemma_names_of_sections()
    ensures
        "site"@ != "snippet"@,
        "site"@ != "global"@,
        "site"@ != "tls"@,
        "route"@ != "tls"@,
{
    reveal_strlit("site");
    reveal_strlit("snippet");
    reveal_strlit("global");
    reveal_strlit("tls");
    reveal_strlit("route");
    assert("site"@.len() == 4 && "snippet"@.len() == 7 && "global"@.len() == 6 && "tls"@.len() == 3
        && "route"@.len() == 5);
}

/// A site has the host that is given and its routes in their order, each with its path;
/// what is neither a route nor a certificate is refused.
pub proof fn lemma_route_added(
    a: SiteConfigView,
    n: NodeView,
    doc: Seq<NodeView>,
    path: Seq<char>,
    r: RouteConfigView,
)
    ensures
        n.name == "route"@ && document::first_text(n) == Some(path) && route(path, n, doc) == Ok::<
            RouteConfigView,
            ConfigErrorView,
        >(r) ==> <SiteConfig as Section>::step(a, n, doc) == Ok::<SiteConfigView, ConfigErrorView>(
            SiteConfigView { routes: a.routes.push(r), ..a },
        ) && r.path == path,
        n.name != "route"@ && n.name != "tls"@ ==> <SiteConfig as Section>::step(a, n, doc) is Err,
        n.name == "route"@ && document::first_text(n) is None ==> <SiteConfig as Section>::step(
            a,
            n,
            doc,
        ) is Err,
{
    lemma_names_of_sections();
}

/// A route without a block, or whose block gives no handler, is refused.
pub proof fn lemma_route_needs_handler(path: Seq<char>, n: NodeView, doc: Seq<NodeView>)
    ensures
        n.children is None ==> route(path, n, doc) is Err,
        n.children == Some(Seq::<NodeView>::empty()) ==> route(path, n, doc) is Err,
        route(path, n, doc) matches Ok(r) ==> r.path == path,
{
    if n.children == Some(Seq::<NodeView>::empty()) {
        let none = Seq::<NodeView>::empty();
        assert(effective_from(none, 0, doc) == Ok::<Seq<NodeView>, ConfigErrorView>(none));
        assert(document::first_named(none, "file-server"@, 0) is None);
        assert(first_unknown(none, 0) is None);
    }
}

/// A matcher and a middleware of a route stand behind those before them, and what sets the
/// handler or the condition sets that alone.
pub proof fn lemma_route_part_added(a: RoutePartsView, n: NodeView, doc: Seq<NodeView>)
    ensures
        ({
            let r = <RouteParts as Section>::step(a, n, doc);
            let apart = n.name != "match"@ && n.name != "if"@ && n.name != "if-not"@;
            &&& n.name == "match"@ ==> (match parse_hoop::match_node(n) {
                Ok(m) => r matches Ok(b) && b == (RoutePartsView {
                    matchers: a.matchers.push(m),
                    ..a
                }),
                Err(e) => r is Err,
            })
            &&& n.name == "if"@ ==> (match parse_hoop::condition(n, false) {
                Ok(c) => r matches Ok(b) && b == (RoutePartsView { condition: Some(c), ..a }),
                Err(e) => r is Err,
            })
            &&& n.name == "if-not"@ ==> (match parse_hoop::condition(n, true) {
                Ok(c) => r matches Ok(b) && b == (RoutePartsView { condition: Some(c), ..a }),
                Err(e) => r is Err,
            })
            &&& apart && hoop(n) is Some ==> (match hoop(n)->0 {
                Ok(h) => r matches Ok(b) && b == (RoutePartsView {
                    middlewares: a.middlewares.push(h),
                    ..a
                }),
                Err(e) => r is Err,
            })
            &&& apart && hoop(n) is None && handler(n) is Some ==> (match handler(n)->0 {
                Ok(h) => r matches Ok(b) && b == (RoutePartsView { handler: Some(h), ..a }),
                Err(e) => r is Err,
            })
        }),
{
    reveal_strlit("match");
    reveal_strlit("if");
    reveal_strlit("if-not");
    assert("match"@.len() == 5 && "if"@.len() == 2 && "if-not"@.len() == 6);
}

/// Where a route uses a snippet, the nodes of the snippet stand in its place; all other
/// nodes stay where they are, and a snippet that there is none of is refused.
pub proof fn lemma_snippets_taken_in(
    ns: Seq<NodeView>,
    n: NodeView,
    i: int,
    doc: Seq<NodeView>,
    name: Seq<char>,
)
    requires
        0 <= i <= ns.len(),
    ensures
        ({
            let before = effective_from(ns, i, doc);
            let all = effective_from(ns.push(n), i, doc);
            &&& n.name != "use"@ && before is Ok ==> all == Ok::<Seq<NodeView>, ConfigErrorView>(
                before->Ok_0.push(n),
            )
            &&& n.name == "use"@ && document::first_text(n) == Some(name) && before is Ok
                && snippet(doc, name, doc.len() as int) is Some ==> all == Ok::<
                Seq<NodeView>,
                ConfigErrorView,
            >(before->Ok_0 + document::block(snippet(doc, name, doc.len() as int)->0))
            &&& n.name == "use"@ && document::first_text(n) == Some(name) && snippet(
                doc,
                name,
                doc.len() as int,
            ) is None ==> all is Err
            &&& before is Err ==> all is Err
        }),
    decreases ns.len() - i,
{
    let list = ns.push(n);
    if i < ns.len() {
        assert(list[i] == ns[i]);
        lemma_snippets_taken_in(ns, n, i + 1, doc, name);
        let rest = effective_from(ns, i + 1, doc);
        if let (Ok(a), Ok(b)) = (rest, effective_from(ns, i, doc)) {
            let h = if ns[i].name != "use"@ {
                seq![ns[i]]
            } else {
                match document::first_text(ns[i]) {
                    None => seq![],
                    Some(x) => document::block(snippet(doc, x, doc.len() as int)->0),
                }
            };
            assert(b == h + a);
            assert((h + a).push(n) =~= h + a.push(n));
            let more = document::block(snippet(doc, name, doc.len() as int)->0);
            assert((h + a) + more =~= h + (a + more));
        }
    } else {
        assert(list[i] == n);
        let none = Seq::<NodeView>::empty();
        assert(effective_from(list, i + 1, doc) == Ok::<Seq<NodeView>, ConfigErrorView>(none));
        assert(effective_from(ns, i, doc) == Ok::<Seq<NodeView>, ConfigErrorView>(none));
        assert(seq![n] + none =~= none.push(n));
        let more = document::block(snippet(doc, name, doc.len() as int)->0);
        assert(more + none =~= none + more);
    }
}

/// Of several snippets of a name the last counts.
pub proof fn lemma_last_snippet_counts(doc: Seq<NodeView>, k: int, name: Seq<char>)
    requires
        0 <= k < doc.len(),
        doc[k].name == "snippet"@,
        document::first_text(doc[k]) == Some(name),
        forall|j: int|
            k < j < doc.len() ==> !((#[trigger] doc[j]).name == "snippet"@ && document::first_text(
                doc[j],
            ) == Some(name)),
    ensures
        snippet(doc, name, doc.len() as int) == Some(doc[k]),
{
    lemma_snippet_from(doc, k, name, doc.len() as int);
}

/// The snippet among the first nodes.
proof fn lemma_snippet_from(doc: Seq<NodeView>, k: int, name: Seq<char>, n: int)
    requires
        0 <= k < n <= doc.len(),
        doc[k].name == "snippet"@,
        document::first_text(doc[k]) == Some(name),
        forall|j: int|
            k < j < doc.len() ==> !((#[trigger] doc[j]).name == "snippet"@ && document::first_text(
                doc[j],
            ) == Some(name)),
    ensures
        snippet(doc, name, n) == Some(doc[k]),
    decreases n,
{
    if n - 1 > k {
        assert(!(doc[n - 1].name == "snippet"@ && document::first_text(doc[n - 1]) == Some(name)));
        lemma_snippet_from(doc, k, name, n - 1);
    }
}

/// A configuration is made of a few settings only where one of them is set.
pub proof fn lemma_auto_config(v: AutoConfigVarsView)
    ensures
        auto_config(v) is None <==> v.http_addr is None && v.https_addr is None
            && v.admin_addr is None && v.acme_email is None && v.host is None && v.upstream is None,
{
}

} // verus!
