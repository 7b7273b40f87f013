//! The configuration of the server.

use vstd::prelude::*;
use crate::data::Data;
use crate::net::{IpAddr, SocketAddr};
use crate::router::matcher::{MatcherView, RequestMatcher};
use crate::sorted_map::SortedMap;
use crate::time::Duration;

verus! {

/// A certificate authority that speaks ACME.
#[derive(Clone, Copy, Debug, PartialEq, Eq, Structural)]
pub enum CertAuthority {
    LetsEncrypt,
    LetsEncryptStaging,
    ZeroSsl,
}

impl DeepView for CertAuthority {
    type V = CertAuthority;

    open spec fn deep_view(&self) -> CertAuthority {
        *self
    }
}

impl Data for CertAuthority {
    fn duplicate(&self) -> (r: CertAuthority) {
        *self
    }

    fn same_as(&self, other: &CertAuthority) -> (r: bool) {
        *self == *other
    }
}

impl Default for CertAuthority {
    fn default() -> (r: CertAuthority)
        ensures
            r == CertAuthority::LetsEncrypt,
    {
        CertAuthority::LetsEncrypt
    }
}

/// How control over a domain is proved to the authority.
#[derive(Clone, Copy, Debug, PartialEq, Eq, Structural)]
pub enum ChallengeType {
    Http01,
    TlsAlpn01,
    Dns01,
}

impl DeepView for ChallengeType {
    type V = ChallengeType;

    open spec fn deep_view(&self) -> ChallengeType {
        *self
    }
}

impl Data for ChallengeType {
    fn duplicate(&self) -> (r: ChallengeType) {
        *self
    }

    fn same_as(&self, other: &ChallengeType) -> (r: bool) {
        *self == *other
    }
}

impl Default for ChallengeType {
    fn default() -> (r: ChallengeType)
        ensures
            r == ChallengeType::Http01,
    {
        ChallengeType::Http01
    }
}

/// A load balancing strategy.
#[derive(Clone, Copy, Debug, PartialEq, Eq, Structural)]
pub enum LbPolicy {
    RoundRobin,
    Random,
    WeightedRoundRobin,
    IpHash,
    LeastConn,
    UriHash,
    HeaderHash,
    CookieHash,
    First,
    TwoRandomChoices,
}

impl DeepView for LbPolicy {
    type V = LbPolicy;

    open spec fn deep_view(&self) -> LbPolicy {
        *self
    }
}

impl Data for LbPolicy {
    fn duplicate(&self) -> (r: LbPolicy) {
        *self
    }

    fn same_as(&self, other: &LbPolicy) -> (r: bool) {
        *self == *other
    }
}

impl Default for LbPolicy {
    fn default() -> (r: LbPolicy)
        ensures
            r == LbPolicy::RoundRobin,
    {
        LbPolicy::RoundRobin
    }
}

/// The plain values of a [`LogFileConfig`].
#[verifier::ext_equal]
pub struct LogFileConfigView {
    pub path: Seq<char>,
    pub format: Option<Seq<char>>,
    pub rotate_size: Option<u64>,
    pub rotate_keep: Option<usize>,
}

/// Log file configuration for access and error logs.
#[derive(Debug, PartialEq, Eq)]
pub struct LogFileConfig {
    pub path: String,
    pub format: Option<String>,
    /// Size in bytes at which the file is rotated.
    pub rotate_size: Option<u64>,
    /// Number of old files to keep.
    pub rotate_keep: Option<usize>,
}

impl DeepView for LogFileConfig {
    type V = LogFileConfigView;

    open spec fn deep_view(&self) -> LogFileConfigView {
        LogFileConfigView {
            path: self.path.deep_view(),
            format: self.format.deep_view(),
            rotate_size: self.rotate_size.deep_view(),
            rotate_keep: self.rotate_keep.deep_view(),
        }
    }
}

impl Data for LogFileConfig {
    fn duplicate(&self) -> (r: LogFileConfig) {
        LogFileConfig {
            path: self.path.duplicate(),
            format: self.format.duplicate(),
            rotate_size: self.rotate_size.duplicate(),
            rotate_keep: self.rotate_keep.duplicate(),
        }
    }

    fn same_as(&self, other: &LogFileConfig) -> (r: bool) {
        self.path.same_as(&other.path)
            && self.format.same_as(&other.format)
            && self.rotate_size.same_as(&other.rotate_size)
            && self.rotate_keep.same_as(&other.rotate_keep)
    }
}

impl Clone for LogFileConfig {
    fn clone(&self) -> (r: LogFileConfig)
        ensures
            r.deep_view() == self.deep_view(),
    {
        self.duplicate()
    }
}

/// The plain values of a [`GlobalConfig`].
#[verifier::ext_equal]
pub struct GlobalConfigView {
    pub admin_addr: Option<SocketAddr>,
    pub log_level: Seq<char>,
    pub log_format: Seq<char>,
    pub grace_period: nat,
    pub http_addr: SocketAddr,
    pub https_addr: SocketAddr,
    pub http3: bool,
    pub proxy_protocol: bool,
    pub access_log: Option<LogFileConfigView>,
    pub error_log: Option<LogFileConfigView>,
    pub tcp_nodelay: bool,
    pub tcp_send_buffer: Option<usize>,
    pub tcp_recv_buffer: Option<usize>,
    pub otlp_endpoint: Option<Seq<char>>,
    pub otlp_service_name: Option<Seq<char>>,
    pub admin_auth_token: Option<Seq<char>>,
    pub admin_read_token: Option<Seq<char>>,
    pub admin_write_token: Option<Seq<char>>,
}

/// Global settings.
#[derive(Debug, PartialEq, Eq)]
pub struct GlobalConfig {
    pub admin_addr: Option<SocketAddr>,
    pub log_level: String,
    pub log_format: String,
    pub grace_period: Duration,
    pub http_addr: SocketAddr,
    pub https_addr: SocketAddr,
    /// Enable HTTP/3 (QUIC) listener on the same address as HTTPS.
    pub http3: bool,
    /// When true, expect PROXY protocol v1/v2 headers on incoming connections.
    pub proxy_protocol: bool,
    pub access_log: Option<LogFileConfig>,
    pub error_log: Option<LogFileConfig>,
    /// TCP_NODELAY socket option for accepted connections (default: true).
    pub tcp_nodelay: bool,
    /// SO_SNDBUF send buffer size hint (bytes).
    pub tcp_send_buffer: Option<usize>,
    /// SO_RCVBUF receive buffer size hint (bytes).
    pub tcp_recv_buffer: Option<usize>,
    /// OTLP collector endpoint for OpenTelemetry traces.
    pub otlp_endpoint: Option<String>,
    /// Service name reported in OpenTelemetry traces.
    pub otlp_service_name: Option<String>,
    /// Bearer token that every admin API request must carry when it is set.
    pub admin_auth_token: Option<String>,
    /// Bearer token for admin API requests that only read.
    pub admin_read_token: Option<String>,
    /// Bearer token for admin API requests that may change state.
    pub admin_write_token: Option<String>,
}

impl DeepView for GlobalConfig {
    type V = GlobalConfigView;

    open spec fn deep_view(&self) -> GlobalConfigView {
        GlobalConfigView {
            admin_addr: self.admin_addr.deep_view(),
            log_level: self.log_level.deep_view(),
            log_format: self.log_format.deep_view(),
            grace_period: self.grace_period.deep_view(),
            http_addr: self.http_addr.deep_view(),
            https_addr: self.https_addr.deep_view(),
            http3: self.http3.deep_view(),
            proxy_protocol: self.proxy_protocol.deep_view(),
            access_log: self.access_log.deep_view(),
            error_log: self.error_log.deep_view(),
            tcp_nodelay: self.tcp_nodelay.deep_view(),
            tcp_send_buffer: self.tcp_send_buffer.deep_view(),
            tcp_recv_buffer: self.tcp_recv_buffer.deep_view(),
            otlp_endpoint: self.otlp_endpoint.deep_view(),
            otlp_service_name: self.otlp_service_name.deep_view(),
            admin_auth_token: self.admin_auth_token.deep_view(),
            admin_read_token: self.admin_read_token.deep_view(),
            admin_write_token: self.admin_write_token.deep_view(),
        }
    }
}

impl Data for GlobalConfig {
    fn duplicate(&self) -> (r: GlobalConfig) {
        GlobalConfig {
            admin_addr: self.admin_addr.duplicate(),
            log_level: self.log_level.duplicate(),
            log_format: self.log_format.duplicate(),
            grace_period: self.grace_period.duplicate(),
            http_addr: self.http_addr.duplicate(),
            https_addr: self.https_addr.duplicate(),
            http3: self.http3.duplicate(),
            proxy_protocol: self.proxy_protocol.duplicate(),
            access_log: self.access_log.duplicate(),
            error_log: self.error_log.duplicate(),
            tcp_nodelay: self.tcp_nodelay.duplicate(),
            tcp_send_buffer: self.tcp_send_buffer.duplicate(),
            tcp_recv_buffer: self.tcp_recv_buffer.duplicate(),
            otlp_endpoint: self.otlp_endpoint.duplicate(),
            otlp_service_name: self.otlp_service_name.duplicate(),
            admin_auth_token: self.admin_auth_token.duplicate(),
            admin_read_token: self.admin_read_token.duplicate(),
            admin_write_token: self.admin_write_token.duplicate(),
        }
    }

    fn same_as(&self, other: &GlobalConfig) -> (r: bool) {
        self.admin_addr.same_as(&other.admin_addr)
            && self.log_level.same_as(&other.log_level)
            && self.log_format.same_as(&other.log_format)
            && self.grace_period.same_as(&other.grace_period)
            && self.http_addr.same_as(&other.http_addr)
            && self.https_addr.same_as(&other.https_addr)
            && self.http3.same_as(&other.http3)
            && self.proxy_protocol.same_as(&other.proxy_protocol)
            && self.access_log.same_as(&other.access_log)
            && self.error_log.same_as(&other.error_log)
            && self.tcp_nodelay.same_as(&other.tcp_nodelay)
            && self.tcp_send_buffer.same_as(&other.tcp_send_buffer)
            && self.tcp_recv_buffer.same_as(&other.tcp_recv_buffer)
            && self.otlp_endpoint.same_as(&other.otlp_endpoint)
            && self.otlp_service_name.same_as(&other.otlp_service_name)
            && self.admin_auth_token.same_as(&other.admin_auth_token)
            && self.admin_read_token.same_as(&other.admin_read_token)
            && self.admin_write_token.same_as(&other.admin_write_token)
    }
}

impl Clone for GlobalConfig {
    fn clone(&self) -> (r: GlobalConfig)
        ensures
            r.deep_view() == self.deep_view(),
    {
        self.duplicate()
    }
}

/// The plain values of a [`ClientAuthConfig`].
#[verifier::ext_equal]
pub struct ClientAuthConfigView {
    pub ca_certs: Seq<Seq<char>>,
    pub required: bool,
}

/// mTLS (mutual TLS) client certificate verification configuration.
#[derive(Debug, PartialEq, Eq)]
pub struct ClientAuthConfig {
    /// Paths to CA PEM files used to verify client certificates.
    pub ca_certs: Vec<String>,
    /// If true, connections without a valid client certificate are rejected.
    pub required: bool,
}

impl DeepView for ClientAuthConfig {
    type V = ClientAuthConfigView;

    open spec fn deep_view(&self) -> ClientAuthConfigView {
        ClientAuthConfigView {
            ca_certs: self.ca_certs.deep_view(),
            required: self.required.deep_view(),
        }
    }
}

impl Data for ClientAuthConfig {
    fn duplicate(&self) -> (r: ClientAuthConfig) {
        ClientAuthConfig {
            ca_certs: self.ca_certs.duplicate(),
            required: self.required.duplicate(),
        }
    }

    fn same_as(&self, other: &ClientAuthConfig) -> (r: bool) {
        self.ca_certs.same_as(&other.ca_certs) && self.required.same_as(&other.required)
    }
}

impl Clone for ClientAuthConfig {
    fn clone(&self) -> (r: ClientAuthConfig)
        ensures
            r.deep_view() == self.deep_view(),
    {
        self.duplicate()
    }
}

/// The plain values of a [`OnDemandTlsConfig`].
#[verifier::ext_equal]
pub struct OnDemandTlsConfigView {
    pub ask: Option<Seq<char>>,
    pub rate_limit: Option<u32>,
}

/// On-demand TLS configuration for automatic certificate issuance at handshake time.
#[derive(Debug, PartialEq, Eq)]
pub struct OnDemandTlsConfig {
    /// Optional URL to query to decide whether a domain is allowed.
    pub ask: Option<String>,
    /// Maximum number of certificates to issue per minute.
    pub rate_limit: Option<u32>,
}

impl DeepView for OnDemandTlsConfig {
    type V = OnDemandTlsConfigView;

    open spec fn deep_view(&self) -> OnDemandTlsConfigView {
        OnDemandTlsConfigView {
            ask: self.ask.deep_view(),
            rate_limit: self.rate_limit.deep_view(),
        }
    }
}

impl Data for OnDemandTlsConfig {
    fn duplicate(&self) -> (r: OnDemandTlsConfig) {
        OnDemandTlsConfig {
            ask: self.ask.duplicate(),
            rate_limit: self.rate_limit.duplicate(),
        }
    }

    fn same_as(&self, other: &OnDemandTlsConfig) -> (r: bool) {
        self.ask.same_as(&other.ask) && self.rate_limit.same_as(&other.rate_limit)
    }
}

impl Clone for OnDemandTlsConfig {
    fn clone(&self) -> (r: OnDemandTlsConfig)
        ensures
            r.deep_view() == self.deep_view(),
    {
        self.duplicate()
    }
}

/// The plain values of a [`EabConfig`].
#[verifier::ext_equal]
pub struct EabConfigView {
    pub kid: Seq<char>,
    pub hmac_key: Seq<char>,
}

/// External Account Binding (EAB) credentials for ACME registration.
#[derive(Debug, PartialEq, Eq)]
pub struct EabConfig {
    pub kid: String,
    pub hmac_key: String,
}

impl DeepView for EabConfig {
    type V = EabConfigView;

    open spec fn deep_view(&self) -> EabConfigView {
        EabConfigView {
            kid: self.kid.deep_view(),
            hmac_key: self.hmac_key.deep_view(),
        }
    }
}

impl Data for EabConfig {
    fn duplicate(&self) -> (r: EabConfig) {
        EabConfig {
            kid: self.kid.duplicate(),
            hmac_key: self.hmac_key.duplicate(),
        }
    }

    fn same_as(&self, other: &EabConfig) -> (r: bool) {
        self.kid.same_as(&other.kid) && self.hmac_key.same_as(&other.hmac_key)
    }
}

impl Clone for EabConfig {
    fn clone(&self) -> (r: EabConfig)
        ensures
            r.deep_view() == self.deep_view(),
    {
        self.duplicate()
    }
}

/// The plain values of a [`DnsProviderConfig`].
#[verifier::ext_equal]
pub struct DnsProviderConfigView {
    pub provider: Seq<char>,
    pub api_token: Option<Seq<char>>,
    pub api_key: Option<Seq<char>>,
    pub api_secret: Option<Seq<char>>,
    pub options: Seq<(Seq<char>, Seq<char>)>,
}

/// DNS provider configuration for DNS-01 ACME challenges.
#[derive(Debug, PartialEq, Eq)]
pub struct DnsProviderConfig {
    pub provider: String,
    pub api_token: Option<String>,
    pub api_key: Option<String>,
    pub api_secret: Option<String>,
    /// Extra provider-specific key-value options.
    pub options: SortedMap<String, String>,
}

impl DeepView for DnsProviderConfig {
    type V = DnsProviderConfigView;

    open spec fn deep_view(&self) -> DnsProviderConfigView {
        DnsProviderConfigView {
            provider: self.provider.deep_view(),
            api_token: self.api_token.deep_view(),
            api_key: self.api_key.deep_view(),
            api_secret: self.api_secret.deep_view(),
            options: self.options.deep_view(),
        }
    }
}

impl Data for DnsProviderConfig {
    fn duplicate(&self) -> (r: DnsProviderConfig) {
        DnsProviderConfig {
            provider: self.provider.duplicate(),
            api_token: self.api_token.duplicate(),
            api_key: self.api_key.duplicate(),
            api_secret: self.api_secret.duplicate(),
            options: self.options.duplicate(),
        }
    }

    fn same_as(&self, other: &DnsProviderConfig) -> (r: bool) {
        self.provider.same_as(&other.provider)
            && self.api_token.same_as(&other.api_token)
            && self.api_key.same_as(&other.api_key)
            && self.api_secret.same_as(&other.api_secret)
            && self.options.same_as(&other.options)
    }
}

impl Clone for DnsProviderConfig {
    fn clone(&self) -> (r: DnsProviderConfig)
        ensures
            r.deep_view() == self.deep_view(),
    {
        self.duplicate()
    }
}

/// The plain values of a [`AcmeConfig`].
#[verifier::ext_equal]
pub struct AcmeConfigView {
    pub email: Seq<char>,
    pub ca: CertAuthority,
    pub challenge: ChallengeType,
    pub eab: Option<EabConfigView>,
    pub dns_provider: Option<DnsProviderConfigView>,
}

/// ACME certificate auto-issuance settings.
#[derive(Debug, PartialEq, Eq)]
pub struct AcmeConfig {
    pub email: String,
    pub ca: CertAuthority,
    pub challenge: ChallengeType,
    /// External Account Binding credentials (required by some CAs like ZeroSSL).
    pub eab: Option<EabConfig>,
    /// DNS provider configuration for DNS-01 challenges.
    pub dns_provider: Option<DnsProviderConfig>,
}

impl DeepView for AcmeConfig {
    type V = AcmeConfigView;

    open spec fn deep_view(&self) -> AcmeConfigView {
        AcmeConfigView {
            email: self.email.deep_view(),
            ca: self.ca.deep_view(),
            challenge: self.challenge.deep_view(),
            eab: self.eab.deep_view(),
            dns_provider: self.dns_provider.deep_view(),
        }
    }
}

impl Data for AcmeConfig {
    fn duplicate(&self) -> (r: AcmeConfig) {
        AcmeConfig {
            email: self.email.duplicate(),
            ca: self.ca.duplicate(),
            challenge: self.challenge.duplicate(),
            eab: self.eab.duplicate(),
            dns_provider: self.dns_provider.duplicate(),
        }
    }

    fn same_as(&self, other: &AcmeConfig) -> (r: bool) {
        self.email.same_as(&other.email)
            && self.ca.same_as(&other.ca)
            && self.challenge.same_as(&other.challenge)
            && self.eab.same_as(&other.eab)
            && self.dns_provider.same_as(&other.dns_provider)
    }
}

impl Clone for AcmeConfig {
    fn clone(&self) -> (r: AcmeConfig)
        ensures
            r.deep_view() == self.deep_view(),
    {
        self.duplicate()
    }
}

/// The plain values of a [`TlsConfig`].
#[verifier::ext_equal]
pub struct TlsConfigView {
    pub acme: Option<AcmeConfigView>,
    pub client_auth: Option<ClientAuthConfigView>,
    pub on_demand: Option<OnDemandTlsConfigView>,
    pub min_version: Option<Seq<char>>,
    pub max_version: Option<Seq<char>>,
    pub cipher_suites: Seq<Seq<char>>,
    pub ocsp_stapling: bool,
    pub ecdh_curves: Seq<Seq<char>>,
}

/// Global TLS / ACME settings.
#[derive(Debug, PartialEq, Eq)]
pub struct TlsConfig {
    pub acme: Option<AcmeConfig>,
    pub client_auth: Option<ClientAuthConfig>,
    pub on_demand: Option<OnDemandTlsConfig>,
    pub min_version: Option<String>,
    pub max_version: Option<String>,
    pub cipher_suites: Vec<String>,
    /// Enable OCSP stapling.
    pub ocsp_stapling: bool,
    /// ECDH key-exchange curves to enable; empty means the defaults.
    pub ecdh_curves: Vec<String>,
}

impl DeepView for TlsConfig {
    type V = TlsConfigView;

    open spec fn deep_view(&self) -> TlsConfigView {
        TlsConfigView {
            acme: self.acme.deep_view(),
            client_auth: self.client_auth.deep_view(),
            on_demand: self.on_demand.deep_view(),
            min_version: self.min_version.deep_view(),
            max_version: self.max_version.deep_view(),
            cipher_suites: self.cipher_suites.deep_view(),
            ocsp_stapling: self.ocsp_stapling.deep_view(),
            ecdh_curves: self.ecdh_curves.deep_view(),
        }
    }
}

impl Data for TlsConfig {
    fn duplicate(&self) -> (r: TlsConfig) {
        TlsConfig {
            acme: self.acme.duplicate(),
            client_auth: self.client_auth.duplicate(),
            on_demand: self.on_demand.duplicate(),
            min_version: self.min_version.duplicate(),
            max_version: self.max_version.duplicate(),
            cipher_suites: self.cipher_suites.duplicate(),
            ocsp_stapling: self.ocsp_stapling.duplicate(),
            ecdh_curves: self.ecdh_curves.duplicate(),
        }
    }

    fn same_as(&self, other: &TlsConfig) -> (r: bool) {
        self.acme.same_as(&other.acme)
            && self.client_auth.same_as(&other.client_auth)
            && self.on_demand.same_as(&other.on_demand)
            && self.min_version.same_as(&other.min_version)
            && self.max_version.same_as(&other.max_version)
            && self.cipher_suites.same_as(&other.cipher_suites)
            && self.ocsp_stapling.same_as(&other.ocsp_stapling)
            && self.ecdh_curves.same_as(&other.ecdh_curves)
    }
}

impl Clone for TlsConfig {
    fn clone(&self) -> (r: TlsConfig)
        ensures
            r.deep_view() == self.deep_view(),
    {
        self.duplicate()
    }
}

/// The plain values of a [`SiteTlsConfig`].
#[verifier::ext_equal]
pub struct SiteTlsConfigView {
    pub cert: Seq<char>,
    pub key: Seq<char>,
}

/// Per-site TLS override (manual cert).
#[derive(Debug, PartialEq, Eq)]
pub struct SiteTlsConfig {
    pub cert: String,
    pub key: String,
}

impl DeepView for SiteTlsConfig {
    type V = SiteTlsConfigView;

    open spec fn deep_view(&self) -> SiteTlsConfigView {
        SiteTlsConfigView {
            cert: self.cert.deep_view(),
            key: self.key.deep_view(),
        }
    }
}

impl Data for SiteTlsConfig {
    fn duplicate(&self) -> (r: SiteTlsConfig) {
        SiteTlsConfig {
            cert: self.cert.duplicate(),
            key: self.key.duplicate(),
        }
    }

    fn same_as(&self, other: &SiteTlsConfig) -> (r: bool) {
        self.cert.same_as(&other.cert) && self.key.same_as(&other.key)
    }
}

impl Clone for SiteTlsConfig {
    fn clone(&self) -> (r: SiteTlsConfig)
        ensures
            r.deep_view() == self.deep_view(),
    {
        self.duplicate()
    }
}

/// The plain values of a [`RouteCondition`].
#[verifier::ext_equal]
pub enum RouteConditionView {
    RemoteIp(Seq<Seq<char>>),
    NotRemoteIp(Seq<Seq<char>>),
    Header { name: Seq<char>, value: Seq<char> },
    NotHeader { name: Seq<char>, value: Seq<char> },
}

/// Conditions that can guard a route, evaluated against each incoming request.
#[derive(Debug, PartialEq, Eq)]
pub enum RouteCondition {
    /// Match only if the client IP is in one of the given CIDR ranges.
    RemoteIp(Vec<String>),
    /// Match only if the client IP is NOT in any of the given CIDR ranges.
    NotRemoteIp(Vec<String>),
    /// Match only if the named header equals the given value.
    Header {
        name: String,
        value: String,
    },
    /// Match only if the named header does NOT equal the given value.
    NotHeader {
        name: String,
        value: String,
    },
}

impl DeepView for RouteCondition {
    type V = RouteConditionView;

    open spec fn deep_view(&self) -> RouteConditionView {
        match self {
            RouteCondition::RemoteIp(a) => RouteConditionView::RemoteIp(a.deep_view()),
            RouteCondition::NotRemoteIp(a) => RouteConditionView::NotRemoteIp(a.deep_view()),
            RouteCondition::Header { name, value } => {
                RouteConditionView::Header { name: name.deep_view(), value: value.deep_view() }
            },
            RouteCondition::NotHeader { name, value } => {
                RouteConditionView::NotHeader { name: name.deep_view(), value: value.deep_view() }
            },
        }
    }
}

impl Data for RouteCondition {
    fn duplicate(&self) -> (r: RouteCondition) {
        match self {
            RouteCondition::RemoteIp(a) => RouteCondition::RemoteIp(a.duplicate()),
            RouteCondition::NotRemoteIp(a) => RouteCondition::NotRemoteIp(a.duplicate()),
            RouteCondition::Header { name, value } => {
                RouteCondition::Header { name: name.duplicate(), value: value.duplicate() }
            },
            RouteCondition::NotHeader { name, value } => {
                RouteCondition::NotHeader { name: name.duplicate(), value: value.duplicate() }
            },
        }
    }

    fn same_as(&self, other: &RouteCondition) -> (r: bool) {
        match (self, other) {
            (RouteCondition::RemoteIp(a), RouteCondition::RemoteIp(b_a)) => a.same_as(b_a),
            (RouteCondition::NotRemoteIp(a), RouteCondition::NotRemoteIp(b_a)) => a.same_as(b_a),
            (
                RouteCondition::Header { name, value },
                RouteCondition::Header { name: b_name, value: b_value },
            ) => {
                name.same_as(b_name)
                    && value.same_as(b_value)
            },
            (
                RouteCondition::NotHeader { name, value },
                RouteCondition::NotHeader { name: b_name, value: b_value },
            ) => {
                name.same_as(b_name)
                    && value.same_as(b_value)
            },
            _ => false,
        }
    }
}

impl Clone for RouteCondition {
    fn clone(&self) -> (r: RouteCondition)
        ensures
            r.deep_view() == self.deep_view(),
    {
        self.duplicate()
    }
}

/// The plain values of a [`CacheConfig`].
#[verifier::ext_equal]
pub struct CacheConfigView {
    pub max_entries: usize,
    pub max_entry_size: usize,
    pub default_max_age: nat,
}

/// Response caching configuration.
#[derive(Debug, PartialEq, Eq)]
pub struct CacheConfig {
    pub max_entries: usize,
    pub max_entry_size: usize,
    pub default_max_age: Duration,
}

impl DeepView for CacheConfig {
    type V = CacheConfigView;

    open spec fn deep_view(&self) -> CacheConfigView {
        CacheConfigView {
            max_entries: self.max_entries.deep_view(),
            max_entry_size: self.max_entry_size.deep_view(),
            default_max_age: self.default_max_age.deep_view(),
        }
    }
}

impl Data for CacheConfig {
    fn duplicate(&self) -> (r: CacheConfig) {
        CacheConfig {
            max_entries: self.max_entries.duplicate(),
            max_entry_size: self.max_entry_size.duplicate(),
            default_max_age: self.default_max_age.duplicate(),
        }
    }

    fn same_as(&self, other: &CacheConfig) -> (r: bool) {
        self.max_entries.same_as(&other.max_entries)
            && self.max_entry_size.same_as(&other.max_entry_size)
            && self.default_max_age.same_as(&other.default_max_age)
    }
}

impl Clone for CacheConfig {
    fn clone(&self) -> (r: CacheConfig)
        ensures
            r.deep_view() == self.deep_view(),
    {
        self.duplicate()
    }
}

/// The plain values of a [`HeadersConfig`].
#[verifier::ext_equal]
pub struct HeadersConfigView {
    pub request_set: Seq<(Seq<char>, Seq<char>)>,
    pub response_set: Seq<(Seq<char>, Seq<char>)>,
    pub response_remove: Seq<Seq<char>>,
}

/// Header fields to set and remove.
#[derive(Debug, PartialEq, Eq)]
pub struct HeadersConfig {
    pub request_set: SortedMap<String, String>,
    pub response_set: SortedMap<String, String>,
    pub response_remove: Vec<String>,
}

impl DeepView for HeadersConfig {
    type V = HeadersConfigView;

    open spec fn deep_view(&self) -> HeadersConfigView {
        HeadersConfigView {
            request_set: self.request_set.deep_view(),
            response_set: self.response_set.deep_view(),
            response_remove: self.response_remove.deep_view(),
        }
    }
}

impl Data for HeadersConfig {
    fn duplicate(&self) -> (r: HeadersConfig) {
        HeadersConfig {
            request_set: self.request_set.duplicate(),
            response_set: self.response_set.duplicate(),
            response_remove: self.response_remove.duplicate(),
        }
    }

    fn same_as(&self, other: &HeadersConfig) -> (r: bool) {
        self.request_set.same_as(&other.request_set)
            && self.response_set.same_as(&other.response_set)
            && self.response_remove.same_as(&other.response_remove)
    }
}

impl Clone for HeadersConfig {
    fn clone(&self) -> (r: HeadersConfig)
        ensures
            r.deep_view() == self.deep_view(),
    {
        self.duplicate()
    }
}

/// The plain values of a [`BasicAuthUser`].
#[verifier::ext_equal]
pub struct BasicAuthUserView {
    pub username: Seq<char>,
    pub password_hash: Seq<char>,
}

/// A user with a password or its hash.
#[derive(Debug, PartialEq, Eq)]
pub struct BasicAuthUser {
    pub username: String,
    pub password_hash: String,
}

impl DeepView for BasicAuthUser {
    type V = BasicAuthUserView;

    open spec fn deep_view(&self) -> BasicAuthUserView {
        BasicAuthUserView {
            username: self.username.deep_view(),
            password_hash: self.password_hash.deep_view(),
        }
    }
}

impl Data for BasicAuthUser {
    fn duplicate(&self) -> (r: BasicAuthUser) {
        BasicAuthUser {
            username: self.username.duplicate(),
            password_hash: self.password_hash.duplicate(),
        }
    }

    fn same_as(&self, other: &BasicAuthUser) -> (r: bool) {
        self.username.same_as(&other.username) && self.password_hash.same_as(&other.password_hash)
    }
}

impl Clone for BasicAuthUser {
    fn clone(&self) -> (r: BasicAuthUser)
        ensures
            r.deep_view() == self.deep_view(),
    {
        self.duplicate()
    }
}

/// The plain values of a [`HoopConfig`].
#[verifier::ext_equal]
pub enum HoopConfigView {
    RateLimit { window: nat, max: u64, burst: Option<u64> },
    ForwardAuth { url: Seq<char>, copy_headers: Seq<Seq<char>> },
    Encode { encodings: Seq<Seq<char>>, level: Option<u32> },
    Headers(HeadersConfigView),
    BasicAuth {
        users: Seq<BasicAuthUserView>,
        brute_force_max: Option<u32>,
        brute_force_window: Option<nat>,
    },
    IpFilter { allow: Seq<Seq<char>>, deny: Seq<Seq<char>>, forwarded_for: bool },
    Rewrite {
        strip_prefix: Option<Seq<char>>,
        uri: Option<Seq<char>>,
        regex_rules: Seq<(Seq<char>, Seq<char>)>,
        if_not_file: bool,
        if_not_dir: bool,
        root: Option<Seq<char>>,
        normalize_slashes: bool,
    },
    Replace { rules: Seq<(Seq<char>, Seq<char>)>, once: bool },
    Cache(CacheConfigView),
    Templates { root: Option<Seq<char>> },
    BufferLimit { max_request_body: Option<usize>, max_response_body: Option<usize> },
    Cors {
        allow_origins: Seq<Seq<char>>,
        allow_methods: Seq<Seq<char>>,
        allow_headers: Seq<Seq<char>>,
        allow_credentials: bool,
        expose_headers: Seq<Seq<char>>,
        max_age: Option<u64>,
    },
    Timeout { duration: nat },
    RequestId { header_name: Option<Seq<char>>, overwrite: bool },
    ForceHttps { https_port: Option<u16> },
    TrailingSlash { action: Seq<char> },
    Decompress { max_size: Option<usize> },
    ErrorPages { pages: Seq<(u16, Seq<char>)> },
    StreamReplace { rules: Seq<(Seq<char>, Seq<char>)>, once: bool },
    Module { name: Seq<char>, config: Seq<(Seq<char>, Seq<char>)> },
}

/// Supported middleware configurations.
#[derive(Debug, PartialEq, Eq)]
pub enum HoopConfig {
    RateLimit {
        window: Duration,
        max: u64,
        /// Maximum burst capacity; defaults to `max` when not specified.
        burst: Option<u64>,
    },
    ForwardAuth {
        /// URL of the authentication service to delegate to.
        url: String,
        /// Headers from the auth response to copy into the original request.
        copy_headers: Vec<String>,
    },
    Encode {
        encodings: Vec<String>,
        level: Option<u32>,
    },
    Headers(HeadersConfig),
    BasicAuth {
        users: Vec<BasicAuthUser>,
        /// Number of consecutive failures before an IP is locked out.
        brute_force_max: Option<u32>,
        /// Duration of the lockout period.
        brute_force_window: Option<Duration>,
    },
    IpFilter {
        allow: Vec<String>,
        deny: Vec<String>,
        /// Use the first IP in the X-Forwarded-For header.
        forwarded_for: bool,
    },
    Rewrite {
        strip_prefix: Option<String>,
        uri: Option<String>,
        /// (pattern, replacement) pairs applied in order to the path.
        regex_rules: Vec<(String, String)>,
        if_not_file: bool,
        if_not_dir: bool,
        /// Filesystem root used by `if_not_file` / `if_not_dir` checks.
        root: Option<String>,
        normalize_slashes: bool,
    },
    Replace {
        /// (search, replacement) pairs applied to the response body.
        rules: Vec<(String, String)>,
        /// Only replace the first occurrence of each search string.
        once: bool,
    },
    Cache(CacheConfig),
    Templates {
        root: Option<String>,
    },
    BufferLimit {
        max_request_body: Option<usize>,
        max_response_body: Option<usize>,
    },
    Cors {
        allow_origins: Vec<String>,
        allow_methods: Vec<String>,
        allow_headers: Vec<String>,
        allow_credentials: bool,
        expose_headers: Vec<String>,
        max_age: Option<u64>,
    },
    Timeout {
        duration: Duration,
    },
    RequestId {
        header_name: Option<String>,
        overwrite: bool,
    },
    ForceHttps {
        https_port: Option<u16>,
    },
    TrailingSlash {
        /// Action: `"add"` or `"remove"`.
        action: String,
    },
    Decompress {
        max_size: Option<usize>,
    },
    ErrorPages {
        /// Maps HTTP status code to custom body content.
        pages: SortedMap<u16, String>,
    },
    StreamReplace {
        rules: Vec<(String, String)>,
        once: bool,
    },
    /// A module-provided middleware loaded via the plugin system.
    Module {
        name: String,
        config: SortedMap<String, String>,
    },
}

impl DeepView for HoopConfig {
    type V = HoopConfigView;

    open spec fn deep_view(&self) -> HoopConfigView {
        match self {
            HoopConfig::RateLimit { window, max, burst } => {
                HoopConfigView::RateLimit {
                    window: window.deep_view(),
                    max: max.deep_view(),
                    burst: burst.deep_view(),
                }
            },
            HoopConfig::ForwardAuth { url, copy_headers } => {
                HoopConfigView::ForwardAuth {
                    url: url.deep_view(),
                    copy_headers: copy_headers.deep_view(),
                }
            },
            HoopConfig::Encode { encodings, level } => {
                HoopConfigView::Encode {
                    encodings: encodings.deep_view(),
                    level: level.deep_view(),
                }
            },
            HoopConfig::Headers(a) => HoopConfigView::Headers(a.deep_view()),
            HoopConfig::BasicAuth { users, brute_force_max, brute_force_window } => {
                HoopConfigView::BasicAuth {
                    users: users.deep_view(),
                    brute_force_max: brute_force_max.deep_view(),
                    brute_force_window: brute_force_window.deep_view(),
                }
            },
            HoopConfig::IpFilter { allow, deny, forwarded_for } => {
                HoopConfigView::IpFilter {
                    allow: allow.deep_view(),
                    deny: deny.deep_view(),
                    forwarded_for: forwarded_for.deep_view(),
                }
            },
            HoopConfig::Rewrite {
                strip_prefix,
                uri,
                regex_rules,
                if_not_file,
                if_not_dir,
                root,
                normalize_slashes,
            } => {
                HoopConfigView::Rewrite {
                    strip_prefix: strip_prefix.deep_view(),
                    uri: uri.deep_view(),
                    regex_rules: regex_rules.deep_view(),
                    if_not_file: if_not_file.deep_view(),
                    if_not_dir: if_not_dir.deep_view(),
                    root: root.deep_view(),
                    normalize_slashes: normalize_slashes.deep_view(),
                }
            },
            HoopConfig::Replace { rules, once } => {
                HoopConfigView::Replace { rules: rules.deep_view(), once: once.deep_view() }
            },
            HoopConfig::Cache(a) => HoopConfigView::Cache(a.deep_view()),
            HoopConfig::Templates { root } => HoopConfigView::Templates { root: root.deep_view() },
            HoopConfig::BufferLimit { max_request_body, max_response_body } => {
                HoopConfigView::BufferLimit {
                    max_request_body: max_request_body.deep_view(),
                    max_response_body: max_response_body.deep_view(),
                }
            },
            HoopConfig::Cors {
                allow_origins,
                allow_methods,
                allow_headers,
                allow_credentials,
                expose_headers,
                max_age,
            } => {
                HoopConfigView::Cors {
                    allow_origins: allow_origins.deep_view(),
                    allow_methods: allow_methods.deep_view(),
                    allow_headers: allow_headers.deep_view(),
                    allow_credentials: allow_credentials.deep_view(),
                    expose_headers: expose_headers.deep_view(),
                    max_age: max_age.deep_view(),
                }
            },
            HoopConfig::Timeout { duration } => {
                HoopConfigView::Timeout { duration: duration.deep_view() }
            },
            HoopConfig::RequestId { header_name, overwrite } => {
                HoopConfigView::RequestId {
                    header_name: header_name.deep_view(),
                    overwrite: overwrite.deep_view(),
                }
            },
            HoopConfig::ForceHttps { https_port } => {
                HoopConfigView::ForceHttps { https_port: https_port.deep_view() }
            },
            HoopConfig::TrailingSlash { action } => {
                HoopConfigView::TrailingSlash { action: action.deep_view() }
            },
            HoopConfig::Decompress { max_size } => {
                HoopConfigView::Decompress { max_size: max_size.deep_view() }
            },
            HoopConfig::ErrorPages { pages } => {
                HoopConfigView::ErrorPages { pages: pages.deep_view() }
            },
            HoopConfig::StreamReplace { rules, once } => {
                HoopConfigView::StreamReplace { rules: rules.deep_view(), once: once.deep_view() }
            },
            HoopConfig::Module { name, config } => {
                HoopConfigView::Module { name: name.deep_view(), config: config.deep_view() }
            },
        }
    }
}

impl Data for HoopConfig {
    fn duplicate(&self) -> (r: HoopConfig) {
        match self {
            HoopConfig::RateLimit { window, max, burst } => {
                HoopConfig::RateLimit {
                    window: window.duplicate(),
                    max: max.duplicate(),
                    burst: burst.duplicate(),
                }
            },
            HoopConfig::ForwardAuth { url, copy_headers } => {
                HoopConfig::ForwardAuth {
                    url: url.duplicate(),
                    copy_headers: copy_headers.duplicate(),
                }
            },
            HoopConfig::Encode { encodings, level } => {
                HoopConfig::Encode { encodings: encodings.duplicate(), level: level.duplicate() }
            },
            HoopConfig::Headers(a) => HoopConfig::Headers(a.duplicate()),
            HoopConfig::BasicAuth { users, brute_force_max, brute_force_window } => {
                HoopConfig::BasicAuth {
                    users: users.duplicate(),
                    brute_force_max: brute_force_max.duplicate(),
                    brute_force_window: brute_force_window.duplicate(),
                }
            },
            HoopConfig::IpFilter { allow, deny, forwarded_for } => {
                HoopConfig::IpFilter {
                    allow: allow.duplicate(),
                    deny: deny.duplicate(),
                    forwarded_for: forwarded_for.duplicate(),
                }
            },
            HoopConfig::Rewrite {
                strip_prefix,
                uri,
                regex_rules,
                if_not_file,
                if_not_dir,
                root,
                normalize_slashes,
            } => {
                HoopConfig::Rewrite {
                    strip_prefix: strip_prefix.duplicate(),
                    uri: uri.duplicate(),
                    regex_rules: regex_rules.duplicate(),
                    if_not_file: if_not_file.duplicate(),
                    if_not_dir: if_not_dir.duplicate(),
                    root: root.duplicate(),
                    normalize_slashes: normalize_slashes.duplicate(),
                }
            },
            HoopConfig::Replace { rules, once } => {
                HoopConfig::Replace { rules: rules.duplicate(), once: once.duplicate() }
            },
            HoopConfig::Cache(a) => HoopConfig::Cache(a.duplicate()),
            HoopConfig::Templates { root } => HoopConfig::Templates { root: root.duplicate() },
            HoopConfig::BufferLimit { max_request_body, max_response_body } => {
                HoopConfig::BufferLimit {
                    max_request_body: max_request_body.duplicate(),
                    max_response_body: max_response_body.duplicate(),
                }
            },
            HoopConfig::Cors {
                allow_origins,
                allow_methods,
                allow_headers,
                allow_credentials,
                expose_headers,
                max_age,
            } => {
                HoopConfig::Cors {
                    allow_origins: allow_origins.duplicate(),
                    allow_methods: allow_methods.duplicate(),
                    allow_headers: allow_headers.duplicate(),
                    allow_credentials: allow_credentials.duplicate(),
                    expose_headers: expose_headers.duplicate(),
                    max_age: max_age.duplicate(),
                }
            },
            HoopConfig::Timeout { duration } => {
                HoopConfig::Timeout { duration: duration.duplicate() }
            },
            HoopConfig::RequestId { header_name, overwrite } => {
                HoopConfig::RequestId {
                    header_name: header_name.duplicate(),
                    overwrite: overwrite.duplicate(),
                }
            },
            HoopConfig::ForceHttps { https_port } => {
                HoopConfig::ForceHttps { https_port: https_port.duplicate() }
            },
            HoopConfig::TrailingSlash { action } => {
                HoopConfig::TrailingSlash { action: action.duplicate() }
            },
            HoopConfig::Decompress { max_size } => {
                HoopConfig::Decompress { max_size: max_size.duplicate() }
            },
            HoopConfig::ErrorPages { pages } => HoopConfig::ErrorPages { pages: pages.duplicate() },
            HoopConfig::StreamReplace { rules, once } => {
                HoopConfig::StreamReplace { rules: rules.duplicate(), once: once.duplicate() }
            },
            HoopConfig::Module { name, config } => {
                HoopConfig::Module { name: name.duplicate(), config: config.duplicate() }
            },
        }
    }

    fn same_as(&self, other: &HoopConfig) -> (r: bool) {
        match (self, other) {
            (
                HoopConfig::RateLimit { window, max, burst },
                HoopConfig::RateLimit { window: b_window, max: b_max, burst: b_burst },
            ) => {
                window.same_as(b_window)
                    && max.same_as(b_max)
                    && burst.same_as(b_burst)
            },
            (
                HoopConfig::ForwardAuth { url, copy_headers },
                HoopConfig::ForwardAuth { url: b_url, copy_headers: b_copy_headers },
            ) => {
                url.same_as(b_url)
                    && copy_headers.same_as(b_copy_headers)
            },
            (
                HoopConfig::Encode { encodings, level },
                HoopConfig::Encode { encodings: b_encodings, level: b_level },
            ) => {
                encodings.same_as(b_encodings)
                    && level.same_as(b_level)
            },
            (HoopConfig::Headers(a), HoopConfig::Headers(b_a)) => a.same_as(b_a),
            (
                HoopConfig::BasicAuth { users, brute_force_max, brute_force_window },
                HoopConfig::BasicAuth {
                    users: b_users,
                    brute_force_max: b_brute_force_max,
                    brute_force_window: b_brute_force_window,
                },
            ) => {
                users.same_as(b_users)
                    && brute_force_max.same_as(b_brute_force_max)
                    && brute_force_window.same_as(b_brute_force_window)
            },
            (
                HoopConfig::IpFilter { allow, deny, forwarded_for },
                HoopConfig::IpFilter {
                    allow: b_allow,
                    deny: b_deny,
                    forwarded_for: b_forwarded_for,
                },
            ) => {
                allow.same_as(b_allow)
                    && deny.same_as(b_deny)
                    && forwarded_for.same_as(b_forwarded_for)
            },
            (
                HoopConfig::Rewrite {
                    strip_prefix,
                    uri,
                    regex_rules,
                    if_not_file,
                    if_not_dir,
                    root,
                    normalize_slashes,
                },
                HoopConfig::Rewrite {
                    strip_prefix: b_strip_prefix,
                    uri: b_uri,
                    regex_rules: b_regex_rules,
                    if_not_file: b_if_not_file,
                    if_not_dir: b_if_not_dir,
                    root: b_root,
                    normalize_slashes: b_normalize_slashes,
                },
            ) => {
                strip_prefix.same_as(b_strip_prefix)
                    && uri.same_as(b_uri)
                    && regex_rules.same_as(b_regex_rules)
                    && if_not_file.same_as(b_if_not_file)
                    && if_not_dir.same_as(b_if_not_dir)
                    && root.same_as(b_root)
                    && normalize_slashes.same_as(b_normalize_slashes)
            },
            (
                HoopConfig::Replace { rules, once },
                HoopConfig::Replace { rules: b_rules, once: b_once },
            ) => {
                rules.same_as(b_rules)
                    && once.same_as(b_once)
            },
            (HoopConfig::Cache(a), HoopConfig::Cache(b_a)) => a.same_as(b_a),
            (HoopConfig::Templates { root }, HoopConfig::Templates { root: b_root }) => {
                root.same_as(b_root)
            },
            (
                HoopConfig::BufferLimit { max_request_body, max_response_body },
                HoopConfig::BufferLimit {
                    max_request_body: b_max_request_body,
                    max_response_body: b_max_response_body,
                },
            ) => {
                max_request_body.same_as(b_max_request_body)
                    && max_response_body.same_as(b_max_response_body)
            },
            (
                HoopConfig::Cors {
                    allow_origins,
                    allow_methods,
                    allow_headers,
                    allow_credentials,
                    expose_headers,
                    max_age,
                },
                HoopConfig::Cors {
                    allow_origins: b_allow_origins,
                    allow_methods: b_allow_methods,
                    allow_headers: b_allow_headers,
                    allow_credentials: b_allow_credentials,
                    expose_headers: b_expose_headers,
                    max_age: b_max_age,
                },
            ) => {
                allow_origins.same_as(b_allow_origins)
                    && allow_methods.same_as(b_allow_methods)
                    && allow_headers.same_as(b_allow_headers)
                    && allow_credentials.same_as(b_allow_credentials)
                    && expose_headers.same_as(b_expose_headers)
                    && max_age.same_as(b_max_age)
            },
            (
                HoopConfig::Timeout { duration },
                HoopConfig::Timeout { duration: b_duration },
            ) => duration.same_as(b_duration),
            (
                HoopConfig::RequestId { header_name, overwrite },
                HoopConfig::RequestId { header_name: b_header_name, overwrite: b_overwrite },
            ) => {
                header_name.same_as(b_header_name)
                    && overwrite.same_as(b_overwrite)
            },
            (
                HoopConfig::ForceHttps { https_port },
                HoopConfig::ForceHttps { https_port: b_https_port },
            ) => https_port.same_as(b_https_port),
            (
                HoopConfig::TrailingSlash { action },
                HoopConfig::TrailingSlash { action: b_action },
            ) => action.same_as(b_action),
            (
                HoopConfig::Decompress { max_size },
                HoopConfig::Decompress { max_size: b_max_size },
            ) => max_size.same_as(b_max_size),
            (HoopConfig::ErrorPages { pages }, HoopConfig::ErrorPages { pages: b_pages }) => {
                pages.same_as(b_pages)
            },
            (
                HoopConfig::StreamReplace { rules, once },
                HoopConfig::StreamReplace { rules: b_rules, once: b_once },
            ) => {
                rules.same_as(b_rules)
                    && once.same_as(b_once)
            },
            (
                HoopConfig::Module { name, config },
                HoopConfig::Module { name: b_name, config: b_config },
            ) => {
                name.same_as(b_name)
                    && config.same_as(b_config)
            },
            _ => false,
        }
    }
}

impl Clone for HoopConfig {
    fn clone(&self) -> (r: HoopConfig)
        ensures
            r.deep_view() == self.deep_view(),
    {
        self.duplicate()
    }
}

/// The plain values of a [`ForwardProxyConfig`].
#[verifier::ext_equal]
pub struct ForwardProxyConfigView {
    pub auth_users: Seq<BasicAuthUserView>,
}

/// Forward proxy handler configuration (HTTP CONNECT tunneling).
#[derive(Debug, PartialEq, Eq)]
pub struct ForwardProxyConfig {
    /// When non-empty, CONNECT requests must supply valid credentials.
    pub auth_users: Vec<BasicAuthUser>,
}

impl DeepView for ForwardProxyConfig {
    type V = ForwardProxyConfigView;

    open spec fn deep_view(&self) -> ForwardProxyConfigView {
        ForwardProxyConfigView {
            auth_users: self.auth_users.deep_view(),
        }
    }
}

impl Data for ForwardProxyConfig {
    fn duplicate(&self) -> (r: ForwardProxyConfig) {
        ForwardProxyConfig {
            auth_users: self.auth_users.duplicate(),
        }
    }

    fn same_as(&self, other: &ForwardProxyConfig) -> (r: bool) {
        self.auth_users.same_as(&other.auth_users)
    }
}

impl Clone for ForwardProxyConfig {
    fn clone(&self) -> (r: ForwardProxyConfig)
        ensures
            r.deep_view() == self.deep_view(),
    {
        self.duplicate()
    }
}

/// The plain values of a [`CgiConfig`].
#[verifier::ext_equal]
pub struct CgiConfigView {
    pub root: Seq<char>,
    pub env: Seq<(Seq<char>, Seq<char>)>,
}

/// CGI handler configuration.
#[derive(Debug, PartialEq, Eq)]
pub struct CgiConfig {
    /// Filesystem root from which CGI scripts are resolved.
    pub root: String,
    /// Extra environment variables injected into every CGI invocation.
    pub env: SortedMap<String, String>,
}

impl DeepView for CgiConfig {
    type V = CgiConfigView;

    open spec fn deep_view(&self) -> CgiConfigView {
        CgiConfigView {
            root: self.root.deep_view(),
            env: self.env.deep_view(),
        }
    }
}

impl Data for CgiConfig {
    fn duplicate(&self) -> (r: CgiConfig) {
        CgiConfig {
            root: self.root.duplicate(),
            env: self.env.duplicate(),
        }
    }

    fn same_as(&self, other: &CgiConfig) -> (r: bool) {
        self.root.same_as(&other.root) && self.env.same_as(&other.env)
    }
}

impl Clone for CgiConfig {
    fn clone(&self) -> (r: CgiConfig)
        ensures
            r.deep_view() == self.deep_view(),
    {
        self.duplicate()
    }
}

/// The plain values of a [`ScgiConfig`].
#[verifier::ext_equal]
pub struct ScgiConfigView {
    pub addr: Seq<char>,
    pub env: Seq<(Seq<char>, Seq<char>)>,
}

/// SCGI handler configuration.
#[derive(Debug, PartialEq, Eq)]
pub struct ScgiConfig {
    /// Address of the SCGI server, e.g. `"127.0.0.1:9000"`.
    pub addr: String,
    /// Extra environment variables injected into every request.
    pub env: SortedMap<String, String>,
}

impl DeepView for ScgiConfig {
    type V = ScgiConfigView;

    open spec fn deep_view(&self) -> ScgiConfigView {
        ScgiConfigView {
            addr: self.addr.deep_view(),
            env: self.env.deep_view(),
        }
    }
}

impl Data for ScgiConfig {
    fn duplicate(&self) -> (r: ScgiConfig) {
        ScgiConfig {
            addr: self.addr.duplicate(),
            env: self.env.duplicate(),
        }
    }

    fn same_as(&self, other: &ScgiConfig) -> (r: bool) {
        self.addr.same_as(&other.addr) && self.env.same_as(&other.env)
    }
}

impl Clone for ScgiConfig {
    fn clone(&self) -> (r: ScgiConfig)
        ensures
            r.deep_view() == self.deep_view(),
    {
        self.duplicate()
    }
}

/// The plain values of a [`FastCgiConfig`].
#[verifier::ext_equal]
pub struct FastCgiConfigView {
    pub addr: Seq<char>,
    pub script_root: Seq<char>,
    pub index: Seq<Seq<char>>,
    pub split_path: Option<Seq<char>>,
    pub env: Seq<(Seq<char>, Seq<char>)>,
}

/// FastCGI handler configuration (e.g. for PHP-FPM).
#[derive(Debug, PartialEq, Eq)]
pub struct FastCgiConfig {
    pub addr: String,
    /// Document root on the FastCGI server.
    pub script_root: String,
    /// Index filenames for directory requests.
    pub index: Vec<String>,
    /// Path-info split marker, e.g. `".php"`.
    pub split_path: Option<String>,
    pub env: SortedMap<String, String>,
}

impl DeepView for FastCgiConfig {
    type V = FastCgiConfigView;

    open spec fn deep_view(&self) -> FastCgiConfigView {
        FastCgiConfigView {
            addr: self.addr.deep_view(),
            script_root: self.script_root.deep_view(),
            index: self.index.deep_view(),
            split_path: self.split_path.deep_view(),
            env: self.env.deep_view(),
        }
    }
}

impl Data for FastCgiConfig {
    fn duplicate(&self) -> (r: FastCgiConfig) {
        FastCgiConfig {
            addr: self.addr.duplicate(),
            script_root: self.script_root.duplicate(),
            index: self.index.duplicate(),
            split_path: self.split_path.duplicate(),
            env: self.env.duplicate(),
        }
    }

    fn same_as(&self, other: &FastCgiConfig) -> (r: bool) {
        self.addr.same_as(&other.addr)
            && self.script_root.same_as(&other.script_root)
            && self.index.same_as(&other.index)
            && self.split_path.same_as(&other.split_path)
            && self.env.same_as(&other.env)
    }
}

impl Clone for FastCgiConfig {
    fn clone(&self) -> (r: FastCgiConfig)
        ensures
            r.deep_view() == self.deep_view(),
    {
        self.duplicate()
    }
}

/// The plain values of a [`DnsUpstreamConfig`].
#[verifier::ext_equal]
pub struct DnsUpstreamConfigView {
    pub dns_name: Seq<char>,
    pub port: u16,
    pub refresh_interval: nat,
}

/// DNS-based dynamic upstream resolution configuration.
#[derive(Debug, PartialEq, Eq)]
pub struct DnsUpstreamConfig {
    pub dns_name: String,
    /// Port to pair with resolved IPs.
    pub port: u16,
    pub refresh_interval: Duration,
}

impl DeepView for DnsUpstreamConfig {
    type V = DnsUpstreamConfigView;

    open spec fn deep_view(&self) -> DnsUpstreamConfigView {
        DnsUpstreamConfigView {
            dns_name: self.dns_name.deep_view(),
            port: self.port.deep_view(),
            refresh_interval: self.refresh_interval.deep_view(),
        }
    }
}

impl Data for DnsUpstreamConfig {
    fn duplicate(&self) -> (r: DnsUpstreamConfig) {
        DnsUpstreamConfig {
            dns_name: self.dns_name.duplicate(),
            port: self.port.duplicate(),
            refresh_interval: self.refresh_interval.duplicate(),
        }
    }

    fn same_as(&self, other: &DnsUpstreamConfig) -> (r: bool) {
        self.dns_name.same_as(&other.dns_name)
            && self.port.same_as(&other.port)
            && self.refresh_interval.same_as(&other.refresh_interval)
    }
}

impl Clone for DnsUpstreamConfig {
    fn clone(&self) -> (r: DnsUpstreamConfig)
        ensures
            r.deep_view() == self.deep_view(),
    {
        self.duplicate()
    }
}

/// The plain values of a [`SrvUpstreamConfig`].
#[verifier::ext_equal]
pub struct SrvUpstreamConfigView {
    pub service_name: Seq<char>,
    pub refresh_interval: nat,
}

/// SRV-record-based dynamic upstream resolution configuration.
#[derive(Debug, PartialEq, Eq)]
pub struct SrvUpstreamConfig {
    pub service_name: String,
    pub refresh_interval: Duration,
}

impl DeepView for SrvUpstreamConfig {
    type V = SrvUpstreamConfigView;

    open spec fn deep_view(&self) -> SrvUpstreamConfigView {
        SrvUpstreamConfigView {
            service_name: self.service_name.deep_view(),
            refresh_interval: self.refresh_interval.deep_view(),
        }
    }
}

impl Data for SrvUpstreamConfig {
    fn duplicate(&self) -> (r: SrvUpstreamConfig) {
        SrvUpstreamConfig {
            service_name: self.service_name.duplicate(),
            refresh_interval: self.refresh_interval.duplicate(),
        }
    }

    fn same_as(&self, other: &SrvUpstreamConfig) -> (r: bool) {
        self.service_name.same_as(&other.service_name)
            && self.refresh_interval.same_as(&other.refresh_interval)
    }
}

impl Clone for SrvUpstreamConfig {
    fn clone(&self) -> (r: SrvUpstreamConfig)
        ensures
            r.deep_view() == self.deep_view(),
    {
        self.duplicate()
    }
}

/// The plain values of a [`UpstreamConfig`].
#[verifier::ext_equal]
pub struct UpstreamConfigView {
    pub addr: Seq<char>,
    pub weight: u32,
    pub activity_key: Option<Seq<char>>,
}

/// One upstream server.
#[derive(Debug, PartialEq, Eq)]
pub struct UpstreamConfig {
    pub addr: String,
    pub weight: u32,
    /// Key under which activity on this upstream is counted; its address where not set.
    pub activity_key: Option<String>,
}

impl DeepView for UpstreamConfig {
    type V = UpstreamConfigView;

    open spec fn deep_view(&self) -> UpstreamConfigView {
        UpstreamConfigView {
            addr: self.addr.deep_view(),
            weight: self.weight.deep_view(),
            activity_key: self.activity_key.deep_view(),
        }
    }
}

impl Data for UpstreamConfig {
    fn duplicate(&self) -> (r: UpstreamConfig) {
        UpstreamConfig {
            addr: self.addr.duplicate(),
            weight: self.weight.duplicate(),
            activity_key: self.activity_key.duplicate(),
        }
    }

    fn same_as(&self, other: &UpstreamConfig) -> (r: bool) {
        self.addr.same_as(&other.addr)
            && self.weight.same_as(&other.weight)
            && self.activity_key.same_as(&other.activity_key)
    }
}

impl Clone for UpstreamConfig {
    fn clone(&self) -> (r: UpstreamConfig)
        ensures
            r.deep_view() == self.deep_view(),
    {
        self.duplicate()
    }
}

/// The plain values of a [`HealthCheckConfig`].
#[verifier::ext_equal]
pub struct HealthCheckConfigView {
    pub uri: Seq<char>,
    pub interval: nat,
    pub timeout: nat,
    pub unhealthy_threshold: u32,
    pub healthy_threshold: u32,
}

/// Active health checks.
#[derive(Debug, PartialEq, Eq)]
pub struct HealthCheckConfig {
    pub uri: String,
    pub interval: Duration,
    pub timeout: Duration,
    pub unhealthy_threshold: u32,
    pub healthy_threshold: u32,
}

impl DeepView for HealthCheckConfig {
    type V = HealthCheckConfigView;

    open spec fn deep_view(&self) -> HealthCheckConfigView {
        HealthCheckConfigView {
            uri: self.uri.deep_view(),
            interval: self.interval.deep_view(),
            timeout: self.timeout.deep_view(),
            unhealthy_threshold: self.unhealthy_threshold.deep_view(),
            healthy_threshold: self.healthy_threshold.deep_view(),
        }
    }
}

impl Data for HealthCheckConfig {
    fn duplicate(&self) -> (r: HealthCheckConfig) {
        HealthCheckConfig {
            uri: self.uri.duplicate(),
            interval: self.interval.duplicate(),
            timeout: self.timeout.duplicate(),
            unhealthy_threshold: self.unhealthy_threshold.duplicate(),
            healthy_threshold: self.healthy_threshold.duplicate(),
        }
    }

    fn same_as(&self, other: &HealthCheckConfig) -> (r: bool) {
        self.uri.same_as(&other.uri)
            && self.interval.same_as(&other.interval)
            && self.timeout.same_as(&other.timeout)
            && self.unhealthy_threshold.same_as(&other.unhealthy_threshold)
            && self.healthy_threshold.same_as(&other.healthy_threshold)
    }
}

impl Clone for HealthCheckConfig {
    fn clone(&self) -> (r: HealthCheckConfig)
        ensures
            r.deep_view() == self.deep_view(),
    {
        self.duplicate()
    }
}

/// The plain values of a [`PassiveHealthConfig`].
#[verifier::ext_equal]
pub struct PassiveHealthConfigView {
    pub max_fails: u32,
    pub fail_window: nat,
    pub cooldown: nat,
}

/// Passive health tracking.
#[derive(Debug, PartialEq, Eq)]
pub struct PassiveHealthConfig {
    pub max_fails: u32,
    pub fail_window: Duration,
    pub cooldown: Duration,
}

impl DeepView for PassiveHealthConfig {
    type V = PassiveHealthConfigView;

    open spec fn deep_view(&self) -> PassiveHealthConfigView {
        PassiveHealthConfigView {
            max_fails: self.max_fails.deep_view(),
            fail_window: self.fail_window.deep_view(),
            cooldown: self.cooldown.deep_view(),
        }
    }
}

impl Data for PassiveHealthConfig {
    fn duplicate(&self) -> (r: PassiveHealthConfig) {
        PassiveHealthConfig {
            max_fails: self.max_fails.duplicate(),
            fail_window: self.fail_window.duplicate(),
            cooldown: self.cooldown.duplicate(),
        }
    }

    fn same_as(&self, other: &PassiveHealthConfig) -> (r: bool) {
        self.max_fails.same_as(&other.max_fails)
            && self.fail_window.same_as(&other.fail_window)
            && self.cooldown.same_as(&other.cooldown)
    }
}

impl Clone for PassiveHealthConfig {
    fn clone(&self) -> (r: PassiveHealthConfig)
        ensures
            r.deep_view() == self.deep_view(),
    {
        self.duplicate()
    }
}

/// The plain values of a [`FileServerConfig`].
#[verifier::ext_equal]
pub struct FileServerConfigView {
    pub root: Seq<char>,
    pub browse: bool,
    pub trailing_slash: bool,
    pub index: Seq<Seq<char>>,
}

/// Static file serving config.
#[derive(Debug, PartialEq, Eq)]
pub struct FileServerConfig {
    pub root: String,
    pub browse: bool,
    /// Redirect directory requests without trailing slash to add one (default).
    pub trailing_slash: bool,
    /// Index filenames to try when serving a directory (default: ["index.html"]).
    pub index: Vec<String>,
}

impl DeepView for FileServerConfig {
    type V = FileServerConfigView;

    open spec fn deep_view(&self) -> FileServerConfigView {
        FileServerConfigView {
            root: self.root.deep_view(),
            browse: self.browse.deep_view(),
            trailing_slash: self.trailing_slash.deep_view(),
            index: self.index.deep_view(),
        }
    }
}

impl Data for FileServerConfig {
    fn duplicate(&self) -> (r: FileServerConfig) {
        FileServerConfig {
            root: self.root.duplicate(),
            browse: self.browse.duplicate(),
            trailing_slash: self.trailing_slash.duplicate(),
            index: self.index.duplicate(),
        }
    }

    fn same_as(&self, other: &FileServerConfig) -> (r: bool) {
        self.root.same_as(&other.root)
            && self.browse.same_as(&other.browse)
            && self.trailing_slash.same_as(&other.trailing_slash)
            && self.index.same_as(&other.index)
    }
}

impl Clone for FileServerConfig {
    fn clone(&self) -> (r: FileServerConfig)
        ensures
            r.deep_view() == self.deep_view(),
    {
        self.duplicate()
    }
}

/// The plain values of a [`ProxyConfig`].
#[verifier::ext_equal]
pub struct ProxyConfigView {
    pub upstreams: Seq<UpstreamConfigView>,
    pub lb: LbPolicy,
    pub lb_header: Option<Seq<char>>,
    pub lb_cookie: Option<Seq<char>>,
    pub health_check: Option<HealthCheckConfigView>,
    pub passive_health: Option<PassiveHealthConfigView>,
    pub headers_up: Seq<(Seq<char>, Seq<char>)>,
    pub headers_down: Seq<(Seq<char>, Seq<char>)>,
    pub retries: u32,
    pub dynamic_upstreams: Option<DnsUpstreamConfigView>,
    pub error_pages: Seq<(u16, Seq<char>)>,
    pub headers_up_replace: Seq<(Seq<char>, Seq<char>, Seq<char>)>,
    pub tls_skip_verify: bool,
    pub upstream_http2: bool,
    pub max_connections: Option<usize>,
    pub keepalive_timeout: Option<nat>,
    pub sanitize_uri: bool,
    pub srv_upstream: Option<SrvUpstreamConfigView>,
}

/// Reverse proxy handler config.
#[derive(Debug, PartialEq, Eq)]
pub struct ProxyConfig {
    pub upstreams: Vec<UpstreamConfig>,
    pub lb: LbPolicy,
    /// Header name used by `HeaderHash` load balancing.
    pub lb_header: Option<String>,
    /// Cookie name used by `CookieHash` load balancing.
    pub lb_cookie: Option<String>,
    pub health_check: Option<HealthCheckConfig>,
    pub passive_health: Option<PassiveHealthConfig>,
    pub headers_up: SortedMap<String, String>,
    pub headers_down: SortedMap<String, String>,
    /// Number of retry attempts on upstream failure (0 = no retries).
    pub retries: u32,
    pub dynamic_upstreams: Option<DnsUpstreamConfig>,
    /// Response bodies to substitute when the upstream returns these status codes.
    pub error_pages: SortedMap<u16, String>,
    /// (header name, pattern, replacement) rules applied to upstream request headers.
    pub headers_up_replace: Vec<(String, String, String)>,
    pub tls_skip_verify: bool,
    pub upstream_http2: bool,
    /// Maximum total concurrent connections to upstreams.
    pub max_connections: Option<usize>,
    pub keepalive_timeout: Option<Duration>,
    /// Normalize the URI path before forwarding (default).
    pub sanitize_uri: bool,
    pub srv_upstream: Option<SrvUpstreamConfig>,
}

impl DeepView for ProxyConfig {
    type V = ProxyConfigView;

    open spec fn deep_view(&self) -> ProxyConfigView {
        ProxyConfigView {
            upstreams: self.upstreams.deep_view(),
            lb: self.lb.deep_view(),
            lb_header: self.lb_header.deep_view(),
            lb_cookie: self.lb_cookie.deep_view(),
            health_check: self.health_check.deep_view(),
            passive_health: self.passive_health.deep_view(),
            headers_up: self.headers_up.deep_view(),
            headers_down: self.headers_down.deep_view(),
            retries: self.retries.deep_view(),
            dynamic_upstreams: self.dynamic_upstreams.deep_view(),
            error_pages: self.error_pages.deep_view(),
            headers_up_replace: self.headers_up_replace.deep_view(),
            tls_skip_verify: self.tls_skip_verify.deep_view(),
            upstream_http2: self.upstream_http2.deep_view(),
            max_connections: self.max_connections.deep_view(),
            keepalive_timeout: self.keepalive_timeout.deep_view(),
            sanitize_uri: self.sanitize_uri.deep_view(),
            srv_upstream: self.srv_upstream.deep_view(),
        }
    }
}

impl Data for ProxyConfig {
    fn duplicate(&self) -> (r: ProxyConfig) {
        ProxyConfig {
            upstreams: self.upstreams.duplicate(),
            lb: self.lb.duplicate(),
            lb_header: self.lb_header.duplicate(),
            lb_cookie: self.lb_cookie.duplicate(),
            health_check: self.health_check.duplicate(),
            passive_health: self.passive_health.duplicate(),
            headers_up: self.headers_up.duplicate(),
            headers_down: self.headers_down.duplicate(),
            retries: self.retries.duplicate(),
            dynamic_upstreams: self.dynamic_upstreams.duplicate(),
            error_pages: self.error_pages.duplicate(),
            headers_up_replace: self.headers_up_replace.duplicate(),
            tls_skip_verify: self.tls_skip_verify.duplicate(),
            upstream_http2: self.upstream_http2.duplicate(),
            max_connections: self.max_connections.duplicate(),
            keepalive_timeout: self.keepalive_timeout.duplicate(),
            sanitize_uri: self.sanitize_uri.duplicate(),
            srv_upstream: self.srv_upstream.duplicate(),
        }
    }

    fn same_as(&self, other: &ProxyConfig) -> (r: bool) {
        self.upstreams.same_as(&other.upstreams)
            && self.lb.same_as(&other.lb)
            && self.lb_header.same_as(&other.lb_header)
            && self.lb_cookie.same_as(&other.lb_cookie)
            && self.health_check.same_as(&other.health_check)
            && self.passive_health.same_as(&other.passive_health)
            && self.headers_up.same_as(&other.headers_up)
            && self.headers_down.same_as(&other.headers_down)
            && self.retries.same_as(&other.retries)
            && self.dynamic_upstreams.same_as(&other.dynamic_upstreams)
            && self.error_pages.same_as(&other.error_pages)
            && self.headers_up_replace.same_as(&other.headers_up_replace)
            && self.tls_skip_verify.same_as(&other.tls_skip_verify)
            && self.upstream_http2.same_as(&other.upstream_http2)
            && self.max_connections.same_as(&other.max_connections)
            && self.keepalive_timeout.same_as(&other.keepalive_timeout)
            && self.sanitize_uri.same_as(&other.sanitize_uri)
            && self.srv_upstream.same_as(&other.srv_upstream)
    }
}

impl Clone for ProxyConfig {
    fn clone(&self) -> (r: ProxyConfig)
        ensures
            r.deep_view() == self.deep_view(),
    {
        self.duplicate()
    }
}

/// The plain values of a [`HandlerConfig`].
#[verifier::ext_equal]
pub enum HandlerConfigView {
    Proxy(ProxyConfigView),
    FastCgi(FastCgiConfigView),
    ForwardProxy(ForwardProxyConfigView),
    Cgi(CgiConfigView),
    Scgi(ScgiConfigView),
    FileServer(FileServerConfigView),
    Redirect { to: Seq<char>, permanent: bool },
    Respond { status: u16, body: Seq<char> },
    Module { name: Seq<char>, config: Seq<(Seq<char>, Seq<char>)> },
}

/// Terminal handler for a route.
#[derive(Debug, PartialEq, Eq)]
pub enum HandlerConfig {
    Proxy(ProxyConfig),
    FastCgi(FastCgiConfig),
    ForwardProxy(ForwardProxyConfig),
    Cgi(CgiConfig),
    Scgi(ScgiConfig),
    FileServer(FileServerConfig),
    Redirect {
        to: String,
        permanent: bool,
    },
    Respond {
        status: u16,
        body: String,
    },
    /// A module-provided handler loaded via the plugin system.
    Module {
        name: String,
        config: SortedMap<String, String>,
    },
}

impl DeepView for HandlerConfig {
    type V = HandlerConfigView;

    open spec fn deep_view(&self) -> HandlerConfigView {
        match self {
            HandlerConfig::Proxy(a) => HandlerConfigView::Proxy(a.deep_view()),
            HandlerConfig::FastCgi(a) => HandlerConfigView::FastCgi(a.deep_view()),
            HandlerConfig::ForwardProxy(a) => HandlerConfigView::ForwardProxy(a.deep_view()),
            HandlerConfig::Cgi(a) => HandlerConfigView::Cgi(a.deep_view()),
            HandlerConfig::Scgi(a) => HandlerConfigView::Scgi(a.deep_view()),
            HandlerConfig::FileServer(a) => HandlerConfigView::FileServer(a.deep_view()),
            HandlerConfig::Redirect { to, permanent } => {
                HandlerConfigView::Redirect { to: to.deep_view(), permanent: permanent.deep_view() }
            },
            HandlerConfig::Respond { status, body } => {
                HandlerConfigView::Respond { status: status.deep_view(), body: body.deep_view() }
            },
            HandlerConfig::Module { name, config } => {
                HandlerConfigView::Module { name: name.deep_view(), config: config.deep_view() }
            },
        }
    }
}

impl Data for HandlerConfig {
    fn duplicate(&self) -> (r: HandlerConfig) {
        match self {
            HandlerConfig::Proxy(a) => HandlerConfig::Proxy(a.duplicate()),
            HandlerConfig::FastCgi(a) => HandlerConfig::FastCgi(a.duplicate()),
            HandlerConfig::ForwardProxy(a) => HandlerConfig::ForwardProxy(a.duplicate()),
            HandlerConfig::Cgi(a) => HandlerConfig::Cgi(a.duplicate()),
            HandlerConfig::Scgi(a) => HandlerConfig::Scgi(a.duplicate()),
            HandlerConfig::FileServer(a) => HandlerConfig::FileServer(a.duplicate()),
            HandlerConfig::Redirect { to, permanent } => {
                HandlerConfig::Redirect { to: to.duplicate(), permanent: permanent.duplicate() }
            },
            HandlerConfig::Respond { status, body } => {
                HandlerConfig::Respond { status: status.duplicate(), body: body.duplicate() }
            },
            HandlerConfig::Module { name, config } => {
                HandlerConfig::Module { name: name.duplicate(), config: config.duplicate() }
            },
        }
    }

    fn same_as(&self, other: &HandlerConfig) -> (r: bool) {
        match (self, other) {
            (HandlerConfig::Proxy(a), HandlerConfig::Proxy(b_a)) => a.same_as(b_a),
            (HandlerConfig::FastCgi(a), HandlerConfig::FastCgi(b_a)) => a.same_as(b_a),
            (HandlerConfig::ForwardProxy(a), HandlerConfig::ForwardProxy(b_a)) => a.same_as(b_a),
            (HandlerConfig::Cgi(a), HandlerConfig::Cgi(b_a)) => a.same_as(b_a),
            (HandlerConfig::Scgi(a), HandlerConfig::Scgi(b_a)) => a.same_as(b_a),
            (HandlerConfig::FileServer(a), HandlerConfig::FileServer(b_a)) => a.same_as(b_a),
            (
                HandlerConfig::Redirect { to, permanent },
                HandlerConfig::Redirect { to: b_to, permanent: b_permanent },
            ) => {
                to.same_as(b_to)
                    && permanent.same_as(b_permanent)
            },
            (
                HandlerConfig::Respond { status, body },
                HandlerConfig::Respond { status: b_status, body: b_body },
            ) => {
                status.same_as(b_status)
                    && body.same_as(b_body)
            },
            (
                HandlerConfig::Module { name, config },
                HandlerConfig::Module { name: b_name, config: b_config },
            ) => {
                name.same_as(b_name)
                    && config.same_as(b_config)
            },
            _ => false,
        }
    }
}

impl Clone for HandlerConfig {
    fn clone(&self) -> (r: HandlerConfig)
        ensures
            r.deep_view() == self.deep_view(),
    {
        self.duplicate()
    }
}

/// The plain values of a [`RouteConfig`].
#[verifier::ext_equal]
pub struct RouteConfigView {
    pub path: Seq<char>,
    pub matchers: Seq<MatcherView>,
    pub middlewares: Seq<HoopConfigView>,
    pub handler: HandlerConfigView,
    pub condition: Option<RouteConditionView>,
}

/// A route within a site.
#[derive(Debug, PartialEq, Eq)]
pub struct RouteConfig {
    pub path: String,
    /// Additional matchers that must all pass (in addition to path matching).
    pub matchers: Vec<RequestMatcher>,
    pub middlewares: Vec<HoopConfig>,
    pub handler: HandlerConfig,
    /// Optional condition that must hold for this route to match a request.
    pub condition: Option<RouteCondition>,
}

impl DeepView for RouteConfig {
    type V = RouteConfigView;

    open spec fn deep_view(&self) -> RouteConfigView {
        RouteConfigView {
            path: self.path.deep_view(),
            matchers: self.matchers.deep_view(),
            middlewares: self.middlewares.deep_view(),
            handler: self.handler.deep_view(),
            condition: self.condition.deep_view(),
        }
    }
}

impl Data for RouteConfig {
    fn duplicate(&self) -> (r: RouteConfig) {
        RouteConfig {
            path: self.path.duplicate(),
            matchers: self.matchers.duplicate(),
            middlewares: self.middlewares.duplicate(),
            handler: self.handler.duplicate(),
            condition: self.condition.duplicate(),
        }
    }

    fn same_as(&self, other: &RouteConfig) -> (r: bool) {
        self.path.same_as(&other.path)
            && self.matchers.same_as(&other.matchers)
            && self.middlewares.same_as(&other.middlewares)
            && self.handler.same_as(&other.handler)
            && self.condition.same_as(&other.condition)
    }
}

impl Clone for RouteConfig {
    fn clone(&self) -> (r: RouteConfig)
        ensures
            r.deep_view() == self.deep_view(),
    {
        self.duplicate()
    }
}

/// The plain values of a [`SiteConfig`].
#[verifier::ext_equal]
pub struct SiteConfigView {
    pub host: Seq<char>,
    pub tls: Option<SiteTlsConfigView>,
    pub routes: Seq<RouteConfigView>,
}

/// A virtual host (site) configuration.
#[derive(Debug, PartialEq, Eq)]
pub struct SiteConfig {
    pub host: String,
    pub tls: Option<SiteTlsConfig>,
    pub routes: Vec<RouteConfig>,
}

impl DeepView for SiteConfig {
    type V = SiteConfigView;

    open spec fn deep_view(&self) -> SiteConfigView {
        SiteConfigView {
            host: self.host.deep_view(),
            tls: self.tls.deep_view(),
            routes: self.routes.deep_view(),
        }
    }
}

impl Data for SiteConfig {
    fn duplicate(&self) -> (r: SiteConfig) {
        SiteConfig {
            host: self.host.duplicate(),
            tls: self.tls.duplicate(),
            routes: self.routes.duplicate(),
        }
    }

    fn same_as(&self, other: &SiteConfig) -> (r: bool) {
        self.host.same_as(&other.host)
            && self.tls.same_as(&other.tls)
            && self.routes.same_as(&other.routes)
    }
}

impl Clone for SiteConfig {
    fn clone(&self) -> (r: SiteConfig)
        ensures
            r.deep_view() == self.deep_view(),
    {
        self.duplicate()
    }
}

/// The plain values of a [`StreamListenerConfig`].
#[verifier::ext_equal]
pub struct StreamListenerConfigView {
    pub listen: SocketAddr,
    pub proxy: Seq<char>,
}

/// One L4 TCP stream proxy.
#[derive(Debug, PartialEq, Eq)]
pub struct StreamListenerConfig {
    pub listen: SocketAddr,
    pub proxy: String,
}

impl DeepView for StreamListenerConfig {
    type V = StreamListenerConfigView;

    open spec fn deep_view(&self) -> StreamListenerConfigView {
        StreamListenerConfigView {
            listen: self.listen.deep_view(),
            proxy: self.proxy.deep_view(),
        }
    }
}

impl Data for StreamListenerConfig {
    fn duplicate(&self) -> (r: StreamListenerConfig) {
        StreamListenerConfig {
            listen: self.listen.duplicate(),
            proxy: self.proxy.duplicate(),
        }
    }

    fn same_as(&self, other: &StreamListenerConfig) -> (r: bool) {
        self.listen.same_as(&other.listen) && self.proxy.same_as(&other.proxy)
    }
}

impl Clone for StreamListenerConfig {
    fn clone(&self) -> (r: StreamListenerConfig)
        ensures
            r.deep_view() == self.deep_view(),
    {
        self.duplicate()
    }
}

/// The plain values of a [`StreamConfig`].
#[verifier::ext_equal]
pub struct StreamConfigView {
    pub listeners: Seq<StreamListenerConfigView>,
}

/// L4 TCP stream proxy config.
#[derive(Debug, PartialEq, Eq)]
pub struct StreamConfig {
    pub listeners: Vec<StreamListenerConfig>,
}

impl DeepView for StreamConfig {
    type V = StreamConfigView;

    open spec fn deep_view(&self) -> StreamConfigView {
        StreamConfigView {
            listeners: self.listeners.deep_view(),
        }
    }
}

impl Data for StreamConfig {
    fn duplicate(&self) -> (r: StreamConfig) {
        StreamConfig {
            listeners: self.listeners.duplicate(),
        }
    }

    fn same_as(&self, other: &StreamConfig) -> (r: bool) {
        self.listeners.same_as(&other.listeners)
    }
}

impl Clone for StreamConfig {
    fn clone(&self) -> (r: StreamConfig)
        ensures
            r.deep_view() == self.deep_view(),
    {
        self.duplicate()
    }
}

/// The plain values of a [`AppConfig`].
#[verifier::ext_equal]
pub struct AppConfigView {
    pub global: GlobalConfigView,
    pub tls: Option<TlsConfigView>,
    pub sites: Seq<SiteConfigView>,
    pub stream: Option<StreamConfigView>,
}

/// Top-level application configuration.
#[derive(Debug, PartialEq, Eq)]
pub struct AppConfig {
    pub global: GlobalConfig,
    pub tls: Option<TlsConfig>,
    pub sites: Vec<SiteConfig>,
    pub stream: Option<StreamConfig>,
}

impl DeepView for AppConfig {
    type V = AppConfigView;

    open spec fn deep_view(&self) -> AppConfigView {
        AppConfigView {
            global: self.global.deep_view(),
            tls: self.tls.deep_view(),
            sites: self.sites.deep_view(),
            stream: self.stream.deep_view(),
        }
    }
}

impl Data for AppConfig {
    fn duplicate(&self) -> (r: AppConfig) {
        AppConfig {
            global: self.global.duplicate(),
            tls: self.tls.duplicate(),
            sites: self.sites.duplicate(),
            stream: self.stream.duplicate(),
        }
    }

    fn same_as(&self, other: &AppConfig) -> (r: bool) {
        self.global.same_as(&other.global)
            && self.tls.same_as(&other.tls)
            && self.sites.same_as(&other.sites)
            && self.stream.same_as(&other.stream)
    }
}

impl Clone for AppConfig {
    fn clone(&self) -> (r: AppConfig)
        ensures
            r.deep_view() == self.deep_view(),
    {
        self.duplicate()
    }
}

/// The global settings without any configuration.
pub open spec fn default_global() -> GlobalConfigView {
    GlobalConfigView {
        admin_addr: None,
        log_level: "info"@,
        log_format: "pretty"@,
        grace_period: 30_000_000_000,
        http_addr: SocketAddr { ip: IpAddr::V4(0), port: 80 },
        https_addr: SocketAddr { ip: IpAddr::V4(0), port: 443 },
        http3: false,
        proxy_protocol: false,
        access_log: None,
        error_log: None,
        tcp_nodelay: true,
        tcp_send_buffer: None,
        tcp_recv_buffer: None,
        otlp_endpoint: None,
        otlp_service_name: None,
        admin_auth_token: None,
        admin_read_token: None,
        admin_write_token: None,
    }
}

impl Default for GlobalConfig {
    fn default() -> (r: GlobalConfig)
        ensures
            r.deep_view() == default_global(),
    {
        GlobalConfig {
            admin_addr: None,
            log_level: "info".to_owned(),
            log_format: "pretty".to_owned(),
            grace_period: Duration::from_secs(30),
            http_addr: SocketAddr { ip: IpAddr::V4(0), port: 80 },
            https_addr: SocketAddr { ip: IpAddr::V4(0), port: 443 },
            http3: false,
            proxy_protocol: false,
            access_log: None,
            error_log: None,
            tcp_nodelay: true,
            tcp_send_buffer: None,
            tcp_recv_buffer: None,
            otlp_endpoint: None,
            otlp_service_name: None,
            admin_auth_token: None,
            admin_read_token: None,
            admin_write_token: None,
        }
    }
}

impl Default for AppConfig {
    fn default() -> (r: AppConfig)
        ensures
            r.deep_view() == (AppConfigView {
                global: default_global(),
                tls: None,
                sites: seq![],
                stream: None,
            }),
    {
        let r = AppConfig {
            global: GlobalConfig::default(),
            tls: None,
            sites: Vec::new(),
            stream: None,
        };
        assert(r.deep_view().sites =~= seq![]);
        r
    }
}

/// The cache settings without any configuration.
pub open spec fn default_cache() -> CacheConfigView {
    CacheConfigView {
        max_entries: 1000,
        max_entry_size: 10_485_760,
        default_max_age: 300_000_000_000,
    }
}

impl Default for CacheConfig {
    fn default() -> (r: CacheConfig)
        ensures
            r.deep_view() == default_cache(),
    {
        CacheConfig {
            max_entries: 1000,
            max_entry_size: 10 * 1024 * 1024,
            default_max_age: Duration::from_secs(300),
        }
    }
}

/// The passive health settings without any configuration.
pub open spec fn default_passive_health() -> PassiveHealthConfigView {
    PassiveHealthConfigView {
        max_fails: 5,
        fail_window: 30_000_000_000,
        cooldown: 60_000_000_000,
    }
}

impl Default for PassiveHealthConfig {
    fn default() -> (r: PassiveHealthConfig)
        ensures
            r.deep_view() == default_passive_health(),
    {
        PassiveHealthConfig {
            max_fails: 5,
            fail_window: Duration::from_secs(30),
            cooldown: Duration::from_secs(60),
        }
    }
}

} // verus!
