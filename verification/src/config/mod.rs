//! The configuration of the server and how it is read.

pub mod document;
pub mod error;
pub mod parse;
pub mod parse_handler;
pub mod parse_hoop;
pub mod types;
pub mod values;

pub use crate::config::error::ConfigError;
pub use crate::config::parse::{auto_config_from_env, parse_config};
pub use crate::config::types::{
    AcmeConfig, AppConfig, BasicAuthUser, CacheConfig, CertAuthority, CgiConfig, ChallengeType,
    ClientAuthConfig, DnsProviderConfig, DnsUpstreamConfig, EabConfig, FastCgiConfig,
    FileServerConfig, ForwardProxyConfig, GlobalConfig, HandlerConfig, HeadersConfig,
    HealthCheckConfig, HoopConfig, LbPolicy, LogFileConfig, OnDemandTlsConfig,
    PassiveHealthConfig, ProxyConfig, RouteCondition, RouteConfig, ScgiConfig, SiteConfig,
    SiteTlsConfig, SrvUpstreamConfig, StreamConfig, StreamListenerConfig, TlsConfig,
    UpstreamConfig,
};
