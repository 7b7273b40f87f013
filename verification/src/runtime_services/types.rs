//! The types of the runtime-managed services.

use vstd::prelude::*;
use crate::config::types::{LbPolicy, SiteTlsConfig, SiteTlsConfigView};
use crate::data::Data;
use crate::router::matcher::{MatcherView, RequestMatcher};
use crate::sorted_map::SortedMap;
use crate::time::Duration;

verus! {

/// The version of the state format.
pub const RUNTIME_STATE_VERSION: u32 = 1;

/// The plain values of a [`RuntimeServiceError`].
#[verifier::ext_equal]
pub enum RuntimeServiceErrorView {
    EmptyServiceId,
    UnknownService(Seq<char>),
    EmptyListenerId,
    UnknownListener { service_id: Seq<char>, listener_id: Seq<char> },
    DuplicateListenerId(Seq<char>),
    DuplicateListenerProtocol(Seq<char>),
    EmptyRouteId,
    UnknownRoute { service_id: Seq<char>, route_id: Seq<char> },
    DuplicateRouteId(Seq<char>),
    InvalidPathPrefix,
    EmptyTargetGroupId,
    UnknownTargetGroup { service_id: Seq<char>, route_id: Seq<char>, group_id: Seq<char> },
    DuplicateTargetGroupId(Seq<char>),
    EmptyTargetId,
    UnknownTarget {
        service_id: Seq<char>,
        route_id: Seq<char>,
        group_id: Seq<char>,
        target_id: Seq<char>,
    },
    DuplicateTargetId(Seq<char>),
    EmptyTargetAddress(Seq<char>),
    RevisionConflict { expected: u64, actual: u64 },
    RouteConflict {
        existing_service_id: Seq<char>,
        existing_route_id: Seq<char>,
        host: Seq<char>,
        path: Seq<char>,
        protocol: Seq<char>,
    },
    UnsupportedVersion(u32),
    IncompleteTlsMaterialRefs,
    WildcardTlsHost,
    UnknownCanonicalHost { service_id: Seq<char>, canonical_host: Seq<char> },
    InvalidCanonicalHost(Seq<char>),
    TlsHostConflict { host: Seq<char>, existing_service_id: Seq<char>, service_id: Seq<char> },
    StaticTlsHostConflict { host: Seq<char>, service_id: Seq<char> },
}

/// Why a change of the runtime services was refused.
#[derive(Debug, PartialEq, Eq)]
pub enum RuntimeServiceError {
    EmptyServiceId,
    UnknownService(String),
    EmptyListenerId,
    UnknownListener {
        service_id: String,
        listener_id: String,
    },
    DuplicateListenerId(String),
    DuplicateListenerProtocol(String),
    EmptyRouteId,
    UnknownRoute {
        service_id: String,
        route_id: String,
    },
    DuplicateRouteId(String),
    InvalidPathPrefix,
    EmptyTargetGroupId,
    UnknownTargetGroup {
        service_id: String,
        route_id: String,
        group_id: String,
    },
    DuplicateTargetGroupId(String),
    EmptyTargetId,
    UnknownTarget {
        service_id: String,
        route_id: String,
        group_id: String,
        target_id: String,
    },
    DuplicateTargetId(String),
    EmptyTargetAddress(String),
    RevisionConflict {
        expected: u64,
        actual: u64,
    },
    RouteConflict {
        existing_service_id: String,
        existing_route_id: String,
        host: String,
        path: String,
        protocol: String,
    },
    UnsupportedVersion(u32),
    IncompleteTlsMaterialRefs,
    WildcardTlsHost,
    UnknownCanonicalHost {
        service_id: String,
        canonical_host: String,
    },
    InvalidCanonicalHost(String),
    TlsHostConflict {
        host: String,
        existing_service_id: String,
        service_id: String,
    },
    StaticTlsHostConflict {
        host: String,
        service_id: String,
    },
}

impl DeepView for RuntimeServiceError {
    type V = RuntimeServiceErrorView;

    open spec fn deep_view(&self) -> RuntimeServiceErrorView {
        match self {
            RuntimeServiceError::EmptyServiceId => RuntimeServiceErrorView::EmptyServiceId,
            RuntimeServiceError::UnknownService(a) => {
                RuntimeServiceErrorView::UnknownService(a.deep_view())
            },
            RuntimeServiceError::EmptyListenerId => RuntimeServiceErrorView::EmptyListenerId,
            RuntimeServiceError::UnknownListener { service_id, listener_id } => {
                RuntimeServiceErrorView::UnknownListener {
                    service_id: service_id.deep_view(),
                    listener_id: listener_id.deep_view(),
                }
            },
            RuntimeServiceError::DuplicateListenerId(a) => {
                RuntimeServiceErrorView::DuplicateListenerId(a.deep_view())
            },
            RuntimeServiceError::DuplicateListenerProtocol(a) => {
                RuntimeServiceErrorView::DuplicateListenerProtocol(a.deep_view())
            },
            RuntimeServiceError::EmptyRouteId => RuntimeServiceErrorView::EmptyRouteId,
            RuntimeServiceError::UnknownRoute { service_id, route_id } => {
                RuntimeServiceErrorView::UnknownRoute {
                    service_id: service_id.deep_view(),
                    route_id: route_id.deep_view(),
                }
            },
            RuntimeServiceError::DuplicateRouteId(a) => {
                RuntimeServiceErrorView::DuplicateRouteId(a.deep_view())
            },
            RuntimeServiceError::InvalidPathPrefix => RuntimeServiceErrorView::InvalidPathPrefix,
            RuntimeServiceError::EmptyTargetGroupId => RuntimeServiceErrorView::EmptyTargetGroupId,
            RuntimeServiceError::UnknownTargetGroup { service_id, route_id, group_id } => {
                RuntimeServiceErrorView::UnknownTargetGroup {
                    service_id: service_id.deep_view(),
                    route_id: route_id.deep_view(),
                    group_id: group_id.deep_view(),
                }
            },
            RuntimeServiceError::DuplicateTargetGroupId(a) => {
                RuntimeServiceErrorView::DuplicateTargetGroupId(a.deep_view())
            },
            RuntimeServiceError::EmptyTargetId => RuntimeServiceErrorView::EmptyTargetId,
            RuntimeServiceError::UnknownTarget { service_id, route_id, group_id, target_id } => {
                RuntimeServiceErrorView::UnknownTarget {
                    service_id: service_id.deep_view(),
                    route_id: route_id.deep_view(),
                    group_id: group_id.deep_view(),
                    target_id: target_id.deep_view(),
                }
            },
            RuntimeServiceError::DuplicateTargetId(a) => {
                RuntimeServiceErrorView::DuplicateTargetId(a.deep_view())
            },
            RuntimeServiceError::EmptyTargetAddress(a) => {
                RuntimeServiceErrorView::EmptyTargetAddress(a.deep_view())
            },
            RuntimeServiceError::RevisionConflict { expected, actual } => {
                RuntimeServiceErrorView::RevisionConflict {
                    expected: expected.deep_view(),
                    actual: actual.deep_view(),
                }
            },
            RuntimeServiceError::RouteConflict {
                existing_service_id,
                existing_route_id,
                host,
                path,
                protocol,
            } => {
                RuntimeServiceErrorView::RouteConflict {
                    existing_service_id: existing_service_id.deep_view(),
                    existing_route_id: existing_route_id.deep_view(),
                    host: host.deep_view(),
                    path: path.deep_view(),
                    protocol: protocol.deep_view(),
                }
            },
            RuntimeServiceError::UnsupportedVersion(a) => {
                RuntimeServiceErrorView::UnsupportedVersion(a.deep_view())
            },
            RuntimeServiceError::IncompleteTlsMaterialRefs => {
                RuntimeServiceErrorView::IncompleteTlsMaterialRefs
            },
            RuntimeServiceError::WildcardTlsHost => RuntimeServiceErrorView::WildcardTlsHost,
            RuntimeServiceError::UnknownCanonicalHost { service_id, canonical_host } => {
                RuntimeServiceErrorView::UnknownCanonicalHost {
                    service_id: service_id.deep_view(),
                    canonical_host: canonical_host.deep_view(),
                }
            },
            RuntimeServiceError::InvalidCanonicalHost(a) => {
                RuntimeServiceErrorView::InvalidCanonicalHost(a.deep_view())
            },
            RuntimeServiceError::TlsHostConflict { host, existing_service_id, service_id } => {
                RuntimeServiceErrorView::TlsHostConflict {
                    host: host.deep_view(),
                    existing_service_id: existing_service_id.deep_view(),
                    service_id: service_id.deep_view(),
                }
            },
            RuntimeServiceError::StaticTlsHostConflict { host, service_id } => {
                RuntimeServiceErrorView::StaticTlsHostConflict {
                    host: host.deep_view(),
                    service_id: service_id.deep_view(),
                }
            },
        }
    }
}

impl Data for RuntimeServiceError {
    fn duplicate(&self) -> (r: RuntimeServiceError) {
        match self {
            RuntimeServiceError::EmptyServiceId => RuntimeServiceError::EmptyServiceId,
            RuntimeServiceError::UnknownService(a) => {
                RuntimeServiceError::UnknownService(a.duplicate())
            },
            RuntimeServiceError::EmptyListenerId => RuntimeServiceError::EmptyListenerId,
            RuntimeServiceError::UnknownListener { service_id, listener_id } => {
                RuntimeServiceError::UnknownListener {
                    service_id: service_id.duplicate(),
                    listener_id: listener_id.duplicate(),
                }
            },
            RuntimeServiceError::DuplicateListenerId(a) => {
                RuntimeServiceError::DuplicateListenerId(a.duplicate())
            },
            RuntimeServiceError::DuplicateListenerProtocol(a) => {
                RuntimeServiceError::DuplicateListenerProtocol(a.duplicate())
            },
            RuntimeServiceError::EmptyRouteId => RuntimeServiceError::EmptyRouteId,
            RuntimeServiceError::UnknownRoute { service_id, route_id } => {
                RuntimeServiceError::UnknownRoute {
                    service_id: service_id.duplicate(),
                    route_id: route_id.duplicate(),
                }
            },
            RuntimeServiceError::DuplicateRouteId(a) => {
                RuntimeServiceError::DuplicateRouteId(a.duplicate())
            },
            RuntimeServiceError::InvalidPathPrefix => RuntimeServiceError::InvalidPathPrefix,
            RuntimeServiceError::EmptyTargetGroupId => RuntimeServiceError::EmptyTargetGroupId,
            RuntimeServiceError::UnknownTargetGroup { service_id, route_id, group_id } => {
                RuntimeServiceError::UnknownTargetGroup {
                    service_id: service_id.duplicate(),
                    route_id: route_id.duplicate(),
                    group_id: group_id.duplicate(),
                }
            },
            RuntimeServiceError::DuplicateTargetGroupId(a) => {
                RuntimeServiceError::DuplicateTargetGroupId(a.duplicate())
            },
            RuntimeServiceError::EmptyTargetId => RuntimeServiceError::EmptyTargetId,
            RuntimeServiceError::UnknownTarget { service_id, route_id, group_id, target_id } => {
                RuntimeServiceError::UnknownTarget {
                    service_id: service_id.duplicate(),
                    route_id: route_id.duplicate(),
                    group_id: group_id.duplicate(),
                    target_id: target_id.duplicate(),
                }
            },
            RuntimeServiceError::DuplicateTargetId(a) => {
                RuntimeServiceError::DuplicateTargetId(a.duplicate())
            },
            RuntimeServiceError::EmptyTargetAddress(a) => {
                RuntimeServiceError::EmptyTargetAddress(a.duplicate())
            },
            RuntimeServiceError::RevisionConflict { expected, actual } => {
                RuntimeServiceError::RevisionConflict {
                    expected: expected.duplicate(),
                    actual: actual.duplicate(),
                }
            },
            RuntimeServiceError::RouteConflict {
                existing_service_id,
                existing_route_id,
                host,
                path,
                protocol,
            } => {
                RuntimeServiceError::RouteConflict {
                    existing_service_id: existing_service_id.duplicate(),
                    existing_route_id: existing_route_id.duplicate(),
                    host: host.duplicate(),
                    path: path.duplicate(),
                    protocol: protocol.duplicate(),
                }
            },
            RuntimeServiceError::UnsupportedVersion(a) => {
                RuntimeServiceError::UnsupportedVersion(a.duplicate())
            },
            RuntimeServiceError::IncompleteTlsMaterialRefs => {
                RuntimeServiceError::IncompleteTlsMaterialRefs
            },
            RuntimeServiceError::WildcardTlsHost => RuntimeServiceError::WildcardTlsHost,
            RuntimeServiceError::UnknownCanonicalHost { service_id, canonical_host } => {
                RuntimeServiceError::UnknownCanonicalHost {
                    service_id: service_id.duplicate(),
                    canonical_host: canonical_host.duplicate(),
                }
            },
            RuntimeServiceError::InvalidCanonicalHost(a) => {
                RuntimeServiceError::InvalidCanonicalHost(a.duplicate())
            },
            RuntimeServiceError::TlsHostConflict { host, existing_service_id, service_id } => {
                RuntimeServiceError::TlsHostConflict {
                    host: host.duplicate(),
                    existing_service_id: existing_service_id.duplicate(),
                    service_id: service_id.duplicate(),
                }
            },
            RuntimeServiceError::StaticTlsHostConflict { host, service_id } => {
                RuntimeServiceError::StaticTlsHostConflict {
                    host: host.duplicate(),
                    service_id: service_id.duplicate(),
                }
            },
        }
    }

    fn same_as(&self, other: &RuntimeServiceError) -> (r: bool) {
        match (self, other) {
            (RuntimeServiceError::EmptyServiceId, RuntimeServiceError::EmptyServiceId) => true,
            (
                RuntimeServiceError::UnknownService(a),
                RuntimeServiceError::UnknownService(b_a),
            ) => a.same_as(b_a),
            (RuntimeServiceError::EmptyListenerId, RuntimeServiceError::EmptyListenerId) => true,
            (
                RuntimeServiceError::UnknownListener { service_id, listener_id },
                RuntimeServiceError::UnknownListener {
                    service_id: b_service_id,
                    listener_id: b_listener_id,
                },
            ) => {
                service_id.same_as(b_service_id)
                    && listener_id.same_as(b_listener_id)
            },
            (
                RuntimeServiceError::DuplicateListenerId(a),
                RuntimeServiceError::DuplicateListenerId(b_a),
            ) => a.same_as(b_a),
            (
                RuntimeServiceError::DuplicateListenerProtocol(a),
                RuntimeServiceError::DuplicateListenerProtocol(b_a),
            ) => a.same_as(b_a),
            (RuntimeServiceError::EmptyRouteId, RuntimeServiceError::EmptyRouteId) => true,
            (
                RuntimeServiceError::UnknownRoute { service_id, route_id },
                RuntimeServiceError::UnknownRoute {
                    service_id: b_service_id,
                    route_id: b_route_id,
                },
            ) => {
                service_id.same_as(b_service_id)
                    && route_id.same_as(b_route_id)
            },
            (
                RuntimeServiceError::DuplicateRouteId(a),
                RuntimeServiceError::DuplicateRouteId(b_a),
            ) => a.same_as(b_a),
            (
                RuntimeServiceError::InvalidPathPrefix,
                RuntimeServiceError::InvalidPathPrefix,
            ) => true,
            (
                RuntimeServiceError::EmptyTargetGroupId,
                RuntimeServiceError::EmptyTargetGroupId,
            ) => true,
            (
                RuntimeServiceError::UnknownTargetGroup { service_id, route_id, group_id },
                RuntimeServiceError::UnknownTargetGroup {
                    service_id: b_service_id,
                    route_id: b_route_id,
                    group_id: b_group_id,
                },
            ) => {
                service_id.same_as(b_service_id)
                    && route_id.same_as(b_route_id)
                    && group_id.same_as(b_group_id)
            },
            (
                RuntimeServiceError::DuplicateTargetGroupId(a),
                RuntimeServiceError::DuplicateTargetGroupId(b_a),
            ) => a.same_as(b_a),
            (RuntimeServiceError::EmptyTargetId, RuntimeServiceError::EmptyTargetId) => true,
            (
                RuntimeServiceError::UnknownTarget { service_id, route_id, group_id, target_id },
                RuntimeServiceError::UnknownTarget {
                    service_id: b_service_id,
                    route_id: b_route_id,
                    group_id: b_group_id,
                    target_id: b_target_id,
                },
            ) => {
                service_id.same_as(b_service_id)
                    && route_id.same_as(b_route_id)
                    && group_id.same_as(b_group_id)
                    && target_id.same_as(b_target_id)
            },
            (
                RuntimeServiceError::DuplicateTargetId(a),
                RuntimeServiceError::DuplicateTargetId(b_a),
            ) => a.same_as(b_a),
            (
                RuntimeServiceError::EmptyTargetAddress(a),
                RuntimeServiceError::EmptyTargetAddress(b_a),
            ) => a.same_as(b_a),
            (
                RuntimeServiceError::RevisionConflict { expected, actual },
                RuntimeServiceError::RevisionConflict { expected: b_expected, actual: b_actual },
            ) => {
                expected.same_as(b_expected)
                    && actual.same_as(b_actual)
            },
            (
                RuntimeServiceError::RouteConflict {
                    existing_service_id,
                    existing_route_id,
                    host,
                    path,
                    protocol,
                },
                RuntimeServiceError::RouteConflict {
                    existing_service_id: b_existing_service_id,
                    existing_route_id: b_existing_route_id,
                    host: b_host,
                    path: b_path,
                    protocol: b_protocol,
                },
            ) => {
                existing_service_id.same_as(b_existing_service_id)
                    && existing_route_id.same_as(b_existing_route_id)
                    && host.same_as(b_host)
                    && path.same_as(b_path)
                    && protocol.same_as(b_protocol)
            },
            (
                RuntimeServiceError::UnsupportedVersion(a),
                RuntimeServiceError::UnsupportedVersion(b_a),
            ) => a.same_as(b_a),
            (
                RuntimeServiceError::IncompleteTlsMaterialRefs,
                RuntimeServiceError::IncompleteTlsMaterialRefs,
            ) => true,
            (RuntimeServiceError::WildcardTlsHost, RuntimeServiceError::WildcardTlsHost) => true,
            (
                RuntimeServiceError::UnknownCanonicalHost { service_id, canonical_host },
                RuntimeServiceError::UnknownCanonicalHost {
                    service_id: b_service_id,
                    canonical_host: b_canonical_host,
                },
            ) => {
                service_id.same_as(b_service_id)
                    && canonical_host.same_as(b_canonical_host)
            },
            (
                RuntimeServiceError::InvalidCanonicalHost(a),
                RuntimeServiceError::InvalidCanonicalHost(b_a),
            ) => a.same_as(b_a),
            (
                RuntimeServiceError::TlsHostConflict { host, existing_service_id, service_id },
                RuntimeServiceError::TlsHostConflict {
                    host: b_host,
                    existing_service_id: b_existing_service_id,
                    service_id: b_service_id,
                },
            ) => {
                host.same_as(b_host)
                    && existing_service_id.same_as(b_existing_service_id)
                    && service_id.same_as(b_service_id)
            },
            (
                RuntimeServiceError::StaticTlsHostConflict { host, service_id },
                RuntimeServiceError::StaticTlsHostConflict {
                    host: b_host,
                    service_id: b_service_id,
                },
            ) => {
                host.same_as(b_host)
                    && service_id.same_as(b_service_id)
            },
            _ => false,
        }
    }
}

impl Clone for RuntimeServiceError {
    fn clone(&self) -> (r: RuntimeServiceError)
        ensures
            r.deep_view() == self.deep_view(),
    {
        self.duplicate()
    }
}

/// The protocol that a listener speaks.
#[derive(Clone, Copy, Debug, PartialEq, Eq, Structural)]
pub enum RuntimeListenerProtocol {
    Http,
    Https,
}

impl DeepView for RuntimeListenerProtocol {
    type V = RuntimeListenerProtocol;

    open spec fn deep_view(&self) -> RuntimeListenerProtocol {
        *self
    }
}

impl Data for RuntimeListenerProtocol {
    fn duplicate(&self) -> (r: RuntimeListenerProtocol) {
        *self
    }

    fn same_as(&self, other: &RuntimeListenerProtocol) -> (r: bool) {
        *self == *other
    }
}

impl Default for RuntimeListenerProtocol {
    fn default() -> (r: RuntimeListenerProtocol)
        ensures
            r == RuntimeListenerProtocol::Http,
    {
        RuntimeListenerProtocol::Http
    }
}

/// How far a target is in its life.
#[derive(Clone, Copy, Debug, PartialEq, Eq, Structural)]
pub enum RuntimeTargetState {
    Warming,
    Active,
    Draining,
    Failed,
}

impl DeepView for RuntimeTargetState {
    type V = RuntimeTargetState;

    open spec fn deep_view(&self) -> RuntimeTargetState {
        *self
    }
}

impl Data for RuntimeTargetState {
    fn duplicate(&self) -> (r: RuntimeTargetState) {
        *self
    }

    fn same_as(&self, other: &RuntimeTargetState) -> (r: bool) {
        *self == *other
    }
}

impl Default for RuntimeTargetState {
    fn default() -> (r: RuntimeTargetState)
        ensures
            r == RuntimeTargetState::Warming,
    {
        RuntimeTargetState::Warming
    }
}

/// The plain values of a [`RuntimeListener`].
#[verifier::ext_equal]
pub struct RuntimeListenerView {
    pub id: Seq<char>,
    pub protocol: RuntimeListenerProtocol,
}

/// A listener of a service.
#[derive(Debug, PartialEq, Eq)]
pub struct RuntimeListener {
    pub id: String,
    pub protocol: RuntimeListenerProtocol,
}

impl DeepView for RuntimeListener {
    type V = RuntimeListenerView;

    open spec fn deep_view(&self) -> RuntimeListenerView {
        RuntimeListenerView {
            id: self.id.deep_view(),
            protocol: self.protocol.deep_view(),
        }
    }
}

impl Data for RuntimeListener {
    fn duplicate(&self) -> (r: RuntimeListener) {
        RuntimeListener {
            id: self.id.duplicate(),
            protocol: self.protocol.duplicate(),
        }
    }

    fn same_as(&self, other: &RuntimeListener) -> (r: bool) {
        self.id.same_as(&other.id) && self.protocol.same_as(&other.protocol)
    }
}

impl Clone for RuntimeListener {
    fn clone(&self) -> (r: RuntimeListener)
        ensures
            r.deep_view() == self.deep_view(),
    {
        self.duplicate()
    }
}

/// The plain values of a [`RuntimeTlsPolicy`].
#[verifier::ext_equal]
pub struct RuntimeTlsPolicyView {
    pub certificate_ref: Option<Seq<char>>,
    pub private_key_ref: Option<Seq<char>>,
    pub https_redirect: Option<bool>,
    pub canonical_host: Option<Seq<char>>,
}

/// How a service uses TLS.
#[derive(Debug, PartialEq, Eq)]
pub struct RuntimeTlsPolicy {
    pub certificate_ref: Option<String>,
    pub private_key_ref: Option<String>,
    pub https_redirect: Option<bool>,
    pub canonical_host: Option<String>,
}

impl DeepView for RuntimeTlsPolicy {
    type V = RuntimeTlsPolicyView;

    open spec fn deep_view(&self) -> RuntimeTlsPolicyView {
        RuntimeTlsPolicyView {
            certificate_ref: self.certificate_ref.deep_view(),
            private_key_ref: self.private_key_ref.deep_view(),
            https_redirect: self.https_redirect.deep_view(),
            canonical_host: self.canonical_host.deep_view(),
        }
    }
}

impl Data for RuntimeTlsPolicy {
    fn duplicate(&self) -> (r: RuntimeTlsPolicy) {
        RuntimeTlsPolicy {
            certificate_ref: self.certificate_ref.duplicate(),
            private_key_ref: self.private_key_ref.duplicate(),
            https_redirect: self.https_redirect.duplicate(),
            canonical_host: self.canonical_host.duplicate(),
        }
    }

    fn same_as(&self, other: &RuntimeTlsPolicy) -> (r: bool) {
        self.certificate_ref.same_as(&other.certificate_ref)
            && self.private_key_ref.same_as(&other.private_key_ref)
            && self.https_redirect.same_as(&other.https_redirect)
            && self.canonical_host.same_as(&other.canonical_host)
    }
}

impl Clone for RuntimeTlsPolicy {
    fn clone(&self) -> (r: RuntimeTlsPolicy)
        ensures
            r.deep_view() == self.deep_view(),
    {
        self.duplicate()
    }
}

/// The plain values of a [`RuntimeHealthCheck`].
#[verifier::ext_equal]
pub struct RuntimeHealthCheckView {
    pub path: Seq<char>,
    pub interval: nat,
    pub timeout: nat,
    pub port: Option<u16>,
    pub host: Option<Seq<char>>,
    pub success_threshold: u32,
    pub failure_threshold: u32,
}

/// How the targets of a route are probed.
#[derive(Debug, PartialEq, Eq)]
pub struct RuntimeHealthCheck {
    pub path: String,
    pub interval: Duration,
    pub timeout: Duration,
    pub port: Option<u16>,
    pub host: Option<String>,
    pub success_threshold: u32,
    pub failure_threshold: u32,
}

impl DeepView for RuntimeHealthCheck {
    type V = RuntimeHealthCheckView;

    open spec fn deep_view(&self) -> RuntimeHealthCheckView {
        RuntimeHealthCheckView {
            path: self.path.deep_view(),
            interval: self.interval.deep_view(),
            timeout: self.timeout.deep_view(),
            port: self.port.deep_view(),
            host: self.host.deep_view(),
            success_threshold: self.success_threshold.deep_view(),
            failure_threshold: self.failure_threshold.deep_view(),
        }
    }
}

impl Data for RuntimeHealthCheck {
    fn duplicate(&self) -> (r: RuntimeHealthCheck) {
        RuntimeHealthCheck {
            path: self.path.duplicate(),
            interval: self.interval.duplicate(),
            timeout: self.timeout.duplicate(),
            port: self.port.duplicate(),
            host: self.host.duplicate(),
            success_threshold: self.success_threshold.duplicate(),
            failure_threshold: self.failure_threshold.duplicate(),
        }
    }

    fn same_as(&self, other: &RuntimeHealthCheck) -> (r: bool) {
        self.path.same_as(&other.path)
            && self.interval.same_as(&other.interval)
            && self.timeout.same_as(&other.timeout)
            && self.port.same_as(&other.port)
            && self.host.same_as(&other.host)
            && self.success_threshold.same_as(&other.success_threshold)
            && self.failure_threshold.same_as(&other.failure_threshold)
    }
}

impl Clone for RuntimeHealthCheck {
    fn clone(&self) -> (r: RuntimeHealthCheck)
        ensures
            r.deep_view() == self.deep_view(),
    {
        self.duplicate()
    }
}

/// The plain values of a [`RuntimeTarget`].
#[verifier::ext_equal]
pub struct RuntimeTargetView {
    pub id: Seq<char>,
    pub addr: Seq<char>,
    pub weight: u32,
    pub state: RuntimeTargetState,
    pub drain_timeout: nat,
    pub last_error: Option<Seq<char>>,
}

/// A backend of a target group.
#[derive(Debug, PartialEq, Eq)]
pub struct RuntimeTarget {
    pub id: String,
    pub addr: String,
    pub weight: u32,
    pub state: RuntimeTargetState,
    pub drain_timeout: Duration,
    pub last_error: Option<String>,
}

impl DeepView for RuntimeTarget {
    type V = RuntimeTargetView;

    open spec fn deep_view(&self) -> RuntimeTargetView {
        RuntimeTargetView {
            id: self.id.deep_view(),
            addr: self.addr.deep_view(),
            weight: self.weight.deep_view(),
            state: self.state.deep_view(),
            drain_timeout: self.drain_timeout.deep_view(),
            last_error: self.last_error.deep_view(),
        }
    }
}

impl Data for RuntimeTarget {
    fn duplicate(&self) -> (r: RuntimeTarget) {
        RuntimeTarget {
            id: self.id.duplicate(),
            addr: self.addr.duplicate(),
            weight: self.weight.duplicate(),
            state: self.state.duplicate(),
            drain_timeout: self.drain_timeout.duplicate(),
            last_error: self.last_error.duplicate(),
        }
    }

    fn same_as(&self, other: &RuntimeTarget) -> (r: bool) {
        self.id.same_as(&other.id)
            && self.addr.same_as(&other.addr)
            && self.weight.same_as(&other.weight)
            && self.state.same_as(&other.state)
            && self.drain_timeout.same_as(&other.drain_timeout)
            && self.last_error.same_as(&other.last_error)
    }
}

impl Clone for RuntimeTarget {
    fn clone(&self) -> (r: RuntimeTarget)
        ensures
            r.deep_view() == self.deep_view(),
    {
        self.duplicate()
    }
}

/// The plain values of a [`RuntimeTargetGroup`].
#[verifier::ext_equal]
pub struct RuntimeTargetGroupView {
    pub id: Seq<char>,
    pub weight: u32,
    pub targets: Seq<RuntimeTargetView>,
}

/// A weighted group of targets.
#[derive(Debug, PartialEq, Eq)]
pub struct RuntimeTargetGroup {
    pub id: String,
    pub weight: u32,
    pub targets: Vec<RuntimeTarget>,
}

impl DeepView for RuntimeTargetGroup {
    type V = RuntimeTargetGroupView;

    open spec fn deep_view(&self) -> RuntimeTargetGroupView {
        RuntimeTargetGroupView {
            id: self.id.deep_view(),
            weight: self.weight.deep_view(),
            targets: self.targets.deep_view(),
        }
    }
}

impl Data for RuntimeTargetGroup {
    fn duplicate(&self) -> (r: RuntimeTargetGroup) {
        RuntimeTargetGroup {
            id: self.id.duplicate(),
            weight: self.weight.duplicate(),
            targets: self.targets.duplicate(),
        }
    }

    fn same_as(&self, other: &RuntimeTargetGroup) -> (r: bool) {
        self.id.same_as(&other.id)
            && self.weight.same_as(&other.weight)
            && self.targets.same_as(&other.targets)
    }
}

impl Clone for RuntimeTargetGroup {
    fn clone(&self) -> (r: RuntimeTargetGroup)
        ensures
            r.deep_view() == self.deep_view(),
    {
        self.duplicate()
    }
}

/// The plain values of a [`RuntimeRoute`].
#[verifier::ext_equal]
pub struct RuntimeRouteView {
    pub id: Seq<char>,
    pub hosts: Seq<Seq<char>>,
    pub path_prefix: Seq<char>,
    pub matchers: Seq<MatcherView>,
    pub strip_path_prefix: bool,
    pub lb: LbPolicy,
    pub lb_header: Option<Seq<char>>,
    pub lb_cookie: Option<Seq<char>>,
    pub target_groups: Seq<RuntimeTargetGroupView>,
    pub health_check: RuntimeHealthCheckView,
}

/// A route of a service.
#[derive(Debug, PartialEq, Eq)]
pub struct RuntimeRoute {
    pub id: String,
    pub hosts: Vec<String>,
    pub path_prefix: String,
    pub matchers: Vec<RequestMatcher>,
    pub strip_path_prefix: bool,
    pub lb: LbPolicy,
    pub lb_header: Option<String>,
    pub lb_cookie: Option<String>,
    pub target_groups: Vec<RuntimeTargetGroup>,
    pub health_check: RuntimeHealthCheck,
}

impl DeepView for RuntimeRoute {
    type V = RuntimeRouteView;

    open spec fn deep_view(&self) -> RuntimeRouteView {
        RuntimeRouteView {
            id: self.id.deep_view(),
            hosts: self.hosts.deep_view(),
            path_prefix: self.path_prefix.deep_view(),
            matchers: self.matchers.deep_view(),
            strip_path_prefix: self.strip_path_prefix.deep_view(),
            lb: self.lb.deep_view(),
            lb_header: self.lb_header.deep_view(),
            lb_cookie: self.lb_cookie.deep_view(),
            target_groups: self.target_groups.deep_view(),
            health_check: self.health_check.deep_view(),
        }
    }
}

impl Data for RuntimeRoute {
    fn duplicate(&self) -> (r: RuntimeRoute) {
        RuntimeRoute {
            id: self.id.duplicate(),
            hosts: self.hosts.duplicate(),
            path_prefix: self.path_prefix.duplicate(),
            matchers: self.matchers.duplicate(),
            strip_path_prefix: self.strip_path_prefix.duplicate(),
            lb: self.lb.duplicate(),
            lb_header: self.lb_header.duplicate(),
            lb_cookie: self.lb_cookie.duplicate(),
            target_groups: self.target_groups.duplicate(),
            health_check: self.health_check.duplicate(),
        }
    }

    fn same_as(&self, other: &RuntimeRoute) -> (r: bool) {
        self.id.same_as(&other.id)
            && self.hosts.same_as(&other.hosts)
            && self.path_prefix.same_as(&other.path_prefix)
            && self.matchers.same_as(&other.matchers)
            && self.strip_path_prefix.same_as(&other.strip_path_prefix)
            && self.lb.same_as(&other.lb)
            && self.lb_header.same_as(&other.lb_header)
            && self.lb_cookie.same_as(&other.lb_cookie)
            && self.target_groups.same_as(&other.target_groups)
            && self.health_check.same_as(&other.health_check)
    }
}

impl Clone for RuntimeRoute {
    fn clone(&self) -> (r: RuntimeRoute)
        ensures
            r.deep_view() == self.deep_view(),
    {
        self.duplicate()
    }
}

/// The plain values of a [`RuntimeService`].
#[verifier::ext_equal]
pub struct RuntimeServiceView {
    pub id: Seq<char>,
    pub revision: u64,
    pub listeners: Seq<RuntimeListenerView>,
    pub routes: Seq<RuntimeRouteView>,
    pub tls: Option<RuntimeTlsPolicyView>,
}

/// A service with its listeners and routes.
#[derive(Debug, PartialEq, Eq)]
pub struct RuntimeService {
    pub id: String,
    pub revision: u64,
    pub listeners: Vec<RuntimeListener>,
    pub routes: Vec<RuntimeRoute>,
    pub tls: Option<RuntimeTlsPolicy>,
}

impl DeepView for RuntimeService {
    type V = RuntimeServiceView;

    open spec fn deep_view(&self) -> RuntimeServiceView {
        RuntimeServiceView {
            id: self.id.deep_view(),
            revision: self.revision.deep_view(),
            listeners: self.listeners.deep_view(),
            routes: self.routes.deep_view(),
            tls: self.tls.deep_view(),
        }
    }
}

impl Data for RuntimeService {
    fn duplicate(&self) -> (r: RuntimeService) {
        RuntimeService {
            id: self.id.duplicate(),
            revision: self.revision.duplicate(),
            listeners: self.listeners.duplicate(),
            routes: self.routes.duplicate(),
            tls: self.tls.duplicate(),
        }
    }

    fn same_as(&self, other: &RuntimeService) -> (r: bool) {
        self.id.same_as(&other.id)
            && self.revision.same_as(&other.revision)
            && self.listeners.same_as(&other.listeners)
            && self.routes.same_as(&other.routes)
            && self.tls.same_as(&other.tls)
    }
}

impl Clone for RuntimeService {
    fn clone(&self) -> (r: RuntimeService)
        ensures
            r.deep_view() == self.deep_view(),
    {
        self.duplicate()
    }
}

/// The plain values of a [`RuntimeState`].
#[verifier::ext_equal]
pub struct RuntimeStateView {
    pub version: u32,
    pub revision: u64,
    pub services: Seq<(Seq<char>, RuntimeServiceView)>,
}

/// All runtime-managed services, by id.
#[derive(Debug, PartialEq, Eq)]
pub struct RuntimeState {
    pub version: u32,
    pub revision: u64,
    pub services: SortedMap<String, RuntimeService>,
}

impl DeepView for RuntimeState {
    type V = RuntimeStateView;

    open spec fn deep_view(&self) -> RuntimeStateView {
        RuntimeStateView {
            version: self.version.deep_view(),
            revision: self.revision.deep_view(),
            services: self.services.deep_view(),
        }
    }
}

impl Data for RuntimeState {
    fn duplicate(&self) -> (r: RuntimeState) {
        RuntimeState {
            version: self.version.duplicate(),
            revision: self.revision.duplicate(),
            services: self.services.duplicate(),
        }
    }

    fn same_as(&self, other: &RuntimeState) -> (r: bool) {
        self.version.same_as(&other.version)
            && self.revision.same_as(&other.revision)
            && self.services.same_as(&other.services)
    }
}

impl Clone for RuntimeState {
    fn clone(&self) -> (r: RuntimeState)
        ensures
            r.deep_view() == self.deep_view(),
    {
        self.duplicate()
    }
}

/// The plain values of a [`RuntimeServicePatch`].
#[verifier::ext_equal]
pub struct RuntimeServicePatchView {
    pub listeners: Option<Seq<RuntimeListenerView>>,
    pub tls: Option<RuntimeTlsPolicyView>,
}

/// A partial change of a service.
#[derive(Debug, PartialEq, Eq)]
pub struct RuntimeServicePatch {
    pub listeners: Option<Vec<RuntimeListener>>,
    pub tls: Option<RuntimeTlsPolicy>,
}

impl DeepView for RuntimeServicePatch {
    type V = RuntimeServicePatchView;

    open spec fn deep_view(&self) -> RuntimeServicePatchView {
        RuntimeServicePatchView {
            listeners: self.listeners.deep_view(),
            tls: self.tls.deep_view(),
        }
    }
}

impl Data for RuntimeServicePatch {
    fn duplicate(&self) -> (r: RuntimeServicePatch) {
        RuntimeServicePatch {
            listeners: self.listeners.duplicate(),
            tls: self.tls.duplicate(),
        }
    }

    fn same_as(&self, other: &RuntimeServicePatch) -> (r: bool) {
        self.listeners.same_as(&other.listeners) && self.tls.same_as(&other.tls)
    }
}

impl Clone for RuntimeServicePatch {
    fn clone(&self) -> (r: RuntimeServicePatch)
        ensures
            r.deep_view() == self.deep_view(),
    {
        self.duplicate()
    }
}

/// The plain values of a [`RuntimeRoutePatch`].
#[verifier::ext_equal]
pub struct RuntimeRoutePatchView {
    pub hosts: Option<Seq<Seq<char>>>,
    pub path_prefix: Option<Seq<char>>,
    pub matchers: Option<Seq<MatcherView>>,
    pub strip_path_prefix: Option<bool>,
    pub lb: Option<LbPolicy>,
    pub lb_header: Option<Seq<char>>,
    pub lb_cookie: Option<Seq<char>>,
    pub target_groups: Option<Seq<RuntimeTargetGroupView>>,
    pub health_check: Option<RuntimeHealthCheckView>,
}

/// A partial change of a route.
#[derive(Debug, PartialEq, Eq)]
pub struct RuntimeRoutePatch {
    pub hosts: Option<Vec<String>>,
    pub path_prefix: Option<String>,
    pub matchers: Option<Vec<RequestMatcher>>,
    pub strip_path_prefix: Option<bool>,
    pub lb: Option<LbPolicy>,
    pub lb_header: Option<String>,
    pub lb_cookie: Option<String>,
    pub target_groups: Option<Vec<RuntimeTargetGroup>>,
    pub health_check: Option<RuntimeHealthCheck>,
}

impl DeepView for RuntimeRoutePatch {
    type V = RuntimeRoutePatchView;

    open spec fn deep_view(&self) -> RuntimeRoutePatchView {
        RuntimeRoutePatchView {
            hosts: self.hosts.deep_view(),
            path_prefix: self.path_prefix.deep_view(),
            matchers: self.matchers.deep_view(),
            strip_path_prefix: self.strip_path_prefix.deep_view(),
            lb: self.lb.deep_view(),
            lb_header: self.lb_header.deep_view(),
            lb_cookie: self.lb_cookie.deep_view(),
            target_groups: self.target_groups.deep_view(),
            health_check: self.health_check.deep_view(),
        }
    }
}

impl Data for RuntimeRoutePatch {
    fn duplicate(&self) -> (r: RuntimeRoutePatch) {
        RuntimeRoutePatch {
            hosts: self.hosts.duplicate(),
            path_prefix: self.path_prefix.duplicate(),
            matchers: self.matchers.duplicate(),
            strip_path_prefix: self.strip_path_prefix.duplicate(),
            lb: self.lb.duplicate(),
            lb_header: self.lb_header.duplicate(),
            lb_cookie: self.lb_cookie.duplicate(),
            target_groups: self.target_groups.duplicate(),
            health_check: self.health_check.duplicate(),
        }
    }

    fn same_as(&self, other: &RuntimeRoutePatch) -> (r: bool) {
        self.hosts.same_as(&other.hosts)
            && self.path_prefix.same_as(&other.path_prefix)
            && self.matchers.same_as(&other.matchers)
            && self.strip_path_prefix.same_as(&other.strip_path_prefix)
            && self.lb.same_as(&other.lb)
            && self.lb_header.same_as(&other.lb_header)
            && self.lb_cookie.same_as(&other.lb_cookie)
            && self.target_groups.same_as(&other.target_groups)
            && self.health_check.same_as(&other.health_check)
    }
}

impl Clone for RuntimeRoutePatch {
    fn clone(&self) -> (r: RuntimeRoutePatch)
        ensures
            r.deep_view() == self.deep_view(),
    {
        self.duplicate()
    }
}

/// The plain values of a [`RuntimeListenerPatch`].
#[verifier::ext_equal]
pub struct RuntimeListenerPatchView {
    pub protocol: Option<RuntimeListenerProtocol>,
}

/// A partial change of a listener.
#[derive(Debug, PartialEq, Eq)]
pub struct RuntimeListenerPatch {
    pub protocol: Option<RuntimeListenerProtocol>,
}

impl DeepView for RuntimeListenerPatch {
    type V = RuntimeListenerPatchView;

    open spec fn deep_view(&self) -> RuntimeListenerPatchView {
        RuntimeListenerPatchView {
            protocol: self.protocol.deep_view(),
        }
    }
}

impl Data for RuntimeListenerPatch {
    fn duplicate(&self) -> (r: RuntimeListenerPatch) {
        RuntimeListenerPatch {
            protocol: self.protocol.duplicate(),
        }
    }

    fn same_as(&self, other: &RuntimeListenerPatch) -> (r: bool) {
        self.protocol.same_as(&other.protocol)
    }
}

impl Clone for RuntimeListenerPatch {
    fn clone(&self) -> (r: RuntimeListenerPatch)
        ensures
            r.deep_view() == self.deep_view(),
    {
        self.duplicate()
    }
}

/// The plain values of a [`RuntimeTargetPatch`].
#[verifier::ext_equal]
pub struct RuntimeTargetPatchView {
    pub addr: Option<Seq<char>>,
    pub weight: Option<u32>,
    pub state: Option<RuntimeTargetState>,
    pub drain_timeout: Option<nat>,
}

/// A partial change of a target.
#[derive(Debug, PartialEq, Eq)]
pub struct RuntimeTargetPatch {
    pub addr: Option<String>,
    pub weight: Option<u32>,
    pub state: Option<RuntimeTargetState>,
    pub drain_timeout: Option<Duration>,
}

impl DeepView for RuntimeTargetPatch {
    type V = RuntimeTargetPatchView;

    open spec fn deep_view(&self) -> RuntimeTargetPatchView {
        RuntimeTargetPatchView {
            addr: self.addr.deep_view(),
            weight: self.weight.deep_view(),
            state: self.state.deep_view(),
            drain_timeout: self.drain_timeout.deep_view(),
        }
    }
}

impl Data for RuntimeTargetPatch {
    fn duplicate(&self) -> (r: RuntimeTargetPatch) {
        RuntimeTargetPatch {
            addr: self.addr.duplicate(),
            weight: self.weight.duplicate(),
            state: self.state.duplicate(),
            drain_timeout: self.drain_timeout.duplicate(),
        }
    }

    fn same_as(&self, other: &RuntimeTargetPatch) -> (r: bool) {
        self.addr.same_as(&other.addr)
            && self.weight.same_as(&other.weight)
            && self.state.same_as(&other.state)
            && self.drain_timeout.same_as(&other.drain_timeout)
    }
}

impl Clone for RuntimeTargetPatch {
    fn clone(&self) -> (r: RuntimeTargetPatch)
        ensures
            r.deep_view() == self.deep_view(),
    {
        self.duplicate()
    }
}

/// The plain values of a [`RuntimeTargetRef`].
#[verifier::ext_equal]
pub struct RuntimeTargetRefView {
    pub group_id: Seq<char>,
    pub target: RuntimeTargetView,
}

/// A target with the id of its group.
#[derive(Debug, PartialEq, Eq)]
pub struct RuntimeTargetRef {
    pub group_id: String,
    pub target: RuntimeTarget,
}

impl DeepView for RuntimeTargetRef {
    type V = RuntimeTargetRefView;

    open spec fn deep_view(&self) -> RuntimeTargetRefView {
        RuntimeTargetRefView {
            group_id: self.group_id.deep_view(),
            target: self.target.deep_view(),
        }
    }
}

impl Data for RuntimeTargetRef {
    fn duplicate(&self) -> (r: RuntimeTargetRef) {
        RuntimeTargetRef {
            group_id: self.group_id.duplicate(),
            target: self.target.duplicate(),
        }
    }

    fn same_as(&self, other: &RuntimeTargetRef) -> (r: bool) {
        self.group_id.same_as(&other.group_id) && self.target.same_as(&other.target)
    }
}

impl Clone for RuntimeTargetRef {
    fn clone(&self) -> (r: RuntimeTargetRef)
        ensures
            r.deep_view() == self.deep_view(),
    {
        self.duplicate()
    }
}

/// The plain values of a [`RuntimeTlsBinding`].
#[verifier::ext_equal]
pub struct RuntimeTlsBindingView {
    pub service_id: Seq<char>,
    pub site_tls: SiteTlsConfigView,
}

/// The service that claimed a TLS host first, and its certificate.
#[derive(Debug, PartialEq, Eq)]
pub struct RuntimeTlsBinding {
    pub service_id: String,
    pub site_tls: SiteTlsConfig,
}

impl DeepView for RuntimeTlsBinding {
    type V = RuntimeTlsBindingView;

    open spec fn deep_view(&self) -> RuntimeTlsBindingView {
        RuntimeTlsBindingView {
            service_id: self.service_id.deep_view(),
            site_tls: self.site_tls.deep_view(),
        }
    }
}

impl Data for RuntimeTlsBinding {
    fn duplicate(&self) -> (r: RuntimeTlsBinding) {
        RuntimeTlsBinding {
            service_id: self.service_id.duplicate(),
            site_tls: self.site_tls.duplicate(),
        }
    }

    fn same_as(&self, other: &RuntimeTlsBinding) -> (r: bool) {
        self.service_id.same_as(&other.service_id) && self.site_tls.same_as(&other.site_tls)
    }
}

impl Clone for RuntimeTlsBinding {
    fn clone(&self) -> (r: RuntimeTlsBinding)
        ensures
            r.deep_view() == self.deep_view(),
    {
        self.duplicate()
    }
}

/// The plain values of a [`RouteBinding`].
#[verifier::ext_equal]
pub struct RouteBindingView {
    pub service_id: Seq<char>,
    pub route_id: Seq<char>,
    pub host: Seq<char>,
    pub path_prefix: Seq<char>,
    pub protocol: RuntimeListenerProtocol,
    pub matcher_count: usize,
}

/// One host and protocol that a route answers.
#[derive(Debug, PartialEq, Eq)]
pub struct RouteBinding {
    pub service_id: String,
    pub route_id: String,
    pub host: String,
    pub path_prefix: String,
    pub protocol: RuntimeListenerProtocol,
    pub matcher_count: usize,
}

impl DeepView for RouteBinding {
    type V = RouteBindingView;

    open spec fn deep_view(&self) -> RouteBindingView {
        RouteBindingView {
            service_id: self.service_id.deep_view(),
            route_id: self.route_id.deep_view(),
            host: self.host.deep_view(),
            path_prefix: self.path_prefix.deep_view(),
            protocol: self.protocol.deep_view(),
            matcher_count: self.matcher_count.deep_view(),
        }
    }
}

impl Data for RouteBinding {
    fn duplicate(&self) -> (r: RouteBinding) {
        RouteBinding {
            service_id: self.service_id.duplicate(),
            route_id: self.route_id.duplicate(),
            host: self.host.duplicate(),
            path_prefix: self.path_prefix.duplicate(),
            protocol: self.protocol.duplicate(),
            matcher_count: self.matcher_count.duplicate(),
        }
    }

    fn same_as(&self, other: &RouteBinding) -> (r: bool) {
        self.service_id.same_as(&other.service_id)
            && self.route_id.same_as(&other.route_id)
            && self.host.same_as(&other.host)
            && self.path_prefix.same_as(&other.path_prefix)
            && self.protocol.same_as(&other.protocol)
            && self.matcher_count.same_as(&other.matcher_count)
    }
}

impl Clone for RouteBinding {
    fn clone(&self) -> (r: RouteBinding)
        ensures
            r.deep_view() == self.deep_view(),
    {
        self.duplicate()
    }
}

impl Default for RuntimeTlsPolicy {
    fn default() -> (r: RuntimeTlsPolicy)
        ensures
            r.deep_view() == (RuntimeTlsPolicyView {
                certificate_ref: None,
                private_key_ref: None,
                https_redirect: None,
                canonical_host: None,
            }),
    {
        RuntimeTlsPolicy {
            certificate_ref: None,
            private_key_ref: None,
            https_redirect: None,
            canonical_host: None,
        }
    }
}

impl Default for RuntimeServicePatch {
    fn default() -> (r: RuntimeServicePatch)
        ensures
            r.deep_view() == (RuntimeServicePatchView { listeners: None, tls: None }),
    {
        RuntimeServicePatch { listeners: None, tls: None }
    }
}

impl Default for RuntimeRoutePatch {
    fn default() -> (r: RuntimeRoutePatch)
        ensures
            r.deep_view() == (RuntimeRoutePatchView {
                hosts: None,
                path_prefix: None,
                matchers: None,
                strip_path_prefix: None,
                lb: None,
                lb_header: None,
                lb_cookie: None,
                target_groups: None,
                health_check: None,
            }),
    {
        RuntimeRoutePatch {
            hosts: None,
            path_prefix: None,
            matchers: None,
            strip_path_prefix: None,
            lb: None,
            lb_header: None,
            lb_cookie: None,
            target_groups: None,
            health_check: None,
        }
    }
}

impl Default for RuntimeListenerPatch {
    fn default() -> (r: RuntimeListenerPatch)
        ensures
            r.deep_view() == (RuntimeListenerPatchView { protocol: None }),
    {
        RuntimeListenerPatch { protocol: None }
    }
}

impl Default for RuntimeTargetPatch {
    fn default() -> (r: RuntimeTargetPatch)
        ensures
            r.deep_view() == (RuntimeTargetPatchView {
                addr: None,
                weight: None,
                state: None,
                drain_timeout: None,
            }),
    {
        RuntimeTargetPatch { addr: None, weight: None, state: None, drain_timeout: None }
    }
}

/// The health check of a route that sets none.
pub open spec fn default_health_check() -> RuntimeHealthCheckView {
    RuntimeHealthCheckView {
        path: "/up"@,
        interval: 1_000_000_000,
        timeout: 5_000_000_000,
        port: None,
        host: None,
        success_threshold: 1,
        failure_threshold: 3,
    }
}

impl Default for RuntimeHealthCheck {
    fn default() -> (r: RuntimeHealthCheck)
        ensures
            r.deep_view() == default_health_check(),
    {
        RuntimeHealthCheck {
            path: "/up".to_owned(),
            interval: Duration::from_secs(1),
            timeout: Duration::from_secs(5),
            port: None,
            host: None,
            success_threshold: 1,
            failure_threshold: 3,
        }
    }
}

/// The version of a state that names none.
pub fn default_state_version() -> (r: u32)
    ensures
        r == RUNTIME_STATE_VERSION,
{
    RUNTIME_STATE_VERSION
}

/// The path prefix of a route that sets none.
pub fn default_path_prefix() -> (r: String)
    ensures
        r@ == "/"@,
{
    "/".to_owned()
}

/// Whether a route that does not say takes its path prefix off.
pub fn default_strip_path_prefix() -> (r: bool)
    ensures
        r,
{
    true
}

/// The weight of a group that sets none.
pub fn default_group_weight() -> (r: u32)
    ensures
        r == 100,
{
    100
}

/// The weight of a target that sets none.
pub fn default_target_weight() -> (r: u32)
    ensures
        r == 100,
{
    100
}

/// How long a target may drain where nothing else is said.
pub fn default_drain_timeout() -> (d: Duration)
    ensures
        d.total() == 30_000_000_000,
{
    Duration::from_secs(30)
}

/// The load balancing strategy of a route that sets none.
pub fn default_lb_policy() -> (p: LbPolicy)
    ensures
        p == LbPolicy::WeightedRoundRobin,
{
    LbPolicy::WeightedRoundRobin
}

impl Default for RuntimeState {
    fn default() -> (r: RuntimeState)
        ensures
            r.deep_view() == (RuntimeStateView { version: 1, revision: 0, services: seq![] }),
    {
        let r = RuntimeState {
            version: RUNTIME_STATE_VERSION,
            revision: 0,
            services: SortedMap::new(),
        };
        assert(r.deep_view().services =~= seq![]);
        r
    }
}

/// The name of a protocol.
pub open spec fn protocol_name(p: RuntimeListenerProtocol) -> Seq<char> {
    match p {
        RuntimeListenerProtocol::Http => "http"@,
        RuntimeListenerProtocol::Https => "https"@,
    }
}

impl RuntimeListenerProtocol {
    /// The name of the protocol.
    pub fn as_str(self) -> (r: &'static str)
        ensures
            r@ == protocol_name(self),
    {
        match self {
            RuntimeListenerProtocol::Http => "http",
            RuntimeListenerProtocol::Https => "https",
        }
    }
}

} // verus!
