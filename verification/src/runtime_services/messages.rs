//! What is said of a change that was refused.

use vstd::prelude::*;
use super::types::{RuntimeServiceError, RuntimeServiceErrorView};
use crate::text;

verus! {

/// The words for a refusal.
pub open spec fn refusal_message(e: RuntimeServiceErrorView) -> Seq<char> {
    match e {
        RuntimeServiceErrorView::EmptyServiceId => "service id must not be empty"@,
        RuntimeServiceErrorView::UnknownService(a) => "service '"@ + a + "' was not found"@,
        RuntimeServiceErrorView::EmptyListenerId => "listener id must not be empty"@,
        RuntimeServiceErrorView::UnknownListener { service_id, listener_id } => {
            "listener '"@ + listener_id + "' was not found in service '"@ + service_id + "'"@
        },
        RuntimeServiceErrorView::DuplicateListenerId(a) => {
            "listener id '"@ + a + "' is duplicated"@
        },
        RuntimeServiceErrorView::DuplicateListenerProtocol(a) => {
            "listener protocol '"@ + a + "' is duplicated"@
        },
        RuntimeServiceErrorView::EmptyRouteId => "route id must not be empty"@,
        RuntimeServiceErrorView::UnknownRoute { service_id, route_id } => {
            "route '"@ + route_id + "' was not found in service '"@ + service_id + "'"@
        },
        RuntimeServiceErrorView::DuplicateRouteId(a) => "route id '"@ + a + "' is duplicated"@,
        RuntimeServiceErrorView::InvalidPathPrefix => "route path prefix must start with '/'"@,
        RuntimeServiceErrorView::EmptyTargetGroupId => "target group id must not be empty"@,
        RuntimeServiceErrorView::UnknownTargetGroup { service_id, route_id, group_id } => {
            "target group '"@ + group_id + "' was not found in service '"@ + service_id
                + "' route '"@ + route_id + "'"@
        },
        RuntimeServiceErrorView::DuplicateTargetGroupId(a) => {
            "target group id '"@ + a + "' is duplicated"@
        },
        RuntimeServiceErrorView::EmptyTargetId => "target id must not be empty"@,
        RuntimeServiceErrorView::UnknownTarget { service_id, route_id, group_id, target_id } => {
            "target '"@ + target_id + "' was not found in service '"@ + service_id + "' route '"@
                + route_id + "' group '"@ + group_id + "'"@
        },
        RuntimeServiceErrorView::DuplicateTargetId(a) => "target id '"@ + a + "' is duplicated"@,
        RuntimeServiceErrorView::EmptyTargetAddress(a) => {
            "target address for '"@ + a + "' must not be empty"@
        },
        RuntimeServiceErrorView::RevisionConflict { expected, actual } => {
            "expected revision "@ + text::decimal(expected as nat) + ", but current revision is "@ + text::decimal(
                actual as nat,
            )
        },
        RuntimeServiceErrorView::RouteConflict {
            existing_service_id,
            existing_route_id,
            host,
            path,
            protocol,
        } => {
            "route conflicts with existing service '"@ + existing_service_id + "' route '"@
                + existing_route_id + "' on host '"@ + host + "' path '"@ + path + "' protocol '"@
                + protocol + "'"@
        },
        RuntimeServiceErrorView::UnsupportedVersion(a) => {
            "runtime state version "@ + text::decimal(a as nat) + " is not supported"@
        },
        RuntimeServiceErrorView::IncompleteTlsMaterialRefs => {
            "runtime TLS certificate and private key refs must both be set"@
        },
        RuntimeServiceErrorView::WildcardTlsHost => {
            "runtime TLS with manual certificate refs is not supported for wildcard hosts"@
        },
        RuntimeServiceErrorView::UnknownCanonicalHost { service_id, canonical_host } => {
            "canonical host '"@ + canonical_host + "' must be explicitly declared on service '"@
                + service_id + "'"@
        },
        RuntimeServiceErrorView::InvalidCanonicalHost(a) => {
            "canonical host '"@ + a + "' is invalid"@
        },
        RuntimeServiceErrorView::TlsHostConflict { host, existing_service_id, service_id } => {
            "TLS host '"@ + host + "' conflicts between service '"@ + existing_service_id
                + "' and service '"@ + service_id + "'"@
        },
        RuntimeServiceErrorView::StaticTlsHostConflict { host, service_id } => {
            "TLS host '"@ + host + "' conflicts between static config and service '"@ + service_id
                + "'"@
        },
    }
}

/// The status that a refusal is answered with.
pub open spec fn refusal_status(e: RuntimeServiceErrorView) -> u16 {
    match e {
        RuntimeServiceErrorView::UnknownService(_)
        | RuntimeServiceErrorView::UnknownListener { .. }
        | RuntimeServiceErrorView::UnknownRoute { .. }
        | RuntimeServiceErrorView::UnknownTargetGroup { .. }
        | RuntimeServiceErrorView::UnknownTarget { .. } => 404,
        RuntimeServiceErrorView::RevisionConflict { .. } => 409,
        RuntimeServiceErrorView::UnsupportedVersion(_) => 500,
        _ => 400,
    }
}

impl RuntimeServiceError {
    /// The words for the refusal.
    pub fn message(&self) -> (r: String)
        ensures
            r@ == refusal_message(self.deep_view()),
    {
        match self {
            RuntimeServiceError::EmptyServiceId => "service id must not be empty".to_owned(),
            RuntimeServiceError::UnknownService(a) => {
                let mut out = "service '".to_owned();
                out.append(a.as_str());
                out.append("' was not found");
                out
            },
            RuntimeServiceError::EmptyListenerId => "listener id must not be empty".to_owned(),
            RuntimeServiceError::UnknownListener { service_id, listener_id } => {
                let mut out = "listener '".to_owned();
                out.append(listener_id.as_str());
                out.append("' was not found in service '");
                out.append(service_id.as_str());
                out.append("'");
                out
            },
            RuntimeServiceError::DuplicateListenerId(a) => {
                let mut out = "listener id '".to_owned();
                out.append(a.as_str());
                out.append("' is duplicated");
                out
            },
            RuntimeServiceError::DuplicateListenerProtocol(a) => {
                let mut out = "listener protocol '".to_owned();
                out.append(a.as_str());
                out.append("' is duplicated");
                out
            },
            RuntimeServiceError::EmptyRouteId => "route id must not be empty".to_owned(),
            RuntimeServiceError::UnknownRoute { service_id, route_id } => {
                let mut out = "route '".to_owned();
                out.append(route_id.as_str());
                out.append("' was not found in service '");
                out.append(service_id.as_str());
                out.append("'");
                out
            },
            RuntimeServiceError::DuplicateRouteId(a) => {
                let mut out = "route id '".to_owned();
                out.append(a.as_str());
                out.append("' is duplicated");
                out
            },
            RuntimeServiceError::InvalidPathPrefix => {
                "route path prefix must start with '/'".to_owned()
            },
            RuntimeServiceError::EmptyTargetGroupId => {
                "target group id must not be empty".to_owned()
            },
            RuntimeServiceError::UnknownTargetGroup { service_id, route_id, group_id } => {
                let mut out = "target group '".to_owned();
                out.append(group_id.as_str());
                out.append("' was not found in service '");
                out.append(service_id.as_str());
                out.append("' route '");
                out.append(route_id.as_str());
                out.append("'");
                out
            },
            RuntimeServiceError::DuplicateTargetGroupId(a) => {
                let mut out = "target group id '".to_owned();
                out.append(a.as_str());
                out.append("' is duplicated");
                out
            },
            RuntimeServiceError::EmptyTargetId => "target id must not be empty".to_owned(),
            RuntimeServiceError::UnknownTarget { service_id, route_id, group_id, target_id } => {
                let mut out = "target '".to_owned();
                out.append(target_id.as_str());
                out.append("' was not found in service '");
                out.append(service_id.as_str());
                out.append("' route '");
                out.append(route_id.as_str());
                out.append("' group '");
                out.append(group_id.as_str());
                out.append("'");
                out
            },
            RuntimeServiceError::DuplicateTargetId(a) => {
                let mut out = "target id '".to_owned();
                out.append(a.as_str());
                out.append("' is duplicated");
                out
            },
            RuntimeServiceError::EmptyTargetAddress(a) => {
                let mut out = "target address for '".to_owned();
                out.append(a.as_str());
                out.append("' must not be empty");
                out
            },
            RuntimeServiceError::RevisionConflict { expected, actual } => {
                let mut out = "expected revision ".to_owned();
                out.append(text::number_text(*expected as u128).as_str());
                out.append(", but current revision is ");
                out.append(text::number_text(*actual as u128).as_str());
                out
            },
            RuntimeServiceError::RouteConflict {
                existing_service_id,
                existing_route_id,
                host,
                path,
                protocol,
            } => {
                let mut out = "route conflicts with existing service '".to_owned();
                out.append(existing_service_id.as_str());
                out.append("' route '");
                out.append(existing_route_id.as_str());
                out.append("' on host '");
                out.append(host.as_str());
                out.append("' path '");
                out.append(path.as_str());
                out.append("' protocol '");
                out.append(protocol.as_str());
                out.append("'");
                out
            },
            RuntimeServiceError::UnsupportedVersion(a) => {
                let mut out = "runtime state version ".to_owned();
                out.append(text::number_text(*a as u128).as_str());
                out.append(" is not supported");
                out
            },
            RuntimeServiceError::IncompleteTlsMaterialRefs => {
                "runtime TLS certificate and private key refs must both be set".to_owned()
            },
            RuntimeServiceError::WildcardTlsHost => {
                "runtime TLS with manual certificate refs is not supported for wildcard hosts".to_owned()
            },
            RuntimeServiceError::UnknownCanonicalHost { service_id, canonical_host } => {
                let mut out = "canonical host '".to_owned();
                out.append(canonical_host.as_str());
                out.append("' must be explicitly declared on service '");
                out.append(service_id.as_str());
                out.append("'");
                out
            },
            RuntimeServiceError::InvalidCanonicalHost(a) => {
                let mut out = "canonical host '".to_owned();
                out.append(a.as_str());
                out.append("' is invalid");
                out
            },
            RuntimeServiceError::TlsHostConflict { host, existing_service_id, service_id } => {
                let mut out = "TLS host '".to_owned();
                out.append(host.as_str());
                out.append("' conflicts between service '");
                out.append(existing_service_id.as_str());
                out.append("' and service '");
                out.append(service_id.as_str());
                out.append("'");
                out
            },
            RuntimeServiceError::StaticTlsHostConflict { host, service_id } => {
                let mut out = "TLS host '".to_owned();
                out.append(host.as_str());
                out.append("' conflicts between static config and service '");
                out.append(service_id.as_str());
                out.append("'");
                out
            },
        }
    }

    /// The status that the refusal is answered with.
    pub fn status(&self) -> (r: u16)
        ensures
            r == refusal_status(self.deep_view()),
    {
        match self {
            RuntimeServiceError::UnknownService(_)
            | RuntimeServiceError::UnknownListener { .. }
            | RuntimeServiceError::UnknownRoute { .. }
            | RuntimeServiceError::UnknownTargetGroup { .. }
            | RuntimeServiceError::UnknownTarget { .. } => 404,
            RuntimeServiceError::RevisionConflict { .. } => 409,
            RuntimeServiceError::UnsupportedVersion(_) => 500,
            _ => 400,
        }
    }
}

/// What is not known is not found, a revision that is not the current one is a conflict, a
/// state of an unknown version is a fault of the server, and everything else that is
/// refused is a bad request.
pub proof fn lemma_refusal_status(e: RuntimeServiceErrorView)
    ensures
        e is UnknownService || e is UnknownListener || e is UnknownRoute || e is UnknownTargetGroup
            || e is UnknownTarget <==> refusal_status(e) == 404,
        e is RevisionConflict <==> refusal_status(e) == 409,
        e is UnsupportedVersion <==> refusal_status(e) == 500,
        refusal_status(e) == 400 || refusal_status(e) == 404 || refusal_status(e) == 409
            || refusal_status(e) == 500,
{
}

} // verus!
