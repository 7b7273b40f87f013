//! The rules that a runtime state obeys.

use vstd::prelude::*;
use crate::config::types::{SiteTlsConfig, SiteTlsConfigView};
use crate::data::Data;
use crate::ranking;
use crate::runtime_services::normalize;
use crate::runtime_services::normalize::normalized_route_hosts;
use crate::runtime_services::types;
use crate::runtime_services::types::{
    RouteBinding, RouteBindingView, RuntimeListener, RuntimeListenerProtocol, RuntimeListenerView,
    RuntimeRoute, RuntimeRouteView, RuntimeService, RuntimeServiceError, RuntimeServiceErrorView,
    RuntimeServiceView, RuntimeState, RuntimeStateView, RuntimeTarget, RuntimeTargetGroup,
    RuntimeTargetGroupView, RuntimeTargetView, RuntimeTlsBinding, RuntimeTlsBindingView,
    RUNTIME_STATE_VERSION,
};
use crate::sorted_map;
use crate::sorted_map::SortedMap;
use crate::text;

verus! {

/// The refusal that a check came to, if any.
pub open spec fn refusal(r: Result<(), RuntimeServiceError>) -> Option<RuntimeServiceErrorView> {
    match r {
        Ok(_) => None,
        Err(e) => Some(e.deep_view()),
    }
}

// ---------------------------------------------------------------------------
// What a service is made of
// ---------------------------------------------------------------------------

/// Some listener speaks the protocol.
pub open spec fn speaks(ls: Seq<RuntimeListenerView>, p: RuntimeListenerProtocol) -> bool {
    exists|i: int| 0 <= i < ls.len() && (#[trigger] ls[i]).protocol == p
}

/// The protocols of a service, HTTP first; a service without listeners has both.
pub open spec fn protocols(ls: Seq<RuntimeListenerView>) -> Seq<RuntimeListenerProtocol> {
    let http = ls.len() == 0 || speaks(ls, RuntimeListenerProtocol::Http);
    let https = ls.len() == 0 || speaks(ls, RuntimeListenerProtocol::Https);
    if http && https {
        seq![RuntimeListenerProtocol::Http, RuntimeListenerProtocol::Https]
    } else if http {
        seq![RuntimeListenerProtocol::Http]
    } else if https {
        seq![RuntimeListenerProtocol::Https]
    } else {
        seq![]
    }
}

/// Tells whether some listener speaks the protocol.
fn has_protocol(ls: &Vec<RuntimeListener>, p: RuntimeListenerProtocol) -> (r: bool)
    ensures
        r == speaks(ls.deep_view(), p),
{
    for i in 0..ls.len()
        invariant
            forall|j: int| 0 <= j < i ==> (#[trigger] ls.deep_view()[j]).protocol != p,
    {
        assert(ls.deep_view()[i as int] == ls@[i as int].deep_view());
        if ls[i].protocol == p {
            return true;
        }
    }
    false
}

/// The protocols of a service.
pub fn listener_protocols_for_service(service: &RuntimeService) -> (r: Vec<RuntimeListenerProtocol>)
    ensures
        r@ == protocols(service.deep_view().listeners),
{
    let none: bool = service.listeners.len() == 0;
    let mut r: Vec<RuntimeListenerProtocol> = Vec::new();
    if none || has_protocol(&service.listeners, RuntimeListenerProtocol::Http) {
        r.push(RuntimeListenerProtocol::Http);
    }
    if none || has_protocol(&service.listeners, RuntimeListenerProtocol::Https) {
        r.push(RuntimeListenerProtocol::Https);
    }
    assert(r@ =~= protocols(service.deep_view().listeners));
    r
}

/// The certificate and key of a service, where its policy gives both.
pub open spec fn site_tls(s: RuntimeServiceView) -> Option<SiteTlsConfigView> {
    match s.tls {
        Some(t) => match (t.certificate_ref, t.private_key_ref) {
            (Some(cert), Some(key)) => Some(SiteTlsConfigView { cert, key }),
            _ => None,
        },
        None => None,
    }
}

/// The certificate and key of a service.
pub fn service_site_tls_config(service: &RuntimeService) -> (r: Option<SiteTlsConfig>)
    ensures
        r.deep_view() == site_tls(service.deep_view()),
{
    match &service.tls {
        Some(t) => match (&t.certificate_ref, &t.private_key_ref) {
            (Some(cert), Some(key)) => Some(
                SiteTlsConfig { cert: cert.clone(), key: key.clone() },
            ),
            _ => None,
        },
        None => None,
    }
}

/// The hosts from `i` on that are no wildcard.
pub open spec fn named_from(hosts: Seq<Seq<char>>, i: int) -> Seq<Seq<char>>
    decreases hosts.len() - i,
{
    if i < 0 || i >= hosts.len() {
        seq![]
    } else if hosts[i] == "*"@ {
        named_from(hosts, i + 1)
    } else {
        seq![hosts[i]] + named_from(hosts, i + 1)
    }
}

/// The hosts that the routes from `i` on name.
pub open spec fn routes_name(routes: Seq<RuntimeRouteView>, i: int) -> Seq<Seq<char>>
    decreases routes.len() - i,
{
    if i < 0 || i >= routes.len() {
        seq![]
    } else {
        named_from(normalize::route_hosts(routes[i]), 0) + routes_name(routes, i + 1)
    }
}

/// The hosts that a service names, ascending.
pub open spec fn explicit_hosts(s: RuntimeServiceView) -> Seq<Seq<char>> {
    ranking::text_set(routes_name(s.routes, 0))
}

/// The hosts that a service names.
pub fn explicit_service_hosts(service: &RuntimeService) -> (r: Vec<String>)
    ensures
        r.deep_view() == explicit_hosts(service.deep_view()),
{
    let ghost rs = service.deep_view().routes;
    let mut all: Vec<String> = Vec::new();
    assert(all.deep_view() + routes_name(rs, 0) =~= routes_name(rs, 0));
    for i in 0..service.routes.len()
        invariant
            rs == service.routes.deep_view(),
            all.deep_view() + routes_name(rs, i as int) == routes_name(rs, 0),
    {
        let hosts = normalized_route_hosts(&service.routes[i]);
        let ghost hv = hosts.deep_view();
        let ghost start = all.deep_view();
        assert(rs[i as int] == service.routes@[i as int].deep_view());
        assert(all.deep_view() + named_from(hv, 0) =~= start + named_from(hv, 0));
        for k in 0..hosts.len()
            invariant
                hv == hosts.deep_view(),
                all.deep_view() + named_from(hv, k as int) == start + named_from(hv, 0),
        {
            assert(hv[k as int] == hosts@[k as int]@);
            let ghost before = all.deep_view();
            if !text::same(hosts[k].as_str(), "*") {
                all.push(hosts[k].clone());
                proof {
                    assert(all.deep_view() =~= before.push(hv[k as int]));
                    assert(all.deep_view() + named_from(hv, k + 1) =~= before + named_from(
                        hv,
                        k as int,
                    ));
                }
            }
        }
        proof {
            assert(all.deep_view() =~= start + named_from(hv, 0));
            assert(all.deep_view() + routes_name(rs, i + 1) =~= start + routes_name(rs, i as int));
        }
    }
    assert(all.deep_view() =~= routes_name(rs, 0));
    ranking::unique_texts(&all)
}

// ---------------------------------------------------------------------------
// The shape of a service
// ---------------------------------------------------------------------------

/// The first fault of the listeners from `i` on.
pub open spec fn listeners_fault(ls: Seq<RuntimeListenerView>, i: int) -> Option<
    RuntimeServiceErrorView,
>
    decreases ls.len() - i,
{
    if i < 0 || i >= ls.len() {
        None
    } else if text::trimmed(ls[i].id).len() == 0 {
        Some(RuntimeServiceErrorView::EmptyListenerId)
    } else if exists|j: int| 0 <= j < i && (#[trigger] ls[j]).id == ls[i].id {
        Some(RuntimeServiceErrorView::DuplicateListenerId(ls[i].id))
    } else if exists|j: int| 0 <= j < i && (#[trigger] ls[j]).protocol == ls[i].protocol {
        Some(
            RuntimeServiceErrorView::DuplicateListenerProtocol(
                types::protocol_name(ls[i].protocol),
            ),
        )
    } else {
        listeners_fault(ls, i + 1)
    }
}

/// Checks the listeners of a service.
fn check_listeners(ls: &Vec<RuntimeListener>) -> (r: Result<(), RuntimeServiceError>)
    ensures
        refusal(r) == listeners_fault(ls.deep_view(), 0),
{
    let ghost s = ls.deep_view();
    for i in 0..ls.len()
        invariant
            s == ls.deep_view(),
            listeners_fault(s, 0) == listeners_fault(s, i as int),
    {
        assert(s[i as int] == ls@[i as int].deep_view());
        if text::trim(ls[i].id.as_str()).as_str().is_empty() {
            return Err(RuntimeServiceError::EmptyListenerId);
        }
        let mut same_id: bool = false;
        let mut same_protocol: bool = false;
        for j in 0..i
            invariant
                i < ls.len(),
                s == ls.deep_view(),
                same_id == exists|k: int| 0 <= k < j && (#[trigger] s[k]).id == s[i as int].id,
                same_protocol == exists|k: int|
                    0 <= k < j && (#[trigger] s[k]).protocol == s[i as int].protocol,
        {
            assert(s[j as int] == ls@[j as int].deep_view());
            assert(s[i as int] == ls@[i as int].deep_view());
            if ls[j].id == ls[i].id {
                same_id = true;
            }
            if ls[j].protocol == ls[i].protocol {
                same_protocol = true;
            }
        }
        if same_id {
            return Err(RuntimeServiceError::DuplicateListenerId(ls[i].id.clone()));
        }
        if same_protocol {
            return Err(
                RuntimeServiceError::DuplicateListenerProtocol(
                    ls[i].protocol.as_str().to_owned(),
                ),
            );
        }
    }
    Ok(())
}

/// The first fault of the ids of the routes from `i` on.
pub open spec fn route_ids_fault(rs: Seq<RuntimeRouteView>, i: int) -> Option<
    RuntimeServiceErrorView,
>
    decreases rs.len() - i,
{
    if i < 0 || i >= rs.len() {
        None
    } else if text::trimmed(rs[i].id).len() == 0 {
        Some(RuntimeServiceErrorView::EmptyRouteId)
    } else if exists|j: int| 0 <= j < i && (#[trigger] rs[j]).id == rs[i].id {
        Some(RuntimeServiceErrorView::DuplicateRouteId(rs[i].id))
    } else {
        route_ids_fault(rs, i + 1)
    }
}

/// Checks the ids of the routes of a service.
fn check_route_ids(rs: &Vec<RuntimeRoute>) -> (r: Result<(), RuntimeServiceError>)
    ensures
        refusal(r) == route_ids_fault(rs.deep_view(), 0),
{
    let ghost s = rs.deep_view();
    for i in 0..rs.len()
        invariant
            s == rs.deep_view(),
            route_ids_fault(s, 0) == route_ids_fault(s, i as int),
    {
        assert(s[i as int] == rs@[i as int].deep_view());
        if text::trim(rs[i].id.as_str()).as_str().is_empty() {
            return Err(RuntimeServiceError::EmptyRouteId);
        }
        let mut same_id: bool = false;
        for j in 0..i
            invariant
                i < rs.len(),
                s == rs.deep_view(),
                same_id == exists|k: int| 0 <= k < j && (#[trigger] s[k]).id == s[i as int].id,
        {
            assert(s[j as int] == rs@[j as int].deep_view());
            assert(s[i as int] == rs@[i as int].deep_view());
            if rs[j].id == rs[i].id {
                same_id = true;
            }
        }
        if same_id {
            return Err(RuntimeServiceError::DuplicateRouteId(rs[i].id.clone()));
        }
    }
    Ok(())
}

/// Some route from `i` on answers all hosts.
pub open spec fn answers_all(rs: Seq<RuntimeRouteView>) -> bool {
    exists|i: int| 0 <= i < rs.len() && normalize::route_hosts(#[trigger] rs[i]).contains("*"@)
}

/// Tells whether some route answers all hosts.
fn has_wildcard(rs: &Vec<RuntimeRoute>) -> (r: bool)
    ensures
        r == answers_all(rs.deep_view()),
{
    for i in 0..rs.len()
        invariant
            forall|j: int|
                0 <= j < i ==> !normalize::route_hosts(#[trigger] rs.deep_view()[j]).contains("*"@),
    {
        assert(rs.deep_view()[i as int] == rs@[i as int].deep_view());
        if ranking::has_text(&normalized_route_hosts(&rs[i]), "*") {
            return true;
        }
    }
    false
}

/// The fault of the TLS policy of a service.
pub open spec fn tls_fault(s: RuntimeServiceView) -> Option<RuntimeServiceErrorView> {
    match s.tls {
        None => None,
        Some(t) => if t.certificate_ref is Some != t.private_key_ref is Some {
            Some(RuntimeServiceErrorView::IncompleteTlsMaterialRefs)
        } else if t.certificate_ref is Some && answers_all(s.routes) {
            Some(RuntimeServiceErrorView::WildcardTlsHost)
        } else {
            match t.canonical_host {
                Some(h) => if explicit_hosts(s).contains(h) {
                    None
                } else {
                    Some(
                        RuntimeServiceErrorView::UnknownCanonicalHost {
                            service_id: s.id,
                            canonical_host: h,
                        },
                    )
                },
                None => None,
            }
        },
    }
}

/// The first fault of a service as such.
pub open spec fn service_fault(s: RuntimeServiceView) -> Option<RuntimeServiceErrorView> {
    if text::trimmed(s.id).len() == 0 {
        Some(RuntimeServiceErrorView::EmptyServiceId)
    } else if listeners_fault(s.listeners, 0) is Some {
        listeners_fault(s.listeners, 0)
    } else if route_ids_fault(s.routes, 0) is Some {
        route_ids_fault(s.routes, 0)
    } else {
        tls_fault(s)
    }
}

/// Checks a service as such.
pub fn validate_service_shape(service: &RuntimeService) -> (r: Result<(), RuntimeServiceError>)
    ensures
        refusal(r) == service_fault(service.deep_view()),
{
    if text::trim(service.id.as_str()).as_str().is_empty() {
        return Err(RuntimeServiceError::EmptyServiceId);
    }
    if let Err(e) = check_listeners(&service.listeners) {
        return Err(e);
    }
    if let Err(e) = check_route_ids(&service.routes) {
        return Err(e);
    }
    if let Some(tls) = &service.tls {
        if tls.certificate_ref.is_some() != tls.private_key_ref.is_some() {
            return Err(RuntimeServiceError::IncompleteTlsMaterialRefs);
        }
        if tls.certificate_ref.is_some() && has_wildcard(&service.routes) {
            return Err(RuntimeServiceError::WildcardTlsHost);
        }
        if let Some(canonical_host) = &tls.canonical_host {
            let hosts = explicit_service_hosts(service);
            if !ranking::has_text(&hosts, canonical_host.as_str()) {
                return Err(
                    RuntimeServiceError::UnknownCanonicalHost {
                        service_id: service.id.clone(),
                        canonical_host: canonical_host.clone(),
                    },
                );
            }
        }
    }
    Ok(())
}

// ---------------------------------------------------------------------------
// The shape of a route
// ---------------------------------------------------------------------------

/// The ids of targets.
pub open spec fn target_ids(ts: Seq<RuntimeTargetView>) -> Seq<Seq<char>> {
    ts.map_values(|t: RuntimeTargetView| t.id)
}

/// The first fault of the targets from `i` on, where the ids `seen` are taken.
pub open spec fn targets_fault(ts: Seq<RuntimeTargetView>, i: int, seen: Seq<Seq<char>>) -> Option<
    RuntimeServiceErrorView,
>
    decreases ts.len() - i,
{
    if i < 0 || i >= ts.len() {
        None
    } else if text::trimmed(ts[i].id).len() == 0 {
        Some(RuntimeServiceErrorView::EmptyTargetId)
    } else if seen.contains(ts[i].id) {
        Some(RuntimeServiceErrorView::DuplicateTargetId(ts[i].id))
    } else if text::trimmed(ts[i].addr).len() == 0 {
        Some(RuntimeServiceErrorView::EmptyTargetAddress(ts[i].id))
    } else {
        targets_fault(ts, i + 1, seen.push(ts[i].id))
    }
}

/// The first fault of the groups from `i` on, where the target ids `seen` are
/// taken.
pub open spec fn groups_fault(
    gs: Seq<RuntimeTargetGroupView>,
    i: int,
    seen: Seq<Seq<char>>,
) -> Option<RuntimeServiceErrorView>
    decreases gs.len() - i,
{
    if i < 0 || i >= gs.len() {
        None
    } else if text::trimmed(gs[i].id).len() == 0 {
        Some(RuntimeServiceErrorView::EmptyTargetGroupId)
    } else if exists|j: int| 0 <= j < i && (#[trigger] gs[j]).id == gs[i].id {
        Some(RuntimeServiceErrorView::DuplicateTargetGroupId(gs[i].id))
    } else if targets_fault(gs[i].targets, 0, seen) is Some {
        targets_fault(gs[i].targets, 0, seen)
    } else {
        groups_fault(gs, i + 1, seen + target_ids(gs[i].targets))
    }
}

/// The first fault of a route as such.
pub open spec fn route_fault(r: RuntimeRouteView) -> Option<RuntimeServiceErrorView> {
    if text::trimmed(r.id).len() == 0 {
        Some(RuntimeServiceErrorView::EmptyRouteId)
    } else {
        groups_fault(r.target_groups, 0, seq![])
    }
}

/// Checks the targets of a group; their ids are added to `seen`.
fn check_targets(ts: &Vec<RuntimeTarget>, seen: &mut Vec<String>) -> (r: Result<
    (),
    RuntimeServiceError,
>)
    ensures
        refusal(r) == targets_fault(ts.deep_view(), 0, old(seen).deep_view()),
        r is Ok ==> final(seen).deep_view() == old(seen).deep_view() + target_ids(ts.deep_view()),
{
    let ghost s = ts.deep_view();
    let ghost start = seen.deep_view();
    assert(start + target_ids(s.take(0)) =~= start);
    for i in 0..ts.len()
        invariant
            s == ts.deep_view(),
            start == old(seen).deep_view(),
            seen.deep_view() == start + target_ids(s.take(i as int)),
            targets_fault(s, 0, start) == targets_fault(s, i as int, seen.deep_view()),
    {
        assert(s[i as int] == ts@[i as int].deep_view());
        if text::trim(ts[i].id.as_str()).as_str().is_empty() {
            return Err(RuntimeServiceError::EmptyTargetId);
        }
        if ranking::has_text(seen, ts[i].id.as_str()) {
            return Err(RuntimeServiceError::DuplicateTargetId(ts[i].id.clone()));
        }
        if text::trim(ts[i].addr.as_str()).as_str().is_empty() {
            return Err(RuntimeServiceError::EmptyTargetAddress(ts[i].id.clone()));
        }
        let ghost before = seen.deep_view();
        seen.push(ts[i].id.clone());
        proof {
            assert(seen.deep_view() =~= before.push(s[i as int].id));
            assert(start + target_ids(s.take(i + 1)) =~= before.push(s[i as int].id));
        }
    }
    assert(s.take(s.len() as int) =~= s);
    Ok(())
}

/// Checks a route as such.
pub fn validate_route_shape(route: &RuntimeRoute) -> (r: Result<(), RuntimeServiceError>)
    ensures
        refusal(r) == route_fault(route.deep_view()),
{
    if text::trim(route.id.as_str()).as_str().is_empty() {
        return Err(RuntimeServiceError::EmptyRouteId);
    }
    let gs = &route.target_groups;
    let ghost s = gs.deep_view();
    let mut seen: Vec<String> = Vec::new();
    assert(seen.deep_view() =~= seq![]);
    for i in 0..gs.len()
        invariant
            s == gs.deep_view(),
            gs == &route.target_groups,
            route_fault(route.deep_view()) == groups_fault(s, i as int, seen.deep_view()),
    {
        assert(s[i as int] == gs@[i as int].deep_view());
        if text::trim(gs[i].id.as_str()).as_str().is_empty() {
            return Err(RuntimeServiceError::EmptyTargetGroupId);
        }
        let mut same_id: bool = false;
        for j in 0..i
            invariant
                i < gs.len(),
                s == gs.deep_view(),
                same_id == exists|k: int| 0 <= k < j && (#[trigger] s[k]).id == s[i as int].id,
        {
            assert(s[j as int] == gs@[j as int].deep_view());
            assert(s[i as int] == gs@[i as int].deep_view());
            if gs[j].id == gs[i].id {
                same_id = true;
            }
        }
        if same_id {
            return Err(RuntimeServiceError::DuplicateTargetGroupId(gs[i].id.clone()));
        }
        if let Err(e) = check_targets(&gs[i].targets, &mut seen) {
            return Err(e);
        }
    }
    Ok(())
}

// ---------------------------------------------------------------------------
// The services together
// ---------------------------------------------------------------------------

/// TLS hosts and who claimed them first.
pub type TlsClaims = Seq<(Seq<char>, RuntimeTlsBindingView)>;

/// The claims after the service `id` asked for the hosts from `i` on with the
/// certificate `t`; a host that another service claimed with a different one is
/// refused.
pub open spec fn claim_hosts(
    claims: TlsClaims,
    hosts: Seq<Seq<char>>,
    i: int,
    id: Seq<char>,
    t: SiteTlsConfigView,
) -> Result<TlsClaims, RuntimeServiceErrorView>
    decreases hosts.len() - i,
{
    if i < 0 || i >= hosts.len() {
        Ok(claims)
    } else {
        match sorted_map::lookup(claims, hosts[i]) {
            Some(b) => if b.service_id != id && b.site_tls != t {
                Err(
                    RuntimeServiceErrorView::TlsHostConflict {
                        host: hosts[i],
                        existing_service_id: b.service_id,
                        service_id: id,
                    },
                )
            } else {
                claim_hosts(claims, hosts, i + 1, id, t)
            },
            None => claim_hosts(
                sorted_map::put::<String, RuntimeTlsBindingView>(
                    claims,
                    hosts[i],
                    RuntimeTlsBindingView { service_id: id, site_tls: t },
                ),
                hosts,
                i + 1,
                id,
                t,
            ),
        }
    }
}

/// Claims hosts for a service.
fn claim(
    claims: &mut SortedMap<String, RuntimeTlsBinding>,
    hosts: &Vec<String>,
    id: &str,
    t: &SiteTlsConfig,
) -> (r: Result<(), RuntimeServiceError>)
    ensures
        match r {
            Ok(_) => claim_hosts(
                old(claims).deep_view(),
                hosts.deep_view(),
                0,
                id@,
                t.deep_view(),
            ) == Ok::<_, RuntimeServiceErrorView>(final(claims).deep_view()),
            Err(e) => claim_hosts(
                old(claims).deep_view(),
                hosts.deep_view(),
                0,
                id@,
                t.deep_view(),
            ) == Err::<TlsClaims, _>(e.deep_view()),
        },
{
    let ghost start = claims.deep_view();
    let ghost hv = hosts.deep_view();
    for i in 0..hosts.len()
        invariant
            start == old(claims).deep_view(),
            hv == hosts.deep_view(),
            claim_hosts(start, hv, 0, id@, t.deep_view()) == claim_hosts(
                claims.deep_view(),
                hv,
                i as int,
                id@,
                t.deep_view(),
            ),
    {
        assert(hv[i as int] == hosts@[i as int]@);
        let found: Option<RuntimeTlsBinding> = match claims.get(&hosts[i]) {
            Some(b) => Some(b.duplicate()),
            None => None,
        };
        match found {
            Some(b) => {
                if !text::same(b.service_id.as_str(), id) && !b.site_tls.same_as(t) {
                    return Err(
                        RuntimeServiceError::TlsHostConflict {
                            host: hosts[i].clone(),
                            existing_service_id: b.service_id.clone(),
                            service_id: id.to_owned(),
                        },
                    );
                }
            },
            None => {
                claims.insert(
                    hosts[i].clone(),
                    RuntimeTlsBinding { service_id: id.to_owned(), site_tls: t.duplicate() },
                );
            },
        }
    }
    Ok(())
}

/// What a route binds: each of its hosts under each protocol.
pub open spec fn host_bindings(
    id: Seq<char>,
    r: RuntimeRouteView,
    ps: Seq<RuntimeListenerProtocol>,
    hosts: Seq<Seq<char>>,
    i: int,
) -> Seq<RouteBindingView>
    decreases hosts.len() - i,
{
    if i < 0 || i >= hosts.len() {
        seq![]
    } else {
        ps.map_values(|p: RuntimeListenerProtocol| binding(id, r, hosts[i], p)) + host_bindings(
            id,
            r,
            ps,
            hosts,
            i + 1,
        )
    }
}

/// One host and protocol that a route answers.
pub open spec fn binding(
    id: Seq<char>,
    r: RuntimeRouteView,
    host: Seq<char>,
    p: RuntimeListenerProtocol,
) -> RouteBindingView {
    RouteBindingView {
        service_id: id,
        route_id: r.id,
        host,
        path_prefix: r.path_prefix,
        protocol: p,
        matcher_count: r.matchers.len() as usize,
    }
}

/// What the routes of a service from `i` on bind, or their first fault.
pub open spec fn bind_routes(
    done: Seq<RouteBindingView>,
    id: Seq<char>,
    rs: Seq<RuntimeRouteView>,
    ps: Seq<RuntimeListenerProtocol>,
    i: int,
) -> Result<Seq<RouteBindingView>, RuntimeServiceErrorView>
    decreases rs.len() - i,
{
    if i < 0 || i >= rs.len() {
        Ok(done)
    } else {
        match route_fault(rs[i]) {
            Some(e) => Err(e),
            None => bind_routes(
                done + host_bindings(id, rs[i], ps, normalize::route_hosts(rs[i]), 0),
                id,
                rs,
                ps,
                i + 1,
            ),
        }
    }
}

/// Collects what the routes of a service bind.
fn collect_bindings(
    done: &mut Vec<RouteBinding>,
    service: &RuntimeService,
    ps: &Vec<RuntimeListenerProtocol>,
) -> (r: Result<(), RuntimeServiceError>)
    ensures
        match r {
            Ok(_) => bind_routes(
                old(done).deep_view(),
                service.deep_view().id,
                service.deep_view().routes,
                ps@,
                0,
            ) == Ok::<_, RuntimeServiceErrorView>(final(done).deep_view()),
            Err(e) => bind_routes(
                old(done).deep_view(),
                service.deep_view().id,
                service.deep_view().routes,
                ps@,
                0,
            ) == Err::<Seq<RouteBindingView>, _>(e.deep_view()),
        },
{
    let ghost start = done.deep_view();
    let ghost (id, rs) = (service.deep_view().id, service.deep_view().routes);
    for i in 0..service.routes.len()
        invariant
            start == old(done).deep_view(),
            id == service.deep_view().id,
            rs == service.routes.deep_view(),
            bind_routes(start, id, rs, ps@, 0) == bind_routes(
                done.deep_view(),
                id,
                rs,
                ps@,
                i as int,
            ),
    {
        let route = &service.routes[i];
        assert(rs[i as int] == route.deep_view());
        if let Err(e) = validate_route_shape(route) {
            return Err(e);
        }
        let hosts = normalized_route_hosts(route);
        let ghost hv = hosts.deep_view();
        let ghost before = done.deep_view();
        let ghost rv = route.deep_view();
        let ghost all = host_bindings(id, rv, ps@, hv, 0);
        assert(done.deep_view() + all =~= before + all);
        for k in 0..hosts.len()
            invariant
                hv == hosts.deep_view(),
                id == service.id@,
                rv == route.deep_view(),
                done.deep_view() + host_bindings(id, rv, ps@, hv, k as int) == before + all,
        {
            let ghost start_k = done.deep_view();
            let ghost row = ps@.map_values(
                |p: RuntimeListenerProtocol| binding(id, rv, hv[k as int], p),
            );
            assert(hv[k as int] == hosts@[k as int]@);
            assert(row.take(0) =~= seq![]);
            assert(start_k + row.take(0) =~= start_k);
            for q in 0..ps.len()
                invariant
                    k < hosts.len(),
                    hosts@[k as int]@ == hv[k as int],
                    id == service.id@,
                    rv == route.deep_view(),
                    row == ps@.map_values(
                        |p: RuntimeListenerProtocol| binding(id, rv, hv[k as int], p),
                    ),
                    done.deep_view() == start_k + row.take(q as int),
            {
                let ghost before_q = done.deep_view();
                let b = RouteBinding {
                    service_id: service.id.clone(),
                    route_id: route.id.clone(),
                    host: hosts[k].clone(),
                    path_prefix: route.path_prefix.clone(),
                    protocol: ps[q],
                    matcher_count: route.matchers.len(),
                };
                done.push(b);
                proof {
                    assert(route.deep_view().matchers.len() == route.matchers@.len());
                    assert(b.deep_view() == row[q as int]);
                    assert(done.deep_view() =~= before_q.push(row[q as int]));
                    assert(row.take(q + 1) =~= row.take(q as int).push(row[q as int]));
                    assert(start_k + row.take(q + 1) =~= before_q.push(row[q as int]));
                }
            }
            proof {
                assert(row.take(row.len() as int) =~= row);
                assert(done.deep_view() =~= start_k + row);
                assert(done.deep_view() + host_bindings(id, rv, ps@, hv, k + 1) =~= start_k
                    + host_bindings(id, rv, ps@, hv, k as int));
            }
        }
        assert(done.deep_view() =~= before + all);
    }
    Ok(())
}

/// The claims and bindings of the services from `i` on, or the first fault.
pub open spec fn survey(
    entries: Seq<(Seq<char>, RuntimeServiceView)>,
    i: int,
    claims: TlsClaims,
    bindings: Seq<RouteBindingView>,
) -> Result<Seq<RouteBindingView>, RuntimeServiceErrorView>
    decreases entries.len() - i,
{
    if i < 0 || i >= entries.len() {
        Ok(bindings)
    } else {
        let s = entries[i].1;
        match service_fault(s) {
            Some(e) => Err(e),
            None => match claims_with(claims, s) {
                Err(e) => Err(e),
                Ok(c) => match bind_routes(bindings, s.id, s.routes, protocols(s.listeners), 0) {
                    Err(e) => Err(e),
                    Ok(b) => survey(entries, i + 1, c, b),
                },
            },
        }
    }
}

/// The claims after a service asked for its TLS hosts.
pub open spec fn claims_with(claims: TlsClaims, s: RuntimeServiceView) -> Result<
    TlsClaims,
    RuntimeServiceErrorView,
> {
    match site_tls(s) {
        Some(t) => claim_hosts(claims, explicit_hosts(s), 0, s.id, t),
        None => Ok(claims),
    }
}

/// Two routes answer the same requests: the same protocol, path and host with
/// equally many matchers.
pub open spec fn bindings_conflict(a: RouteBindingView, b: RouteBindingView) -> bool {
    &&& a.protocol == b.protocol
    &&& !(a.service_id == b.service_id && a.route_id == b.route_id)
    &&& a.path_prefix == b.path_prefix
    &&& text::lowered(a.host) == text::lowered(b.host)
    &&& a.matcher_count == b.matcher_count
}

/// The first pair of bindings in conflict, from the pair `(i, j)` on.
pub open spec fn first_conflict(bs: Seq<RouteBindingView>, i: int, j: int) -> Option<(int, int)>
    decreases bs.len() - i, bs.len() - j,
{
    if i < 0 || i >= bs.len() {
        None
    } else if j < 0 || j >= bs.len() {
        first_conflict(bs, i + 1, i + 2)
    } else if bindings_conflict(bs[i], bs[j]) {
        Some((i, j))
    } else {
        first_conflict(bs, i, j + 1)
    }
}

/// The refusal for the first pair of bindings in conflict.
pub open spec fn conflict_fault(bs: Seq<RouteBindingView>) -> Option<RuntimeServiceErrorView> {
    match first_conflict(bs, 0, 1) {
        Some((i, j)) => Some(
            RuntimeServiceErrorView::RouteConflict {
                existing_service_id: bs[i].service_id,
                existing_route_id: bs[i].route_id,
                host: if bs[i].host == "*"@ {
                    bs[j].host
                } else {
                    bs[i].host
                },
                path: bs[j].path_prefix,
                protocol: types::protocol_name(bs[i].protocol),
            },
        ),
        None => None,
    }
}

/// Tells whether two routes answer the same requests.
pub fn routes_conflict(left: &RouteBinding, right: &RouteBinding) -> (r: bool)
    ensures
        r == bindings_conflict(left.deep_view(), right.deep_view()),
{
    left.protocol == right.protocol && !(left.service_id == right.service_id && left.route_id
        == right.route_id) && left.path_prefix == right.path_prefix && text::same_ignore_case(
        left.host.as_str(),
        right.host.as_str(),
    ) && left.matcher_count == right.matcher_count
}

/// Looks for bindings in conflict.
fn check_conflicts(bs: &Vec<RouteBinding>) -> (r: Result<(), RuntimeServiceError>)
    ensures
        refusal(r) == conflict_fault(bs.deep_view()),
{
    let ghost s = bs.deep_view();
    let mut i: usize = 0;
    while i < bs.len()
        invariant
            s == bs.deep_view(),
            i <= bs.len(),
            first_conflict(s, 0, 1) == first_conflict(s, i as int, i + 1),
        decreases bs.len() - i,
    {
        let mut j: usize = i + 1;
        while j < bs.len()
            invariant
                s == bs.deep_view(),
                i < j <= bs.len(),
                first_conflict(s, 0, 1) == first_conflict(s, i as int, j as int),
            decreases bs.len() - j,
        {
            assert(s[i as int] == bs@[i as int].deep_view());
            assert(s[j as int] == bs@[j as int].deep_view());
            if routes_conflict(&bs[i], &bs[j]) {
                let host = if text::same(bs[i].host.as_str(), "*") {
                    bs[j].host.clone()
                } else {
                    bs[i].host.clone()
                };
                return Err(
                    RuntimeServiceError::RouteConflict {
                        existing_service_id: bs[i].service_id.clone(),
                        existing_route_id: bs[i].route_id.clone(),
                        host,
                        path: bs[j].path_prefix.clone(),
                        protocol: bs[i].protocol.as_str().to_owned(),
                    },
                );
            }
            j += 1;
        }
        i += 1;
    }
    Ok(())
}

/// The first fault of a state: an unknown version, a fault of a service or
/// route, a TLS host that two services claim, or two routes in conflict.
pub open spec fn state_fault(st: RuntimeStateView) -> Option<RuntimeServiceErrorView> {
    if st.version != RUNTIME_STATE_VERSION {
        Some(RuntimeServiceErrorView::UnsupportedVersion(st.version))
    } else {
        match survey(st.services, 0, seq![], seq![]) {
            Err(e) => Some(e),
            Ok(bs) => conflict_fault(bs),
        }
    }
}

/// Checks a state.
pub fn validate_state(state: &RuntimeState) -> (r: Result<(), RuntimeServiceError>)
    ensures
        refusal(r) == state_fault(state.deep_view()),
{
    if state.version != RUNTIME_STATE_VERSION {
        return Err(RuntimeServiceError::UnsupportedVersion(state.version));
    }
    let ghost es = state.deep_view().services;
    let mut bindings: Vec<RouteBinding> = Vec::new();
    let mut claims: SortedMap<String, RuntimeTlsBinding> = SortedMap::new();
    proof {
        assert(bindings.deep_view() =~= seq![]);
        assert(claims.deep_view() =~= seq![]);
    }
    for i in 0..state.services.entries.len()
        invariant
            es == state.services.deep_view(),
            survey(es, 0, seq![], seq![]) == survey(
                es,
                i as int,
                claims.deep_view(),
                bindings.deep_view(),
            ),
            state.version == RUNTIME_STATE_VERSION,
    {
        let service = &state.services.entries[i].1;
        assert(es[i as int].1 == service.deep_view());
        if let Err(e) = validate_service_shape(service) {
            return Err(e);
        }
        if let Some(t) = service_site_tls_config(service) {
            let hosts = explicit_service_hosts(service);
            if let Err(e) = claim(&mut claims, &hosts, service.id.as_str(), &t) {
                return Err(e);
            }
        }
        let ps = listener_protocols_for_service(service);
        if let Err(e) = collect_bindings(&mut bindings, service, &ps) {
            return Err(e);
        }
    }
    check_conflicts(&bindings)
}

} // verus!
