//! What the rules for the runtime state refuse and what they let pass.

use vstd::prelude::*;
use crate::ranking;
use crate::router::matcher;
use crate::runtime_services::normalize;
use crate::runtime_services::state;
use crate::runtime_services::types::{
    RouteBindingView, RuntimeListenerPatchView, RuntimeListenerProtocol, RuntimeListenerView,
    RuntimeRoutePatchView, RuntimeRouteView, RuntimeServiceErrorView, RuntimeServicePatchView,
    RuntimeServiceView, RuntimeStateView, RuntimeTargetGroupView, RuntimeTargetPatchView,
    RuntimeTargetState, RuntimeTargetView, RuntimeTlsPolicyView, RUNTIME_STATE_VERSION,
};
use crate::runtime_services::validate;
use crate::sorted_map;
use crate::text;

verus! {

// ---------------------------------------------------------------------------
// The shape of services and routes
// ---------------------------------------------------------------------------

/// Listeners pass exactly where every one has an id that is not blank, no two have the same
/// id, and no two speak the same protocol.
pub proof fn lemma_listeners_pass(ls: Seq<RuntimeListenerView>, i: int)
    requires
        0 <= i,
    ensures
        validate::listeners_fault(ls, i) is None <==> {
            &&& forall|b: int| i <= b < ls.len() ==> text::trimmed((#[trigger] ls[b]).id).len() > 0
            &&& forall|a: int, b: int|
                0 <= a < b < ls.len() && i <= b ==> (#[trigger] ls[a]).id != (#[trigger] ls[b]).id
                    && ls[a].protocol != ls[b].protocol
        },
    decreases ls.len() - i,
{
    if i < ls.len() {
        lemma_listeners_pass(ls, i + 1);
        if validate::listeners_fault(ls, i) is None {
            assert forall|a: int, b: int| 0 <= a < b < ls.len() && i <= b implies (
            #[trigger] ls[a]).id != (#[trigger] ls[b]).id && ls[a].protocol != ls[b].protocol by {
                if b == i {
                    assert(!(exists|j: int| 0 <= j < i && (#[trigger] ls[j]).id == ls[i].id));
                    assert(!(exists|j: int|
                        0 <= j < i && (#[trigger] ls[j]).protocol == ls[i].protocol));
                }
            }
        }
    }
}

/// The routes of a service pass exactly where every one has an id that is not blank and no
/// two have the same.
pub proof fn lemma_route_ids_pass(rs: Seq<RuntimeRouteView>, i: int)
    requires
        0 <= i,
    ensures
        validate::route_ids_fault(rs, i) is None <==> {
            &&& forall|b: int| i <= b < rs.len() ==> text::trimmed((#[trigger] rs[b]).id).len() > 0
            &&& forall|a: int, b: int|
                0 <= a < b < rs.len() && i <= b ==> (#[trigger] rs[a]).id != (#[trigger] rs[b]).id
        },
    decreases rs.len() - i,
{
    if i < rs.len() {
        lemma_route_ids_pass(rs, i + 1);
        if validate::route_ids_fault(rs, i) is None {
            assert forall|a: int, b: int| 0 <= a < b < rs.len() && i <= b implies (
            #[trigger] rs[a]).id != (#[trigger] rs[b]).id by {
                if b == i {
                    assert(!(exists|j: int| 0 <= j < i && (#[trigger] rs[j]).id == rs[i].id));
                }
            }
        }
    }
}

/// A TLS policy passes exactly where it names both a certificate and a key or neither, no
/// route of a service with a certificate answers all hosts, and the canonical host is one
/// that the service names.
pub proof fn lemma_tls_passes(s: RuntimeServiceView, t: RuntimeTlsPolicyView)
    requires
        s.tls == Some(t),
    ensures
        validate::tls_fault(s) is None <==> {
            &&& (t.certificate_ref is Some <==> t.private_key_ref is Some)
            &&& t.certificate_ref is Some ==> forall|i: int|
                0 <= i < s.routes.len() ==> !normalize::route_hosts(#[trigger] s.routes[i]).contains(
                    "*"@,
                )
            &&& t.canonical_host matches Some(h) ==> h != "*"@ && exists|i: int|
                0 <= i < s.routes.len() && normalize::route_hosts(#[trigger] s.routes[i]).contains(h)
        },
{
    if let Some(h) = t.canonical_host {
        lemma_named_hosts(s, h);
    }
}

/// A service names the hosts of its routes but for the one that stands for all.
pub proof fn lemma_named_hosts(s: RuntimeServiceView, h: Seq<char>)
    ensures
        validate::explicit_hosts(s).contains(h) <==> h != "*"@ && exists|i: int|
            0 <= i < s.routes.len() && normalize::route_hosts(#[trigger] s.routes[i]).contains(h),
{
    ranking::lemma_text_set(validate::routes_name(s.routes, 0));
    lemma_routes_name(s.routes, 0, h);
}

/// The hosts that routes from `i` on name.
proof fn lemma_routes_name(rs: Seq<RuntimeRouteView>, i: int, h: Seq<char>)
    requires
        0 <= i,
    ensures
        validate::routes_name(rs, i).contains(h) <==> h != "*"@ && exists|j: int|
            i <= j < rs.len() && normalize::route_hosts(#[trigger] rs[j]).contains(h),
    decreases rs.len() - i,
{
    if i < rs.len() {
        lemma_routes_name(rs, i + 1, h);
        let hosts = normalize::route_hosts(rs[i]);
        lemma_named_from(hosts, 0, h);
        let (a, b) = (validate::named_from(hosts, 0), validate::routes_name(rs, i + 1));
        lemma_in_either(a, b, h);
        if hosts.contains(h) {
            let k = choose|k: int| 0 <= k < hosts.len() && hosts[k] == h;
            assert(hosts[k] == h);
        }
    }
}

/// The hosts from `i` on that do not stand for all.
proof fn lemma_named_from(hosts: Seq<Seq<char>>, i: int, h: Seq<char>)
    requires
        0 <= i,
    ensures
        validate::named_from(hosts, i).contains(h) <==> h != "*"@ && exists|j: int|
            i <= j < hosts.len() && #[trigger] hosts[j] == h,
    decreases hosts.len() - i,
{
    if i < hosts.len() {
        lemma_named_from(hosts, i + 1, h);
        if hosts[i] != "*"@ {
            lemma_in_either(seq![hosts[i]], validate::named_from(hosts, i + 1), h);
            assert(seq![hosts[i]].contains(h) <==> hosts[i] == h) by {
                assert(seq![hosts[i]][0] == hosts[i]);
            }
        }
    }
}

/// A value is in two lists in a row exactly where it is in one of them.
proof fn lemma_in_either<T>(a: Seq<T>, b: Seq<T>, x: T)
    ensures
        (a + b).contains(x) <==> a.contains(x) || b.contains(x),
{
    let all = a + b;
    if a.contains(x) {
        let k = choose|k: int| 0 <= k < a.len() && a[k] == x;
        assert(all[k] == x);
    }
    if b.contains(x) {
        let k = choose|k: int| 0 <= k < b.len() && b[k] == x;
        assert(all[a.len() + k] == x);
    }
    if all.contains(x) {
        let k = choose|k: int| 0 <= k < all.len() && all[k] == x;
        if k < a.len() {
            assert(a[k] == x);
        } else {
            assert(b[k - a.len()] == x);
        }
    }
}

/// Targets pass, where some ids are taken, exactly where every one has an id and an address
/// that are not blank, no id is taken, and no two are the same.
pub proof fn lemma_targets_pass(ts: Seq<RuntimeTargetView>, i: int, seen: Seq<Seq<char>>)
    requires
        0 <= i,
    ensures
        validate::targets_fault(ts, i, seen) is None <==> {
            &&& forall|b: int|
                i <= b < ts.len() ==> text::trimmed((#[trigger] ts[b]).id).len() > 0
                    && text::trimmed(ts[b].addr).len() > 0 && !seen.contains(ts[b].id)
            &&& forall|a: int, b: int|
                i <= a < b < ts.len() ==> (#[trigger] ts[a]).id != (#[trigger] ts[b]).id
        },
    decreases ts.len() - i,
{
    if i < ts.len() {
        let next = seen.push(ts[i].id);
        lemma_targets_pass(ts, i + 1, next);
        assert forall|x: Seq<char>| #[trigger] next.contains(x) <==> seen.contains(x) || x
            == ts[i].id by {
            lemma_in_either(seen, seq![ts[i].id], x);
            assert(seen + seq![ts[i].id] =~= next);
            assert(seq![ts[i].id].contains(x) <==> x == ts[i].id) by {
                assert(seq![ts[i].id][0] == ts[i].id);
            }
        }
        if validate::targets_fault(ts, i, seen) is None {
            assert forall|b: int| i <= b < ts.len() implies text::trimmed(
                (#[trigger] ts[b]).id,
            ).len() > 0 && text::trimmed(ts[b].addr).len() > 0 && !seen.contains(ts[b].id) by {
                if b > i {
                    assert(!next.contains(ts[b].id));
                }
            }
            assert forall|a: int, b: int| i <= a < b < ts.len() implies (#[trigger] ts[a]).id != (
            #[trigger] ts[b]).id by {
                if a == i {
                    assert(!next.contains(ts[b].id));
                }
            }
        } else if !seen.contains(ts[i].id) && text::trimmed(ts[i].id).len() > 0 && text::trimmed(
            ts[i].addr,
        ).len() > 0 {
            if forall|b: int|
                i <= b < ts.len() ==> text::trimmed((#[trigger] ts[b]).id).len() > 0
                    && text::trimmed(ts[b].addr).len() > 0 && !seen.contains(ts[b].id) {
                if forall|a: int, b: int|
                    i <= a < b < ts.len() ==> (#[trigger] ts[a]).id != (#[trigger] ts[b]).id {
                    assert forall|b: int| i + 1 <= b < ts.len() implies text::trimmed(
                        (#[trigger] ts[b]).id,
                    ).len() > 0 && text::trimmed(ts[b].addr).len() > 0 && !next.contains(
                        ts[b].id,
                    ) by {
                        assert(ts[i].id != ts[b].id);
                    }
                }
            }
        }
    }
}

/// The target at a place of groups.
pub open spec fn is_target(gs: Seq<RuntimeTargetGroupView>, g: int, t: int) -> bool {
    0 <= g < gs.len() && 0 <= t < gs[g].targets.len()
}

/// The groups of a route from `i` on pass, where some target ids are taken, exactly where
/// every group has an id that is not blank and no two have the same, every target has an id
/// and an address that are not blank, and no two targets of the route have the same id,
/// whatever groups they are in.
pub proof fn lemma_groups_pass(gs: Seq<RuntimeTargetGroupView>, i: int, seen: Seq<Seq<char>>)
    requires
        0 <= i,
    ensures
        validate::groups_fault(gs, i, seen) is None <==> {
            &&& forall|b: int| i <= b < gs.len() ==> text::trimmed((#[trigger] gs[b]).id).len() > 0
            &&& forall|a: int, b: int|
                0 <= a < b < gs.len() && i <= b ==> (#[trigger] gs[a]).id != (#[trigger] gs[b]).id
            &&& forall|g: int, t: int|
                i <= g && #[trigger] is_target(gs, g, t) ==> text::trimmed(
                    gs[g].targets[t].id,
                ).len() > 0 && text::trimmed(gs[g].targets[t].addr).len() > 0 && !seen.contains(
                    gs[g].targets[t].id,
                )
            &&& forall|g: int, t: int, h: int, u: int|
                i <= g && i <= h && #[trigger] is_target(gs, g, t) && #[trigger] is_target(gs, h, u)
                    && !(g == h && t == u) ==> gs[g].targets[t].id != gs[h].targets[u].id
        },
    decreases gs.len() - i,
{
    if i < gs.len() {
        let ts = gs[i].targets;
        let ids = validate::target_ids(ts);
        let next = seen + ids;
        lemma_targets_pass(ts, 0, seen);
        lemma_groups_pass(gs, i + 1, next);
        assert forall|x: Seq<char>| #[trigger] next.contains(x) <==> seen.contains(x) || exists|
            t: int,
        | 0 <= t < ts.len() && (#[trigger] ts[t]).id == x by {
            lemma_in_either(seen, ids, x);
            if ids.contains(x) {
                let t = choose|t: int| 0 <= t < ids.len() && ids[t] == x;
                assert(ts[t].id == x);
            }
            if exists|t: int| 0 <= t < ts.len() && (#[trigger] ts[t]).id == x {
                let t = choose|t: int| 0 <= t < ts.len() && (#[trigger] ts[t]).id == x;
                assert(ids[t] == x);
            }
        }
        if validate::groups_fault(gs, i, seen) is None {
            assert forall|a: int, b: int| 0 <= a < b < gs.len() && i <= b implies (
            #[trigger] gs[a]).id != (#[trigger] gs[b]).id by {
                if b == i {
                    assert(!(exists|j: int| 0 <= j < i && (#[trigger] gs[j]).id == gs[i].id));
                }
            }
            assert forall|g: int, t: int| i <= g && #[trigger] is_target(gs, g, t) implies
                text::trimmed(gs[g].targets[t].id).len() > 0 && text::trimmed(
                gs[g].targets[t].addr,
            ).len() > 0 && !seen.contains(gs[g].targets[t].id) by {
                if g == i {
                    assert(text::trimmed(ts[t].id).len() > 0);
                } else {
                    assert(!next.contains(gs[g].targets[t].id));
                }
            }
            assert forall|g: int, t: int, h: int, u: int|
                i <= g && i <= h && #[trigger] is_target(gs, g, t) && #[trigger] is_target(gs, h, u)
                    && !(g == h && t == u) implies gs[g].targets[t].id != gs[h].targets[u].id by {
                if g == i && h == i {
                    if t < u {
                        assert(ts[t].id != ts[u].id);
                    } else {
                        assert(ts[u].id != ts[t].id);
                    }
                } else if g == i {
                    assert(!next.contains(gs[h].targets[u].id));
                    assert(ts[t].id == gs[g].targets[t].id);
                } else if h == i {
                    assert(!next.contains(gs[g].targets[t].id));
                    assert(ts[u].id == gs[h].targets[u].id);
                }
            }
        } else if groups_sound(gs, i, seen) {
            assert forall|b: int| 0 <= b < ts.len() implies text::trimmed(
                (#[trigger] ts[b]).id,
            ).len() > 0 && text::trimmed(ts[b].addr).len() > 0 && !seen.contains(ts[b].id) by {
                assert(is_target(gs, i, b));
            }
            assert forall|a: int, b: int| 0 <= a < b < ts.len() implies (#[trigger] ts[a]).id != (
            #[trigger] ts[b]).id by {
                assert(is_target(gs, i, a) && is_target(gs, i, b));
            }
            assert forall|g: int, t: int| i + 1 <= g && #[trigger] is_target(gs, g, t) implies
                !next.contains(gs[g].targets[t].id) by {
                if exists|u: int| 0 <= u < ts.len() && (#[trigger] ts[u]).id == gs[g].targets[t].id {
                    let u = choose|u: int|
                        0 <= u < ts.len() && (#[trigger] ts[u]).id == gs[g].targets[t].id;
                    assert(is_target(gs, i, u));
                }
            }
        }
    }
}

/// What the groups of a route must be like.
spec fn groups_sound(gs: Seq<RuntimeTargetGroupView>, i: int, seen: Seq<Seq<char>>) -> bool {
    &&& forall|b: int| i <= b < gs.len() ==> text::trimmed((#[trigger] gs[b]).id).len() > 0
    &&& forall|a: int, b: int|
        0 <= a < b < gs.len() && i <= b ==> (#[trigger] gs[a]).id != (#[trigger] gs[b]).id
    &&& forall|g: int, t: int|
        i <= g && #[trigger] is_target(gs, g, t) ==> text::trimmed(gs[g].targets[t].id).len() > 0
            && text::trimmed(gs[g].targets[t].addr).len() > 0 && !seen.contains(
            gs[g].targets[t].id,
        )
    &&& forall|g: int, t: int, h: int, u: int|
        i <= g && i <= h && #[trigger] is_target(gs, g, t) && #[trigger] is_target(gs, h, u) && !(g
            == h && t == u) ==> gs[g].targets[t].id != gs[h].targets[u].id
}

// ---------------------------------------------------------------------------
// Routes in conflict
// ---------------------------------------------------------------------------

/// Two bindings are in conflict exactly where they are of different routes and have the
/// same protocol, path, host, whatever the letter case, and number of matchers; so it does
/// not matter which one comes first.
pub proof fn lemma_conflict_symmetric(a: RouteBindingView, b: RouteBindingView)
    ensures
        validate::bindings_conflict(a, b) == validate::bindings_conflict(b, a),
        a.service_id == b.service_id && a.route_id == b.route_id ==> !validate::bindings_conflict(
            a,
            b,
        ),
        a.path_prefix != b.path_prefix || a.protocol != b.protocol || a.matcher_count
            != b.matcher_count || text::lowered(a.host) != text::lowered(b.host)
            ==> !validate::bindings_conflict(a, b),
        (a.service_id != b.service_id || a.route_id != b.route_id) && a.path_prefix
            == b.path_prefix && a.protocol == b.protocol && a.matcher_count == b.matcher_count
            && a.host == b.host ==> validate::bindings_conflict(a, b),
{
}

/// Bindings pass exactly where no two of them are in conflict.
pub proof fn lemma_no_conflict(bs: Seq<RouteBindingView>)
    ensures
        validate::conflict_fault(bs) is None <==> forall|a: int, b: int|
            0 <= a < b < bs.len() ==> !validate::bindings_conflict(
                #[trigger] bs[a],
                #[trigger] bs[b],
            ),
{
    lemma_first_conflict(bs, 0, 1);
}

/// The pairs from `(i, j)` on.
proof fn lemma_first_conflict(bs: Seq<RouteBindingView>, i: int, j: int)
    requires
        0 <= i < j,
    ensures
        match validate::first_conflict(bs, i, j) {
            Some((a, b)) => 0 <= a < b < bs.len() && validate::bindings_conflict(bs[a], bs[b]),
            None => forall|a: int, b: int|
                0 <= a < b < bs.len() && (i < a || (i == a && j <= b))
                    ==> !validate::bindings_conflict(#[trigger] bs[a], #[trigger] bs[b]),
        },
    decreases bs.len() - i, bs.len() - j,
{
    if i < bs.len() {
        if j >= bs.len() {
            lemma_first_conflict(bs, i + 1, i + 2);
        } else if !validate::bindings_conflict(bs[i], bs[j]) {
            lemma_first_conflict(bs, i, j + 1);
        }
    }
}

/// The binding is one of a route of the service: under one of its hosts, with one of the
/// protocols of the service.
pub open spec fn binding_of(s: RuntimeServiceView, b: RouteBindingView) -> bool {
    exists|k: int, h: Seq<char>, p: RuntimeListenerProtocol|
        0 <= k < s.routes.len() && normalize::route_hosts(s.routes[k]).contains(h)
            && validate::protocols(s.listeners).contains(p) && b == #[trigger] validate::binding(
            s.id,
            s.routes[k],
            h,
            p,
        )
}

/// What a route binds under its hosts from `i` on.
proof fn lemma_host_bindings(
    id: Seq<char>,
    r: RuntimeRouteView,
    ps: Seq<RuntimeListenerProtocol>,
    hosts: Seq<Seq<char>>,
    i: int,
    b: RouteBindingView,
)
    requires
        0 <= i,
    ensures
        validate::host_bindings(id, r, ps, hosts, i).contains(b) <==> exists|
            j: int,
            p: RuntimeListenerProtocol,
        |
            i <= j < hosts.len() && ps.contains(p) && b == #[trigger] validate::binding(
                id,
                r,
                hosts[j],
                p,
            ),
    decreases hosts.len() - i,
{
    if i < hosts.len() {
        lemma_host_bindings(id, r, ps, hosts, i + 1, b);
        let here = ps.map_values(|p: RuntimeListenerProtocol| validate::binding(id, r, hosts[i], p));
        let rest = validate::host_bindings(id, r, ps, hosts, i + 1);
        lemma_in_either(here, rest, b);
        if here.contains(b) {
            let k = choose|k: int| 0 <= k < here.len() && here[k] == b;
            assert(ps.contains(ps[k]));
            assert(b == validate::binding(id, r, hosts[i], ps[k]));
        }
        if exists|j: int, p: RuntimeListenerProtocol|
            i <= j < hosts.len() && ps.contains(p) && b == #[trigger] validate::binding(
                id,
                r,
                hosts[j],
                p,
            ) {
            let (j, p) = choose|j: int, p: RuntimeListenerProtocol|
                i <= j < hosts.len() && ps.contains(p) && b == #[trigger] validate::binding(
                    id,
                    r,
                    hosts[j],
                    p,
                );
            if j == i {
                let k = choose|k: int| 0 <= k < ps.len() && ps[k] == p;
                assert(here[k] == b);
            }
        }
    }
}

/// The binding is one of the route at a place.
spec fn binding_at(
    id: Seq<char>,
    rs: Seq<RuntimeRouteView>,
    ps: Seq<RuntimeListenerProtocol>,
    k: int,
    b: RouteBindingView,
) -> bool {
    exists|h: Seq<char>, p: RuntimeListenerProtocol|
        normalize::route_hosts(rs[k]).contains(h) && ps.contains(p) && b
            == #[trigger] validate::binding(id, rs[k], h, p)
}

/// What the routes of a service from `i` on bind.
proof fn lemma_bind_routes(
    done: Seq<RouteBindingView>,
    id: Seq<char>,
    rs: Seq<RuntimeRouteView>,
    ps: Seq<RuntimeListenerProtocol>,
    i: int,
    b: RouteBindingView,
)
    requires
        0 <= i,
    ensures
        validate::bind_routes(done, id, rs, ps, i) is Ok <==> forall|k: int|
            i <= k < rs.len() ==> validate::route_fault(#[trigger] rs[k]) is None,
        validate::bind_routes(done, id, rs, ps, i) matches Ok(all) ==> (all.contains(b)
            <==> done.contains(b) || exists|k: int|
            i <= k < rs.len() && #[trigger] binding_at(id, rs, ps, k, b)),
    decreases rs.len() - i,
{
    if i < rs.len() && validate::route_fault(rs[i]) is None {
        let hosts = normalize::route_hosts(rs[i]);
        let own = validate::host_bindings(id, rs[i], ps, hosts, 0);
        lemma_bind_routes(done + own, id, rs, ps, i + 1, b);
        lemma_in_either(done, own, b);
        lemma_host_bindings(id, rs[i], ps, hosts, 0, b);
        if own.contains(b) {
            let (j, p) = choose|j: int, p: RuntimeListenerProtocol|
                0 <= j < hosts.len() && ps.contains(p) && b == #[trigger] validate::binding(
                    id,
                    rs[i],
                    hosts[j],
                    p,
                );
            assert(hosts.contains(hosts[j]));
            assert(binding_at(id, rs, ps, i, b));
        }
        if binding_at(id, rs, ps, i, b) {
            let (h, p) = choose|h: Seq<char>, p: RuntimeListenerProtocol|
                normalize::route_hosts(rs[i]).contains(h) && ps.contains(p) && b
                    == #[trigger] validate::binding(id, rs[i], h, p);
            let j = choose|j: int| 0 <= j < hosts.len() && hosts[j] == h;
            assert(b == validate::binding(id, rs[i], hosts[j], p));
        }
    }
}

/// A service and its routes have the shape that they must have.
pub open spec fn well_shaped(s: RuntimeServiceView) -> bool {
    &&& validate::service_fault(s) is None
    &&& forall|k: int|
        0 <= k < s.routes.len() ==> validate::route_fault(#[trigger] s.routes[k]) is None
}

/// What the services from `i` on bind, and when they pass.
proof fn lemma_survey(
    es: Seq<(Seq<char>, RuntimeServiceView)>,
    i: int,
    claims: validate::TlsClaims,
    bs: Seq<RouteBindingView>,
    b: RouteBindingView,
)
    requires
        0 <= i,
    ensures
        validate::survey(es, i, claims, bs) is Ok ==> forall|n: int|
            i <= n < es.len() ==> well_shaped((#[trigger] es[n]).1),
        (forall|n: int|
            i <= n < es.len() ==> well_shaped((#[trigger] es[n]).1) && validate::site_tls(
                es[n].1,
            ) is None) ==> validate::survey(es, i, claims, bs) is Ok,
        validate::survey(es, i, claims, bs) matches Ok(all) ==> (all.contains(b) <==> bs.contains(b)
            || exists|n: int| i <= n < es.len() && binding_of((#[trigger] es[n]).1, b)),
    decreases es.len() - i,
{
    if i < es.len() {
        let s = es[i].1;
        let ps = validate::protocols(s.listeners);
        lemma_bind_routes(bs, s.id, s.routes, ps, 0, b);
        if binding_of(s, b) {
            let (k, h, p) = choose|k: int, h: Seq<char>, p: RuntimeListenerProtocol|
                0 <= k < s.routes.len() && normalize::route_hosts(s.routes[k]).contains(h)
                    && ps.contains(p) && b == #[trigger] validate::binding(s.id, s.routes[k], h, p);
            assert(binding_at(s.id, s.routes, ps, k, b));
        }
        if exists|k: int|
            0 <= k < s.routes.len() && #[trigger] binding_at(s.id, s.routes, ps, k, b) {
            let k = choose|k: int|
                0 <= k < s.routes.len() && #[trigger] binding_at(s.id, s.routes, ps, k, b);
            let (h, p) = choose|h: Seq<char>, p: RuntimeListenerProtocol|
                normalize::route_hosts(s.routes[k]).contains(h) && ps.contains(p) && b
                    == #[trigger] validate::binding(s.id, s.routes[k], h, p);
            assert(binding_of(s, b));
        }
        if let Ok(c) = validate::claims_with(claims, s) {
            if let Ok(next) = validate::bind_routes(bs, s.id, s.routes, ps, 0) {
                lemma_survey(es, i + 1, c, next, b);
            }
        }
        assert(well_shaped(s) ==> validate::bind_routes(bs, s.id, s.routes, ps, 0) is Ok);
    }
}

/// A state in which routes of two services, or two routes of one, bind the same protocol,
/// host and path with as many matchers is refused.
pub proof fn lemma_conflict_refused(
    st: RuntimeStateView,
    n: int,
    m: int,
    a: RouteBindingView,
    b: RouteBindingView,
)
    requires
        0 <= n < st.services.len(),
        0 <= m < st.services.len(),
        binding_of(st.services[n].1, a),
        binding_of(st.services[m].1, b),
        validate::bindings_conflict(a, b),
    ensures
        validate::state_fault(st) is Some,
{
    lemma_survey(st.services, 0, seq![], seq![], a);
    lemma_survey(st.services, 0, seq![], seq![], b);
    if let Ok(bs) = validate::survey(st.services, 0, seq![], seq![]) {
        lemma_no_conflict(bs);
        let i = choose|i: int| 0 <= i < bs.len() && bs[i] == a;
        let j = choose|j: int| 0 <= j < bs.len() && bs[j] == b;
        assert(i != j);
        lemma_conflict_symmetric(a, b);
        if i < j {
            assert(validate::bindings_conflict(bs[i], bs[j]));
        } else {
            assert(validate::bindings_conflict(bs[j], bs[i]));
        }
    }
}

/// A state of the known version whose services and routes have the shape that they must
/// have, none with a certificate, is refused only for two bindings in conflict.
pub proof fn lemma_sound_state_passes(st: RuntimeStateView)
    requires
        st.version == RUNTIME_STATE_VERSION,
        forall|n: int|
            0 <= n < st.services.len() ==> well_shaped((#[trigger] st.services[n]).1)
                && validate::site_tls(st.services[n].1) is None,
        forall|n: int, m: int, a: RouteBindingView, b: RouteBindingView|
            0 <= n < st.services.len() && 0 <= m < st.services.len() && #[trigger] binding_of(
                st.services[n].1,
                a,
            ) && #[trigger] binding_of(st.services[m].1, b) ==> !validate::bindings_conflict(a, b),
    ensures
        validate::state_fault(st) is None,
{
    let none = validate::binding(
        seq![],
        arbitrary(),
        seq![],
        RuntimeListenerProtocol::Http,
    );
    lemma_survey(st.services, 0, seq![], seq![], none);
    if let Ok(bs) = validate::survey(st.services, 0, seq![], seq![]) {
        lemma_no_conflict(bs);
        assert forall|i: int, j: int| 0 <= i < j < bs.len() implies !validate::bindings_conflict(
            #[trigger] bs[i],
            #[trigger] bs[j],
        ) by {
            let (a, b) = (bs[i], bs[j]);
            lemma_survey(st.services, 0, seq![], seq![], a);
            lemma_survey(st.services, 0, seq![], seq![], b);
            assert(bs.contains(a) && bs.contains(b));
            let n = choose|n: int|
                0 <= n < st.services.len() && binding_of((#[trigger] st.services[n]).1, a);
            let m = choose|m: int|
                0 <= m < st.services.len() && binding_of((#[trigger] st.services[m]).1, b);
            assert(binding_of(st.services[n].1, a) && binding_of(st.services[m].1, b));
        }
    }
}

/// A state of another version is refused, and so is one with a service or a route that does
/// not have the shape that it must have.
pub proof fn lemma_bad_shape_refused(st: RuntimeStateView, n: int)
    ensures
        st.version != RUNTIME_STATE_VERSION ==> validate::state_fault(st) == Some(
            RuntimeServiceErrorView::UnsupportedVersion(st.version),
        ),
        0 <= n < st.services.len() && !well_shaped(st.services[n].1) ==> validate::state_fault(
            st,
        ) is Some,
{
    let none = validate::binding(
        seq![],
        arbitrary(),
        seq![],
        RuntimeListenerProtocol::Http,
    );
    lemma_survey(st.services, 0, seq![], seq![], none);
}

/// A host that one service claimed with its certificate is refused to another service with
/// a different one; a service that passes has all the hosts that it names, and those that
/// were claimed before stay with whom they were.
pub proof fn lemma_tls_hosts_claimed(
    claims: validate::TlsClaims,
    s: RuntimeServiceView,
    h: Seq<char>,
)
    requires
        sorted_map::ascending::<String, crate::runtime_services::types::RuntimeTlsBindingView>(
            claims,
        ),
        validate::site_tls(s) is Some,
    ensures
        (sorted_map::lookup(claims, h) matches Some(b) && validate::explicit_hosts(s).contains(h)
            && b.service_id != s.id && validate::site_tls(s) != Some(b.site_tls))
            ==> validate::claims_with(claims, s) is Err,
        validate::claims_with(claims, s) matches Ok(c) ==> {
            &&& sorted_map::lookup(claims, h) is Some ==> sorted_map::lookup(c, h)
                == sorted_map::lookup(claims, h)
            &&& validate::explicit_hosts(s).contains(h) ==> sorted_map::lookup(c, h) is Some
        },
{
    lemma_claim_hosts(claims, validate::explicit_hosts(s), 0, s.id, validate::site_tls(s)->0, h);
}

/// What becomes of claims with the hosts from `i` on.
proof fn lemma_claim_hosts(
    claims: validate::TlsClaims,
    hosts: Seq<Seq<char>>,
    i: int,
    id: Seq<char>,
    t: crate::config::types::SiteTlsConfigView,
    h: Seq<char>,
)
    requires
        0 <= i,
        sorted_map::ascending::<String, crate::runtime_services::types::RuntimeTlsBindingView>(
            claims,
        ),
    ensures
        (sorted_map::lookup(claims, h) matches Some(b) && b.service_id != id && b.site_tls != t)
            && (exists|j: int| i <= j < hosts.len() && #[trigger] hosts[j] == h)
            ==> validate::claim_hosts(claims, hosts, i, id, t) is Err,
        validate::claim_hosts(claims, hosts, i, id, t) matches Ok(c) ==> {
            &&& sorted_map::lookup(claims, h) is Some ==> sorted_map::lookup(c, h)
                == sorted_map::lookup(claims, h)
            &&& (exists|j: int| i <= j < hosts.len() && #[trigger] hosts[j] == h)
                ==> sorted_map::lookup(c, h) is Some
        },
    decreases hosts.len() - i,
{
    if i < hosts.len() {
        match sorted_map::lookup(claims, hosts[i]) {
            Some(b) => {
                lemma_claim_hosts(claims, hosts, i + 1, id, t, h);
            },
            None => {
                let v = crate::runtime_services::types::RuntimeTlsBindingView {
                    service_id: id,
                    site_tls: t,
                };
                let next = sorted_map::put::<
                    String,
                    crate::runtime_services::types::RuntimeTlsBindingView,
                >(claims, hosts[i], v);
                sorted_map::lemma_put::<
                    String,
                    crate::runtime_services::types::RuntimeTlsBindingView,
                >(claims, hosts[i], v);
                lemma_claim_hosts(next, hosts, i + 1, id, t, h);
            },
        }
    }
}

// ---------------------------------------------------------------------------
// Normal forms
// ---------------------------------------------------------------------------

/// A path prefix is refused exactly where it does not begin with a slash, white space
/// aside; a slash behind it does not count, and one that needs no change stays.
pub proof fn lemma_prefix_in_normal_form(p: Seq<char>)
    requires
        p.len() > 1,
        p[0] == '/',
        p.last() != '/',
        !text::is_space(p.last()),
    ensures
        normalize::normal_prefix(p) == Ok::<Seq<char>, RuntimeServiceErrorView>(p),
        normalize::normal_prefix(p.push('/')) == Ok::<Seq<char>, RuntimeServiceErrorView>(p),
        normalize::normal_prefix(seq!['/']) == Ok::<Seq<char>, RuntimeServiceErrorView>(seq!['/']),
        normalize::normal_prefix(p.skip(1)) is Err <==> (text::trimmed(p.skip(1)).len() == 0
            || text::trimmed(p.skip(1))[0] != '/'),
{
    reveal_strlit("/");
    assert("/"@ =~= seq!['/']);
    reveal_with_fuel(text::tail, 3);
    let q = p.push('/');
    let slash = text::only('/');
    assert(!text::is_space('/'));
    text::lemma_trimmed_fixed(p);
    text::lemma_trimmed_fixed(q);
    text::lemma_trimmed_fixed(seq!['/']);
    assert(p.subrange(0, 1) =~= "/"@);
    assert(q.subrange(0, 1) =~= "/"@);
    assert(seq!['/'].subrange(0, 1) =~= "/"@);
    assert(text::tail(p, slash, p.len() as int) == p.len());
    assert(p.take(p.len() as int) =~= p);
    assert(q.last() == '/' && q[q.len() - 2] == p.last());
    assert(text::tail(q, slash, q.len() as int) == p.len());
    assert(q.take(p.len() as int) =~= p);
    let t = text::trimmed(p.skip(1));
    if t.len() > 0 {
        assert(t.subrange(0, 1)[0] == t[0]);
        if t[0] == '/' {
            assert(t.subrange(0, 1) =~= "/"@);
        }
    }
}

/// The pattern of a route covers its prefix and what is below it, and nothing else; that of
/// the root covers everything.
pub proof fn lemma_route_covers(prefix: Seq<char>, path: Seq<char>)
    requires
        prefix.len() > 1,
        prefix[0] == '/',
    ensures
        matcher::covers(normalize::prefix_pattern(seq!['/']), path),
        matcher::covers(normalize::prefix_pattern(prefix), prefix),
        matcher::covers(normalize::prefix_pattern(prefix), prefix + seq!['/'] + path),
        matcher::covers(normalize::prefix_pattern(prefix), path) ==> path == prefix || (path.len()
            > prefix.len() && path.take(prefix.len() as int) == prefix && path[prefix.len() as int]
            == '/'),
{
    reveal_strlit("/");
    reveal_strlit("/*");
    assert("/"@ =~= seq!['/']);
    assert("/*"@ =~= seq!['/', '*']);
    matcher::lemma_catch_all_covers(path);
    matcher::lemma_directory_covers(prefix, path);
    assert(matcher::covers(prefix + seq!['/', '*'], prefix + seq!['/'] + path));
}

/// The hosts of a route are those that it lists, in small letters and without white space
/// around them, but for blank ones; a route that lists none answers all.
pub proof fn lemma_hosts_of_route(r: RuntimeRouteView, h: Seq<char>)
    ensures
        r.hosts.len() == 0 ==> normalize::route_hosts(r) == seq!["*"@],
        r.hosts.len() > 0 ==> (normalize::route_hosts(r).contains(h) <==> h.len() > 0 && exists|
            i: int,
        | 0 <= i < r.hosts.len() && text::lowered(text::trimmed(#[trigger] r.hosts[i])) == h),
{
    lemma_clean_hosts(r.hosts, h);
}

/// The hosts of a list.
proof fn lemma_clean_hosts(hosts: Seq<Seq<char>>, h: Seq<char>)
    ensures
        normalize::clean_hosts(hosts).contains(h) <==> h.len() > 0 && exists|i: int|
            0 <= i < hosts.len() && text::lowered(text::trimmed(#[trigger] hosts[i])) == h,
    decreases hosts.len(),
{
    if hosts.len() > 0 {
        let d = hosts.drop_last();
        lemma_clean_hosts(d, h);
        let x = text::lowered(text::trimmed(hosts.last()));
        let before = normalize::clean_hosts(d);
        assert(before.push(x) =~= before + seq![x]);
        lemma_in_either(before, seq![x], h);
        assert(seq![x].contains(h) <==> x == h) by {
            assert(seq![x][0] == x);
        }
        assert(text::lowered(text::trimmed(hosts[hosts.len() - 1])) == x);
        if exists|i: int| 0 <= i < d.len() && text::lowered(text::trimmed(#[trigger] d[i])) == h {
            let i = choose|i: int|
                0 <= i < d.len() && text::lowered(text::trimmed(#[trigger] d[i])) == h;
            assert(text::lowered(text::trimmed(hosts[i])) == h);
        }
        if exists|i: int|
            0 <= i < hosts.len() && text::lowered(text::trimmed(#[trigger] hosts[i])) == h {
            let i = choose|i: int|
                0 <= i < hosts.len() && text::lowered(text::trimmed(#[trigger] hosts[i])) == h;
            if i < d.len() {
                assert(text::lowered(text::trimmed(d[i])) == h);
            }
        }
    }
}

/// A target is refused exactly where its id or its address is blank; else the two are
/// without white space around them, an error text stays with the failed state alone, and
/// everything else is as it was. A listener is refused where its id is blank.
pub proof fn lemma_normal_target(t: RuntimeTargetView, l: RuntimeListenerView)
    ensures
        normalize::normal_target(t) is Err <==> text::trimmed(t.id).len() == 0 || text::trimmed(
            t.addr,
        ).len() == 0,
        normalize::normal_target(t) matches Ok(n) ==> n.id == text::trimmed(t.id) && n.addr
            == text::trimmed(t.addr) && n.weight == t.weight && n.state == t.state
            && n.drain_timeout == t.drain_timeout && (t.state == RuntimeTargetState::Failed
            ==> n.last_error == t.last_error) && (t.state != RuntimeTargetState::Failed
            ==> n.last_error is None),
        normalize::normal_listener(l) is Err <==> text::trimmed(l.id).len() == 0,
        normalize::normal_listener(l) matches Ok(n) ==> n.id == text::trimmed(l.id) && n.protocol
            == l.protocol,
{
}

/// A TLS policy is refused exactly where it names a certificate without a key, or a key
/// without a certificate, or all hosts as the canonical one; blank names count as none.
pub proof fn lemma_normal_tls(t: RuntimeTlsPolicyView)
    ensures
        ({
            let cert = t.certificate_ref matches Some(c) && text::trimmed(c).len() > 0;
            let key = t.private_key_ref matches Some(k) && text::trimmed(k).len() > 0;
            let all = t.canonical_host matches Some(h) && text::lowered(text::trimmed(h)) == "*"@;
            let r = normalize::normal_tls(t);
            &&& r is Err <==> cert != key || all
            &&& r matches Ok(n) ==> n.https_redirect == t.https_redirect && (n.certificate_ref is Some
                <==> cert) && (n.private_key_ref is Some <==> key)
            &&& (r matches Ok(n) && cert) ==> r->Ok_0.certificate_ref == Some(
                text::trimmed(t.certificate_ref->0),
            )
            &&& (r matches Ok(n) && (t.canonical_host matches Some(h) && text::trimmed(h).len() > 0))
                ==> r->Ok_0.canonical_host == Some(
                text::lowered(text::trimmed(t.canonical_host->0)),
            )
        }),
{
    reveal_strlit("*");
    if let Some(h) = t.canonical_host {
        text::lemma_lowered(text::trimmed(h));
    }
}

// ---------------------------------------------------------------------------
// Patches
// ---------------------------------------------------------------------------

/// A patch sets what it names and leaves the rest of a target as it was; the id always
/// stays, and an error text goes with the failed state.
pub proof fn lemma_target_patch(t: RuntimeTargetView, p: RuntimeTargetPatchView)
    ensures
        ({
            let n = state::patched_target(t, p);
            &&& n.id == t.id
            &&& p.addr matches Some(x) ==> n.addr == x
            &&& p.addr is None ==> n.addr == t.addr
            &&& p.weight matches Some(x) ==> n.weight == x
            &&& p.weight is None ==> n.weight == t.weight
            &&& p.state matches Some(x) ==> n.state == x
            &&& p.state is None ==> n.state == t.state && n.last_error == t.last_error
            &&& p.drain_timeout matches Some(x) ==> n.drain_timeout == x
            &&& p.drain_timeout is None ==> n.drain_timeout == t.drain_timeout
            &&& p.state is Some && p.state != Some(RuntimeTargetState::Failed)
                ==> n.last_error is None
        }),
{
}

/// A patch sets what it names and leaves the rest of a route as it was; the id always
/// stays.
pub proof fn lemma_route_patch(r: RuntimeRouteView, p: RuntimeRoutePatchView)
    ensures
        ({
            let n = state::patched_route(r, p);
            &&& n.id == r.id
            &&& p.hosts matches Some(x) ==> n.hosts == x
            &&& p.hosts is None ==> n.hosts == r.hosts
            &&& p.path_prefix matches Some(x) ==> n.path_prefix == x
            &&& p.path_prefix is None ==> n.path_prefix == r.path_prefix
            &&& p.matchers matches Some(x) ==> n.matchers == x
            &&& p.matchers is None ==> n.matchers == r.matchers
            &&& p.strip_path_prefix matches Some(x) ==> n.strip_path_prefix == x
            &&& p.strip_path_prefix is None ==> n.strip_path_prefix == r.strip_path_prefix
            &&& p.lb matches Some(x) ==> n.lb == x
            &&& p.lb is None ==> n.lb == r.lb
            &&& p.lb_header matches Some(x) ==> n.lb_header == Some(x)
            &&& p.lb_header is None ==> n.lb_header == r.lb_header
            &&& p.lb_cookie matches Some(x) ==> n.lb_cookie == Some(x)
            &&& p.lb_cookie is None ==> n.lb_cookie == r.lb_cookie
            &&& p.target_groups matches Some(x) ==> n.target_groups == x
            &&& p.target_groups is None ==> n.target_groups == r.target_groups
            &&& p.health_check matches Some(x) ==> n.health_check == x
            &&& p.health_check is None ==> n.health_check == r.health_check
        }),
{
}

/// A patch sets what it names and leaves the rest of a service or a listener as it was.
pub proof fn lemma_service_patch(
    s: RuntimeServiceView,
    p: RuntimeServicePatchView,
    l: RuntimeListenerView,
    q: RuntimeListenerPatchView,
)
    ensures
        ({
            let n = state::patched_service(s, p);
            let m = state::patched_listener(l, q);
            &&& n.id == s.id && n.routes == s.routes && n.revision == s.revision
            &&& p.listeners matches Some(x) ==> n.listeners == x
            &&& p.listeners is None ==> n.listeners == s.listeners
            &&& p.tls matches Some(x) ==> n.tls == Some(x)
            &&& p.tls is None ==> n.tls == s.tls
            &&& m.id == l.id
            &&& q.protocol matches Some(x) ==> m.protocol == x
            &&& q.protocol is None ==> m.protocol == l.protocol
        }),
{
}

/// Services share hosts where their certificates are the same: a service all of whose hosts
/// are free, its own, or claimed with its certificate, passes.
pub proof fn lemma_tls_hosts_shared(claims: validate::TlsClaims, s: RuntimeServiceView)
    requires
        sorted_map::ascending::<String, crate::runtime_services::types::RuntimeTlsBindingView>(
            claims,
        ),
        validate::site_tls(s) is Some,
        forall|h: Seq<char>|
            validate::explicit_hosts(s).contains(h) ==> (#[trigger] sorted_map::lookup(claims, h)
                matches Some(b) ==> b.service_id == s.id || validate::site_tls(s) == Some(
                b.site_tls,
            )),
    ensures
        validate::claims_with(claims, s) is Ok,
{
    let hosts = validate::explicit_hosts(s);
    assert forall|j: int| 0 <= j < hosts.len() implies may_claim(
        claims,
        #[trigger] hosts[j],
        s.id,
        validate::site_tls(s)->0,
    ) by {
        assert(hosts.contains(hosts[j]));
    }
    lemma_hosts_shared(claims, hosts, 0, s.id, validate::site_tls(s)->0);
}

/// The host is free, or claimed by the service or with the same certificate.
pub open spec fn may_claim(
    claims: validate::TlsClaims,
    h: Seq<char>,
    id: Seq<char>,
    t: crate::config::types::SiteTlsConfigView,
) -> bool {
    sorted_map::lookup(claims, h) matches Some(b) ==> b.service_id == id || b.site_tls == t
}

/// Hosts from `i` on that may be claimed are.
proof fn lemma_hosts_shared(
    claims: validate::TlsClaims,
    hosts: Seq<Seq<char>>,
    i: int,
    id: Seq<char>,
    t: crate::config::types::SiteTlsConfigView,
)
    requires
        0 <= i,
        sorted_map::ascending::<String, crate::runtime_services::types::RuntimeTlsBindingView>(
            claims,
        ),
        forall|j: int| i <= j < hosts.len() ==> may_claim(claims, #[trigger] hosts[j], id, t),
    ensures
        validate::claim_hosts(claims, hosts, i, id, t) is Ok,
    decreases hosts.len() - i,
{
    if i < hosts.len() {
        assert(may_claim(claims, hosts[i], id, t));
        if sorted_map::lookup(claims, hosts[i]) is Some {
            lemma_hosts_shared(claims, hosts, i + 1, id, t);
        } else {
            let v = crate::runtime_services::types::RuntimeTlsBindingView {
                service_id: id,
                site_tls: t,
            };
            let next = sorted_map::put::<
                String,
                crate::runtime_services::types::RuntimeTlsBindingView,
            >(claims, hosts[i], v);
            sorted_map::lemma_put::<String, crate::runtime_services::types::RuntimeTlsBindingView>(
                claims,
                hosts[i],
                v,
            );
            assert forall|j: int| i + 1 <= j < hosts.len() implies may_claim(
                next,
                #[trigger] hosts[j],
                id,
                t,
            ) by {
                assert(may_claim(claims, hosts[j], id, t));
            }
            lemma_hosts_shared(next, hosts, i + 1, id, t);
        }
    }
}

} // verus!
