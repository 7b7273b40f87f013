//! The runtime state keeps its normal form through every change.

use vstd::prelude::*;
use crate::ranking;
use crate::router::matcher;
use crate::router::signature;
use crate::runtime_services::laws;
use crate::runtime_services::laws::in_order;
use crate::runtime_services::normalize;
use crate::runtime_services::state;
use crate::runtime_services::types::{
    RuntimeListener, RuntimeListenerView, RuntimeRoute, RuntimeRoutePatchView, RuntimeRouteView,
    RuntimeServiceErrorView, RuntimeServiceView, RuntimeStateView, RuntimeTarget,
    RuntimeTargetGroup, RuntimeTargetGroupView, RuntimeTargetRefView, RuntimeTargetState,
    RuntimeTargetView,
};
use crate::runtime_services::validate;
use crate::runtime_services::validity;
use crate::sorted_map;
use crate::text;

verus! {

// ---------------------------------------------------------------------------
// The normal form
// ---------------------------------------------------------------------------

/// A text that is not empty and has no white space around it.
pub open spec fn clean_id(s: Seq<char>) -> bool {
    s.len() > 0 && text::trimmed(s) == s
}

/// A host in lower case that is not empty and has no white space around it.
pub open spec fn clean_host(h: Seq<char>) -> bool {
    clean_id(h) && text::lowered(h) == h
}

/// Hosts that are clean and ascend, so that none occurs twice.
pub open spec fn hosts_normal(hosts: Seq<Seq<char>>) -> bool {
    &&& ranking::texts_ascend(hosts)
    &&& forall|i: int| 0 <= i < hosts.len() ==> clean_host(#[trigger] hosts[i])
}

/// A target in its normal form.
pub open spec fn target_normal(t: RuntimeTargetView) -> bool {
    normalize::normal_target(t) == Ok::<_, RuntimeServiceErrorView>(t)
}

/// Targets in their normal form.
pub open spec fn targets_normal(ts: Seq<RuntimeTargetView>) -> bool {
    forall|i: int| 0 <= i < ts.len() ==> target_normal(#[trigger] ts[i])
}

/// A group in its normal form, with its targets in order.
pub open spec fn group_normal(g: RuntimeTargetGroupView) -> bool {
    clean_id(g.id) && targets_normal(g.targets) && in_order::<RuntimeTarget>(g.targets)
}

/// Groups in their normal form.
pub open spec fn groups_normal(gs: Seq<RuntimeTargetGroupView>) -> bool {
    forall|i: int| 0 <= i < gs.len() ==> group_normal(#[trigger] gs[i])
}

/// A path prefix that begins with a slash and does not end with one, unless it is one
/// or empty.
pub open spec fn prefix_normal(p: Seq<char>) -> bool {
    p.len() > 0 ==> p[0] == '/' && (p.len() > 1 ==> p.last() != '/')
}

/// A route in its normal form, with its groups in order.
pub open spec fn route_normal(r: RuntimeRouteView) -> bool {
    &&& clean_id(r.id)
    &&& hosts_normal(r.hosts)
    &&& prefix_normal(r.path_prefix)
    &&& normalize::present(r.lb_header) == r.lb_header
    &&& normalize::present(r.lb_cookie) == r.lb_cookie
    &&& groups_normal(r.target_groups)
    &&& in_order::<RuntimeTargetGroup>(r.target_groups)
}

/// Routes in their normal form.
pub open spec fn routes_normal(rs: Seq<RuntimeRouteView>) -> bool {
    forall|i: int| 0 <= i < rs.len() ==> route_normal(#[trigger] rs[i])
}

/// Listeners in their normal form.
pub open spec fn listeners_normal(ls: Seq<RuntimeListenerView>) -> bool {
    forall|i: int| 0 <= i < ls.len() ==> clean_id((#[trigger] ls[i]).id)
}

/// A service in its normal form, with its listeners and routes in order.
pub open spec fn service_normal(s: RuntimeServiceView) -> bool {
    &&& clean_id(s.id)
    &&& listeners_normal(s.listeners)
    &&& in_order::<RuntimeListener>(s.listeners)
    &&& routes_normal(s.routes)
    &&& in_order::<RuntimeRoute>(s.routes)
}

/// A valid state whose services are in their normal form.
pub open spec fn state_normal(st: RuntimeStateView) -> bool {
    &&& validity::well_formed(st)
    &&& forall|k: int| 0 <= k < st.services.len() ==> service_normal((#[trigger] st.services[k]).1)
}

// ---------------------------------------------------------------------------
// Bringing into the normal form
// ---------------------------------------------------------------------------

proof fn lemma_clean_host(raw: Seq<char>)
    ensures
        ({
            let h = text::lowered(text::trimmed(raw));
            h.len() > 0 ==> clean_host(h)
        }),
{
    let t = text::trimmed(raw);
    text::lemma_trimmed_twice(raw);
    text::lemma_lowered(t);
    text::lemma_trimmed_fixed(text::lowered(t));
}

proof fn lemma_clean_hosts(raw: Seq<Seq<char>>)
    ensures
        forall|h: Seq<char>| #[trigger] normalize::clean_hosts(raw).contains(h) ==> clean_host(h),
    decreases raw.len(),
{
    if raw.len() > 0 {
        let before = normalize::clean_hosts(raw.drop_last());
        lemma_clean_hosts(raw.drop_last());
        lemma_clean_host(raw.last());
        let h = text::lowered(text::trimmed(raw.last()));
        assert forall|x: Seq<char>| #[trigger] normalize::clean_hosts(raw).contains(x) implies
            clean_host(x) by {
            if h.len() > 0 && x != h {
                let k = choose|k: int| 0 <= k < before.push(h).len() && before.push(h)[k] == x;
                assert(before[k] == x);
                assert(before.contains(x));
            }
        }
    }
}

/// The hosts that a route is given are brought into their normal form.
proof fn lemma_hosts_normal(raw: Seq<Seq<char>>)
    ensures
        hosts_normal(ranking::text_set(normalize::clean_hosts(raw))),
{
    let c = normalize::clean_hosts(raw);
    let t = ranking::text_set(c);
    ranking::lemma_text_set(c);
    lemma_clean_hosts(raw);
    assert forall|i: int| 0 <= i < t.len() implies clean_host(#[trigger] t[i]) by {
        assert(t.contains(t[i]));
        assert(c.contains(t[i]));
    }
}

proof fn lemma_clean_hosts_fixed(hosts: Seq<Seq<char>>)
    requires
        forall|i: int| 0 <= i < hosts.len() ==> clean_host(#[trigger] hosts[i]),
    ensures
        normalize::clean_hosts(hosts) == hosts,
    decreases hosts.len(),
{
    if hosts.len() > 0 {
        let d = hosts.drop_last();
        assert forall|i: int| 0 <= i < d.len() implies clean_host(#[trigger] d[i]) by {
            assert(d[i] == hosts[i]);
        }
        lemma_clean_hosts_fixed(d);
        assert(clean_host(hosts[hosts.len() - 1]));
        assert(d.push(hosts.last()) =~= hosts);
    }
}

proof fn lemma_normal_target(t: RuntimeTargetView)
    ensures
        normalize::normal_target(t) matches Ok(n) ==> target_normal(n) && clean_id(n.id),
{
    text::lemma_trimmed_twice(t.id);
    text::lemma_trimmed_twice(t.addr);
}

proof fn lemma_normal_targets(ts: Seq<RuntimeTargetView>)
    ensures
        normalize::normal_targets(ts) matches Ok(n) ==> targets_normal(n) && n.len() == ts.len(),
        targets_normal(ts) ==> normalize::normal_targets(ts) == Ok::<_, RuntimeServiceErrorView>(
            ts,
        ),
    decreases ts.len(),
{
    if ts.len() > 0 {
        let d = ts.drop_last();
        lemma_normal_targets(d);
        lemma_normal_target(ts.last());
        if targets_normal(ts) {
            assert forall|i: int| 0 <= i < d.len() implies target_normal(#[trigger] d[i]) by {
                assert(d[i] == ts[i]);
            }
            assert(target_normal(ts[ts.len() - 1]));
            assert(d.push(ts.last()) =~= ts);
        }
    }
}

proof fn lemma_sorted_targets(ts: Seq<RuntimeTargetView>)
    requires
        targets_normal(ts),
    ensures
        targets_normal(ranking::sorted::<RuntimeTarget>(ts)),
        in_order::<RuntimeTarget>(ranking::sorted::<RuntimeTarget>(ts)),
{
    let t = ranking::sorted::<RuntimeTarget>(ts);
    laws::lemma_targets_in_order(ts);
    ranking::lemma_sorted_keeps::<RuntimeTarget>(ts);
    assert forall|i: int| 0 <= i < t.len() implies target_normal(#[trigger] t[i]) by {
        ranking::lemma_sorted_member::<RuntimeTarget>(ts, i);
        let k = choose|k: int| 0 <= k < ts.len() && ts[k] == t[i];
        assert(target_normal(ts[k]));
    }
}

proof fn lemma_normal_group(g: RuntimeTargetGroupView)
    ensures
        normalize::normal_group(g) matches Ok(n) ==> group_normal(n),
        group_normal(g) ==> normalize::normal_group(g) == Ok::<_, RuntimeServiceErrorView>(g),
{
    text::lemma_trimmed_twice(g.id);
    lemma_normal_targets(g.targets);
    if let Ok(n) = normalize::normal_group(g) {
        lemma_sorted_targets(normalize::normal_targets(g.targets)->Ok_0);
    }
    if group_normal(g) {
        laws::lemma_sorted_fixed::<RuntimeTarget>(g.targets);
    }
}

proof fn lemma_normal_groups(gs: Seq<RuntimeTargetGroupView>)
    ensures
        normalize::normal_groups(gs) matches Ok(n) ==> groups_normal(n) && n.len() == gs.len(),
        groups_normal(gs) ==> normalize::normal_groups(gs) == Ok::<_, RuntimeServiceErrorView>(gs),
    decreases gs.len(),
{
    if gs.len() > 0 {
        let d = gs.drop_last();
        lemma_normal_groups(d);
        lemma_normal_group(gs.last());
        if groups_normal(gs) {
            assert forall|i: int| 0 <= i < d.len() implies group_normal(#[trigger] d[i]) by {
                assert(d[i] == gs[i]);
            }
            assert(group_normal(gs[gs.len() - 1]));
            assert(d.push(gs.last()) =~= gs);
        }
    }
}

/// Groups with their targets in normal form are brought in order.
proof fn lemma_ordered_groups(r: RuntimeRouteView)
    requires
        forall|i: int|
            0 <= i < r.target_groups.len() ==> clean_id((#[trigger] r.target_groups[i]).id)
                && targets_normal(r.target_groups[i].targets),
    ensures
        groups_normal(normalize::route_in_order(r).target_groups),
        in_order::<RuntimeTargetGroup>(normalize::route_in_order(r).target_groups),
{
    let gs = r.target_groups;
    let sorted = ranking::sorted::<RuntimeTargetGroup>(gs);
    let out = normalize::route_in_order(r).target_groups;
    laws::lemma_groups_in_order(gs);
    ranking::lemma_sorted_keeps::<RuntimeTargetGroup>(gs);
    assert forall|i: int| 0 <= i < out.len() implies group_normal(#[trigger] out[i]) by {
        ranking::lemma_sorted_member::<RuntimeTargetGroup>(gs, i);
        let k = choose|k: int| 0 <= k < gs.len() && gs[k] == sorted[i];
        assert(clean_id(gs[k].id));
        lemma_sorted_targets(gs[k].targets);
        assert(out[i] == normalize::group_in_order(sorted[i]));
    }
    assert forall|i: int, j: int| 0 <= i < j < out.len() implies !<RuntimeTargetGroup as ranking::Ranked>::precedes(
        #[trigger] out[j],
        #[trigger] out[i],
    ) by {
        assert(out[j].id == sorted[j].id && out[i].id == sorted[i].id);
        assert(!<RuntimeTargetGroup as ranking::Ranked>::precedes(sorted[j], sorted[i]));
    }
}

/// A route in its normal form is in order.
proof fn lemma_route_fixed(r: RuntimeRouteView)
    requires
        route_normal(r),
    ensures
        normalize::route_in_order(r) == r,
{
    let gs = r.target_groups;
    laws::lemma_sorted_fixed::<RuntimeTargetGroup>(gs);
    assert forall|i: int| 0 <= i < gs.len() implies normalize::group_in_order(#[trigger] gs[i])
        == gs[i] by {
        assert(group_normal(gs[i]));
        laws::lemma_sorted_fixed::<RuntimeTarget>(gs[i].targets);
    }
    assert(normalize::route_in_order(r).target_groups =~= gs);
}

proof fn lemma_normal_prefix(path: Seq<char>)
    ensures
        normalize::normal_prefix(path) matches Ok(p) ==> prefix_normal(p),
{
    reveal_strlit("/");
    let t = text::trimmed(path);
    let q = text::only('/');
    if normalize::normal_prefix(path) is Ok && t != "/"@ {
        text::lemma_tail(t, q, t.len() as int);
        assert(t.subrange(0, 1)[0] == '/');
    }
}

/// A route is brought into its normal form, and one that is in it, with a prefix that
/// is, stays as it is.
proof fn lemma_normal_route(r: RuntimeRouteView)
    ensures
        normalize::normal_route(r) matches Ok(n) ==> route_normal(n),
        route_normal(r) && normalize::normal_prefix(r.path_prefix) == Ok::<
            _,
            RuntimeServiceErrorView,
        >(r.path_prefix) ==> normalize::normal_route(r) == Ok::<_, RuntimeServiceErrorView>(r),
{
    text::lemma_trimmed_twice(r.id);
    lemma_normal_groups(r.target_groups);
    lemma_normal_prefix(r.path_prefix);
    if let Ok(n) = normalize::normal_route(r) {
        let raw = RuntimeRouteView {
            id: text::trimmed(r.id),
            hosts: ranking::text_set(normalize::clean_hosts(r.hosts)),
            path_prefix: normalize::normal_prefix(r.path_prefix)->Ok_0,
            lb_header: normalize::present(r.lb_header),
            lb_cookie: normalize::present(r.lb_cookie),
            target_groups: normalize::normal_groups(r.target_groups)->Ok_0,
            ..r
        };
        assert(n == normalize::route_in_order(raw));
        lemma_hosts_normal(r.hosts);
        if let Some(s) = r.lb_header {
            text::lemma_trimmed_twice(s);
        }
        if let Some(s) = r.lb_cookie {
            text::lemma_trimmed_twice(s);
        }
        assert forall|i: int| 0 <= i < raw.target_groups.len() implies clean_id(
            (#[trigger] raw.target_groups[i]).id,
        ) && targets_normal(raw.target_groups[i].targets) by {
            assert(group_normal(raw.target_groups[i]));
        }
        lemma_ordered_groups(raw);
    }
    if route_normal(r) {
        lemma_clean_hosts_fixed(r.hosts);
        ranking::lemma_text_set_fixed(r.hosts);
        lemma_route_fixed(r);
    }
}

proof fn lemma_normal_routes(rs: Seq<RuntimeRouteView>)
    ensures
        normalize::normal_routes(rs) matches Ok(n) ==> routes_normal(n),
    decreases rs.len(),
{
    if rs.len() > 0 {
        lemma_normal_routes(rs.drop_last());
        lemma_normal_route(rs.last());
    }
}

proof fn lemma_normal_listeners(ls: Seq<RuntimeListenerView>)
    ensures
        normalize::normal_listeners(ls) matches Ok(n) ==> listeners_normal(n),
    decreases ls.len(),
{
    if ls.len() > 0 {
        lemma_normal_listeners(ls.drop_last());
        text::lemma_trimmed_twice(ls.last().id);
    }
}

// ---------------------------------------------------------------------------
// The order of routes
// ---------------------------------------------------------------------------

/// The order in which routes are tried never goes both ways.
proof fn lemma_route_order_strict(a: RuntimeRouteView, b: RuntimeRouteView)
    requires
        normalize::route_before(a, b),
    ensures
        !normalize::route_before(b, a),
{
    sorted_map::lemma_text_before_total(a.id, b.id);
    sorted_map::lemma_texts_before_total(
        signature::signatures(a.matchers),
        signature::signatures(b.matchers),
    );
}

/// Where `b` is not tried before `a` and `c` is not tried before `b`, `c` is not tried
/// before `a`.
proof fn lemma_route_order_weak(a: RuntimeRouteView, b: RuntimeRouteView, c: RuntimeRouteView)
    requires
        !normalize::route_before(b, a),
        !normalize::route_before(c, b),
    ensures
        !normalize::route_before(c, a),
{
    let (sa, sb, sc) = (
        signature::signatures(a.matchers),
        signature::signatures(b.matchers),
        signature::signatures(c.matchers),
    );
    sorted_map::lemma_text_before_total(a.id, b.id);
    sorted_map::lemma_text_before_total(b.id, c.id);
    sorted_map::lemma_text_before_total(a.id, c.id);
    if !sorted_map::text_before(b.id, a.id) && !sorted_map::text_before(c.id, b.id) {
        laws::lemma_not_before_transitive(a.id, b.id, c.id);
    }
    sorted_map::lemma_texts_before_total(sa, sb);
    sorted_map::lemma_texts_before_total(sb, sc);
    sorted_map::lemma_texts_before_total(sa, sc);
    if sorted_map::texts_before(sa, sb) && sorted_map::texts_before(sb, sc) {
        sorted_map::lemma_texts_before_transitive(sa, sb, sc);
    }
}

proof fn lemma_routes_in_order(rs: Seq<RuntimeRouteView>)
    ensures
        in_order::<RuntimeRoute>(ranking::sorted::<RuntimeRoute>(rs)),
{
    assert forall|a: RuntimeRouteView, b: RuntimeRouteView| #[trigger]
        <RuntimeRoute as ranking::Ranked>::precedes(a, b) implies !<RuntimeRoute as ranking::Ranked>::precedes(
        b,
        a,
    ) by {
        lemma_route_order_strict(a, b);
    }
    assert forall|a: RuntimeRouteView, b: RuntimeRouteView, c: RuntimeRouteView|
        !#[trigger] <RuntimeRoute as ranking::Ranked>::precedes(b, a) && !#[trigger]
            <RuntimeRoute as ranking::Ranked>::precedes(c, b) implies !<RuntimeRoute as ranking::Ranked>::precedes(
        c,
        a,
    ) by {
        lemma_route_order_weak(a, b, c);
    }
    ranking::lemma_sorted_in_order::<RuntimeRoute>(rs);
}

proof fn lemma_listeners_in_order(ls: Seq<RuntimeListenerView>)
    ensures
        in_order::<RuntimeListener>(ranking::sorted::<RuntimeListener>(ls)),
{
    assert forall|a: RuntimeListenerView, b: RuntimeListenerView| #[trigger]
        <RuntimeListener as ranking::Ranked>::precedes(a, b) implies !<RuntimeListener as ranking::Ranked>::precedes(
        b,
        a,
    ) by {
        sorted_map::lemma_text_before_total(a.id, b.id);
    }
    assert forall|a: RuntimeListenerView, b: RuntimeListenerView, c: RuntimeListenerView|
        !#[trigger] <RuntimeListener as ranking::Ranked>::precedes(b, a) && !#[trigger]
            <RuntimeListener as ranking::Ranked>::precedes(c, b) implies !<RuntimeListener as ranking::Ranked>::precedes(
        c,
        a,
    ) by {
        laws::lemma_not_before_transitive(a.id, b.id, c.id);
    }
    ranking::lemma_sorted_in_order::<RuntimeListener>(ls);
}

/// A service whose parts are in their normal form is in its own once it is put in order.
proof fn lemma_ordered_service(s: RuntimeServiceView)
    requires
        clean_id(s.id),
        listeners_normal(s.listeners),
        routes_normal(s.routes),
    ensures
        service_normal(normalize::service_in_order(s)),
        normalize::service_in_order(s).routes == ranking::sorted::<RuntimeRoute>(s.routes),
{
    let (ls, rs) = (s.listeners, s.routes);
    let (lt, rt) = (
        ranking::sorted::<RuntimeListener>(ls),
        ranking::sorted::<RuntimeRoute>(rs),
    );
    lemma_listeners_in_order(ls);
    lemma_routes_in_order(rs);
    ranking::lemma_sorted_keeps::<RuntimeListener>(ls);
    ranking::lemma_sorted_keeps::<RuntimeRoute>(rs);
    assert forall|i: int| 0 <= i < lt.len() implies clean_id((#[trigger] lt[i]).id) by {
        ranking::lemma_sorted_member::<RuntimeListener>(ls, i);
        let k = choose|k: int| 0 <= k < ls.len() && ls[k] == lt[i];
        assert(clean_id(ls[k].id));
    }
    assert forall|i: int| 0 <= i < rt.len() implies route_normal(#[trigger] rt[i])
        && normalize::route_in_order(rt[i]) == rt[i] by {
        ranking::lemma_sorted_member::<RuntimeRoute>(rs, i);
        let k = choose|k: int| 0 <= k < rs.len() && rs[k] == rt[i];
        assert(route_normal(rs[k]));
        lemma_route_fixed(rt[i]);
    }
    assert(normalize::service_in_order(s).routes =~= rt);
}

/// A service in its normal form stays as it is when it is put in order.
proof fn lemma_service_fixed(s: RuntimeServiceView)
    requires
        service_normal(s),
    ensures
        normalize::service_in_order(s) == s,
{
    lemma_ordered_service(s);
    laws::lemma_sorted_fixed::<RuntimeListener>(s.listeners);
    laws::lemma_sorted_fixed::<RuntimeRoute>(s.routes);
}

// ---------------------------------------------------------------------------
// Every change keeps the normal form
// ---------------------------------------------------------------------------

/// A service that is found in a state in its normal form is in its own.
pub(crate) proof fn lemma_found_normal(st: RuntimeStateView, sid: Seq<char>)
    requires
        state_normal(st),
    ensures
        state::found_service(st, sid) matches Ok(s) ==> service_normal(s) && s.id == sid
            && laws::sound(s),
{
    sorted_map::lemma_position(st.services, sid, 0);
    if let Some(i) = sorted_map::position(st.services, sid, 0) {
        assert(service_normal(st.services[i].1));
        assert(st.services[i].1.id == st.services[i].0);
        laws::lemma_valid_state_sound(st, i);
    }
}

/// A state without services is in its normal form.
pub proof fn lemma_normal_at_start()
    ensures
        state_normal(RuntimeStateView { version: 1, revision: 0, services: seq![] }),
{
    validity::lemma_valid_at_start();
}

/// A change of a service that leaves it in its normal form leaves the state in its own.
proof fn lemma_normal_committed<X>(
    st: RuntimeStateView,
    sid: Seq<char>,
    s: RuntimeServiceView,
    x: X,
)
    requires
        state_normal(st),
        service_normal(s),
        s.id == sid,
    ensures
        state::committed(st, sid, s, x) matches Ok((next, _)) ==> state_normal(next),
{
    validity::lemma_valid_when_committed(st, sid, s, x);
    sorted_map::lemma_position(st.services, sid, 0);
    let next = state::revised(st, sid, s);
    assert forall|k: int| 0 <= k < next.services.len() implies service_normal(
        (#[trigger] next.services[k]).1,
    ) by {
        assert(service_normal(st.services[k].1));
    }
}

/// Setting a service, and so patching one, keeps the normal form.
pub proof fn lemma_normal_service_set(
    st: RuntimeStateView,
    service: RuntimeServiceView,
    expected: Option<u64>,
)
    requires
        state_normal(st),
    ensures
        state::service_set(st, service, expected) matches Ok((next, _)) ==> state_normal(next),
{
    if let Ok((next, s)) = state::service_set(st, service, expected) {
        let es = st.services;
        validity::lemma_valid_with_service(st, service, expected);
        text::lemma_trimmed_twice(service.id);
        lemma_normal_listeners(service.listeners);
        lemma_normal_routes(service.routes);
        sorted_map::lemma_put::<String, RuntimeServiceView>(es, s.id, s);
        sorted_map::lemma_slot::<String, RuntimeServiceView>(es, s.id, 0);
        let n = sorted_map::slot::<String, RuntimeServiceView>(es, s.id, 0);
        assert(next.services[n] == (s.id, s));
        laws::lemma_valid_state_sound(next, n);
        let raw = RuntimeServiceView {
            id: text::trimmed(service.id),
            revision: service.revision,
            listeners: normalize::normal_listeners(service.listeners)->Ok_0,
            routes: normalize::normal_routes(service.routes)->Ok_0,
            tls: normalize::normal_tls_option(service.tls)->Ok_0,
        };
        assert(clean_id(raw.id));
        lemma_ordered_service(raw);
        assert(service_normal(s));
        assert forall|i: int| 0 <= i < next.services.len() implies service_normal(
            (#[trigger] next.services[i]).1,
        ) by {
            if i != n {
                let j = if i < n || next.services.len() == es.len() {
                    i
                } else {
                    i - 1
                };
                assert(next.services[i] == es[j]);
                assert(service_normal(es[j].1));
            }
        }
    }
}

/// Removing a service keeps the normal form.
pub proof fn lemma_normal_service_removed(
    st: RuntimeStateView,
    sid: Seq<char>,
    expected: Option<u64>,
)
    requires
        state_normal(st),
    ensures
        state::service_removed(st, sid, expected) matches Ok((next, _)) ==> state_normal(next),
{
    if let Ok((next, s)) = state::service_removed(st, sid, expected) {
        let es = st.services;
        validity::lemma_valid_without_service(st, sid, expected);
        sorted_map::lemma_position(es, sid, 0);
        sorted_map::lemma_without::<String, RuntimeServiceView>(es, sid);
        let k = sorted_map::position(es, sid, 0)->0;
        assert(next.services == es.remove(k));
        assert forall|i: int| 0 <= i < next.services.len() implies service_normal(
            (#[trigger] next.services[i]).1,
        ) by {
            let j = if i < k {
                i
            } else {
                i + 1
            };
            assert(next.services[i] == es[j]);
            assert(service_normal(es[j].1));
        }
    }
}

/// Setting a listener, and so patching one, keeps the normal form.
pub proof fn lemma_normal_listener_set(
    st: RuntimeStateView,
    sid: Seq<char>,
    lid: Seq<char>,
    l: RuntimeListenerView,
    expected: Option<u64>,
)
    requires
        state_normal(st),
    ensures
        state::listener_set(st, sid, lid, l, expected) matches Ok((next, _)) ==> state_normal(next),
{
    if let Ok((next, n)) = state::listener_set(st, sid, lid, l, expected) {
        lemma_found_normal(st, sid);
        let s = state::found_service(st, sid)->Ok_0;
        text::lemma_trimmed_twice(lid);
        state::lemma_at::<RuntimeListener>(s.listeners, n.id, 0);
        let all = state::with_part::<RuntimeListener>(s.listeners, n);
        assert forall|i: int| 0 <= i < all.len() implies clean_id((#[trigger] all[i]).id) by {
            if all[i] != n {
                assert(clean_id(s.listeners[i].id));
            }
        }
        let raw = RuntimeServiceView { listeners: all, ..s };
        lemma_ordered_service(raw);
        lemma_normal_committed(st, sid, normalize::service_in_order(raw), n);
    }
}

/// A list without one of its values is in order if the list is.
proof fn lemma_order_without<T: ranking::Ranked>(s: Seq<T::V>, i: int)
    requires
        in_order::<T>(s),
        0 <= i < s.len(),
    ensures
        in_order::<T>(s.remove(i)),
{
    let t = s.remove(i);
    assert forall|a: int, b: int| 0 <= a < b < t.len() implies !T::precedes(
        #[trigger] t[b],
        #[trigger] t[a],
    ) by {
        let x = if a < i {
            a
        } else {
            a + 1
        };
        let y = if b < i {
            b
        } else {
            b + 1
        };
        assert(t[a] == s[x] && t[b] == s[y]);
    }
}

/// Removing a listener keeps the normal form.
pub proof fn lemma_normal_listener_removed(
    st: RuntimeStateView,
    sid: Seq<char>,
    lid: Seq<char>,
    expected: Option<u64>,
)
    requires
        state_normal(st),
    ensures
        state::listener_removed(st, sid, lid, expected) matches Ok((next, _)) ==> state_normal(
            next,
        ),
{
    if let Ok((next, l)) = state::listener_removed(st, sid, lid, expected) {
        lemma_found_normal(st, sid);
        let s = state::found_service(st, sid)->Ok_0;
        state::lemma_at::<RuntimeListener>(s.listeners, lid, 0);
        let i = state::at::<RuntimeListener>(s.listeners, lid, 0)->0;
        lemma_order_without::<RuntimeListener>(s.listeners, i);
        let rest = s.listeners.remove(i);
        assert forall|k: int| 0 <= k < rest.len() implies clean_id((#[trigger] rest[k]).id) by {
            assert(clean_id(
                s.listeners[if k < i {
                    k
                } else {
                    k + 1
                }].id,
            ));
        }
        lemma_normal_committed(st, sid, RuntimeServiceView { listeners: rest, ..s }, l);
    }
}

/// Setting a route, and so patching one, keeps the normal form.
pub proof fn lemma_normal_route_set(
    st: RuntimeStateView,
    sid: Seq<char>,
    rid: Seq<char>,
    r: RuntimeRouteView,
    expected: Option<u64>,
)
    requires
        state_normal(st),
    ensures
        state::route_set(st, sid, rid, r, expected) matches Ok((next, n)) ==> state_normal(next)
            && route_normal(n),
{
    if let Ok((next, n)) = state::route_set(st, sid, rid, r, expected) {
        lemma_found_normal(st, sid);
        let s = state::found_service(st, sid)->Ok_0;
        lemma_normal_route(RuntimeRouteView { id: rid, ..r });
        state::lemma_at::<RuntimeRoute>(s.routes, n.id, 0);
        let all = state::with_part::<RuntimeRoute>(s.routes, n);
        assert forall|i: int| 0 <= i < all.len() implies route_normal(#[trigger] all[i]) by {
            if all[i] != n {
                assert(route_normal(s.routes[i]));
            }
        }
        let raw = RuntimeServiceView { routes: all, ..s };
        lemma_ordered_service(raw);
        lemma_normal_committed(st, sid, normalize::service_in_order(raw), n);
    }
}

/// Removing a route keeps the normal form.
pub proof fn lemma_normal_route_removed(
    st: RuntimeStateView,
    sid: Seq<char>,
    rid: Seq<char>,
    expected: Option<u64>,
)
    requires
        state_normal(st),
    ensures
        state::route_removed(st, sid, rid, expected) matches Ok((next, _)) ==> state_normal(next),
{
    if let Ok((next, r)) = state::route_removed(st, sid, rid, expected) {
        lemma_found_normal(st, sid);
        let s = state::found_service(st, sid)->Ok_0;
        state::lemma_at::<RuntimeRoute>(s.routes, rid, 0);
        let i = state::at::<RuntimeRoute>(s.routes, rid, 0)->0;
        lemma_order_without::<RuntimeRoute>(s.routes, i);
        let rest = s.routes.remove(i);
        assert forall|k: int| 0 <= k < rest.len() implies route_normal(#[trigger] rest[k]) by {
            assert(route_normal(
                s.routes[if k < i {
                    k
                } else {
                    k + 1
                }],
            ));
        }
        lemma_normal_committed(st, sid, RuntimeServiceView { routes: rest, ..s }, r);
    }
}

/// A route with other targets in one group, put in order, is in its normal form.
proof fn lemma_route_with_targets(r: RuntimeRouteView, k: int, ts: Seq<RuntimeTargetView>)
    requires
        route_normal(r),
        0 <= k < r.target_groups.len(),
        targets_normal(ts),
    ensures
        route_normal(normalize::route_in_order(state::route_with_targets(r, k, ts))),
{
    let raw = state::route_with_targets(r, k, ts);
    assert forall|i: int| 0 <= i < raw.target_groups.len() implies clean_id(
        (#[trigger] raw.target_groups[i]).id,
    ) && targets_normal(raw.target_groups[i].targets) by {
        assert(group_normal(r.target_groups[i]));
    }
    lemma_ordered_groups(raw);
}

/// A service with other targets in one group is in its normal form.
proof fn lemma_service_with_targets(
    s: RuntimeServiceView,
    i: int,
    k: int,
    ts: Seq<RuntimeTargetView>,
)
    requires
        service_normal(s),
        0 <= i < s.routes.len(),
        0 <= k < s.routes[i].target_groups.len(),
        targets_normal(ts),
    ensures
        service_normal(state::service_with_targets(s, i, k, ts)),
        state::service_with_targets(s, i, k, ts).id == s.id,
{
    let r = s.routes[i];
    assert(route_normal(r));
    lemma_route_with_targets(r, k, ts);
    let r1 = normalize::route_in_order(state::route_with_targets(r, k, ts));
    let all = s.routes.update(i, r1);
    assert forall|j: int| 0 <= j < all.len() implies route_normal(#[trigger] all[j]) by {
        if j != i {
            assert(route_normal(s.routes[j]));
        }
    }
    lemma_ordered_service(RuntimeServiceView { routes: all, ..s });
}

/// Where a group stands, its route and the group are in their normal form.
pub(crate) proof fn lemma_group_at(
    s: RuntimeServiceView,
    sid: Seq<char>,
    rid: Seq<char>,
    gid: Seq<char>,
)
    requires
        service_normal(s),
    ensures
        state::group_place(s, sid, rid, gid) matches Ok((i, k)) ==> 0 <= i < s.routes.len() && 0
            <= k < s.routes[i].target_groups.len() && route_normal(s.routes[i]) && group_normal(
            s.routes[i].target_groups[k],
        ) && s.routes[i].id == rid && s.routes[i].target_groups[k].id == gid,
{
    state::lemma_at::<RuntimeRoute>(s.routes, rid, 0);
    if let Some(i) = state::at::<RuntimeRoute>(s.routes, rid, 0) {
        assert(route_normal(s.routes[i]));
        state::lemma_at::<RuntimeTargetGroup>(s.routes[i].target_groups, gid, 0);
        if let Some(k) = state::at::<RuntimeTargetGroup>(s.routes[i].target_groups, gid, 0) {
            assert(group_normal(s.routes[i].target_groups[k]));
        }
    }
}

/// Setting a target, and so patching one, keeps the normal form.
pub proof fn lemma_normal_target_set(
    st: RuntimeStateView,
    sid: Seq<char>,
    rid: Seq<char>,
    gid: Seq<char>,
    tid: Seq<char>,
    t: RuntimeTargetView,
    expected: Option<u64>,
)
    requires
        state_normal(st),
    ensures
        state::target_set(st, sid, rid, gid, tid, t, expected) matches Ok((next, _))
            ==> state_normal(next),
{
    if let Ok((next, n)) = state::target_set(st, sid, rid, gid, tid, t, expected) {
        lemma_found_normal(st, sid);
        let s = state::found_service(st, sid)->Ok_0;
        lemma_group_at(s, sid, rid, gid);
        let (i, k) = state::group_place(s, sid, rid, gid)->Ok_0;
        lemma_normal_target(RuntimeTargetView { id: tid, ..t });
        let ts = s.routes[i].target_groups[k].targets;
        state::lemma_at::<RuntimeTarget>(ts, n.id, 0);
        let all = state::with_part::<RuntimeTarget>(ts, n);
        assert forall|j: int| 0 <= j < all.len() implies target_normal(#[trigger] all[j]) by {
            if all[j] != n {
                assert(target_normal(ts[j]));
            }
        }
        lemma_service_with_targets(s, i, k, all);
        lemma_normal_committed(st, sid, state::service_with_targets(s, i, k, all), n);
    }
}

/// Removing a target keeps the normal form.
pub proof fn lemma_normal_target_removed(
    st: RuntimeStateView,
    sid: Seq<char>,
    rid: Seq<char>,
    gid: Seq<char>,
    tid: Seq<char>,
    expected: Option<u64>,
)
    requires
        state_normal(st),
    ensures
        state::target_removed(st, sid, rid, gid, tid, expected) matches Ok((next, _))
            ==> state_normal(next),
{
    if let Ok((next, t)) = state::target_removed(st, sid, rid, gid, tid, expected) {
        lemma_found_normal(st, sid);
        let s = state::found_service(st, sid)->Ok_0;
        lemma_group_at(s, sid, rid, gid);
        let (i, k) = state::group_place(s, sid, rid, gid)->Ok_0;
        let ts = s.routes[i].target_groups[k].targets;
        state::lemma_at::<RuntimeTarget>(ts, tid, 0);
        let n = state::at::<RuntimeTarget>(ts, tid, 0)->0;
        let rest = ts.remove(n);
        assert forall|j: int| 0 <= j < rest.len() implies target_normal(#[trigger] rest[j]) by {
            assert(target_normal(
                ts[if j < n {
                    j
                } else {
                    j + 1
                }],
            ));
        }
        lemma_service_with_targets(s, i, k, rest);
        lemma_normal_committed(st, sid, state::service_with_targets(s, i, k, rest), t);
    }
}

/// Moving a target to another state keeps the normal form.
pub proof fn lemma_normal_target_moved(
    st: RuntimeStateView,
    sid: Seq<char>,
    rid: Seq<char>,
    gid: Seq<char>,
    tid: Seq<char>,
    to: RuntimeTargetState,
    last_error: Option<Seq<char>>,
)
    requires
        state_normal(st),
    ensures
        state::target_moved(st, sid, rid, gid, tid, to, last_error) matches Ok((next, _))
            ==> state_normal(next),
{
    if let Ok((next, x)) = state::target_moved(st, sid, rid, gid, tid, to, last_error) {
        lemma_found_normal(st, sid);
        let s = state::found_service(st, sid)->Ok_0;
        lemma_group_at(s, sid, rid, gid);
        let (i, k) = state::group_place(s, sid, rid, gid)->Ok_0;
        let r = s.routes[i];
        let g = r.target_groups[k];
        let ts = g.targets;
        state::lemma_at::<RuntimeTarget>(ts, tid, 0);
        let n = state::at::<RuntimeTarget>(ts, tid, 0)->0;
        let t = state::target_in_state(ts[n], to, last_error);
        assert(target_normal(ts[n]));
        let us = ts.update(n, t);
        let r1 = state::route_with_targets(r, k, us);
        let g1 = r1.target_groups[k];
        assert(group_normal(g1)) by {
            assert forall|j: int| 0 <= j < us.len() implies target_normal(#[trigger] us[j]) by {
                if j != n {
                    assert(target_normal(ts[j]));
                }
            }
            assert forall|a: int, b: int| 0 <= a < b < us.len() implies !<RuntimeTarget as ranking::Ranked>::precedes(
                #[trigger] us[b],
                #[trigger] us[a],
            ) by {
                assert(us[a].id == ts[a].id && us[b].id == ts[b].id);
                assert(!<RuntimeTarget as ranking::Ranked>::precedes(ts[b], ts[a]));
            }
        }
        let gs = r1.target_groups;
        assert(route_normal(r1)) by {
            assert forall|j: int| 0 <= j < gs.len() implies group_normal(#[trigger] gs[j]) by {
                if j != k {
                    assert(group_normal(r.target_groups[j]));
                }
            }
            assert forall|a: int, b: int| 0 <= a < b < gs.len() implies !<RuntimeTargetGroup as ranking::Ranked>::precedes(
                #[trigger] gs[b],
                #[trigger] gs[a],
            ) by {
                let (x, y) = (r.target_groups[a], r.target_groups[b]);
                assert(gs[a].id == x.id && gs[b].id == y.id);
                assert(!<RuntimeTargetGroup as ranking::Ranked>::precedes(y, x));
            }
        }
        let rs = s.routes.update(i, r1);
        let s1 = RuntimeServiceView { routes: rs, ..s };
        assert(service_normal(s1)) by {
            assert forall|j: int| 0 <= j < rs.len() implies route_normal(#[trigger] rs[j]) by {
                if j != i {
                    assert(route_normal(s.routes[j]));
                }
            }
            assert forall|a: int, b: int| 0 <= a < b < rs.len() implies !<RuntimeRoute as ranking::Ranked>::precedes(
                #[trigger] rs[b],
                #[trigger] rs[a],
            ) by {
                let (x, y) = (s.routes[a], s.routes[b]);
                assert(!<RuntimeRoute as ranking::Ranked>::precedes(y, x));
                assert(normalize::route_before(rs[b], rs[a]) == normalize::route_before(y, x));
            }
        }
        lemma_normal_committed(st, sid, s1, t);
    }
}

// ---------------------------------------------------------------------------
// What holds of every state in its normal form
// ---------------------------------------------------------------------------

/// Services are listed by id, ascending; no id is empty or has white space around it;
/// each service is found under its id, and one that is found is listed.
pub proof fn lemma_services_listed(st: RuntimeStateView)
    requires
        state_normal(st),
    ensures
        forall|i: int, j: int|
            0 <= i < j < st.services.len() ==> sorted_map::text_before(
                (#[trigger] st.services[i]).1.id,
                (#[trigger] st.services[j]).1.id,
            ),
        forall|i: int|
            0 <= i < st.services.len() ==> clean_id((#[trigger] st.services[i]).1.id)
                && sorted_map::lookup(st.services, st.services[i].1.id) == Some(st.services[i].1),
        forall|id: Seq<char>|
            (#[trigger] sorted_map::lookup(st.services, id)) matches Some(s) ==> s.id == id
                && exists|i: int| 0 <= i < st.services.len() && #[trigger] st.services[i].1 == s,
{
    let es = st.services;
    assert forall|i: int, j: int| 0 <= i < j < es.len() implies sorted_map::text_before(
        (#[trigger] es[i]).1.id,
        (#[trigger] es[j]).1.id,
    ) by {
        assert(es[i].1.id == es[i].0 && es[j].1.id == es[j].0);
    }
    assert forall|i: int| 0 <= i < es.len() implies clean_id((#[trigger] es[i]).1.id)
        && sorted_map::lookup(es, es[i].1.id) == Some(es[i].1) by {
        assert(service_normal(es[i].1));
        let id = es[i].1.id;
        sorted_map::lemma_position(es, id, 0);
        let p = sorted_map::position(es, id, 0)->0;
        if p < i {
            sorted_map::lemma_text_before_total(es[p].0, es[i].0);
        } else if i < p {
            sorted_map::lemma_text_before_total(es[i].0, es[p].0);
        }
    }
    assert forall|id: Seq<char>| (#[trigger] sorted_map::lookup(es, id)) is Some implies ({
        let s = sorted_map::lookup(es, id)->0;
        s.id == id && exists|i: int| 0 <= i < es.len() && #[trigger] es[i].1 == s
    }) by {
        sorted_map::lemma_position(es, id, 0);
        let p = sorted_map::position(es, id, 0)->0;
        assert(es[p].1.id == es[p].0);
    }
}

/// The length of a path prefix in bytes.
pub open spec fn prefix_len(r: RuntimeRouteView) -> nat {
    vstd::utf8::encode_utf8(r.path_prefix).len()
}

/// How the path of a route with a normal prefix ranks.
proof fn lemma_rank(r: RuntimeRouteView)
    requires
        prefix_normal(r.path_prefix),
    ensures
        normalize::path_rank(r) == (if r.path_prefix.len() == 0 || r.path_prefix == "/"@ {
            0
        } else {
            matcher::capped(prefix_len(r) + 1)
        }),
{
    reveal_strlit("/");
    reveal_strlit("/*");
    reveal_strlit("*");
    let p = r.path_prefix;
    let all = p + "/*"@;
    if p == "/"@ {
    } else if p.len() == 0 {
        assert(all =~= "/*"@);
    } else {
        assert(all != "/*"@) by {
            assert(all.len() != "/*"@.len());
        }
        assert(all.subrange(0, 1)[0] == '/');
        assert(all.subrange(all.len() - 2, all.len() as int) =~= "/*"@);
        assert(all.take(all.len() - 2) =~= p);
        assert(all.subrange(0, all.len() - 2) =~= p);
    }
}

/// The routes of a service have ids of their own, their hosts are in order and clean,
/// and a route with a longer path prefix is listed before every route with a shorter
/// one.
pub proof fn lemma_routes_listed(st: RuntimeStateView, sid: Seq<char>)
    requires
        state_normal(st),
    ensures
        state::found_service(st, sid) matches Ok(s) ==> {
            &&& laws::distinct::<RuntimeRoute>(s.routes)
            &&& forall|i: int| 0 <= i < s.routes.len() ==> hosts_normal((#[trigger] s.routes[i]).hosts)
            &&& forall|i: int, j: int|
                0 <= i < s.routes.len() && 0 <= j < s.routes.len() && 1 < prefix_len(
                    #[trigger] s.routes[i],
                ) < usize::MAX && prefix_len(#[trigger] s.routes[j]) < prefix_len(s.routes[i])
                    ==> i < j
        },
{
    lemma_found_normal(st, sid);
    if let Ok(s) = state::found_service(st, sid) {
        laws::lemma_sound_distinct(s);
        let rs = s.routes;
        assert forall|i: int, j: int|
            0 <= i < rs.len() && 0 <= j < rs.len() && 1 < prefix_len(#[trigger] rs[i])
                < usize::MAX && prefix_len(#[trigger] rs[j]) < prefix_len(rs[i]) implies i < j by {
            assert(route_normal(rs[i]) && route_normal(rs[j]));
            lemma_rank(rs[i]);
            lemma_rank(rs[j]);
            lemma_slash_len();
            assert(normalize::route_before(rs[i], rs[j]));
            if j < i {
                assert(!<RuntimeRoute as ranking::Ranked>::precedes(rs[i], rs[j]));
            }
        }
        assert forall|i: int| 0 <= i < rs.len() implies hosts_normal((#[trigger] rs[i]).hosts) by {
            assert(route_normal(rs[i]));
        }
    }
}

/// The empty prefix has no byte, and the slash has one.
proof fn lemma_slash_len()
    ensures
        vstd::utf8::encode_utf8("/"@).len() == 1,
        vstd::utf8::encode_utf8(Seq::<char>::empty()).len() == 0,
        forall|s: Seq<char>| s.len() == 0 ==> #[trigger] vstd::utf8::encode_utf8(s).len() == 0,
{
    reveal_strlit("/");
    let s = "/"@;
    assert(vstd::utf8::is_ascii_chars(s));
    vstd::utf8::is_ascii_chars_encode_utf8(s);
    assert(vstd::utf8::encode_utf8(Seq::<char>::empty()).len() == 0);
    assert forall|t: Seq<char>| t.len() == 0 implies #[trigger] vstd::utf8::encode_utf8(t).len()
        == 0 by {
        assert(t =~= Seq::<char>::empty());
    }
}

/// A route that was set is listed once, under its trimmed id, in its normal form, and
/// all routes of the service are in order again.
pub(crate) proof fn lemma_set_route_listed(
    st: RuntimeStateView,
    sid: Seq<char>,
    rid: Seq<char>,
    r: RuntimeRouteView,
    expected: Option<u64>,
)
    requires
        state_normal(st),
    ensures
        state::route_set(st, sid, rid, r, expected) matches Ok((next, n)) ==> {
            &&& state_normal(next)
            &&& n.id == text::trimmed(rid)
            &&& hosts_normal(n.hosts)
            &&& state::found_route(next, sid, n.id) == Ok::<_, RuntimeServiceErrorView>(n)
            &&& state::found_service(next, sid) matches Ok(s) && s.routes.contains(n)
                && laws::distinct::<RuntimeRoute>(s.routes) && in_order::<RuntimeRoute>(s.routes)
        },
{
    lemma_normal_route_set(st, sid, rid, r, expected);
    laws::lemma_set_route_then_get(st, sid, rid, r, expected);
    if let Ok((next, n)) = state::route_set(st, sid, rid, r, expected) {
        lemma_found_normal(next, sid);
        lemma_routes_listed(next, sid);
        let s = state::found_service(next, sid)->Ok_0;
        state::lemma_at::<RuntimeRoute>(s.routes, n.id, 0);
    }
}

// ---------------------------------------------------------------------------
// A patch that says nothing
// ---------------------------------------------------------------------------

/// Two lists of services that differ in revisions only.
spec fn same_but_revisions(
    a: Seq<(Seq<char>, RuntimeServiceView)>,
    b: Seq<(Seq<char>, RuntimeServiceView)>,
) -> bool {
    &&& a.len() == b.len()
    &&& forall|i: int|
        0 <= i < a.len() ==> (#[trigger] a[i]).1 == (RuntimeServiceView {
            revision: a[i].1.revision,
            ..b[i].1
        })
}

proof fn lemma_survey_without_revisions(
    a: Seq<(Seq<char>, RuntimeServiceView)>,
    b: Seq<(Seq<char>, RuntimeServiceView)>,
    i: int,
    claims: validate::TlsClaims,
    bs: Seq<crate::runtime_services::types::RouteBindingView>,
)
    requires
        0 <= i,
        same_but_revisions(a, b),
    ensures
        validate::survey(a, i, claims, bs) == validate::survey(b, i, claims, bs),
    decreases a.len() - i,
{
    if i < a.len() {
        let (s, t) = (a[i].1, b[i].1);
        assert(s == (RuntimeServiceView { revision: s.revision, ..t }));
        assert(validate::service_fault(s) == validate::service_fault(t));
        assert(validate::claims_with(claims, s) == validate::claims_with(claims, t));
        if validate::service_fault(s) is None {
            if let Ok(c) = validate::claims_with(claims, s) {
                let ps = validate::protocols(s.listeners);
                if let Ok(x) = validate::bind_routes(bs, s.id, s.routes, ps, 0) {
                    lemma_survey_without_revisions(a, b, i + 1, c, x);
                }
            }
        }
    }
}

/// A patch of a route that says nothing hands the route back as it is and changes
/// nothing but the revision of the state and of the service, provided that the path
/// prefix of the route is not empty and holds no white space.
pub(crate) proof fn lemma_empty_patch(
    st: RuntimeStateView,
    sid: Seq<char>,
    rid: Seq<char>,
    patch: RuntimeRoutePatchView,
)
    requires
        state_normal(st),
        state::found_route(st, sid, rid) is Ok,
        ({
            let prefix = state::found_route(st, sid, rid)->Ok_0.path_prefix;
            prefix.len() > 0 && forall|i: int|
                0 <= i < prefix.len() ==> !text::is_space(#[trigger] prefix[i])
        }),
        patch == (RuntimeRoutePatchView {
            hosts: None,
            path_prefix: None,
            matchers: None,
            strip_path_prefix: None,
            lb: None,
            lb_header: None,
            lb_cookie: None,
            target_groups: None,
            health_check: None,
        }),
    ensures
        state::route_patched(st, sid, rid, patch, None) == Ok::<
            (RuntimeStateView, RuntimeRouteView),
            RuntimeServiceErrorView,
        >(
            (
                state::revised(st, sid, state::found_service(st, sid)->Ok_0),
                state::found_route(st, sid, rid)->Ok_0,
            ),
        ),
        ({
            let s = state::found_service(st, sid)->Ok_0;
            let next = state::revised(st, sid, s);
            &&& state::found_service(next, sid) == Ok::<_, RuntimeServiceErrorView>(
                RuntimeServiceView { revision: next.revision, ..s },
            )
            &&& forall|q: Seq<char>|
                q != sid ==> #[trigger] sorted_map::lookup(next.services, q)
                    == sorted_map::lookup(st.services, q)
            &&& st.revision < u64::MAX ==> next.revision == st.revision + 1
        }),
{
    lemma_found_normal(st, sid);
    let s = state::found_service(st, sid)->Ok_0;
    state::lemma_at::<RuntimeRoute>(s.routes, rid, 0);
    let i = state::at::<RuntimeRoute>(s.routes, rid, 0)->0;
    let old = s.routes[i];
    assert(route_normal(old));
    assert(state::patched_route(old, patch) == old);
    assert(RuntimeRouteView { id: rid, ..old } == old);
    let prefix = old.path_prefix;
    text::lemma_trimmed_fixed(prefix);
    reveal_strlit("/");
    assert(prefix.subrange(0, 1) =~= "/"@);
    if prefix.len() == 1 {
        assert(prefix =~= "/"@);
    } else {
        assert(prefix.last() != '/');
        assert(text::tail(prefix, text::only('/'), prefix.len() as int) == prefix.len());
        assert(prefix.take(prefix.len() as int) =~= prefix);
    }
    lemma_normal_route(old);
    assert(state::with_part::<RuntimeRoute>(s.routes, old) =~= s.routes);
    lemma_service_fixed(s);
    let next = state::revised(st, sid, s);
    laws::lemma_revised_service(st, sid, s);
    sorted_map::lemma_position(st.services, sid, 0);
    assert(same_but_revisions(next.services, st.services));
    lemma_survey_without_revisions(next.services, st.services, 0, seq![], seq![]);
}

// ---------------------------------------------------------------------------
// Targets
// ---------------------------------------------------------------------------

/// Putting targets into one group leaves everything else of a service in its normal
/// form where it is.
pub(crate) proof fn lemma_targets_in_place(
    s: RuntimeServiceView,
    i: int,
    k: int,
    ts: Seq<RuntimeTargetView>,
)
    requires
        service_normal(s),
        0 <= i < s.routes.len(),
        0 <= k < s.routes[i].target_groups.len(),
        targets_normal(ts),
    ensures
        state::service_with_targets(s, i, k, ts) == (RuntimeServiceView {
            routes: s.routes.update(
                i,
                state::route_with_targets(s.routes[i], k, ranking::sorted::<RuntimeTarget>(ts)),
            ),
            ..s
        }),
{
    let r = s.routes[i];
    assert(route_normal(r));
    let raw = state::route_with_targets(r, k, ts);
    let gs = raw.target_groups;
    assert(in_order::<RuntimeTargetGroup>(gs)) by {
        assert forall|a: int, b: int| 0 <= a < b < gs.len() implies !<RuntimeTargetGroup as ranking::Ranked>::precedes(
            #[trigger] gs[b],
            #[trigger] gs[a],
        ) by {
            let (x, y) = (r.target_groups[a], r.target_groups[b]);
            assert(gs[a].id == x.id && gs[b].id == y.id);
            assert(!<RuntimeTargetGroup as ranking::Ranked>::precedes(y, x));
        }
    }
    laws::lemma_sorted_fixed::<RuntimeTargetGroup>(gs);
    let r1 = state::route_with_targets(r, k, ranking::sorted::<RuntimeTarget>(ts));
    assert forall|j: int| 0 <= j < gs.len() implies normalize::group_in_order(#[trigger] gs[j])
        == r1.target_groups[j] by {
        if j != k {
            assert(group_normal(r.target_groups[j]));
            laws::lemma_sorted_fixed::<RuntimeTarget>(r.target_groups[j].targets);
        }
    }
    assert(normalize::route_in_order(raw).target_groups =~= r1.target_groups);
    assert(normalize::route_in_order(raw) == r1);
    lemma_route_with_targets(r, k, ts);
    let rs = s.routes.update(i, r1);
    let s1 = RuntimeServiceView { routes: rs, ..s };
    assert(service_normal(s1)) by {
        assert forall|j: int| 0 <= j < rs.len() implies route_normal(#[trigger] rs[j]) by {
            if j != i {
                assert(route_normal(s.routes[j]));
            }
        }
        assert forall|a: int, b: int| 0 <= a < b < rs.len() implies !<RuntimeRoute as ranking::Ranked>::precedes(
            #[trigger] rs[b],
            #[trigger] rs[a],
        ) by {
            let (x, y) = (s.routes[a], s.routes[b]);
            assert(!<RuntimeRoute as ranking::Ranked>::precedes(y, x));
            assert(normalize::route_before(rs[b], rs[a]) == normalize::route_before(y, x));
        }
    }
    lemma_service_fixed(s1);
}

/// The targets of the groups, where one target of one group is left out.
proof fn lemma_refs_without(
    gs: Seq<RuntimeTargetGroupView>,
    k: int,
    n: int,
    i: int,
)
    requires
        0 <= i <= k < gs.len(),
        0 <= n < gs[k].targets.len(),
    ensures
        ({
            let g = RuntimeTargetGroupView { targets: gs[k].targets.remove(n), ..gs[k] };
            let p = refs_before(gs, i, k) + n;
            &&& 0 <= p < state::groups_refs(gs, i).len()
            &&& state::groups_refs(gs, i)[p].target == gs[k].targets[n]
            &&& state::groups_refs(gs, i)[p].group_id == gs[k].id
            &&& state::groups_refs(gs.update(k, g), i) == state::groups_refs(gs, i).remove(p)
        }),
    decreases k - i,
{
    let g = RuntimeTargetGroupView { targets: gs[k].targets.remove(n), ..gs[k] };
    let hs = gs.update(k, g);
    if i < k {
        lemma_refs_without(gs, k, n, i + 1);
        let a = state::group_refs(gs[i]);
        let b = state::groups_refs(gs, i + 1);
        let p = refs_before(gs, i + 1, k) + n;
        assert(hs[i] == gs[i]);
        assert((a + b).remove(a.len() + p) =~= a + b.remove(p));
        assert(0 <= p < b.len());
        assert((a + b)[a.len() + p] == b[p]);
    } else {
        let a = state::group_refs(gs[k]);
        let rest = state::groups_refs(gs, k + 1);
        lemma_refs_same(gs, hs, k + 1);
        assert(state::group_refs(g) =~= a.remove(n));
        assert((a + rest).remove(n) =~= a.remove(n) + rest);
    }
}

/// The number of targets in the groups from `i` to before `k`.
spec fn refs_before(gs: Seq<RuntimeTargetGroupView>, i: int, k: int) -> int
    decreases k - i,
{
    if i < 0 || i >= k || i >= gs.len() {
        0
    } else {
        gs[i].targets.len() + refs_before(gs, i + 1, k)
    }
}

proof fn lemma_refs_same(
    gs: Seq<RuntimeTargetGroupView>,
    hs: Seq<RuntimeTargetGroupView>,
    i: int,
)
    requires
        gs.len() == hs.len(),
        0 <= i,
        forall|j: int| i <= j < gs.len() ==> #[trigger] gs[j] == hs[j],
    ensures
        state::groups_refs(gs, i) == state::groups_refs(hs, i),
    decreases gs.len() - i,
{
    if i < gs.len() {
        assert(gs[i] == hs[i]);
        lemma_refs_same(gs, hs, i + 1);
    }
}

/// The targets of groups with one more group among them.
proof fn lemma_refs_insert(
    gs: Seq<RuntimeTargetGroupView>,
    p: int,
    g: RuntimeTargetGroupView,
    i: int,
)
    requires
        0 <= i,
        0 <= p <= gs.len(),
    ensures
        i > p ==> state::groups_refs(gs.insert(p, g), i) == state::groups_refs(gs, i - 1),
        i <= p ==> state::groups_refs(gs.insert(p, g), i).to_multiset() == state::groups_refs(
            gs,
            i,
        ).to_multiset().add(state::group_refs(g).to_multiset()),
    decreases gs.len() + 1 - i,
{
    broadcast use vstd::multiset::group_multiset_axioms;

    let hs = gs.insert(p, g);
    if i <= gs.len() {
        lemma_refs_insert(gs, p, g, i + 1);
        let a = state::group_refs(hs[i]);
        let b = state::groups_refs(hs, i + 1);
        vstd::seq_lib::lemma_multiset_commutative(a, b);
        if i > p {
            assert(hs[i] == gs[i - 1]);
        } else if i == p {
            assert(a.to_multiset().add(b.to_multiset()) =~= b.to_multiset().add(a.to_multiset()));
        } else {
            assert(hs[i] == gs[i]);
            let c = state::groups_refs(gs, i + 1);
            let x = state::group_refs(g).to_multiset();
            vstd::seq_lib::lemma_multiset_commutative(a, c);
            assert(a.to_multiset().add(c.to_multiset().add(x)) =~= a.to_multiset().add(
                c.to_multiset(),
            ).add(x));
        }
    }
}

/// Sorting the targets of a group leaves it with the same targets.
proof fn lemma_refs_of_sorted_group(g: RuntimeTargetGroupView)
    ensures
        state::group_refs(normalize::group_in_order(g)).to_multiset() == state::group_refs(
            g,
        ).to_multiset(),
    decreases g.targets.len(),
{
    broadcast use vstd::seq_lib::group_to_multiset_ensures;

    if g.targets.len() > 0 {
        let rest = RuntimeTargetGroupView { targets: g.targets.drop_last(), ..g };
        lemma_refs_of_sorted_group(rest);
        let done = ranking::sorted::<RuntimeTarget>(rest.targets);
        let x = g.targets.last();
        let p = ranking::place::<RuntimeTarget>(done, x, 0);
        ranking::lemma_place::<RuntimeTarget>(done, x, 0);
        let one = RuntimeTargetRefView { group_id: g.id, target: x };
        let before = state::group_refs(normalize::group_in_order(rest));
        assert(state::group_refs(normalize::group_in_order(g)) =~= before.insert(p, one));
        vstd::seq_lib::to_multiset_insert(before, p, one);
        assert(state::group_refs(g) =~= state::group_refs(rest).push(one));
    } else {
        assert(ranking::sorted::<RuntimeTarget>(g.targets) =~= g.targets);
    }
}

/// Bringing groups in order leaves them with the same targets.
proof fn lemma_refs_of_sorted(gs: Seq<RuntimeTargetGroupView>)
    ensures
        state::groups_refs(
            ranking::sorted::<RuntimeTargetGroup>(gs).map_values(
                |g: RuntimeTargetGroupView| normalize::group_in_order(g),
            ),
            0,
        ).to_multiset() == state::groups_refs(gs, 0).to_multiset(),
    decreases gs.len(),
{
    let f = |g: RuntimeTargetGroupView| normalize::group_in_order(g);
    if gs.len() > 0 {
        let rest = gs.drop_last();
        let x = gs.last();
        lemma_refs_of_sorted(rest);
        let done = ranking::sorted::<RuntimeTargetGroup>(rest);
        let p = ranking::place::<RuntimeTargetGroup>(done, x, 0);
        ranking::lemma_place::<RuntimeTargetGroup>(done, x, 0);
        assert(ranking::sorted::<RuntimeTargetGroup>(gs).map_values(f) =~= done.map_values(
            f,
        ).insert(p, normalize::group_in_order(x)));
        lemma_refs_insert(done.map_values(f), p, normalize::group_in_order(x), 0);
        lemma_refs_of_sorted_group(x);
        assert(gs =~= rest.insert(rest.len() as int, x));
        lemma_refs_insert(rest, rest.len() as int, x, 0);
    } else {
        assert(ranking::sorted::<RuntimeTargetGroup>(gs).map_values(f) =~= gs);
    }
}

/// Removing a target from a valid state hands back the one that was found under its id
/// and takes it away. All other targets of the route stay, and so does the group, even
/// where it is left empty; every other service is as it was.
pub(crate) proof fn lemma_removed_target_leaves_rest(
    st: RuntimeStateView,
    sid: Seq<char>,
    rid: Seq<char>,
    gid: Seq<char>,
    tid: Seq<char>,
    expected: Option<u64>,
)
    requires
        validate::state_fault(st) is None,
    ensures
        state::target_removed(st, sid, rid, gid, tid, expected) matches Ok((next, t)) ==> {
            &&& state::found_target(st, sid, rid, gid, tid) == Ok::<_, RuntimeServiceErrorView>(t)
            &&& state::found_target(next, sid, rid, gid, tid) == Err::<RuntimeTargetView, _>(
                RuntimeServiceErrorView::UnknownTarget {
                    service_id: sid,
                    route_id: rid,
                    group_id: gid,
                    target_id: tid,
                },
            )
            &&& state::found_group(next, sid, rid, gid) is Ok
            &&& state::found_route(st, sid, rid) is Ok
            &&& state::groups_refs(
                state::found_route(st, sid, rid)->Ok_0.target_groups,
                0,
            ).contains(RuntimeTargetRefView { group_id: gid, target: t })
            &&& state::found_route(next, sid, rid) matches Ok(q) && state::groups_refs(
                q.target_groups,
                0,
            ).to_multiset() == state::groups_refs(
                state::found_route(st, sid, rid)->Ok_0.target_groups,
                0,
            ).to_multiset().remove(RuntimeTargetRefView { group_id: gid, target: t })
            &&& forall|q: Seq<char>|
                q != sid ==> #[trigger] sorted_map::lookup(next.services, q)
                    == sorted_map::lookup(st.services, q)
            &&& next.revision == state::bumped(st.revision)
        },
{
    if let Ok((next, t)) = state::target_removed(st, sid, rid, gid, tid, expected) {
        laws::lemma_removed_target_gone(st, sid, rid, gid, tid, expected);
        let s = state::found_service(st, sid)->Ok_0;
        let (i, k) = state::group_place(s, sid, rid, gid)->Ok_0;
        state::lemma_at::<RuntimeRoute>(s.routes, rid, 0);
        let gs = s.routes[i].target_groups;
        state::lemma_at::<RuntimeTargetGroup>(gs, gid, 0);
        let ts = gs[k].targets;
        state::lemma_at::<RuntimeTarget>(ts, tid, 0);
        let n = state::at::<RuntimeTarget>(ts, tid, 0)->0;
        let rest = ts.remove(n);
        let s1 = state::service_with_targets(s, i, k, rest);
        laws::lemma_revised_service(st, sid, s1);
        laws::lemma_committed_sound(st, sid, s1);
        laws::lemma_service_with_targets(s, i, k, rest, state::bumped(st.revision));
        let raw = state::route_with_targets(s.routes[i], k, rest);
        lemma_refs_of_sorted(raw.target_groups);
        lemma_refs_without(gs, k, n, 0);
        let p = refs_before(gs, 0, k) + n;
        vstd::seq_lib::to_multiset_remove(state::groups_refs(gs, 0), p);
        assert(state::groups_refs(gs, 0)[p] == (RuntimeTargetRefView { group_id: gid, target: t }));
    }
}

/// Removing a target from a state in its normal form leaves all other targets in their
/// order, in their groups. The rest of the service but its revision, and every other
/// service, is as it was.
pub proof fn lemma_rest_keeps_its_order(
    st: RuntimeStateView,
    sid: Seq<char>,
    rid: Seq<char>,
    gid: Seq<char>,
    tid: Seq<char>,
    expected: Option<u64>,
)
    requires
        state_normal(st),
    ensures
        state::target_removed(st, sid, rid, gid, tid, expected) matches Ok((next, t)) ==> {
            let s = state::found_service(st, sid)->Ok_0;
            let r = state::found_route(st, sid, rid)->Ok_0;
            let g = state::found_group(st, sid, rid, gid)->Ok_0;
            &&& state::found_target(st, sid, rid, gid, tid) == Ok::<_, RuntimeServiceErrorView>(t)
            &&& state::found_target(next, sid, rid, gid, tid) == Err::<RuntimeTargetView, _>(
                RuntimeServiceErrorView::UnknownTarget {
                    service_id: sid,
                    route_id: rid,
                    group_id: gid,
                    target_id: tid,
                },
            )
            &&& exists|n: int|
                0 <= n < g.targets.len() && #[trigger] g.targets[n] == t && state::found_group(
                    next,
                    sid,
                    rid,
                    gid,
                ) == Ok::<_, RuntimeServiceErrorView>(
                    RuntimeTargetGroupView { targets: g.targets.remove(n), ..g },
                )
            &&& exists|p: int|
                0 <= p < state::groups_refs(r.target_groups, 0).len()
                    && #[trigger] state::groups_refs(r.target_groups, 0)[p].target == t
                    && state::groups_refs(r.target_groups, 0)[p].group_id == gid && (
                state::found_route(next, sid, rid) matches Ok(q) && state::groups_refs(
                    q.target_groups,
                    0,
                ) == state::groups_refs(r.target_groups, 0).remove(p) && q
                    == (RuntimeRouteView { target_groups: q.target_groups, ..r }))
            &&& state::found_service(next, sid) matches Ok(x) && x == (RuntimeServiceView {
                revision: next.revision,
                routes: x.routes,
                ..s
            }) && x.routes.len() == s.routes.len() && (forall|j: int|
                0 <= j < s.routes.len() && s.routes[j].id != rid ==> #[trigger] x.routes[j]
                    == s.routes[j])
            &&& forall|q: Seq<char>|
                q != sid ==> #[trigger] sorted_map::lookup(next.services, q)
                    == sorted_map::lookup(st.services, q)
            &&& next.revision == state::bumped(st.revision)
        },
{
    if let Ok((next, t)) = state::target_removed(st, sid, rid, gid, tid, expected) {
        laws::lemma_removed_target_gone(st, sid, rid, gid, tid, expected);
        lemma_found_normal(st, sid);
        let s = state::found_service(st, sid)->Ok_0;
        laws::lemma_sound_distinct(s);
        lemma_group_at(s, sid, rid, gid);
        let (i, k) = state::group_place(s, sid, rid, gid)->Ok_0;
        let r = s.routes[i];
        let g = r.target_groups[k];
        let ts = g.targets;
        state::lemma_at::<RuntimeTarget>(ts, tid, 0);
        let n = state::at::<RuntimeTarget>(ts, tid, 0)->0;
        assert(ts[n] == t);
        let rest = ts.remove(n);
        assert(targets_normal(rest)) by {
            assert forall|j: int| 0 <= j < rest.len() implies target_normal(#[trigger] rest[j]) by {
                assert(target_normal(
                    ts[if j < n {
                        j
                    } else {
                        j + 1
                    }],
                ));
            }
        }
        lemma_order_without::<RuntimeTarget>(ts, n);
        laws::lemma_sorted_fixed::<RuntimeTarget>(rest);
        lemma_targets_in_place(s, i, k, rest);
        let s1 = state::service_with_targets(s, i, k, rest);
        let r1 = state::route_with_targets(r, k, rest);
        let g1 = RuntimeTargetGroupView { targets: rest, ..g };
        assert(s1 == (RuntimeServiceView { routes: s.routes.update(i, r1), ..s }));
        laws::lemma_revised_service(st, sid, s1);
        let x = state::found_service(next, sid)->Ok_0;
        assert(x.routes == s.routes.update(i, r1));
        state::lemma_at::<RuntimeRoute>(s.routes, rid, 0);
        state::lemma_at::<RuntimeRoute>(x.routes, rid, 0);
        let a = state::at::<RuntimeRoute>(x.routes, rid, 0)->0;
        assert(<RuntimeRoute as state::Identified>::id_of(x.routes[i]) == rid);
        assert(a == i) by {
            if a < i {
                assert(<RuntimeRoute as state::Identified>::id_of(s.routes[a]) != rid);
                assert(x.routes[a] == s.routes[a]);
            }
        }
        let gs = r1.target_groups;
        state::lemma_at::<RuntimeTargetGroup>(r.target_groups, gid, 0);
        state::lemma_at::<RuntimeTargetGroup>(gs, gid, 0);
        let b = state::at::<RuntimeTargetGroup>(gs, gid, 0)->0;
        assert(<RuntimeTargetGroup as state::Identified>::id_of(gs[k]) == gid);
        assert(b == k) by {
            if b < k {
                assert(<RuntimeTargetGroup as state::Identified>::id_of(r.target_groups[b]) != gid);
                assert(gs[b] == r.target_groups[b]);
            }
        }
        assert(gs[k] == g1);
        assert(g.targets[n] == t && state::found_group(next, sid, rid, gid) == Ok::<
            _,
            RuntimeServiceErrorView,
        >(RuntimeTargetGroupView { targets: g.targets.remove(n), ..g }));
        lemma_refs_without(r.target_groups, k, n, 0);
        let p = refs_before(r.target_groups, 0, k) + n;
        assert(state::groups_refs(r.target_groups, 0)[p].target == t);
        assert(state::found_route(next, sid, rid) == Ok::<_, RuntimeServiceErrorView>(r1));
        assert forall|j: int| 0 <= j < s.routes.len() && s.routes[j].id != rid implies
            #[trigger] x.routes[j] == s.routes[j] by {
            assert(j != i);
        }
    }
}

} // verus!
