//! What holds of the runtime state through every change.

use vstd::prelude::*;
use crate::ranking;
use crate::runtime_services::normalize;
use crate::runtime_services::state;
use crate::runtime_services::state::Identified;
use crate::runtime_services::types::{
    RuntimeListener, RuntimeListenerView, RuntimeRoute, RuntimeRouteView, RuntimeServiceErrorView,
    RuntimeServiceView, RuntimeStateView, RuntimeTarget, RuntimeTargetGroup, RuntimeTargetGroupView,
    RuntimeTargetState, RuntimeTargetView,
};
use crate::runtime_services::validate;
use crate::sorted_map;
use crate::text;

verus! {

// ---------------------------------------------------------------------------
// What a valid state says of its parts
// ---------------------------------------------------------------------------

/// No two parts have the same id.
pub open spec fn distinct<T: Identified>(s: Seq<T::V>) -> bool {
    forall|i: int, j: int|
        0 <= i < j < s.len() ==> T::id_of(#[trigger] s[i]) != T::id_of(#[trigger] s[j])
}

/// Listeners without a fault have different ids.
proof fn lemma_listeners_distinct(ls: Seq<RuntimeListenerView>, i: int)
    requires
        0 <= i,
        validate::listeners_fault(ls, i) is None,
    ensures
        forall|a: int, b: int|
            0 <= a < b < ls.len() && i <= b ==> (#[trigger] ls[a]).id != (#[trigger] ls[b]).id,
    decreases ls.len() - i,
{
    if i < ls.len() {
        lemma_listeners_distinct(ls, i + 1);
        assert forall|a: int, b: int| 0 <= a < b < ls.len() && i <= b implies (#[trigger] ls[a]).id
            != (#[trigger] ls[b]).id by {
            if b == i {
                assert(!(exists|j: int| 0 <= j < i && (#[trigger] ls[j]).id == ls[i].id));
            }
        }
    }
}

/// Routes without a fault have different ids.
proof fn lemma_routes_distinct(rs: Seq<RuntimeRouteView>, i: int)
    requires
        0 <= i,
        validate::route_ids_fault(rs, i) is None,
    ensures
        forall|a: int, b: int|
            0 <= a < b < rs.len() && i <= b ==> (#[trigger] rs[a]).id != (#[trigger] rs[b]).id,
    decreases rs.len() - i,
{
    if i < rs.len() {
        lemma_routes_distinct(rs, i + 1);
        assert forall|a: int, b: int| 0 <= a < b < rs.len() && i <= b implies (#[trigger] rs[a]).id
            != (#[trigger] rs[b]).id by {
            if b == i {
                assert(!(exists|j: int| 0 <= j < i && (#[trigger] rs[j]).id == rs[i].id));
            }
        }
    }
}

/// Targets without a fault have different ids, none of them taken.
pub(crate) proof fn lemma_targets_distinct(ts: Seq<RuntimeTargetView>, i: int, seen: Seq<Seq<char>>)
    requires
        0 <= i,
        validate::targets_fault(ts, i, seen) is None,
    ensures
        forall|b: int| i <= b < ts.len() ==> !seen.contains((#[trigger] ts[b]).id),
        forall|a: int, b: int|
            i <= a < b < ts.len() ==> (#[trigger] ts[a]).id != (#[trigger] ts[b]).id,
    decreases ts.len() - i,
{
    if i < ts.len() {
        let next = seen.push(ts[i].id);
        lemma_targets_distinct(ts, i + 1, next);
        assert forall|b: int| i <= b < ts.len() implies !seen.contains((#[trigger] ts[b]).id) by {
            if b > i && seen.contains(ts[b].id) {
                let k = choose|k: int| 0 <= k < seen.len() && seen[k] == ts[b].id;
                assert(next[k] == ts[b].id);
            }
        }
        assert forall|a: int, b: int| i <= a < b < ts.len() implies (#[trigger] ts[a]).id != (
        #[trigger] ts[b]).id by {
            if a == i {
                assert(next[seen.len() as int] == ts[i].id);
            }
        }
    }
}

/// Groups without a fault have different ids, and so have the targets of each.
pub(crate) proof fn lemma_groups_distinct(gs: Seq<RuntimeTargetGroupView>, i: int, seen: Seq<Seq<char>>)
    requires
        0 <= i,
        validate::groups_fault(gs, i, seen) is None,
    ensures
        forall|a: int, b: int|
            0 <= a < b < gs.len() && i <= b ==> (#[trigger] gs[a]).id != (#[trigger] gs[b]).id,
        forall|a: int| i <= a < gs.len() ==> distinct::<RuntimeTarget>((#[trigger] gs[a]).targets),
    decreases gs.len() - i,
{
    if i < gs.len() {
        lemma_targets_distinct(gs[i].targets, 0, seen);
        lemma_groups_distinct(gs, i + 1, seen + validate::target_ids(gs[i].targets));
        assert forall|a: int, b: int| 0 <= a < b < gs.len() && i <= b implies (#[trigger] gs[a]).id
            != (#[trigger] gs[b]).id by {
            if b == i {
                assert(!(exists|j: int| 0 <= j < i && (#[trigger] gs[j]).id == gs[i].id));
            }
        }
        assert forall|a: int| i <= a < gs.len() implies distinct::<RuntimeTarget>(
            (#[trigger] gs[a]).targets,
        ) by {
            if a == i {
                let ts = gs[i].targets;
                assert forall|x: int, y: int| 0 <= x < y < ts.len() implies RuntimeTarget::id_of(
                    #[trigger] ts[x],
                ) != RuntimeTarget::id_of(#[trigger] ts[y]) by {
                    assert(ts[x].id != ts[y].id);
                }
            }
        }
    }
}

/// Routes that were bound have no fault.
proof fn lemma_bound_routes(
    done: Seq<crate::runtime_services::types::RouteBindingView>,
    id: Seq<char>,
    rs: Seq<RuntimeRouteView>,
    ps: Seq<crate::runtime_services::types::RuntimeListenerProtocol>,
    i: int,
)
    requires
        0 <= i,
        validate::bind_routes(done, id, rs, ps, i) is Ok,
    ensures
        forall|k: int| i <= k < rs.len() ==> validate::route_fault(#[trigger] rs[k]) is None,
    decreases rs.len() - i,
{
    if i < rs.len() {
        lemma_bound_routes(
            done + validate::host_bindings(id, rs[i], ps, normalize::route_hosts(rs[i]), 0),
            id,
            rs,
            ps,
            i + 1,
        );
    }
}

/// A service of which each part obeys its rules.
pub open spec fn sound(s: RuntimeServiceView) -> bool {
    &&& validate::service_fault(s) is None
    &&& forall|k: int|
        0 <= k < s.routes.len() ==> validate::route_fault(#[trigger] s.routes[k]) is None
}

/// Surveyed services are sound.
proof fn lemma_surveyed(
    es: Seq<(Seq<char>, RuntimeServiceView)>,
    i: int,
    claims: validate::TlsClaims,
    bs: Seq<crate::runtime_services::types::RouteBindingView>,
)
    requires
        0 <= i,
        validate::survey(es, i, claims, bs) is Ok,
    ensures
        forall|k: int| i <= k < es.len() ==> sound((#[trigger] es[k]).1),
    decreases es.len() - i,
{
    if i < es.len() {
        let s = es[i].1;
        let c = validate::claims_with(claims, s)->Ok_0;
        let b = validate::bind_routes(bs, s.id, s.routes, validate::protocols(s.listeners), 0);
        lemma_bound_routes(bs, s.id, s.routes, validate::protocols(s.listeners), 0);
        lemma_surveyed(es, i + 1, c, b->Ok_0);
    }
}

/// In a valid state every service and every route obeys its rules.
pub proof fn lemma_valid_state_sound(st: RuntimeStateView, k: int)
    requires
        validate::state_fault(st) is None,
        0 <= k < st.services.len(),
    ensures
        sound(st.services[k].1),
{
    lemma_surveyed(st.services, 0, seq![], seq![]);
}

/// In a sound service ids tell listeners, routes, groups and targets apart.
pub proof fn lemma_sound_distinct(s: RuntimeServiceView)
    requires
        sound(s),
    ensures
        distinct::<RuntimeListener>(s.listeners),
        distinct::<RuntimeRoute>(s.routes),
        forall|k: int|
            0 <= k < s.routes.len() ==> distinct::<RuntimeTargetGroup>(
                (#[trigger] s.routes[k]).target_groups,
            ),
        forall|k: int, g: int|
            0 <= k < s.routes.len() && 0 <= g < s.routes[k].target_groups.len() ==> distinct::<
                RuntimeTarget,
            >((#[trigger] s.routes[k].target_groups[g]).targets),
{
    lemma_listeners_distinct(s.listeners, 0);
    lemma_routes_distinct(s.routes, 0);
    assert forall|i: int, j: int| 0 <= i < j < s.listeners.len() implies RuntimeListener::id_of(
        #[trigger] s.listeners[i],
    ) != RuntimeListener::id_of(#[trigger] s.listeners[j]) by {
        assert(s.listeners[i].id != s.listeners[j].id);
    }
    assert forall|i: int, j: int| 0 <= i < j < s.routes.len() implies RuntimeRoute::id_of(
        #[trigger] s.routes[i],
    ) != RuntimeRoute::id_of(#[trigger] s.routes[j]) by {
        assert(s.routes[i].id != s.routes[j].id);
    }
    assert forall|k: int| 0 <= k < s.routes.len() implies distinct::<RuntimeTargetGroup>(
        (#[trigger] s.routes[k]).target_groups,
    ) && (forall|g: int|
        0 <= g < s.routes[k].target_groups.len() ==> distinct::<RuntimeTarget>(
            (#[trigger] s.routes[k].target_groups[g]).targets,
        )) by {
        assert(validate::route_fault(s.routes[k]) is None);
        let gs = s.routes[k].target_groups;
        lemma_groups_distinct(gs, 0, seq![]);
        assert forall|i: int, j: int| 0 <= i < j < gs.len() implies RuntimeTargetGroup::id_of(
            #[trigger] gs[i],
        ) != RuntimeTargetGroup::id_of(#[trigger] gs[j]) by {
            assert(gs[i].id != gs[j].id);
        }
    }
}

// ---------------------------------------------------------------------------
// Finding what was put
// ---------------------------------------------------------------------------

/// Among parts with different ids each is found under its own.
pub(crate) proof fn lemma_found<T: Identified>(s: Seq<T::V>, x: T::V)
    requires
        distinct::<T>(s),
        s.contains(x),
    ensures
        state::at::<T>(s, T::id_of(x), 0) matches Some(p) && 0 <= p < s.len() && s[p] == x,
{
    let k = choose|k: int| 0 <= k < s.len() && s[k] == x;
    state::lemma_at::<T>(s, T::id_of(x), 0);
    let p = state::at::<T>(s, T::id_of(x), 0)->0;
    if p < k {
        assert(T::id_of(s[p]) != T::id_of(s[k]));
    } else if k < p {
        assert(T::id_of(s[k]) != T::id_of(s[p]));
    }
}

/// A part that was put is among the parts.
pub(crate) proof fn lemma_with_part_contains<T: Identified>(s: Seq<T::V>, x: T::V)
    ensures
        state::with_part::<T>(s, x).contains(x),
{
    state::lemma_at::<T>(s, T::id_of(x), 0);
    match state::at::<T>(s, T::id_of(x), 0) {
        Some(i) => {
            assert(state::with_part::<T>(s, x)[i] == x);
        },
        None => {
            assert(state::with_part::<T>(s, x)[s.len() as int] == x);
        },
    }
}

/// Sorting keeps what is there.
pub(crate) proof fn lemma_sorted_contains<T: ranking::Ranked>(s: Seq<T::V>, x: T::V)
    requires
        s.contains(x),
    ensures
        ranking::sorted::<T>(s).contains(x),
{
    broadcast use vstd::seq_lib::group_to_multiset_ensures;

    ranking::lemma_sorted_keeps::<T>(s);
    assert(s.to_multiset().contains(x));
    assert(ranking::sorted::<T>(s).to_multiset().contains(x));
}

/// Where the changed service stands in the new state.
pub(crate) proof fn lemma_revised_service(st: RuntimeStateView, sid: Seq<char>, s: RuntimeServiceView)
    requires
        state::found_service(st, sid) is Ok,
    ensures
        state::found_service(state::revised(st, sid, s), sid) == Ok::<_, RuntimeServiceErrorView>(
            RuntimeServiceView { revision: state::bumped(st.revision), ..s },
        ),
        forall|q: Seq<char>|
            q != sid ==> #[trigger] sorted_map::lookup(state::revised(st, sid, s).services, q)
                == sorted_map::lookup(st.services, q),
        exists|k: int|
            0 <= k < state::revised(st, sid, s).services.len() && #[trigger] state::revised(
                st,
                sid,
                s,
            ).services[k] == (
                sid,
                RuntimeServiceView { revision: state::bumped(st.revision), ..s },
            ),
{
    let next = state::revised(st, sid, s);
    let (a, b) = (st.services, next.services);
    sorted_map::lemma_position(a, sid, 0);
    sorted_map::lemma_position(b, sid, 0);
    let i = sorted_map::position(a, sid, 0)->0;
    assert(b[i] == (sid, RuntimeServiceView { revision: state::bumped(st.revision), ..s }));
    assert(forall|j: int| 0 <= j < a.len() ==> (#[trigger] a[j]).0 == b[j].0);
    let p = sorted_map::position(b, sid, 0)->0;
    assert(p == i) by {
        if p < i {
            assert(a[p].0 != sid);
        }
    }
    assert forall|q: Seq<char>| q != sid implies #[trigger] sorted_map::lookup(b, q)
        == sorted_map::lookup(a, q) by {
        sorted_map::lemma_position(a, q, 0);
        sorted_map::lemma_position(b, q, 0);
        match sorted_map::position(a, q, 0) {
            Some(x) => {
                assert(b[x].0 == q);
                let y = sorted_map::position(b, q, 0)->0;
                assert(a[y].0 == q);
            },
            None => {
                if let Some(y) = sorted_map::position(b, q, 0) {
                    assert(a[y].0 == q);
                }
            },
        }
    }
}

/// The service that a committed change left is sound.
pub(crate) proof fn lemma_committed_sound(st: RuntimeStateView, sid: Seq<char>, s: RuntimeServiceView)
    requires
        state::found_service(st, sid) is Ok,
        validate::state_fault(state::revised(st, sid, s)) is None,
    ensures
        sound(RuntimeServiceView { revision: state::bumped(st.revision), ..s }),
{
    lemma_revised_service(st, sid, s);
    let next = state::revised(st, sid, s);
    let s2 = RuntimeServiceView { revision: state::bumped(st.revision), ..s };
    let k = choose|k: int| 0 <= k < next.services.len() && #[trigger] next.services[k] == (sid, s2);
    lemma_valid_state_sound(next, k);
}

/// A service that was set is read back as it was handed back; the others are as
/// they were.
pub proof fn lemma_set_service_then_get(
    st: RuntimeStateView,
    service: RuntimeServiceView,
    expected: Option<u64>,
)
    requires
        sorted_map::ascending::<String, RuntimeServiceView>(st.services),
    ensures
        state::service_set(st, service, expected) matches Ok((next, s)) ==> {
            &&& state::found_service(next, s.id) == Ok::<_, RuntimeServiceErrorView>(s)
            &&& s.revision == next.revision
            &&& forall|q: Seq<char>|
                q != s.id ==> #[trigger] sorted_map::lookup(next.services, q) == sorted_map::lookup(
                    st.services,
                    q,
                )
        },
{
    if let Ok((next, s)) = state::service_set(st, service, expected) {
        sorted_map::lemma_put::<String, RuntimeServiceView>(st.services, s.id, s);
    }
}

/// A listener that was set is read back as it was handed back.
pub proof fn lemma_set_listener_then_get(
    st: RuntimeStateView,
    sid: Seq<char>,
    lid: Seq<char>,
    l: RuntimeListenerView,
    expected: Option<u64>,
)
    ensures
        state::listener_set(st, sid, lid, l, expected) matches Ok((next, n)) ==> {
            &&& n.id == text::trimmed(lid)
            &&& state::found_listener(next, sid, n.id) == Ok::<_, RuntimeServiceErrorView>(n)
        },
{
    if let Ok((next, n)) = state::listener_set(st, sid, lid, l, expected) {
        let s = state::found_service(st, sid)->Ok_0;
        let all = state::with_part::<RuntimeListener>(s.listeners, n);
        let s1 = normalize::service_in_order(RuntimeServiceView { listeners: all, ..s });
        lemma_revised_service(st, sid, s1);
        lemma_committed_sound(st, sid, s1);
        let s2 = RuntimeServiceView { revision: state::bumped(st.revision), ..s1 };
        lemma_sound_distinct(s2);
        lemma_with_part_contains::<RuntimeListener>(s.listeners, n);
        lemma_sorted_contains::<RuntimeListener>(all, n);
        lemma_found::<RuntimeListener>(s2.listeners, n);
    }
}

// ---------------------------------------------------------------------------
// Order is kept by ordering again
// ---------------------------------------------------------------------------

/// No value goes before an earlier one.
pub open spec fn in_order<T: ranking::Ranked>(s: Seq<T::V>) -> bool {
    forall|i: int, j: int|
        0 <= i < j < s.len() ==> !T::precedes(#[trigger] s[j], #[trigger] s[i])
}

/// Sorting leaves what is in order.
pub(crate) proof fn lemma_sorted_fixed<T: ranking::Ranked>(s: Seq<T::V>)
    requires
        in_order::<T>(s),
    ensures
        ranking::sorted::<T>(s) == s,
    decreases s.len(),
{
    if s.len() > 0 {
        let d = s.drop_last();
        assert(in_order::<T>(d)) by {
            assert forall|i: int, j: int| 0 <= i < j < d.len() implies !T::precedes(
                #[trigger] d[j],
                #[trigger] d[i],
            ) by {
                assert(d[j] == s[j] && d[i] == s[i]);
            }
        }
        lemma_sorted_fixed::<T>(d);
        ranking::lemma_place::<T>(d, s.last(), 0);
        let p = ranking::place::<T>(d, s.last(), 0);
        if p < d.len() {
            assert(s[p] == d[p]);
            assert(!T::precedes(s[s.len() - 1], s[p]));
        }
        assert(d.insert(d.len() as int, s.last()) =~= s);
    }
}

/// Groups are put in order by their ids.
pub(crate) proof fn lemma_groups_in_order(s: Seq<RuntimeTargetGroupView>)
    ensures
        in_order::<RuntimeTargetGroup>(ranking::sorted::<RuntimeTargetGroup>(s)),
{
    assert forall|a: RuntimeTargetGroupView, b: RuntimeTargetGroupView| #[trigger]
        <RuntimeTargetGroup as ranking::Ranked>::precedes(a, b) implies !<RuntimeTargetGroup as ranking::Ranked>::precedes(
        b,
        a,
    ) by {
        sorted_map::lemma_text_before_total(a.id, b.id);
    }
    assert forall|a: RuntimeTargetGroupView, b: RuntimeTargetGroupView, c: RuntimeTargetGroupView|
        !#[trigger] <RuntimeTargetGroup as ranking::Ranked>::precedes(b, a) && !#[trigger]
            <RuntimeTargetGroup as ranking::Ranked>::precedes(c, b) implies !<RuntimeTargetGroup as ranking::Ranked>::precedes(
        c,
        a,
    ) by {
        lemma_not_before_transitive(a.id, b.id, c.id);
    }
    ranking::lemma_sorted_in_order::<RuntimeTargetGroup>(s);
}

/// Targets are put in order by their ids.
pub(crate) proof fn lemma_targets_in_order(s: Seq<RuntimeTargetView>)
    ensures
        in_order::<RuntimeTarget>(ranking::sorted::<RuntimeTarget>(s)),
{
    assert forall|a: RuntimeTargetView, b: RuntimeTargetView| #[trigger]
        <RuntimeTarget as ranking::Ranked>::precedes(a, b) implies !<RuntimeTarget as ranking::Ranked>::precedes(
        b,
        a,
    ) by {
        sorted_map::lemma_text_before_total(a.id, b.id);
    }
    assert forall|a: RuntimeTargetView, b: RuntimeTargetView, c: RuntimeTargetView|
        !#[trigger] <RuntimeTarget as ranking::Ranked>::precedes(b, a) && !#[trigger]
            <RuntimeTarget as ranking::Ranked>::precedes(c, b) implies !<RuntimeTarget as ranking::Ranked>::precedes(
        c,
        a,
    ) by {
        lemma_not_before_transitive(a.id, b.id, c.id);
    }
    ranking::lemma_sorted_in_order::<RuntimeTarget>(s);
}

/// Where `b` is not before `a` and `c` is not before `b`, `c` is not before `a`.
pub(crate) proof fn lemma_not_before_transitive(a: Seq<char>, b: Seq<char>, c: Seq<char>)
    requires
        !sorted_map::text_before(b, a),
        !sorted_map::text_before(c, b),
    ensures
        !sorted_map::text_before(c, a),
{
    sorted_map::lemma_text_before_total(a, b);
    sorted_map::lemma_text_before_total(b, c);
    sorted_map::lemma_text_before_total(a, c);
    if a != b && b != c {
        sorted_map::lemma_text_before_transitive(a, b, c);
    }
}

/// A route that was put in order stays as it is when it is put in order again.
pub proof fn lemma_route_in_order_twice(r: RuntimeRouteView)
    ensures
        normalize::route_in_order(normalize::route_in_order(r)) == normalize::route_in_order(r),
{
    let once = normalize::route_in_order(r);
    let sorted = ranking::sorted::<RuntimeTargetGroup>(r.target_groups);
    lemma_groups_in_order(r.target_groups);
    let gs = once.target_groups;
    assert(in_order::<RuntimeTargetGroup>(gs)) by {
        assert forall|i: int, j: int| 0 <= i < j < gs.len() implies !<RuntimeTargetGroup as ranking::Ranked>::precedes(
            #[trigger] gs[j],
            #[trigger] gs[i],
        ) by {
            assert(gs[j].id == sorted[j].id && gs[i].id == sorted[i].id);
            assert(!<RuntimeTargetGroup as ranking::Ranked>::precedes(sorted[j], sorted[i]));
        }
    }
    lemma_sorted_fixed::<RuntimeTargetGroup>(gs);
    assert forall|i: int| 0 <= i < gs.len() implies normalize::group_in_order(#[trigger] gs[i])
        == gs[i] by {
        lemma_targets_in_order(sorted[i].targets);
        lemma_sorted_fixed::<RuntimeTarget>(gs[i].targets);
        assert(gs[i] == normalize::group_in_order(sorted[i]));
    }
    assert(normalize::route_in_order(once).target_groups =~= once.target_groups);
}

/// A route that was set is read back as it was handed back.
pub proof fn lemma_set_route_then_get(
    st: RuntimeStateView,
    sid: Seq<char>,
    rid: Seq<char>,
    r: RuntimeRouteView,
    expected: Option<u64>,
)
    ensures
        state::route_set(st, sid, rid, r, expected) matches Ok((next, n)) ==> {
            &&& n.id == text::trimmed(rid)
            &&& state::found_route(next, sid, n.id) == Ok::<_, RuntimeServiceErrorView>(n)
        },
{
    if let Ok((next, n)) = state::route_set(st, sid, rid, r, expected) {
        let s = state::found_service(st, sid)->Ok_0;
        let all = state::with_part::<RuntimeRoute>(s.routes, n);
        let s1 = normalize::service_in_order(RuntimeServiceView { routes: all, ..s });
        lemma_revised_service(st, sid, s1);
        lemma_committed_sound(st, sid, s1);
        let s2 = RuntimeServiceView { revision: state::bumped(st.revision), ..s1 };
        lemma_sound_distinct(s2);
        lemma_with_part_contains::<RuntimeRoute>(s.routes, n);
        lemma_sorted_contains::<RuntimeRoute>(all, n);
        let sorted = ranking::sorted::<RuntimeRoute>(all);
        let k = choose|k: int| 0 <= k < sorted.len() && sorted[k] == n;
        assert(s2.routes[k] == normalize::route_in_order(n));
        lemma_normal_route_in_order(RuntimeRouteView { id: rid, ..r });
        assert(s2.routes[k] == n);
        lemma_found::<RuntimeRoute>(s2.routes, n);
    }
}

/// The normal form of a route is in order.
proof fn lemma_normal_route_in_order(r: RuntimeRouteView)
    ensures
        normalize::normal_route(r) matches Ok(n) ==> normalize::route_in_order(n) == n,
{
    if let Ok(n) = normalize::normal_route(r) {
        let raw = RuntimeRouteView {
            id: text::trimmed(r.id),
            hosts: ranking::text_set(normalize::clean_hosts(r.hosts)),
            path_prefix: normalize::normal_prefix(r.path_prefix)->Ok_0,
            lb_header: normalize::present(r.lb_header),
            lb_cookie: normalize::present(r.lb_cookie),
            target_groups: normalize::normal_groups(r.target_groups)->Ok_0,
            ..r
        };
        assert(n == normalize::route_in_order(raw));
        lemma_route_in_order_twice(raw);
    }
}

/// The route whose targets were replaced, in the service that came out.
pub(crate) proof fn lemma_service_with_targets(
    s: RuntimeServiceView,
    i: int,
    k: int,
    ts: Seq<RuntimeTargetView>,
    revision: u64,
)
    requires
        0 <= i < s.routes.len(),
        0 <= k < s.routes[i].target_groups.len(),
        sound(RuntimeServiceView { revision, ..state::service_with_targets(s, i, k, ts) }),
    ensures
        ({
            let s2 = RuntimeServiceView { revision, ..state::service_with_targets(s, i, k, ts) };
            let rid = s.routes[i].id;
            let gid = s.routes[i].target_groups[k].id;
            &&& state::at::<RuntimeRoute>(s2.routes, rid, 0) matches Some(a) && 0 <= a
                < s2.routes.len() && s2.routes[a] == normalize::route_in_order(
                state::route_with_targets(s.routes[i], k, ts),
            ) && (state::at::<RuntimeTargetGroup>(
                s2.routes[a].target_groups,
                gid,
                0,
            ) matches Some(b) && 0 <= b < s2.routes[a].target_groups.len()
                && s2.routes[a].target_groups[b].targets == ranking::sorted::<RuntimeTarget>(ts)
                && distinct::<RuntimeTarget>(s2.routes[a].target_groups[b].targets))
        }),
{
    let s2 = RuntimeServiceView { revision, ..state::service_with_targets(s, i, k, ts) };
    lemma_sound_distinct(s2);
    let raw = state::route_with_targets(s.routes[i], k, ts);
    let r1 = normalize::route_in_order(raw);
    let all = s.routes.update(i, r1);
    assert(all[i] == r1);
    lemma_sorted_contains::<RuntimeRoute>(all, r1);
    let sorted = ranking::sorted::<RuntimeRoute>(all);
    let n = choose|n: int| 0 <= n < sorted.len() && sorted[n] == r1;
    lemma_route_in_order_twice(raw);
    assert(s2.routes[n] == r1);
    lemma_found::<RuntimeRoute>(s2.routes, r1);
    let a = state::at::<RuntimeRoute>(s2.routes, s.routes[i].id, 0)->0;
    assert(s2.routes[a] == r1);
    let g = RuntimeTargetGroupView { targets: ts, ..s.routes[i].target_groups[k] };
    assert(raw.target_groups[k] == g);
    lemma_sorted_contains::<RuntimeTargetGroup>(raw.target_groups, g);
    let gsorted = ranking::sorted::<RuntimeTargetGroup>(raw.target_groups);
    let m = choose|m: int| 0 <= m < gsorted.len() && gsorted[m] == g;
    let g1 = normalize::group_in_order(g);
    assert(r1.target_groups[m] == g1);
    assert(distinct::<RuntimeTargetGroup>(s2.routes[a].target_groups));
    lemma_found::<RuntimeTargetGroup>(r1.target_groups, g1);
    let b = state::at::<RuntimeTargetGroup>(r1.target_groups, g.id, 0)->0;
    assert(distinct::<RuntimeTarget>(s2.routes[a].target_groups[b].targets));
}

/// A target that was set is read back as it was handed back.
pub proof fn lemma_set_target_then_get(
    st: RuntimeStateView,
    sid: Seq<char>,
    rid: Seq<char>,
    gid: Seq<char>,
    tid: Seq<char>,
    t: RuntimeTargetView,
    expected: Option<u64>,
)
    ensures
        state::target_set(st, sid, rid, gid, tid, t, expected) matches Ok((next, n)) ==> {
            &&& n.id == text::trimmed(tid)
            &&& state::found_target(next, sid, rid, gid, n.id) == Ok::<_, RuntimeServiceErrorView>(n)
        },
{
    if let Ok((next, n)) = state::target_set(st, sid, rid, gid, tid, t, expected) {
        let s = state::found_service(st, sid)->Ok_0;
        let (i, k) = state::group_place(s, sid, rid, gid)->Ok_0;
        state::lemma_at::<RuntimeRoute>(s.routes, rid, 0);
        state::lemma_at::<RuntimeTargetGroup>(s.routes[i].target_groups, gid, 0);
        let ts = state::with_part::<RuntimeTarget>(s.routes[i].target_groups[k].targets, n);
        let s1 = state::service_with_targets(s, i, k, ts);
        lemma_revised_service(st, sid, s1);
        lemma_committed_sound(st, sid, s1);
        lemma_service_with_targets(s, i, k, ts, state::bumped(st.revision));
        lemma_with_part_contains::<RuntimeTarget>(s.routes[i].target_groups[k].targets, n);
        lemma_sorted_contains::<RuntimeTarget>(ts, n);
        lemma_found::<RuntimeTarget>(ranking::sorted::<RuntimeTarget>(ts), n);
    }
}

// ---------------------------------------------------------------------------
// Removal
// ---------------------------------------------------------------------------

/// Where ids tell parts apart, a removed id is gone.
proof fn lemma_removed<T: Identified>(s: Seq<T::V>, id: Seq<char>)
    requires
        distinct::<T>(s),
    ensures
        state::at::<T>(s, id, 0) matches Some(i) ==> state::at::<T>(s.remove(i), id, 0) is None,
{
    state::lemma_at::<T>(s, id, 0);
    if let Some(i) = state::at::<T>(s, id, 0) {
        let t = s.remove(i);
        state::lemma_at::<T>(t, id, 0);
        if let Some(p) = state::at::<T>(t, id, 0) {
            let q = if p < i { p } else { p + 1 };
            assert(t[p] == s[q]);
            if q < i {
                assert(T::id_of(s[q]) != T::id_of(s[i]));
            } else {
                assert(T::id_of(s[i]) != T::id_of(s[q]));
            }
        }
    }
}

/// A service that was removed is not found; the others are as they were.
pub proof fn lemma_removed_service_gone(st: RuntimeStateView, sid: Seq<char>, expected: Option<u64>)
    requires
        sorted_map::ascending::<String, RuntimeServiceView>(st.services),
    ensures
        state::service_removed(st, sid, expected) matches Ok((next, s)) ==> {
            &&& state::found_service(st, sid) == Ok::<_, RuntimeServiceErrorView>(s)
            &&& state::found_service(next, sid) == Err::<RuntimeServiceView, _>(
                RuntimeServiceErrorView::UnknownService(sid),
            )
            &&& forall|q: Seq<char>|
                q != sid ==> #[trigger] sorted_map::lookup(next.services, q) == sorted_map::lookup(
                    st.services,
                    q,
                )
        },
{
    sorted_map::lemma_without::<String, RuntimeServiceView>(st.services, sid);
}

/// A listener that was removed from a valid state is not found.
pub proof fn lemma_removed_listener_gone(
    st: RuntimeStateView,
    sid: Seq<char>,
    lid: Seq<char>,
    expected: Option<u64>,
)
    requires
        validate::state_fault(st) is None,
    ensures
        state::listener_removed(st, sid, lid, expected) matches Ok((next, l))
            ==> state::found_listener(next, sid, lid) == Err::<RuntimeListenerView, _>(
            RuntimeServiceErrorView::UnknownListener { service_id: sid, listener_id: lid },
        ),
{
    if let Ok((next, l)) = state::listener_removed(st, sid, lid, expected) {
        let s = state::found_service(st, sid)->Ok_0;
        sorted_map::lemma_position(st.services, sid, 0);
        lemma_valid_state_sound(st, sorted_map::position(st.services, sid, 0)->0);
        lemma_sound_distinct(s);
        lemma_removed::<RuntimeListener>(s.listeners, lid);
        let i = state::at::<RuntimeListener>(s.listeners, lid, 0)->0;
        lemma_revised_service(
            st,
            sid,
            RuntimeServiceView { listeners: s.listeners.remove(i), ..s },
        );
    }
}

/// A route that was removed from a valid state is not found.
pub proof fn lemma_removed_route_gone(
    st: RuntimeStateView,
    sid: Seq<char>,
    rid: Seq<char>,
    expected: Option<u64>,
)
    requires
        validate::state_fault(st) is None,
    ensures
        state::route_removed(st, sid, rid, expected) matches Ok((next, r)) ==> state::found_route(
            next,
            sid,
            rid,
        ) == Err::<RuntimeRouteView, _>(
            RuntimeServiceErrorView::UnknownRoute { service_id: sid, route_id: rid },
        ),
{
    if let Ok((next, r)) = state::route_removed(st, sid, rid, expected) {
        let s = state::found_service(st, sid)->Ok_0;
        sorted_map::lemma_position(st.services, sid, 0);
        lemma_valid_state_sound(st, sorted_map::position(st.services, sid, 0)->0);
        lemma_sound_distinct(s);
        lemma_removed::<RuntimeRoute>(s.routes, rid);
        let i = state::at::<RuntimeRoute>(s.routes, rid, 0)->0;
        lemma_revised_service(st, sid, RuntimeServiceView { routes: s.routes.remove(i), ..s });
    }
}

/// A target that was removed from a valid state is not found.
pub proof fn lemma_removed_target_gone(
    st: RuntimeStateView,
    sid: Seq<char>,
    rid: Seq<char>,
    gid: Seq<char>,
    tid: Seq<char>,
    expected: Option<u64>,
)
    requires
        validate::state_fault(st) is None,
    ensures
        state::target_removed(st, sid, rid, gid, tid, expected) matches Ok((next, t))
            ==> state::found_target(next, sid, rid, gid, tid) == Err::<RuntimeTargetView, _>(
            RuntimeServiceErrorView::UnknownTarget {
                service_id: sid,
                route_id: rid,
                group_id: gid,
                target_id: tid,
            },
        ),
{
    if let Ok((next, t)) = state::target_removed(st, sid, rid, gid, tid, expected) {
        let s = state::found_service(st, sid)->Ok_0;
        sorted_map::lemma_position(st.services, sid, 0);
        lemma_valid_state_sound(st, sorted_map::position(st.services, sid, 0)->0);
        lemma_sound_distinct(s);
        let (i, k) = state::group_place(s, sid, rid, gid)->Ok_0;
        state::lemma_at::<RuntimeRoute>(s.routes, rid, 0);
        state::lemma_at::<RuntimeTargetGroup>(s.routes[i].target_groups, gid, 0);
        let ts = s.routes[i].target_groups[k].targets;
        assert(distinct::<RuntimeTarget>(s.routes[i].target_groups[k].targets));
        lemma_removed::<RuntimeTarget>(ts, tid);
        let n = state::at::<RuntimeTarget>(ts, tid, 0)->0;
        let rest = ts.remove(n);
        let s1 = state::service_with_targets(s, i, k, rest);
        lemma_revised_service(st, sid, s1);
        lemma_committed_sound(st, sid, s1);
        lemma_service_with_targets(s, i, k, rest, state::bumped(st.revision));
        let sorted = ranking::sorted::<RuntimeTarget>(rest);
        state::lemma_at::<RuntimeTarget>(rest, tid, 0);
        state::lemma_at::<RuntimeTarget>(sorted, tid, 0);
        if let Some(p) = state::at::<RuntimeTarget>(sorted, tid, 0) {
            broadcast use vstd::seq_lib::group_to_multiset_ensures;

            ranking::lemma_sorted_keeps::<RuntimeTarget>(rest);
            assert(sorted.contains(sorted[p]));
            assert(rest.to_multiset().contains(sorted[p]));
            assert(rest.contains(sorted[p]));
            let q = choose|q: int| 0 <= q < rest.len() && rest[q] == sorted[p];
            assert(RuntimeTarget::id_of(rest[q]) == tid);
        }
    }
}

// ---------------------------------------------------------------------------
// Revisions
// ---------------------------------------------------------------------------

/// A change that expects another revision than the current one is refused, with
/// both revisions in the refusal.
pub proof fn lemma_stale_change_refused(
    st: RuntimeStateView,
    sid: Seq<char>,
    rid: Seq<char>,
    expected: u64,
)
    requires
        state::found_service(st, sid) matches Ok(s) && s.revision != expected,
    ensures
        ({
            let actual = state::found_service(st, sid)->Ok_0.revision;
            let refusal = RuntimeServiceErrorView::RevisionConflict { expected, actual };
            &&& state::service_removed(st, sid, Some(expected)) == Err::<
                (RuntimeStateView, RuntimeServiceView),
                _,
            >(refusal)
            &&& state::listener_removed(st, sid, rid, Some(expected)) == Err::<
                (RuntimeStateView, RuntimeListenerView),
                _,
            >(refusal)
            &&& state::route_removed(st, sid, rid, Some(expected)) == Err::<
                (RuntimeStateView, RuntimeRouteView),
                _,
            >(refusal)
            &&& forall|p: crate::runtime_services::types::RuntimeServicePatchView| #[trigger]
                state::service_patched(st, sid, p, Some(expected)) == Err::<
                    (RuntimeStateView, RuntimeServiceView),
                    _,
                >(refusal)
        }),
{
}

/// Every change of a service that succeeds moves the revision of the state on by
/// one (the greatest one stays), and gives it to the service; the state that
/// came out obeys the rules.
pub proof fn lemma_committed_change(st: RuntimeStateView, sid: Seq<char>, s: RuntimeServiceView)
    requires
        state::found_service(st, sid) is Ok,
    ensures
        state::committed(st, sid, s, ()) matches Ok((next, _)) ==> {
            &&& next.revision == state::bumped(st.revision)
            &&& st.revision < u64::MAX ==> next.revision == st.revision + 1
            &&& state::found_service(next, sid) matches Ok(x) && x.revision == next.revision
            &&& validate::state_fault(next) is None
            &&& next.version == st.version
        },
{
    lemma_revised_service(st, sid, s);
}

} // verus!
