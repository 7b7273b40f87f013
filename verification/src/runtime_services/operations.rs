//! What the changes of the runtime state promise to those who read it afterwards.

use vstd::prelude::*;
use crate::ranking;
use crate::runtime_services::forms;
use crate::runtime_services::laws;
use crate::runtime_services::normalize;
use crate::runtime_services::state;
use crate::runtime_services::types::{
    RuntimeListener, RuntimeListenerPatchView, RuntimeListenerView, RuntimeRoute,
    RuntimeRoutePatchView, RuntimeRouteView, RuntimeServiceErrorView, RuntimeServicePatchView,
    RuntimeServiceView, RuntimeStateView, RuntimeTarget, RuntimeTargetGroup,
    RuntimeTargetGroupView, RuntimeTargetPatchView, RuntimeTargetRefView, RuntimeTargetState,
    RuntimeTargetView,
};
use crate::runtime_services::validate;
use crate::sorted_map;
use crate::text;

verus! {

// ---------------------------------------------------------------------------
// States that can come about
// ---------------------------------------------------------------------------

/// A change that is asked for.
pub enum StateChange {
    SetService(RuntimeServiceView, Option<u64>),
    PatchService(Seq<char>, RuntimeServicePatchView, Option<u64>),
    RemoveService(Seq<char>, Option<u64>),
    SetListener(Seq<char>, Seq<char>, RuntimeListenerView, Option<u64>),
    PatchListener(Seq<char>, Seq<char>, RuntimeListenerPatchView, Option<u64>),
    RemoveListener(Seq<char>, Seq<char>, Option<u64>),
    SetRoute(Seq<char>, Seq<char>, RuntimeRouteView, Option<u64>),
    PatchRoute(Seq<char>, Seq<char>, RuntimeRoutePatchView, Option<u64>),
    RemoveRoute(Seq<char>, Seq<char>, Option<u64>),
    SetTarget(Seq<char>, Seq<char>, Seq<char>, Seq<char>, RuntimeTargetView, Option<u64>),
    PatchTarget(Seq<char>, Seq<char>, Seq<char>, Seq<char>, RuntimeTargetPatchView, Option<u64>),
    RemoveTarget(Seq<char>, Seq<char>, Seq<char>, Seq<char>, Option<u64>),
    MoveTarget(
        Seq<char>,
        Seq<char>,
        Seq<char>,
        Seq<char>,
        RuntimeTargetState,
        Option<Seq<char>>,
    ),
}

/// The state that a change leaves: the new one, or the same where it is refused.
pub open spec fn left_by<X>(st: RuntimeStateView, c: state::Change<X>) -> RuntimeStateView {
    match c {
        Ok((next, _)) => next,
        Err(_) => st,
    }
}

/// The state after a change was asked for.
pub open spec fn changed(st: RuntimeStateView, c: StateChange) -> RuntimeStateView {
    match c {
        StateChange::SetService(s, rev) => left_by(st, state::service_set(st, s, rev)),
        StateChange::PatchService(sid, p, rev) => left_by(
            st,
            state::service_patched(st, sid, p, rev),
        ),
        StateChange::RemoveService(sid, rev) => left_by(st, state::service_removed(st, sid, rev)),
        StateChange::SetListener(sid, lid, l, rev) => left_by(
            st,
            state::listener_set(st, sid, lid, l, rev),
        ),
        StateChange::PatchListener(sid, lid, p, rev) => left_by(
            st,
            state::listener_patched(st, sid, lid, p, rev),
        ),
        StateChange::RemoveListener(sid, lid, rev) => left_by(
            st,
            state::listener_removed(st, sid, lid, rev),
        ),
        StateChange::SetRoute(sid, rid, r, rev) => left_by(
            st,
            state::route_set(st, sid, rid, r, rev),
        ),
        StateChange::PatchRoute(sid, rid, p, rev) => left_by(
            st,
            state::route_patched(st, sid, rid, p, rev),
        ),
        StateChange::RemoveRoute(sid, rid, rev) => left_by(
            st,
            state::route_removed(st, sid, rid, rev),
        ),
        StateChange::SetTarget(sid, rid, gid, tid, t, rev) => left_by(
            st,
            state::target_set(st, sid, rid, gid, tid, t, rev),
        ),
        StateChange::PatchTarget(sid, rid, gid, tid, p, rev) => left_by(
            st,
            state::target_patched(st, sid, rid, gid, tid, p, rev),
        ),
        StateChange::RemoveTarget(sid, rid, gid, tid, rev) => left_by(
            st,
            state::target_removed(st, sid, rid, gid, tid, rev),
        ),
        StateChange::MoveTarget(sid, rid, gid, tid, to, error) => left_by(
            st,
            state::target_moved(st, sid, rid, gid, tid, to, error),
        ),
    }
}

/// The state that changes lead to from the state without services.
pub open spec fn reached(changes: Seq<StateChange>) -> RuntimeStateView
    decreases changes.len(),
{
    if changes.len() == 0 {
        RuntimeStateView { version: 1, revision: 0, services: seq![] }
    } else {
        changed(reached(changes.drop_last()), changes.last())
    }
}

/// Whatever changes are asked for, the state is valid and in its normal form.
pub proof fn lemma_reached_normal(changes: Seq<StateChange>)
    ensures
        forms::state_normal(reached(changes)),
    decreases changes.len(),
{
    if changes.len() == 0 {
        forms::lemma_normal_at_start();
    } else {
        lemma_reached_normal(changes.drop_last());
        let st = reached(changes.drop_last());
        match changes.last() {
            StateChange::SetService(s, rev) => {
                forms::lemma_normal_service_set(st, s, rev);
            },
            StateChange::PatchService(sid, p, rev) => {
                if let Ok(s) = state::opened(st, sid, rev) {
                    forms::lemma_normal_service_set(
                        st,
                        state::patched_service(s, p),
                        Some(s.revision),
                    );
                }
            },
            StateChange::RemoveService(sid, rev) => {
                forms::lemma_normal_service_removed(st, sid, rev);
            },
            StateChange::SetListener(sid, lid, l, rev) => {
                forms::lemma_normal_listener_set(st, sid, lid, l, rev);
            },
            StateChange::PatchListener(sid, lid, p, rev) => {
                if let Ok(l) = state::found_listener(st, sid, lid) {
                    forms::lemma_normal_listener_set(
                        st,
                        sid,
                        lid,
                        state::patched_listener(l, p),
                        rev,
                    );
                }
            },
            StateChange::RemoveListener(sid, lid, rev) => {
                forms::lemma_normal_listener_removed(st, sid, lid, rev);
            },
            StateChange::SetRoute(sid, rid, r, rev) => {
                forms::lemma_normal_route_set(st, sid, rid, r, rev);
            },
            StateChange::PatchRoute(sid, rid, p, rev) => {
                if let Ok(r) = state::found_route(st, sid, rid) {
                    forms::lemma_normal_route_set(st, sid, rid, state::patched_route(r, p), rev);
                }
            },
            StateChange::RemoveRoute(sid, rid, rev) => {
                forms::lemma_normal_route_removed(st, sid, rid, rev);
            },
            StateChange::SetTarget(sid, rid, gid, tid, t, rev) => {
                forms::lemma_normal_target_set(st, sid, rid, gid, tid, t, rev);
            },
            StateChange::PatchTarget(sid, rid, gid, tid, p, rev) => {
                if let Ok(t) = state::found_target(st, sid, rid, gid, tid) {
                    forms::lemma_normal_target_set(
                        st,
                        sid,
                        rid,
                        gid,
                        tid,
                        state::patched_target(t, p),
                        rev,
                    );
                }
            },
            StateChange::RemoveTarget(sid, rid, gid, tid, rev) => {
                forms::lemma_normal_target_removed(st, sid, rid, gid, tid, rev);
            },
            StateChange::MoveTarget(sid, rid, gid, tid, to, error) => {
                forms::lemma_normal_target_moved(st, sid, rid, gid, tid, to, error);
            },
        }
    }
}

// ---------------------------------------------------------------------------
// Listeners
// ---------------------------------------------------------------------------

/// The listeners of a sound service speak each a protocol of its own.
proof fn lemma_protocols_differ(ls: Seq<RuntimeListenerView>, i: int)
    requires
        0 <= i,
        validate::listeners_fault(ls, i) is None,
    ensures
        forall|a: int, b: int|
            0 <= a < b < ls.len() && i <= b ==> (#[trigger] ls[a]).protocol != (
            #[trigger] ls[b]).protocol,
    decreases ls.len() - i,
{
    if i < ls.len() {
        lemma_protocols_differ(ls, i + 1);
        assert forall|a: int, b: int| 0 <= a < b < ls.len() && i <= b implies (
        #[trigger] ls[a]).protocol != (#[trigger] ls[b]).protocol by {
            if b == i {
                assert(!(exists|j: int|
                    0 <= j < i && (#[trigger] ls[j]).protocol == ls[i].protocol));
            }
        }
    }
}

/// Listeners that were sorted are in order.
proof fn lemma_listeners_in_order(s: Seq<RuntimeListenerView>)
    ensures
        laws::in_order::<RuntimeListener>(ranking::sorted::<RuntimeListener>(s)),
{
    assert forall|a: RuntimeListenerView, b: RuntimeListenerView| #[trigger]
        <RuntimeListener as ranking::Ranked>::precedes(a, b) implies !<RuntimeListener as ranking::Ranked>::precedes(
        b,
        a,
    ) by {
        sorted_map::lemma_text_before_total(a.id, b.id);
    }
    assert forall|a: RuntimeListenerView, b: RuntimeListenerView, c: RuntimeListenerView|
        !#[trigger] <RuntimeListener as ranking::Ranked>::precedes(b, a) && !#[trigger]
            <RuntimeListener as ranking::Ranked>::precedes(c, b) implies !<RuntimeListener as ranking::Ranked>::precedes(
        c,
        a,
    ) by {
        laws::lemma_not_before_transitive(a.id, b.id, c.id);
    }
    ranking::lemma_sorted_in_order::<RuntimeListener>(s);
}

/// A listener that was set, in whatever state, has the trimmed id and the protocol
/// that were asked for and is read back so. In the list of the service ids ascend and
/// no protocol occurs twice. The service has the revision of the state, which is the
/// next one.
pub proof fn lemma_upsert_listener(
    st: RuntimeStateView,
    sid: Seq<char>,
    lid: Seq<char>,
    l: RuntimeListenerView,
    expected: Option<u64>,
)
    ensures
        state::listener_set(st, sid, lid, l, expected) matches Ok((next, n)) ==> {
            &&& n.id == text::trimmed(lid)
            &&& n.protocol == l.protocol
            &&& state::found_listener(next, sid, n.id) == Ok::<_, RuntimeServiceErrorView>(n)
            &&& state::listed_listeners(next, sid) matches Ok(ls) && ls.contains(n) && (forall|
                i: int,
                j: int,
            |
                0 <= i < j < ls.len() ==> sorted_map::text_before(
                    (#[trigger] ls[i]).id,
                    (#[trigger] ls[j]).id,
                ) && ls[i].protocol != ls[j].protocol)
            &&& state::found_service(next, sid) matches Ok(s) && s.revision == next.revision
            &&& next.revision == state::bumped(st.revision)
        },
{
    if let Ok((next, n)) = state::listener_set(st, sid, lid, l, expected) {
        laws::lemma_set_listener_then_get(st, sid, lid, l, expected);
        let s = state::found_service(st, sid)->Ok_0;
        let all = state::with_part::<RuntimeListener>(s.listeners, n);
        let s1 = normalize::service_in_order(RuntimeServiceView { listeners: all, ..s });
        laws::lemma_revised_service(st, sid, s1);
        laws::lemma_committed_sound(st, sid, s1);
        let s2 = RuntimeServiceView { revision: state::bumped(st.revision), ..s1 };
        laws::lemma_sound_distinct(s2);
        lemma_protocols_differ(s2.listeners, 0);
        lemma_listeners_in_order(all);
        let ls = s2.listeners;
        state::lemma_at::<RuntimeListener>(ls, n.id, 0);
        assert forall|i: int, j: int| 0 <= i < j < ls.len() implies sorted_map::text_before(
            (#[trigger] ls[i]).id,
            (#[trigger] ls[j]).id,
        ) by {
            assert(!<RuntimeListener as ranking::Ranked>::precedes(ls[j], ls[i]));
            assert(<RuntimeListener as state::Identified>::id_of(ls[i])
                != <RuntimeListener as state::Identified>::id_of(ls[j]));
            sorted_map::lemma_text_before_total(ls[i].id, ls[j].id);
        }
    }
}

// ---------------------------------------------------------------------------
// Routes
// ---------------------------------------------------------------------------

/// A route that was set has the trimmed id and is read back. Its hosts ascend and are
/// in lower case, trimmed and not empty. In the list of the service no id occurs twice,
/// and a route with a path prefix of more than one byte comes before every route with
/// a shorter one.
pub proof fn lemma_upsert_route(
    st: RuntimeStateView,
    sid: Seq<char>,
    rid: Seq<char>,
    r: RuntimeRouteView,
    expected: Option<u64>,
)
    requires
        forms::state_normal(st),
    ensures
        state::route_set(st, sid, rid, r, expected) matches Ok((next, n)) ==> {
            &&& n.id == text::trimmed(rid)
            &&& state::found_route(next, sid, n.id) == Ok::<_, RuntimeServiceErrorView>(n)
            &&& forall|i: int, j: int|
                0 <= i < j < n.hosts.len() ==> sorted_map::text_before(
                    #[trigger] n.hosts[i],
                    #[trigger] n.hosts[j],
                )
            &&& forall|i: int|
                0 <= i < n.hosts.len() ==> (#[trigger] n.hosts[i]).len() > 0 && text::trimmed(
                    n.hosts[i],
                ) == n.hosts[i] && text::lowered(n.hosts[i]) == n.hosts[i]
            &&& state::listed_routes(next, sid) matches Ok(rs) && rs.contains(n) && (forall|
                i: int,
                j: int,
            |
                0 <= i < j < rs.len() ==> (#[trigger] rs[i]).id != (#[trigger] rs[j]).id)
                && (forall|i: int, j: int|
                0 <= i < rs.len() && 0 <= j < rs.len() && 1 < forms::prefix_len(#[trigger] rs[i])
                    < usize::MAX && forms::prefix_len(#[trigger] rs[j]) < forms::prefix_len(rs[i])
                    ==> i < j)
            &&& forms::state_normal(next)
        },
{
    forms::lemma_set_route_listed(st, sid, rid, r, expected);
    if let Ok((next, n)) = state::route_set(st, sid, rid, r, expected) {
        forms::lemma_routes_listed(next, sid);
        let rs = state::found_service(next, sid)->Ok_0.routes;
        assert forall|i: int, j: int| 0 <= i < j < rs.len() implies (#[trigger] rs[i]).id != (
        #[trigger] rs[j]).id by {
            assert(<RuntimeRoute as state::Identified>::id_of(rs[i])
                != <RuntimeRoute as state::Identified>::id_of(rs[j]));
        }
        assert forall|i: int| 0 <= i < n.hosts.len() implies (#[trigger] n.hosts[i]).len() > 0
            && text::trimmed(n.hosts[i]) == n.hosts[i] && text::lowered(n.hosts[i])
            == n.hosts[i] by {
            assert(forms::clean_host(n.hosts[i]));
        }
    }
}

/// A patch of a route that says nothing hands the route back as it was. Nothing else
/// changes in the state but the revision of the state and that of the service, which
/// are both the next one.
pub proof fn lemma_patch_route_empty(st: RuntimeStateView, sid: Seq<char>, rid: Seq<char>)
    requires
        forms::state_normal(st),
        state::found_route(st, sid, rid) is Ok,
        ({
            let prefix = state::found_route(st, sid, rid)->Ok_0.path_prefix;
            prefix.len() > 0 && forall|i: int|
                0 <= i < prefix.len() ==> !text::is_space(#[trigger] prefix[i])
        }),
    ensures
        ({
            let nothing = RuntimeRoutePatchView {
                hosts: None,
                path_prefix: None,
                matchers: None,
                strip_path_prefix: None,
                lb: None,
                lb_header: None,
                lb_cookie: None,
                target_groups: None,
                health_check: None,
            };
            let s = state::found_service(st, sid)->Ok_0;
            &&& state::route_patched(st, sid, rid, nothing, None) matches Ok((next, r)) && {
                &&& r == state::found_route(st, sid, rid)->Ok_0
                &&& next.revision == state::bumped(st.revision)
                &&& st.revision < u64::MAX ==> next.revision == st.revision + 1
                &&& next.version == st.version
                &&& next.services.len() == st.services.len()
                &&& forall|k: int|
                    0 <= k < st.services.len() ==> (#[trigger] next.services[k]).0
                        == st.services[k].0 && next.services[k].1 == (if st.services[k].0 == sid {
                        RuntimeServiceView { revision: next.revision, ..st.services[k].1 }
                    } else {
                        st.services[k].1
                    })
            }
        }),
{
    let nothing = RuntimeRoutePatchView {
        hosts: None,
        path_prefix: None,
        matchers: None,
        strip_path_prefix: None,
        lb: None,
        lb_header: None,
        lb_cookie: None,
        target_groups: None,
        health_check: None,
    };
    forms::lemma_empty_patch(st, sid, rid, nothing);
    forms::lemma_services_listed(st);
    sorted_map::lemma_position(st.services, sid, 0);
    let p = sorted_map::position(st.services, sid, 0)->0;
    let next = state::revised(st, sid, state::found_service(st, sid)->Ok_0);
    assert forall|k: int| 0 <= k < st.services.len() implies (#[trigger] next.services[k]).0
        == st.services[k].0 && next.services[k].1 == (if st.services[k].0 == sid {
        RuntimeServiceView { revision: next.revision, ..st.services[k].1 }
    } else {
        st.services[k].1
    }) by {
        assert(st.services[k].1.id == st.services[k].0);
        if k != p && st.services[k].0 == sid {
            let (a, b) = if k < p {
                (k, p)
            } else {
                (p, k)
            };
            assert(sorted_map::text_before(st.services[a].1.id, st.services[b].1.id));
            assert(st.services[p].1.id == st.services[p].0);
            sorted_map::lemma_text_before_total(sid, sid);
        }
    }
}

// ---------------------------------------------------------------------------
// Targets
// ---------------------------------------------------------------------------

/// Removing a target from a valid state hands back the one that was found under its id,
/// which is then not known. The list of the targets of the route has the same members
/// as before but for this one, and the group stays, even where it is left empty. Every
/// other service is as it was, and the revision of the state is the next one.
pub proof fn lemma_remove_target(
    st: RuntimeStateView,
    sid: Seq<char>,
    rid: Seq<char>,
    gid: Seq<char>,
    tid: Seq<char>,
    expected: Option<u64>,
)
    requires
        validate::state_fault(st) is None,
    ensures
        state::target_removed(st, sid, rid, gid, tid, expected) matches Ok((next, x)) ==> {
            &&& state::found_target(st, sid, rid, gid, tid) == Ok::<_, RuntimeServiceErrorView>(x)
            &&& state::found_target(next, sid, rid, gid, tid) == Err::<RuntimeTargetView, _>(
                RuntimeServiceErrorView::UnknownTarget {
                    service_id: sid,
                    route_id: rid,
                    group_id: gid,
                    target_id: tid,
                },
            )
            &&& state::listed_route_targets(st, sid, rid) matches Ok(before)
                && state::listed_route_targets(next, sid, rid) matches Ok(after)
                && before.contains(RuntimeTargetRefView { group_id: gid, target: x })
                && after.to_multiset() == before.to_multiset().remove(
                RuntimeTargetRefView { group_id: gid, target: x },
            )
            &&& state::listed_targets(next, sid, rid, gid) is Ok
            &&& forall|q: Seq<char>|
                q != sid ==> #[trigger] sorted_map::lookup(next.services, q)
                    == sorted_map::lookup(st.services, q)
            &&& next.revision == state::bumped(st.revision)
        },
{
    forms::lemma_removed_target_leaves_rest(st, sid, rid, gid, tid, expected);
}

/// Two services that are the same but for their revision and for one target, which is
/// `t` in the second: the one under `tid` in the group `gid` of the route `rid`.
pub open spec fn same_but_target(
    a: RuntimeServiceView,
    b: RuntimeServiceView,
    i: int,
    k: int,
    n: int,
    t: RuntimeTargetView,
) -> bool {
    &&& 0 <= i < a.routes.len()
    &&& 0 <= k < a.routes[i].target_groups.len()
    &&& 0 <= n < a.routes[i].target_groups[k].targets.len()
    &&& b == (RuntimeServiceView {
        revision: b.revision,
        routes: a.routes.update(
            i,
            state::route_with_targets(
                a.routes[i],
                k,
                a.routes[i].target_groups[k].targets.update(n, t),
            ),
        ),
        ..a
    })
}

/// Moving a target, in whatever state, hands it back in the new state, with the error
/// where this is failure and with no error otherwise, and with its id, address, weight
/// and time to drain as they were; so it is read back. The service has the revision of
/// the state, which is the next one. Every other target of the service and every other
/// service is as it was.
pub proof fn lemma_set_target_state(
    st: RuntimeStateView,
    sid: Seq<char>,
    rid: Seq<char>,
    gid: Seq<char>,
    tid: Seq<char>,
    to: RuntimeTargetState,
    error: Option<Seq<char>>,
)
    ensures
        state::target_moved(st, sid, rid, gid, tid, to, error) matches Ok((next, t)) ==> {
            &&& state::found_target(st, sid, rid, gid, tid) matches Ok(was) && t
                == (RuntimeTargetView {
                state: to,
                last_error: if to == RuntimeTargetState::Failed {
                    error
                } else {
                    None
                },
                ..was
            })
            &&& state::found_target(next, sid, rid, gid, tid) == Ok::<_, RuntimeServiceErrorView>(t)
            &&& next.revision == state::bumped(st.revision)
            &&& state::found_service(st, sid) matches Ok(a) && state::found_service(
                next,
                sid,
            ) matches Ok(b) && b.revision == next.revision && exists|i: int, k: int, n: int|
                #[trigger] same_but_target(a, b, i, k, n, t) && a.routes[i].id == rid
                    && a.routes[i].target_groups[k].id == gid
                    && a.routes[i].target_groups[k].targets[n].id == tid
            &&& forall|r: Seq<char>, g: Seq<char>, x: Seq<char>|
                (r, g, x) != (rid, gid, tid) ==> #[trigger] state::found_target(next, sid, r, g, x)
                    == state::found_target(st, sid, r, g, x)
            &&& forall|q: Seq<char>|
                q != sid ==> #[trigger] sorted_map::lookup(next.services, q)
                    == sorted_map::lookup(st.services, q)
        },
{
    if let Ok((next, t)) = state::target_moved(st, sid, rid, gid, tid, to, error) {
        let a = state::found_service(st, sid)->Ok_0;
        let (i, k) = state::group_place(a, sid, rid, gid)->Ok_0;
        state::lemma_at::<RuntimeRoute>(a.routes, rid, 0);
        let r = a.routes[i];
        state::lemma_at::<RuntimeTargetGroup>(r.target_groups, gid, 0);
        let ts = r.target_groups[k].targets;
        state::lemma_at::<RuntimeTarget>(ts, tid, 0);
        let n = state::at::<RuntimeTarget>(ts, tid, 0)->0;
        let r1 = state::route_with_targets(r, k, ts.update(n, t));
        let s1 = RuntimeServiceView { routes: a.routes.update(i, r1), ..a };
        laws::lemma_revised_service(st, sid, s1);
        let b = state::found_service(next, sid)->Ok_0;
        assert(same_but_target(a, b, i, k, n, t));
        assert forall|x: Seq<char>, y: Seq<char>, z: Seq<char>|
            (#[trigger] state::found_target(next, sid, x, y, z)) == (if (x, y, z) == (
                rid,
                gid,
                tid,
            ) {
                Ok(t)
            } else {
                state::found_target(st, sid, x, y, z)
            }) by {
            lemma_same_place::<RuntimeRoute>(a.routes, b.routes, x);
            if let Some(p) = state::at::<RuntimeRoute>(a.routes, x, 0) {
                state::lemma_at::<RuntimeRoute>(a.routes, x, 0);
                let (gs, hs) = (a.routes[p].target_groups, b.routes[p].target_groups);
                lemma_same_place::<RuntimeTargetGroup>(gs, hs, y);
                if let Some(q) = state::at::<RuntimeTargetGroup>(gs, y, 0) {
                    state::lemma_at::<RuntimeTargetGroup>(gs, y, 0);
                    lemma_same_place::<RuntimeTarget>(gs[q].targets, hs[q].targets, z);
                    state::lemma_at::<RuntimeTarget>(gs[q].targets, z, 0);
                }
            }
        }
    }
}

/// Parts with the same ids in the same order stand in the same places.
proof fn lemma_same_place<T: state::Identified>(s: Seq<T::V>, t: Seq<T::V>, id: Seq<char>)
    requires
        s.len() == t.len(),
        forall|i: int| 0 <= i < s.len() ==> T::id_of(#[trigger] s[i]) == T::id_of(t[i]),
    ensures
        state::at::<T>(s, id, 0) == state::at::<T>(t, id, 0),
{
    state::lemma_at::<T>(s, id, 0);
    state::lemma_at::<T>(t, id, 0);
    match (state::at::<T>(s, id, 0), state::at::<T>(t, id, 0)) {
        (Some(a), Some(b)) => {
            assert(T::id_of(s[b]) == T::id_of(t[b]));
            assert(T::id_of(s[a]) == T::id_of(t[a]));
        },
        (Some(a), None) => {
            assert(T::id_of(s[a]) == T::id_of(t[a]));
        },
        (None, Some(b)) => {
            assert(T::id_of(s[b]) == T::id_of(t[b]));
        },
        (None, None) => {},
    }
}

} // verus!
