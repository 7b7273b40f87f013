//! A route holds one target under one id, over all of its groups.

use vstd::prelude::*;
use crate::ranking;
use crate::runtime_services::forms;
use crate::runtime_services::laws;
use crate::runtime_services::normalize;
use crate::runtime_services::state;
use crate::runtime_services::types::{
    RouteBindingView, RuntimeListenerProtocol, RuntimeRoute, RuntimeRouteView,
    RuntimeServiceErrorView, RuntimeServiceView, RuntimeStateView, RuntimeTarget,
    RuntimeTargetGroup, RuntimeTargetGroupView, RuntimeTargetView,
};
use crate::runtime_services::validate;
use crate::sorted_map;
use crate::text;

verus! {

/// No two targets of the groups, in one group or in two, have one id.
pub open spec fn target_ids_differ(gs: Seq<RuntimeTargetGroupView>) -> bool {
    forall|a: int, i: int, b: int, j: int|
        0 <= a < gs.len() && 0 <= i < gs[a].targets.len() && 0 <= b < gs.len() && 0 <= j
            < gs[b].targets.len() && (#[trigger] gs[a].targets[i]).id == (
        #[trigger] gs[b].targets[j]).id ==> a == b && i == j
}

/// The ids that are taken, once those of a group are added.
proof fn lemma_taken(seen: Seq<Seq<char>>, ts: Seq<RuntimeTargetView>)
    ensures
        forall|x: Seq<char>|
            seen.contains(x) ==> #[trigger] (seen + validate::target_ids(ts)).contains(x),
        forall|j: int|
            0 <= j < ts.len() ==> (seen + validate::target_ids(ts)).contains((#[trigger] ts[j]).id),
        forall|x: Seq<char>| #[trigger]
            (seen + validate::target_ids(ts)).contains(x) && !seen.contains(x) ==> exists|j: int|
                0 <= j < ts.len() && (#[trigger] ts[j]).id == x,
{
    let ids = validate::target_ids(ts);
    let all = seen + ids;
    assert forall|x: Seq<char>| seen.contains(x) implies #[trigger] all.contains(x) by {
        let k = choose|k: int| 0 <= k < seen.len() && seen[k] == x;
        assert(all[k] == x);
    }
    assert forall|j: int| 0 <= j < ts.len() implies all.contains((#[trigger] ts[j]).id) by {
        assert(all[seen.len() + j] == ts[j].id);
    }
    assert forall|x: Seq<char>| #[trigger] all.contains(x) && !seen.contains(x) implies exists|j: int|
        0 <= j < ts.len() && (#[trigger] ts[j]).id == x by {
        let k = choose|k: int| 0 <= k < all.len() && all[k] == x;
        if k < seen.len() {
            assert(seen[k] == x);
        } else {
            assert(ts[k - seen.len()].id == x);
        }
    }
}

/// In groups without a fault no id is taken twice.
proof fn lemma_groups_differ(gs: Seq<RuntimeTargetGroupView>, m: int, seen: Seq<Seq<char>>)
    requires
        0 <= m,
        validate::groups_fault(gs, m, seen) is None,
    ensures
        forall|a: int, i: int|
            m <= a < gs.len() && 0 <= i < gs[a].targets.len() ==> !seen.contains(
                (#[trigger] gs[a].targets[i]).id,
            ),
        forall|a: int, i: int, b: int, j: int|
            m <= a < gs.len() && 0 <= i < gs[a].targets.len() && m <= b < gs.len() && 0 <= j
                < gs[b].targets.len() && (#[trigger] gs[a].targets[i]).id == (
            #[trigger] gs[b].targets[j]).id ==> a == b && i == j,
    decreases gs.len() - m,
{
    if m < gs.len() {
        let ts = gs[m].targets;
        let next = seen + validate::target_ids(ts);
        laws::lemma_targets_distinct(ts, 0, seen);
        lemma_taken(seen, ts);
        lemma_groups_differ(gs, m + 1, next);
        assert forall|a: int, i: int|
            m <= a < gs.len() && 0 <= i < gs[a].targets.len() implies !seen.contains(
            (#[trigger] gs[a].targets[i]).id,
        ) by {
            if a > m && seen.contains(gs[a].targets[i].id) {
                assert(next.contains(gs[a].targets[i].id));
            }
        }
        assert forall|a: int, i: int, b: int, j: int|
            m <= a < gs.len() && 0 <= i < gs[a].targets.len() && m <= b < gs.len() && 0 <= j
                < gs[b].targets.len() && (#[trigger] gs[a].targets[i]).id == (
            #[trigger] gs[b].targets[j]).id implies a == b && i == j by {
            if a == m && b > m {
                assert(next.contains(ts[i].id));
            } else if b == m && a > m {
                assert(next.contains(ts[j].id));
            }
        }
    }
}

/// In every state that is in order, the ids of the targets of a route differ, over all
/// of its groups.
pub proof fn lemma_target_ids_differ(st: RuntimeStateView, sid: Seq<char>, rid: Seq<char>)
    requires
        forms::state_normal(st),
    ensures
        state::found_route(st, sid, rid) matches Ok(r) ==> target_ids_differ(r.target_groups),
{
    forms::lemma_found_normal(st, sid);
    if let Ok(s) = state::found_service(st, sid) {
        state::lemma_at::<RuntimeRoute>(s.routes, rid, 0);
        if let Some(i) = state::at::<RuntimeRoute>(s.routes, rid, 0) {
            assert(validate::route_fault(s.routes[i]) is None);
            lemma_groups_differ(s.routes[i].target_groups, 0, seq![]);
        }
    }
}

// ---------------------------------------------------------------------------
// An id that another group holds
// ---------------------------------------------------------------------------

/// No two targets of a list have one id.
spec fn ids_differ(ts: Seq<RuntimeTargetView>) -> bool {
    forall|i: int, j: int|
        0 <= i < ts.len() && 0 <= j < ts.len() && (#[trigger] ts[i]).id == (#[trigger] ts[j]).id
            ==> i == j
}

/// Sorting targets with ids of their own leaves them so.
proof fn lemma_sorted_differ(ts: Seq<RuntimeTargetView>)
    requires
        ids_differ(ts),
    ensures
        ids_differ(ranking::sorted::<RuntimeTarget>(ts)),
    decreases ts.len(),
{
    if ts.len() > 0 {
        let rest = ts.drop_last();
        assert forall|i: int, j: int|
            0 <= i < rest.len() && 0 <= j < rest.len() && (#[trigger] rest[i]).id == (
            #[trigger] rest[j]).id implies i == j by {
            assert(ts[i].id == ts[j].id);
        }
        lemma_sorted_differ(rest);
        let done = ranking::sorted::<RuntimeTarget>(rest);
        let p = ranking::place::<RuntimeTarget>(done, ts.last(), 0);
        ranking::lemma_place::<RuntimeTarget>(done, ts.last(), 0);
        assert forall|i: int| 0 <= i < done.len() implies (#[trigger] done[i]).id
            != ts.last().id by {
            ranking::lemma_sorted_keeps::<RuntimeTarget>(rest);
            ranking::lemma_sorted_member::<RuntimeTarget>(rest, i);
            let k = choose|k: int| 0 <= k < rest.len() && rest[k] == done[i];
            assert(ts[k] == done[i]);
            if done[i].id == ts.last().id {
                assert(ts[k].id == ts[ts.len() - 1].id);
            }
        }
        let all = done.insert(p, ts.last());
        assert forall|i: int, j: int|
            0 <= i < all.len() && 0 <= j < all.len() && (#[trigger] all[i]).id == (
            #[trigger] all[j]).id implies i == j by {
            let x = if i < p {
                i
            } else {
                i - 1
            };
            let y = if j < p {
                j
            } else {
                j - 1
            };
            if i != p {
                assert(all[i] == done[x]);
            }
            if j != p {
                assert(all[j] == done[y]);
            }
            if i != p && j != p {
                assert(done[x].id == done[y].id);
            }
        }
    }
}

/// The fault of normal targets of which only the one under `x` may be taken.
proof fn lemma_targets_clash(
    ts: Seq<RuntimeTargetView>,
    j: int,
    seen: Seq<Seq<char>>,
    x: Seq<char>,
)
    requires
        0 <= j <= ts.len(),
        forms::targets_normal(ts),
        ids_differ(ts),
        forall|a: int|
            j <= a < ts.len() && seen.contains((#[trigger] ts[a]).id) ==> ts[a].id == x,
    ensures
        validate::targets_fault(ts, j, seen) == (if seen.contains(x) && exists|a: int|
            j <= a < ts.len() && (#[trigger] ts[a]).id == x {
            Some(RuntimeServiceErrorView::DuplicateTargetId(x))
        } else {
            None
        }),
    decreases ts.len() - j,
{
    if j < ts.len() {
        assert(forms::target_normal(ts[j]));
        if !seen.contains(ts[j].id) {
            let next = seen.push(ts[j].id);
            assert forall|y: Seq<char>| #[trigger] next.contains(y) == (seen.contains(y) || y
                == ts[j].id) by {
                if seen.contains(y) {
                    let k = choose|k: int| 0 <= k < seen.len() && seen[k] == y;
                    assert(next[k] == y);
                }
                if next.contains(y) {
                    let k = choose|k: int| 0 <= k < next.len() && next[k] == y;
                    if k < seen.len() {
                        assert(seen[k] == y);
                    }
                }
                assert(next[seen.len() as int] == ts[j].id);
            }
            assert forall|a: int|
                j + 1 <= a < ts.len() && next.contains((#[trigger] ts[a]).id) implies ts[a].id
                == x by {
                assert(ts[a].id != ts[j].id);
            }
            lemma_targets_clash(ts, j + 1, next, x);
            if seen.contains(x) && exists|a: int| j <= a < ts.len() && (#[trigger] ts[a]).id == x {
                let a = choose|a: int| j <= a < ts.len() && (#[trigger] ts[a]).id == x;
                assert(a != j);
                assert(j + 1 <= a && ts[a].id == x);
            } else if exists|a: int| j + 1 <= a < ts.len() && (#[trigger] ts[a]).id == x {
                let a = choose|a: int| j + 1 <= a < ts.len() && (#[trigger] ts[a]).id == x;
                assert(ts[a].id != ts[j].id);
                assert(!next.contains(x));
            }
        }
    }
}

/// The fault of groups in which the target in group `q` under `x`, and no other, is
/// taken before.
proof fn lemma_groups_clash(
    gs: Seq<RuntimeTargetGroupView>,
    m: int,
    seen: Seq<Seq<char>>,
    q: int,
    x: Seq<char>,
)
    requires
        0 <= m <= q < gs.len(),
        forall|a: int| 0 <= a < gs.len() ==> forms::clean_id((#[trigger] gs[a]).id),
        forall|a: int, b: int| 0 <= a < b < gs.len() ==> (#[trigger] gs[a]).id != (#[trigger] gs[b]).id,
        forall|a: int|
            0 <= a < gs.len() ==> forms::targets_normal((#[trigger] gs[a]).targets) && ids_differ(
                gs[a].targets,
            ),
        forall|a: int, i: int, b: int, j: int|
            0 <= a < b < gs.len() && 0 <= i < gs[a].targets.len() && 0 <= j < gs[b].targets.len()
                && (#[trigger] gs[a].targets[i]).id == (#[trigger] gs[b].targets[j]).id ==> b == q
                && gs[b].targets[j].id == x,
        exists|j: int| 0 <= j < gs[q].targets.len() && (#[trigger] gs[q].targets[j]).id == x,
        seen.contains(x) || exists|a: int, i: int|
            m <= a < q && 0 <= i < gs[a].targets.len() && (#[trigger] gs[a].targets[i]).id == x,
        forall|a: int, i: int|
            m <= a < gs.len() && 0 <= i < gs[a].targets.len() && seen.contains(
                (#[trigger] gs[a].targets[i]).id,
            ) ==> a == q && gs[a].targets[i].id == x,
    ensures
        validate::groups_fault(gs, m, seen) == Some(
            RuntimeServiceErrorView::DuplicateTargetId(x),
        ),
    decreases q - m,
{
    let ts = gs[m].targets;
    assert(forms::clean_id(gs[m].id));
    assert(!(exists|j: int| 0 <= j < m && (#[trigger] gs[j]).id == gs[m].id));
    lemma_targets_clash(ts, 0, seen, x);
    if m < q {
        let next = seen + validate::target_ids(ts);
        lemma_taken(seen, ts);
        if seen.contains(x) && exists|a: int| 0 <= a < ts.len() && (#[trigger] ts[a]).id == x {
            let a = choose|a: int| 0 <= a < ts.len() && (#[trigger] ts[a]).id == x;
            assert(seen.contains(gs[m].targets[a].id));
        }
        assert(validate::targets_fault(ts, 0, seen) is None);
        if !seen.contains(x) {
            let (a, i) = choose|a: int, i: int|
                m <= a < q && 0 <= i < gs[a].targets.len() && (#[trigger] gs[a].targets[i]).id == x;
            if a == m {
                assert(next.contains(ts[i].id));
            } else {
                assert(m + 1 <= a && gs[a].targets[i].id == x);
            }
        }
        assert forall|a: int, i: int|
            m + 1 <= a < gs.len() && 0 <= i < gs[a].targets.len() && next.contains(
                (#[trigger] gs[a].targets[i]).id,
            ) implies a == q && gs[a].targets[i].id == x by {
            let y = gs[a].targets[i].id;
            if !seen.contains(y) {
                let j = choose|j: int| 0 <= j < ts.len() && (#[trigger] ts[j]).id == y;
                assert(gs[m].targets[j].id == gs[a].targets[i].id);
            }
        }
        lemma_groups_clash(gs, m + 1, next, q, x);
    } else {
        let j = choose|j: int| 0 <= j < gs[q].targets.len() && (#[trigger] gs[q].targets[j]).id == x;
        assert(ts[j].id == x);
    }
}

/// Two lists of routes that differ in their groups only.
spec fn same_but_groups(a: Seq<RuntimeRouteView>, b: Seq<RuntimeRouteView>) -> bool {
    &&& a.len() == b.len()
    &&& forall|i: int|
        0 <= i < a.len() ==> (#[trigger] a[i]) == (RuntimeRouteView {
            target_groups: a[i].target_groups,
            ..b[i]
        })
}

proof fn lemma_route_ids_same(a: Seq<RuntimeRouteView>, b: Seq<RuntimeRouteView>, i: int)
    requires
        0 <= i,
        same_but_groups(a, b),
    ensures
        validate::route_ids_fault(a, i) == validate::route_ids_fault(b, i),
        validate::routes_name(a, i) == validate::routes_name(b, i),
    decreases a.len() - i,
{
    if i < a.len() {
        lemma_route_ids_same(a, b, i + 1);
        assert(a[i].id == b[i].id && a[i].hosts == b[i].hosts);
        if exists|j: int| 0 <= j < i && (#[trigger] a[j]).id == a[i].id {
            let j = choose|j: int| 0 <= j < i && (#[trigger] a[j]).id == a[i].id;
            assert(b[j].id == b[i].id);
        }
        if exists|j: int| 0 <= j < i && (#[trigger] b[j]).id == b[i].id {
            let j = choose|j: int| 0 <= j < i && (#[trigger] b[j]).id == b[i].id;
            assert(a[j].id == a[i].id);
        }
        assert(normalize::route_hosts(a[i]) == normalize::route_hosts(b[i]));
    }
}

/// A service as such does not depend on the groups of its routes.
proof fn lemma_service_fault_same(
    s: RuntimeServiceView,
    t: RuntimeServiceView,
    claims: validate::TlsClaims,
)
    requires
        same_but_groups(s.routes, t.routes),
        s == (RuntimeServiceView { routes: s.routes, revision: s.revision, ..t }),
    ensures
        validate::service_fault(s) == validate::service_fault(t),
        validate::claims_with(claims, s) == validate::claims_with(claims, t),
{
    lemma_route_ids_same(s.routes, t.routes, 0);
    let all = "*"@;
    if validate::answers_all(s.routes) {
        let i = choose|i: int|
            0 <= i < s.routes.len() && normalize::route_hosts(#[trigger] s.routes[i]).contains(all);
        assert(normalize::route_hosts(t.routes[i]).contains(all));
    }
    if validate::answers_all(t.routes) {
        let i = choose|i: int|
            0 <= i < t.routes.len() && normalize::route_hosts(#[trigger] t.routes[i]).contains(all);
        assert(s.routes[i].hosts == t.routes[i].hosts);
        assert(normalize::route_hosts(s.routes[i]).contains(all));
    }
}

/// The first route with a fault decides.
proof fn lemma_routes_refused(
    done: Seq<RouteBindingView>,
    id: Seq<char>,
    rs: Seq<RuntimeRouteView>,
    ps: Seq<RuntimeListenerProtocol>,
    j: int,
    i: int,
)
    requires
        0 <= j <= i < rs.len(),
        forall|k: int| j <= k < i ==> validate::route_fault(#[trigger] rs[k]) is None,
        validate::route_fault(rs[i]) is Some,
    ensures
        validate::bind_routes(done, id, rs, ps, j) == Err::<Seq<RouteBindingView>, _>(
            validate::route_fault(rs[i])->0,
        ),
    decreases i - j,
{
    if j < i {
        assert(validate::route_fault(rs[j]) is None);
        lemma_routes_refused(
            done + validate::host_bindings(id, rs[j], ps, normalize::route_hosts(rs[j]), 0),
            id,
            rs,
            ps,
            j + 1,
            i,
        );
    }
}

/// A state that is valid but for one route is refused for the fault of that route.
proof fn lemma_survey_refused(
    es: Seq<(Seq<char>, RuntimeServiceView)>,
    p: int,
    s: RuntimeServiceView,
    i: int,
    m: int,
    claims: validate::TlsClaims,
    bs: Seq<RouteBindingView>,
)
    requires
        0 <= m <= p < es.len(),
        validate::survey(es, m, claims, bs) is Ok,
        same_but_groups(s.routes, es[p].1.routes),
        s == (RuntimeServiceView { routes: s.routes, revision: s.revision, ..es[p].1 }),
        0 <= i < s.routes.len(),
        forall|k: int| 0 <= k < i ==> validate::route_fault(#[trigger] s.routes[k]) is None,
        validate::route_fault(s.routes[i]) is Some,
    ensures
        validate::survey(es.update(p, (es[p].0, s)), m, claims, bs) == Err::<
            Seq<RouteBindingView>,
            _,
        >(validate::route_fault(s.routes[i])->0),
    decreases p - m,
{
    let next = es.update(p, (es[p].0, s));
    let t = es[m].1;
    let ps = validate::protocols(t.listeners);
    if m < p {
        assert(next[m] == es[m]);
        lemma_survey_refused(
            es,
            p,
            s,
            i,
            m + 1,
            validate::claims_with(claims, t)->Ok_0,
            validate::bind_routes(bs, t.id, t.routes, ps, 0)->Ok_0,
        );
    } else {
        assert(next[m].1 == s);
        lemma_service_fault_same(s, t, claims);
        lemma_routes_refused(bs, s.id, s.routes, ps, 0, i);
    }
}

/// Setting a target in one group under an id that another group of the route holds is
/// refused.
pub proof fn lemma_taken_target_refused(
    st: RuntimeStateView,
    sid: Seq<char>,
    rid: Seq<char>,
    gid: Seq<char>,
    other: Seq<char>,
    tid: Seq<char>,
    t: RuntimeTargetView,
    expected: Option<u64>,
)
    requires
        forms::state_normal(st),
        state::opened(st, sid, expected) is Ok,
        state::found_group(st, sid, rid, gid) is Ok,
        gid != other,
        state::found_target(st, sid, rid, other, text::trimmed(tid)) is Ok,
        text::trimmed(t.addr).len() > 0,
    ensures
        state::target_set(st, sid, rid, gid, tid, t, expected) == Err::<
            (RuntimeStateView, RuntimeTargetView),
            _,
        >(RuntimeServiceErrorView::DuplicateTargetId(text::trimmed(tid))),
{
    let x = text::trimmed(tid);
    let s = state::found_service(st, sid)->Ok_0;
    forms::lemma_found_normal(st, sid);
    laws::lemma_sound_distinct(s);
    lemma_target_ids_differ(st, sid, rid);
    forms::lemma_group_at(s, sid, rid, gid);
    forms::lemma_group_at(s, sid, rid, other);
    let (i, k) = state::group_place(s, sid, rid, gid)->Ok_0;
    let (_, h) = state::group_place(s, sid, rid, other)->Ok_0;
    let r = s.routes[i];
    let gs = r.target_groups;
    assert(k != h);
    state::lemma_at::<RuntimeTarget>(gs[h].targets, x, 0);
    let y = state::at::<RuntimeTarget>(gs[h].targets, x, 0)->0;
    assert(gs[h].targets[y].id == x);
    assert(forms::target_normal(gs[h].targets[y]));
    let n = normalize::normal_target(RuntimeTargetView { id: tid, ..t })->Ok_0;
    assert(n.id == x);
    text::lemma_trimmed_twice(tid);
    text::lemma_trimmed_twice(t.addr);
    assert(forms::target_normal(n));
    let ts = gs[k].targets;
    state::lemma_at::<RuntimeTarget>(ts, x, 0);
    if let Some(j) = state::at::<RuntimeTarget>(ts, x, 0) {
        assert(gs[k].targets[j].id == gs[h].targets[y].id);
    }
    let all = ts.push(n);
    assert(state::with_part::<RuntimeTarget>(ts, n) == all);
    assert(forms::targets_normal(all)) by {
        assert forall|j: int| 0 <= j < all.len() implies forms::target_normal(#[trigger] all[j]) by {
            if j < ts.len() {
                assert(forms::target_normal(ts[j]));
            }
        }
    }
    assert(ids_differ(all)) by {
        assert forall|a: int, b: int|
            0 <= a < all.len() && 0 <= b < all.len() && (#[trigger] all[a]).id == (
            #[trigger] all[b]).id implies a == b by {
            if a < ts.len() && b < ts.len() {
                assert(gs[k].targets[a].id == gs[k].targets[b].id);
            } else if a < ts.len() {
                assert(gs[k].targets[a].id == gs[h].targets[y].id);
            } else if b < ts.len() {
                assert(gs[k].targets[b].id == gs[h].targets[y].id);
            }
        }
    }
    forms::lemma_targets_in_place(s, i, k, all);
    assert(all.drop_last() =~= ts);
    lemma_clash_in_route(r, k, h, y, all);
    let r1 = state::route_with_targets(r, k, ranking::sorted::<RuntimeTarget>(all));
    let s1 = state::service_with_targets(s, i, k, all);
    let s2 = RuntimeServiceView { revision: state::bumped(st.revision), ..s1 };
    sorted_map::lemma_position(st.services, sid, 0);
    let p = sorted_map::position(st.services, sid, 0)->0;
    assert(forall|j: int| 0 <= j < i ==> #[trigger] s2.routes[j] == s.routes[j]);
    lemma_survey_refused(st.services, p, s2, i, 0, seq![], seq![]);
    assert(state::revised(st, sid, s1).services == st.services.update(p, (sid, s2)));
}

/// The fault of a route when a group gets a target whose id another group holds.
proof fn lemma_clash_in_route(
    r: RuntimeRouteView,
    k: int,
    h: int,
    y: int,
    all: Seq<RuntimeTargetView>,
)
    requires
        forms::route_normal(r),
        validate::route_fault(r) is None,
        0 <= k < r.target_groups.len(),
        0 <= h < r.target_groups.len(),
        k != h,
        0 <= y < r.target_groups[h].targets.len(),
        all.len() == r.target_groups[k].targets.len() + 1,
        all.drop_last() == r.target_groups[k].targets,
        all.last().id == r.target_groups[h].targets[y].id,
        forms::targets_normal(all),
        ids_differ(all),
    ensures
        validate::route_fault(
            state::route_with_targets(r, k, ranking::sorted::<RuntimeTarget>(all)),
        ) == Some(
            RuntimeServiceErrorView::DuplicateTargetId(r.target_groups[h].targets[y].id),
        ),
{
    let gs = r.target_groups;
    let x = gs[h].targets[y].id;
    let sorted = ranking::sorted::<RuntimeTarget>(all);
    let hs = state::route_with_targets(r, k, sorted).target_groups;
    laws::lemma_groups_distinct(gs, 0, seq![]);
    lemma_groups_differ(gs, 0, seq![]);
    lemma_sorted_differ(all);
    ranking::lemma_sorted_keeps::<RuntimeTarget>(all);
    assert forall|j: int| 0 <= j < sorted.len() implies all.contains(#[trigger] sorted[j]) by {
        ranking::lemma_sorted_member::<RuntimeTarget>(all, j);
    }
    assert(forms::targets_normal(sorted)) by {
        assert forall|j: int| 0 <= j < sorted.len() implies forms::target_normal(
            #[trigger] sorted[j],
        ) by {
            let a = choose|a: int| 0 <= a < all.len() && all[a] == sorted[j];
            assert(forms::target_normal(all[a]));
        }
    }
    assert(all.contains(all.last())) by {
        assert(all[all.len() - 1] == all.last());
    }
    laws::lemma_sorted_contains::<RuntimeTarget>(all, all.last());
    let z = choose|z: int| 0 <= z < sorted.len() && sorted[z] == all.last();
    assert(hs[k].targets[z].id == x);
    assert(hs[h].targets[y].id == x);
    assert forall|a: int| 0 <= a < hs.len() implies forms::clean_id((#[trigger] hs[a]).id)
        && hs[a].id == gs[a].id && forms::targets_normal(hs[a].targets) && ids_differ(
        hs[a].targets,
    ) by {
        assert(forms::group_normal(gs[a]));
        if a != k {
            assert forall|i: int, j: int|
                0 <= i < gs[a].targets.len() && 0 <= j < gs[a].targets.len() && (
                #[trigger] gs[a].targets[i]).id == (#[trigger] gs[a].targets[j]).id implies i
                == j by {}
        }
    }
    assert forall|a: int, b: int| 0 <= a < b < hs.len() implies (#[trigger] hs[a]).id != (
    #[trigger] hs[b]).id by {
        assert(gs[a].id != gs[b].id);
    }
    let q = if k < h {
        h
    } else {
        k
    };
    assert forall|a: int, i: int, b: int, j: int|
        0 <= a < b < hs.len() && 0 <= i < hs[a].targets.len() && 0 <= j < hs[b].targets.len() && (
        #[trigger] hs[a].targets[i]).id == (#[trigger] hs[b].targets[j]).id implies b == q
        && hs[b].targets[j].id == x by {
        if a != k && b != k {
            assert(gs[a].targets[i].id == gs[b].targets[j].id);
        } else if a == k {
            let c = choose|c: int| 0 <= c < all.len() && all[c] == sorted[i];
            if c < all.len() - 1 {
                assert(gs[k].targets[c] == all[c]);
                assert(gs[k].targets[c].id == gs[b].targets[j].id);
            } else {
                assert(gs[h].targets[y].id == gs[b].targets[j].id);
            }
        } else {
            let c = choose|c: int| 0 <= c < all.len() && all[c] == sorted[j];
            if c < all.len() - 1 {
                assert(gs[k].targets[c] == all[c]);
                assert(gs[k].targets[c].id == gs[a].targets[i].id);
            } else {
                assert(gs[h].targets[y].id == gs[a].targets[i].id);
            }
        }
    }
    if k < h {
        assert(0 <= k < q && hs[k].targets[z].id == x);
    } else {
        assert(0 <= h < q && hs[h].targets[y].id == x);
    }
    lemma_groups_clash(hs, 0, seq![], q, x);
}

} // verus!
