//! A valid runtime state stays valid.

use vstd::prelude::*;
use crate::runtime_services::normalize;
use crate::runtime_services::state;
use crate::runtime_services::types::{
    RouteBindingView, RuntimeListenerProtocol, RuntimeRouteView, RuntimeServiceErrorView,
    RuntimeServiceView, RuntimeStateView, RuntimeTarget, RuntimeTargetState, RuntimeTlsBindingView,
};
use crate::config::types::SiteTlsConfigView;
use crate::runtime_services::validate;
use crate::runtime_services::validate::TlsClaims;
use crate::sorted_map;

verus! {

/// The services stand under their own ids, in ascending order.
pub open spec fn in_form(st: RuntimeStateView) -> bool {
    &&& sorted_map::ascending::<String, RuntimeServiceView>(st.services)
    &&& forall|i: int|
        0 <= i < st.services.len() ==> (#[trigger] st.services[i]).1.id == st.services[i].0
}

/// A state that is in form and obeys the rules.
pub open spec fn well_formed(st: RuntimeStateView) -> bool {
    in_form(st) && validate::state_fault(st) is None
}

/// The services by id.
type Services = Seq<(Seq<char>, RuntimeServiceView)>;

// ---------------------------------------------------------------------------
// Bindings
// ---------------------------------------------------------------------------

/// No two bindings are in conflict.
spec fn peaceful(bs: Seq<RouteBindingView>) -> bool {
    forall|a: int, b: int|
        0 <= a < b < bs.len() ==> !validate::bindings_conflict(#[trigger] bs[a], #[trigger] bs[b])
}

proof fn lemma_first_conflict(bs: Seq<RouteBindingView>, i: int, j: int)
    requires
        0 <= i < j,
    ensures
        validate::first_conflict(bs, i, j) is None <==> forall|a: int, b: int|
            a < b < bs.len() && (a == i && j <= b || i < a) ==> !validate::bindings_conflict(
                #[trigger] bs[a],
                #[trigger] bs[b],
            ),
    decreases bs.len() - i, bs.len() - j,
{
    if i < bs.len() {
        if j >= bs.len() {
            lemma_first_conflict(bs, i + 1, i + 2);
            if validate::first_conflict(bs, i + 1, i + 2) is None {
                assert forall|a: int, b: int|
                    a < b < bs.len() && (a == i && j <= b || i < a) implies
                    !validate::bindings_conflict(#[trigger] bs[a], #[trigger] bs[b]) by {
                    assert(a > i);
                }
            }
        } else if !validate::bindings_conflict(bs[i], bs[j]) {
            lemma_first_conflict(bs, i, j + 1);
            if validate::first_conflict(bs, i, j + 1) is None {
                assert forall|a: int, b: int|
                    a < b < bs.len() && (a == i && j <= b || i < a) implies
                    !validate::bindings_conflict(#[trigger] bs[a], #[trigger] bs[b]) by {
                    if a == i && b == j {
                    }
                }
            }
        }
    }
}

proof fn lemma_peaceful(bs: Seq<RouteBindingView>)
    ensures
        validate::conflict_fault(bs) is None <==> peaceful(bs),
{
    lemma_first_conflict(bs, 0, 1);
    if validate::first_conflict(bs, 0, 1) is None {
        assert forall|a: int, b: int| 0 <= a < b < bs.len() implies !validate::bindings_conflict(
            #[trigger] bs[a],
            #[trigger] bs[b],
        ) by {}
    }
}

/// Without some bindings there is no conflict either.
proof fn lemma_fewer_bindings(
    front: Seq<RouteBindingView>,
    mid: Seq<RouteBindingView>,
    back: Seq<RouteBindingView>,
)
    requires
        peaceful(front + mid + back),
    ensures
        peaceful(front + back),
{
    let all = front + mid + back;
    let some = front + back;
    let (n, m) = (front.len() as int, mid.len() as int);
    assert forall|a: int, b: int| 0 <= a < b < some.len() implies !validate::bindings_conflict(
        #[trigger] some[a],
        #[trigger] some[b],
    ) by {
        let x = if a < n {
            a
        } else {
            a + m
        };
        let y = if b < n {
            b
        } else {
            b + m
        };
        assert(some[a] == all[x]);
        assert(some[b] == all[y]);
    }
}

/// What the routes from `i` on bind.
spec fn bound(
    id: Seq<char>,
    rs: Seq<RuntimeRouteView>,
    ps: Seq<RuntimeListenerProtocol>,
    i: int,
) -> Seq<RouteBindingView>
    decreases rs.len() - i,
{
    if i < 0 || i >= rs.len() {
        seq![]
    } else {
        validate::host_bindings(id, rs[i], ps, normalize::route_hosts(rs[i]), 0) + bound(
            id,
            rs,
            ps,
            i + 1,
        )
    }
}

/// What routes bind, and whether they have a fault, does not rest on what was bound
/// before.
proof fn lemma_bound(
    done: Seq<RouteBindingView>,
    other: Seq<RouteBindingView>,
    id: Seq<char>,
    rs: Seq<RuntimeRouteView>,
    ps: Seq<RuntimeListenerProtocol>,
    i: int,
)
    ensures
        validate::bind_routes(done, id, rs, ps, i) is Ok <==> validate::bind_routes(
            other,
            id,
            rs,
            ps,
            i,
        ) is Ok,
        validate::bind_routes(done, id, rs, ps, i) matches Ok(x) ==> x == done + bound(
            id,
            rs,
            ps,
            i,
        ),
    decreases rs.len() - i,
{
    if 0 <= i < rs.len() {
        let h = validate::host_bindings(id, rs[i], ps, normalize::route_hosts(rs[i]), 0);
        lemma_bound(done + h, other + h, id, rs, ps, i + 1);
        assert(done + (h + bound(id, rs, ps, i + 1)) =~= (done + h) + bound(id, rs, ps, i + 1));
    } else {
        assert(done + Seq::<RouteBindingView>::empty() =~= done);
    }
}

/// What the services from `i` on bind.
spec fn all_bound(es: Services, i: int) -> Seq<RouteBindingView>
    decreases es.len() - i,
{
    if i < 0 || i >= es.len() {
        seq![]
    } else {
        let s = es[i].1;
        bound(s.id, s.routes, validate::protocols(s.listeners), 0) + all_bound(es, i + 1)
    }
}

// ---------------------------------------------------------------------------
// Claims
// ---------------------------------------------------------------------------

/// Who claims a host in `d` has the certificate of who claims it in `c`.
spec fn agree(c: TlsClaims, d: TlsClaims) -> bool {
    forall|h: Seq<char>|
        (#[trigger] sorted_map::lookup(d, h)) is Some ==> sorted_map::lookup(c, h) is Some
            && sorted_map::lookup(c, h)->0.site_tls == sorted_map::lookup(d, h)->0.site_tls
}

/// The claims of a service are for one certificate.
spec fn claims_one(c: TlsClaims, id: Seq<char>, t: SiteTlsConfigView) -> bool {
    forall|h: Seq<char>|
        (#[trigger] sorted_map::lookup(c, h)) is Some && sorted_map::lookup(c, h)->0.service_id
            == id ==> sorted_map::lookup(c, h)->0.site_tls == t
}

/// Each claim of `d` is one of `c` or by the service.
spec fn only_more(c: TlsClaims, d: TlsClaims, id: Seq<char>) -> bool {
    forall|h: Seq<char>|
        (#[trigger] sorted_map::lookup(d, h)) is Some ==> sorted_map::lookup(d, h)->0.service_id
            == id || sorted_map::lookup(c, h) == sorted_map::lookup(d, h)
}

/// A service that may claim its hosts among some claims may do so among fewer.
proof fn lemma_claims_agree(
    c: TlsClaims,
    d: TlsClaims,
    hosts: Seq<Seq<char>>,
    i: int,
    id: Seq<char>,
    t: SiteTlsConfigView,
)
    requires
        sorted_map::ascending::<String, RuntimeTlsBindingView>(c),
        sorted_map::ascending::<String, RuntimeTlsBindingView>(d),
        agree(c, d),
        claims_one(c, id, t),
        validate::claim_hosts(c, hosts, i, id, t) is Ok,
    ensures
        validate::claim_hosts(d, hosts, i, id, t) is Ok,
        ({
            let x = validate::claim_hosts(c, hosts, i, id, t)->Ok_0;
            let y = validate::claim_hosts(d, hosts, i, id, t)->Ok_0;
            &&& sorted_map::ascending::<String, RuntimeTlsBindingView>(x)
            &&& sorted_map::ascending::<String, RuntimeTlsBindingView>(y)
            &&& agree(x, y)
            &&& only_more(c, x, id)
        }),
    decreases hosts.len() - i,
{
    if 0 <= i < hosts.len() {
        let h = hosts[i];
        let b = RuntimeTlsBindingView { service_id: id, site_tls: t };
        sorted_map::lemma_put::<String, RuntimeTlsBindingView>(c, h, b);
        sorted_map::lemma_put::<String, RuntimeTlsBindingView>(d, h, b);
        let c2 = sorted_map::put::<String, RuntimeTlsBindingView>(c, h, b);
        let d2 = sorted_map::put::<String, RuntimeTlsBindingView>(d, h, b);
        match sorted_map::lookup(c, h) {
            Some(x) => {
                assert(x.site_tls == t);
                match sorted_map::lookup(d, h) {
                    Some(y) => {
                        lemma_claims_agree(c, d, hosts, i + 1, id, t);
                    },
                    None => {
                        assert forall|q: Seq<char>|
                            (#[trigger] sorted_map::lookup(d2, q)) is Some implies
                            sorted_map::lookup(c, q) is Some && sorted_map::lookup(c, q)->0.site_tls
                            == sorted_map::lookup(d2, q)->0.site_tls by {
                            if q != h {
                                assert(sorted_map::lookup(d2, q) == sorted_map::lookup(d, q));
                            }
                        }
                        lemma_claims_agree(c, d2, hosts, i + 1, id, t);
                    },
                }
            },
            None => {
                assert(sorted_map::lookup(d, h) is None);
                assert forall|q: Seq<char>|
                    (#[trigger] sorted_map::lookup(d2, q)) is Some implies
                    sorted_map::lookup(c2, q) is Some && sorted_map::lookup(c2, q)->0.site_tls
                    == sorted_map::lookup(d2, q)->0.site_tls by {
                    if q != h {
                        assert(sorted_map::lookup(d2, q) == sorted_map::lookup(d, q));
                        assert(sorted_map::lookup(c2, q) == sorted_map::lookup(c, q));
                    }
                }
                assert forall|q: Seq<char>|
                    (#[trigger] sorted_map::lookup(c2, q)) is Some && sorted_map::lookup(
                        c2,
                        q,
                    )->0.service_id == id implies sorted_map::lookup(c2, q)->0.site_tls == t by {
                    if q != h {
                        assert(sorted_map::lookup(c2, q) == sorted_map::lookup(c, q));
                    }
                }
                lemma_claims_agree(c2, d2, hosts, i + 1, id, t);
                let x = validate::claim_hosts(c2, hosts, i + 1, id, t)->Ok_0;
                assert forall|q: Seq<char>|
                    (#[trigger] sorted_map::lookup(x, q)) is Some implies
                    sorted_map::lookup(x, q)->0.service_id == id || sorted_map::lookup(c, q)
                        == sorted_map::lookup(x, q) by {
                    if q != h {
                        assert(sorted_map::lookup(c2, q) == sorted_map::lookup(c, q));
                    }
                }
            },
        }
    }
}

/// The claims are by services before `i`.
spec fn claims_from(c: TlsClaims, es: Services, i: int) -> bool {
    forall|h: Seq<char>|
        (#[trigger] sorted_map::lookup(c, h)) is Some ==> exists|a: int|
            0 <= a < i && (#[trigger] es[a]).1.id == sorted_map::lookup(c, h)->0.service_id
}

/// No two services have the same id.
spec fn ids_differ(es: Services) -> bool {
    forall|a: int, b: int|
        0 <= a < b < es.len() ==> (#[trigger] es[a]).1.id != (#[trigger] es[b]).1.id
}

/// The claims of the service at `i` on top of those before it, and on top of fewer.
proof fn lemma_service_claims(es: Services, i: int, c: TlsClaims, d: TlsClaims)
    requires
        0 <= i < es.len(),
        ids_differ(es),
        sorted_map::ascending::<String, RuntimeTlsBindingView>(c),
        sorted_map::ascending::<String, RuntimeTlsBindingView>(d),
        agree(c, d),
        claims_from(c, es, i),
        validate::claims_with(c, es[i].1) is Ok,
    ensures
        validate::claims_with(d, es[i].1) is Ok,
        ({
            let x = validate::claims_with(c, es[i].1)->Ok_0;
            let y = validate::claims_with(d, es[i].1)->Ok_0;
            &&& sorted_map::ascending::<String, RuntimeTlsBindingView>(x)
            &&& sorted_map::ascending::<String, RuntimeTlsBindingView>(y)
            &&& agree(x, y)
            &&& agree(x, d)
            &&& claims_from(x, es, i + 1)
        }),
{
    let s = es[i].1;
    match validate::site_tls(s) {
        Some(t) => {
            assert forall|h: Seq<char>|
                (#[trigger] sorted_map::lookup(c, h)) is Some && sorted_map::lookup(c, h)->0.service_id
                    == s.id implies sorted_map::lookup(c, h)->0.site_tls == t by {
                let x = sorted_map::lookup(c, h)->0;
                let a = choose|a: int| 0 <= a < i && (#[trigger] es[a]).1.id == x.service_id;
                assert(es[a].1.id != es[i].1.id);
            }
            lemma_claims_agree(c, d, validate::explicit_hosts(s), 0, s.id, t);
            lemma_claims_stay(c, validate::explicit_hosts(s), 0, s.id, t);
            let x = validate::claims_with(c, s)->Ok_0;
            assert forall|h: Seq<char>| (#[trigger] sorted_map::lookup(x, h)) is Some implies exists|a: int|
                0 <= a < i + 1 && (#[trigger] es[a]).1.id == sorted_map::lookup(
                    x,
                    h,
                )->0.service_id by {
                let z = sorted_map::lookup(x, h)->0;
                if z.service_id == s.id {
                    assert(es[i].1.id == z.service_id);
                } else {
                    assert(sorted_map::lookup(c, h) == Some(z));
                    let a = choose|a: int| 0 <= a < i && (#[trigger] es[a]).1.id == z.service_id;
                    assert(es[a].1.id == z.service_id);
                }
            }
            assert forall|h: Seq<char>| (#[trigger] sorted_map::lookup(d, h)) is Some implies sorted_map::lookup(
                x,
                h,
            ) is Some && sorted_map::lookup(x, h)->0.site_tls == sorted_map::lookup(
                d,
                h,
            )->0.site_tls by {
                assert(sorted_map::lookup(c, h) is Some);
            }
        },
        None => {
            assert forall|h: Seq<char>| (#[trigger] sorted_map::lookup(c, h)) is Some implies exists|a: int|
                0 <= a < i + 1 && (#[trigger] es[a]).1.id == sorted_map::lookup(
                    c,
                    h,
                )->0.service_id by {
                let z = sorted_map::lookup(c, h)->0;
                let a = choose|a: int| 0 <= a < i && (#[trigger] es[a]).1.id == z.service_id;
                assert(es[a].1.id == z.service_id);
            }
        },
    }
}

/// Claims that were made stay.
proof fn lemma_claims_stay(
    c: TlsClaims,
    hosts: Seq<Seq<char>>,
    i: int,
    id: Seq<char>,
    t: SiteTlsConfigView,
)
    requires
        sorted_map::ascending::<String, RuntimeTlsBindingView>(c),
    ensures
        validate::claim_hosts(c, hosts, i, id, t) matches Ok(x) ==> forall|h: Seq<char>|
            sorted_map::lookup(c, h) is Some ==> #[trigger] sorted_map::lookup(x, h)
                == sorted_map::lookup(c, h),
    decreases hosts.len() - i,
{
    if 0 <= i < hosts.len() {
        let h = hosts[i];
        let b = RuntimeTlsBindingView { service_id: id, site_tls: t };
        sorted_map::lemma_put::<String, RuntimeTlsBindingView>(c, h, b);
        let c2 = sorted_map::put::<String, RuntimeTlsBindingView>(c, h, b);
        if sorted_map::lookup(c, h) is None {
            lemma_claims_stay(c2, hosts, i + 1, id, t);
            if let Ok(x) = validate::claim_hosts(c, hosts, i, id, t) {
                assert forall|q: Seq<char>| sorted_map::lookup(c, q) is Some implies
                    #[trigger] sorted_map::lookup(x, q) == sorted_map::lookup(c, q) by {
                    assert(sorted_map::lookup(c2, q) == sorted_map::lookup(c, q));
                }
            }
        } else {
            lemma_claims_stay(c, hosts, i + 1, id, t);
        }
    }
}

// ---------------------------------------------------------------------------
// Services
// ---------------------------------------------------------------------------

/// Behind a service that was removed the others are surveyed as before.
proof fn lemma_survey_behind(
    es: Services,
    k: int,
    i: int,
    c: TlsClaims,
    d: TlsClaims,
    bs: Seq<RouteBindingView>,
    ds: Seq<RouteBindingView>,
)
    requires
        0 <= k < i <= es.len(),
        ids_differ(es),
        sorted_map::ascending::<String, RuntimeTlsBindingView>(c),
        sorted_map::ascending::<String, RuntimeTlsBindingView>(d),
        agree(c, d),
        claims_from(c, es, i),
        validate::survey(es, i, c, bs) is Ok,
    ensures
        validate::survey(es, i, c, bs) == Ok::<_, RuntimeServiceErrorView>(bs + all_bound(es, i)),
        validate::survey(es.remove(k), i - 1, d, ds) == Ok::<_, RuntimeServiceErrorView>(
            ds + all_bound(es, i),
        ),
    decreases es.len() - i,
{
    let fs = es.remove(k);
    if i < es.len() {
        let s = es[i].1;
        assert(fs[i - 1] == es[i]);
        lemma_service_claims(es, i, c, d);
        let x = validate::claims_with(c, s)->Ok_0;
        let y = validate::claims_with(d, s)->Ok_0;
        let ps = validate::protocols(s.listeners);
        lemma_bound(bs, ds, s.id, s.routes, ps, 0);
        lemma_bound(ds, bs, s.id, s.routes, ps, 0);
        let own = bound(s.id, s.routes, ps, 0);
        lemma_survey_behind(es, k, i + 1, x, y, bs + own, ds + own);
        assert(bs + (own + all_bound(es, i + 1)) =~= (bs + own) + all_bound(es, i + 1));
        assert(ds + (own + all_bound(es, i + 1)) =~= (ds + own) + all_bound(es, i + 1));
    } else {
        assert(bs + Seq::<RouteBindingView>::empty() =~= bs);
        assert(ds + Seq::<RouteBindingView>::empty() =~= ds);
    }
}

/// Services that have no fault together have none without one of them.
proof fn lemma_survey_without(
    es: Services,
    k: int,
    i: int,
    c: TlsClaims,
    bs: Seq<RouteBindingView>,
)
    requires
        0 <= i <= k < es.len(),
        ids_differ(es),
        sorted_map::ascending::<String, RuntimeTlsBindingView>(c),
        claims_from(c, es, i),
        validate::survey(es, i, c, bs) matches Ok(all) && peaceful(all),
    ensures
        validate::survey(es.remove(k), i, c, bs) matches Ok(some) && peaceful(some),
    decreases k - i,
{
    let fs = es.remove(k);
    let s = es[i].1;
    let ps = validate::protocols(s.listeners);
    assert(agree(c, c));
    lemma_service_claims(es, i, c, c);
    let x = validate::claims_with(c, s)->Ok_0;
    lemma_bound(bs, bs, s.id, s.routes, ps, 0);
    let own = bound(s.id, s.routes, ps, 0);
    if i < k {
        assert(fs[i] == es[i]);
        lemma_survey_without(es, k, i + 1, x, bs + own);
    } else {
        lemma_survey_behind(es, k, k + 1, x, c, bs + own, bs);
        lemma_fewer_bindings(bs, own, all_bound(es, k + 1));
    }
}

/// A valid state is valid without one of its services.
pub proof fn lemma_valid_without_service(
    st: RuntimeStateView,
    sid: Seq<char>,
    expected: Option<u64>,
)
    requires
        well_formed(st),
    ensures
        state::service_removed(st, sid, expected) matches Ok((next, _)) ==> well_formed(next),
{
    if let Ok((next, _)) = state::service_removed(st, sid, expected) {
        let es = st.services;
        sorted_map::lemma_position(es, sid, 0);
        sorted_map::lemma_without::<String, RuntimeServiceView>(es, sid);
        let k = sorted_map::position(es, sid, 0)->0;
        assert(next.services == es.remove(k));
        assert forall|a: int, b: int| 0 <= a < b < es.len() implies (#[trigger] es[a]).1.id != (
        #[trigger] es[b]).1.id by {
            sorted_map::lemma_text_before_total(es[a].0, es[b].0);
        }
        let all = validate::survey(es, 0, seq![], seq![])->Ok_0;
        lemma_peaceful(all);
        lemma_survey_without(es, k, 0, seq![], seq![]);
        lemma_peaceful(validate::survey(es.remove(k), 0, seq![], seq![])->Ok_0);
        assert forall|i: int| 0 <= i < next.services.len() implies (
        #[trigger] next.services[i]).1.id == next.services[i].0 by {
            let j = if i < k {
                i
            } else {
                i + 1
            };
            assert(next.services[i] == es[j]);
        }
    }
}

/// A service that is set leaves a valid state.
pub proof fn lemma_valid_with_service(
    st: RuntimeStateView,
    service: RuntimeServiceView,
    expected: Option<u64>,
)
    requires
        in_form(st),
    ensures
        state::service_set(st, service, expected) matches Ok((next, _)) ==> well_formed(next),
{
    if let Ok((next, s)) = state::service_set(st, service, expected) {
        let es = st.services;
        sorted_map::lemma_put::<String, RuntimeServiceView>(es, s.id, s);
        sorted_map::lemma_slot::<String, RuntimeServiceView>(es, s.id, 0);
        let n = sorted_map::slot::<String, RuntimeServiceView>(es, s.id, 0);
        assert forall|i: int| 0 <= i < next.services.len() implies (
        #[trigger] next.services[i]).1.id == next.services[i].0 by {
            if i != n {
                let j = if i < n || next.services.len() == es.len() {
                    i
                } else {
                    i - 1
                };
                assert(next.services[i] == es[j]);
            }
        }
    }
}

/// A service that is changed in part leaves a valid state.
pub proof fn lemma_valid_when_committed<X>(
    st: RuntimeStateView,
    sid: Seq<char>,
    s: RuntimeServiceView,
    x: X,
)
    requires
        in_form(st),
        s.id == sid,
    ensures
        state::committed(st, sid, s, x) matches Ok((next, _)) ==> well_formed(next),
{
    let next = state::revised(st, sid, s);
    let es = st.services;
    sorted_map::lemma_position(es, sid, 0);
    assert forall|i: int| 0 <= i < next.services.len() implies (#[trigger] next.services[i]).1.id
        == next.services[i].0 by {
        assert(es[i].1.id == es[i].0);
    }
    assert forall|i: int, j: int| 0 <= i < j < next.services.len() implies sorted_map::text_before(
        (#[trigger] next.services[i]).0,
        (#[trigger] next.services[j]).0,
    ) by {
        assert(next.services[i].0 == es[i].0);
        assert(next.services[j].0 == es[j].0);
    }
}

/// A service that is found has the id under which it is found.
pub proof fn lemma_found_under_id(st: RuntimeStateView, sid: Seq<char>)
    requires
        in_form(st),
    ensures
        state::found_service(st, sid) matches Ok(s) ==> s.id == sid,
{
    sorted_map::lemma_position(st.services, sid, 0);
}

/// A target that moves to another state leaves a valid state.
pub proof fn lemma_valid_when_moved(
    st: RuntimeStateView,
    sid: Seq<char>,
    rid: Seq<char>,
    gid: Seq<char>,
    tid: Seq<char>,
    to: RuntimeTargetState,
    last_error: Option<Seq<char>>,
)
    requires
        in_form(st),
    ensures
        state::target_moved(st, sid, rid, gid, tid, to, last_error) matches Ok((next, _))
            ==> well_formed(next),
{
    lemma_found_under_id(st, sid);
    if let Ok(s) = state::found_service(st, sid) {
        if let Ok((i, k)) = state::group_place(s, sid, rid, gid) {
            let ts = s.routes[i].target_groups[k].targets;
            if let Some(n) = state::at::<RuntimeTarget>(ts, tid, 0) {
                let t = state::target_in_state(ts[n], to, last_error);
                lemma_valid_when_committed(
                    st,
                    sid,
                    RuntimeServiceView {
                        routes: s.routes.update(
                            i,
                            state::route_with_targets(s.routes[i], k, ts.update(n, t)),
                        ),
                        ..s
                    },
                    t,
                );
            }
        }
    }
}

/// A state without services is valid.
pub proof fn lemma_valid_at_start()
    ensures
        well_formed(RuntimeStateView { version: 1, revision: 0, services: seq![] }),
{
    lemma_peaceful(seq![]);
}

} // verus!
