//! Reading and changing the runtime state.

use vstd::prelude::*;
use crate::data;
use crate::data::Data;
use crate::ranking;
use crate::runtime_services::normalize;
use crate::runtime_services::normalize::{
    normalize_listener, normalize_route, normalize_service, normalize_target, sort_route,
    sort_service,
};
use crate::runtime_services::types::{
    RuntimeHealthCheck, RuntimeHealthCheckView, RuntimeListener, RuntimeListenerPatch,
    RuntimeListenerPatchView, RuntimeListenerView, RuntimeRoute, RuntimeRoutePatch,
    RuntimeRoutePatchView, RuntimeRouteView, RuntimeService, RuntimeServiceError,
    RuntimeServiceErrorView, RuntimeServicePatch, RuntimeServicePatchView, RuntimeServiceView,
    RuntimeState, RuntimeStateView, RuntimeTarget, RuntimeTargetGroup, RuntimeTargetGroupView,
    RuntimeTargetPatch, RuntimeTargetPatchView, RuntimeTargetRef, RuntimeTargetRefView,
    RuntimeTargetState, RuntimeTargetView, RUNTIME_STATE_VERSION,
};
use crate::runtime_services::validate;
use crate::runtime_services::validate::validate_state;
use crate::sorted_map;
use crate::text;

verus! {

// ---------------------------------------------------------------------------
// Parts with an id
// ---------------------------------------------------------------------------

/// A part of a service that is known by its id.
pub trait Identified: DeepView + Sized {
    /// The id.
    spec fn id_of(v: Self::V) -> Seq<char>;

    /// Tells whether the part has the id.
    fn has_id(&self, id: &str) -> (r: bool)
        ensures
            r == (Self::id_of(self.deep_view()) == id@),
    ;
}

impl Identified for RuntimeListener {
    open spec fn id_of(v: RuntimeListenerView) -> Seq<char> {
        v.id
    }

    fn has_id(&self, id: &str) -> (r: bool) {
        text::same(self.id.as_str(), id)
    }
}

impl Identified for RuntimeRoute {
    open spec fn id_of(v: RuntimeRouteView) -> Seq<char> {
        v.id
    }

    fn has_id(&self, id: &str) -> (r: bool) {
        text::same(self.id.as_str(), id)
    }
}

impl Identified for RuntimeTargetGroup {
    open spec fn id_of(v: RuntimeTargetGroupView) -> Seq<char> {
        v.id
    }

    fn has_id(&self, id: &str) -> (r: bool) {
        text::same(self.id.as_str(), id)
    }
}

impl Identified for RuntimeTarget {
    open spec fn id_of(v: RuntimeTargetView) -> Seq<char> {
        v.id
    }

    fn has_id(&self, id: &str) -> (r: bool) {
        text::same(self.id.as_str(), id)
    }
}

/// The first part from `i` on with the id.
pub open spec fn at<T: Identified>(s: Seq<T::V>, id: Seq<char>, i: int) -> Option<int>
    decreases s.len() - i,
{
    if i < 0 || i >= s.len() {
        None
    } else if T::id_of(s[i]) == id {
        Some(i)
    } else {
        at::<T>(s, id, i + 1)
    }
}

/// The parts with `x` in place of the first one with its id, or after the others.
pub open spec fn with_part<T: Identified>(s: Seq<T::V>, x: T::V) -> Seq<T::V> {
    match at::<T>(s, T::id_of(x), 0) {
        Some(i) => s.update(i, x),
        None => s.push(x),
    }
}

/// `at` gives the first part with the id.
pub proof fn lemma_at<T: Identified>(s: Seq<T::V>, id: Seq<char>, i: int)
    requires
        0 <= i,
    ensures
        match at::<T>(s, id, i) {
            Some(p) => i <= p < s.len() && T::id_of(s[p]) == id && forall|j: int|
                i <= j < p ==> T::id_of(#[trigger] s[j]) != id,
            None => forall|j: int| i <= j < s.len() ==> T::id_of(#[trigger] s[j]) != id,
        },
    decreases s.len() - i,
{
    if i < s.len() && T::id_of(s[i]) != id {
        lemma_at::<T>(s, id, i + 1);
    }
}

/// Where the part with the id stands.
fn find_part<T: Identified>(v: &Vec<T>, id: &str) -> (r: Option<usize>)
    ensures
        match r {
            Some(i) => at::<T>(v.deep_view(), id@, 0) == Some(i as int) && i < v.len(),
            None => at::<T>(v.deep_view(), id@, 0) is None,
        },
{
    let ghost s = v.deep_view();
    for i in 0..v.len()
        invariant
            s == v.deep_view(),
            at::<T>(s, id@, 0) == at::<T>(s, id@, i as int),
    {
        if v[i].has_id(id) {
            return Some(i);
        }
    }
    None
}

/// Puts a part in place of the one with its id, or after the others.
fn put_part<T: Identified + Data>(v: &mut Vec<T>, x: T, id: &str)
    requires
        T::id_of(x.deep_view()) == id@,
    ensures
        final(v).deep_view() == with_part::<T>(old(v).deep_view(), x.deep_view()),
{
    let ghost s = v.deep_view();
    let ghost xv = x.deep_view();
    match find_part(v, id) {
        Some(i) => {
            v[i] = x;
            assert(v.deep_view() =~= s.update(i as int, xv));
        },
        None => {
            v.push(x);
            assert(v.deep_view() =~= s.push(xv));
        },
    }
}

// ---------------------------------------------------------------------------
// Reading
// ---------------------------------------------------------------------------

/// The service with the id.
pub open spec fn found_service(st: RuntimeStateView, id: Seq<char>) -> Result<
    RuntimeServiceView,
    RuntimeServiceErrorView,
> {
    match sorted_map::lookup(st.services, id) {
        Some(s) => Ok(s),
        None => Err(RuntimeServiceErrorView::UnknownService(id)),
    }
}

/// The listener of a service.
pub open spec fn listener_in(s: RuntimeServiceView, sid: Seq<char>, lid: Seq<char>) -> Result<
    RuntimeListenerView,
    RuntimeServiceErrorView,
> {
    match at::<RuntimeListener>(s.listeners, lid, 0) {
        Some(i) => Ok(s.listeners[i]),
        None => Err(
            RuntimeServiceErrorView::UnknownListener { service_id: sid, listener_id: lid },
        ),
    }
}

/// The listener with the id.
pub open spec fn found_listener(st: RuntimeStateView, sid: Seq<char>, lid: Seq<char>) -> Result<
    RuntimeListenerView,
    RuntimeServiceErrorView,
> {
    match found_service(st, sid) {
        Ok(s) => listener_in(s, sid, lid),
        Err(e) => Err(e),
    }
}

/// The route of a service.
pub open spec fn route_in(s: RuntimeServiceView, sid: Seq<char>, rid: Seq<char>) -> Result<
    RuntimeRouteView,
    RuntimeServiceErrorView,
> {
    match at::<RuntimeRoute>(s.routes, rid, 0) {
        Some(i) => Ok(s.routes[i]),
        None => Err(RuntimeServiceErrorView::UnknownRoute { service_id: sid, route_id: rid }),
    }
}

/// The route with the id.
pub open spec fn found_route(st: RuntimeStateView, sid: Seq<char>, rid: Seq<char>) -> Result<
    RuntimeRouteView,
    RuntimeServiceErrorView,
> {
    match found_service(st, sid) {
        Ok(s) => route_in(s, sid, rid),
        Err(e) => Err(e),
    }
}

/// The group of a route.
pub open spec fn group_in(
    r: RuntimeRouteView,
    sid: Seq<char>,
    rid: Seq<char>,
    gid: Seq<char>,
) -> Result<RuntimeTargetGroupView, RuntimeServiceErrorView> {
    match at::<RuntimeTargetGroup>(r.target_groups, gid, 0) {
        Some(i) => Ok(r.target_groups[i]),
        None => Err(
            RuntimeServiceErrorView::UnknownTargetGroup {
                service_id: sid,
                route_id: rid,
                group_id: gid,
            },
        ),
    }
}

/// The group with the id.
pub open spec fn found_group(
    st: RuntimeStateView,
    sid: Seq<char>,
    rid: Seq<char>,
    gid: Seq<char>,
) -> Result<RuntimeTargetGroupView, RuntimeServiceErrorView> {
    match found_route(st, sid, rid) {
        Ok(r) => group_in(r, sid, rid, gid),
        Err(e) => Err(e),
    }
}

/// The target of a group.
pub open spec fn target_in(
    g: RuntimeTargetGroupView,
    sid: Seq<char>,
    rid: Seq<char>,
    gid: Seq<char>,
    tid: Seq<char>,
) -> Result<RuntimeTargetView, RuntimeServiceErrorView> {
    match at::<RuntimeTarget>(g.targets, tid, 0) {
        Some(i) => Ok(g.targets[i]),
        None => Err(
            RuntimeServiceErrorView::UnknownTarget {
                service_id: sid,
                route_id: rid,
                group_id: gid,
                target_id: tid,
            },
        ),
    }
}

/// The target with the id.
pub open spec fn found_target(
    st: RuntimeStateView,
    sid: Seq<char>,
    rid: Seq<char>,
    gid: Seq<char>,
    tid: Seq<char>,
) -> Result<RuntimeTargetView, RuntimeServiceErrorView> {
    match found_group(st, sid, rid, gid) {
        Ok(g) => target_in(g, sid, rid, gid, tid),
        Err(e) => Err(e),
    }
}

/// The targets of one group from `i` on, each with the id of the group.
pub open spec fn group_refs(g: RuntimeTargetGroupView) -> Seq<RuntimeTargetRefView> {
    g.targets.map_values(
        |t: RuntimeTargetView| RuntimeTargetRefView { group_id: g.id, target: t },
    )
}

/// The targets of the groups from `i` on.
pub open spec fn groups_refs(gs: Seq<RuntimeTargetGroupView>, i: int) -> Seq<RuntimeTargetRefView>
    decreases gs.len() - i,
{
    if i < 0 || i >= gs.len() {
        seq![]
    } else {
        group_refs(gs[i]) + groups_refs(gs, i + 1)
    }
}

/// A part of a found value, or the same error.
pub open spec fn also<A, B>(
    r: Result<A, RuntimeServiceErrorView>,
    f: spec_fn(A) -> B,
) -> Result<B, RuntimeServiceErrorView> {
    match r {
        Ok(a) => Ok(f(a)),
        Err(e) => Err(e),
    }
}

/// The refusal for a service that is not there.
fn unknown_service(id: &str) -> (e: RuntimeServiceError)
    ensures
        e.deep_view() == RuntimeServiceErrorView::UnknownService(id@),
{
    RuntimeServiceError::UnknownService(id.to_owned())
}

/// The refusal for a listener that is not there.
fn unknown_listener(sid: &str, lid: &str) -> (e: RuntimeServiceError)
    ensures
        e.deep_view() == (RuntimeServiceErrorView::UnknownListener {
            service_id: sid@,
            listener_id: lid@,
        }),
{
    RuntimeServiceError::UnknownListener { service_id: sid.to_owned(), listener_id: lid.to_owned() }
}

/// The refusal for a route that is not there.
fn unknown_route(sid: &str, rid: &str) -> (e: RuntimeServiceError)
    ensures
        e.deep_view() == (RuntimeServiceErrorView::UnknownRoute {
            service_id: sid@,
            route_id: rid@,
        }),
{
    RuntimeServiceError::UnknownRoute { service_id: sid.to_owned(), route_id: rid.to_owned() }
}

/// The refusal for a group that is not there.
fn unknown_group(sid: &str, rid: &str, gid: &str) -> (e: RuntimeServiceError)
    ensures
        e.deep_view() == (RuntimeServiceErrorView::UnknownTargetGroup {
            service_id: sid@,
            route_id: rid@,
            group_id: gid@,
        }),
{
    RuntimeServiceError::UnknownTargetGroup {
        service_id: sid.to_owned(),
        route_id: rid.to_owned(),
        group_id: gid.to_owned(),
    }
}

/// The refusal for a target that is not there.
fn unknown_target(sid: &str, rid: &str, gid: &str, tid: &str) -> (e: RuntimeServiceError)
    ensures
        e.deep_view() == (RuntimeServiceErrorView::UnknownTarget {
            service_id: sid@,
            route_id: rid@,
            group_id: gid@,
            target_id: tid@,
        }),
{
    RuntimeServiceError::UnknownTarget {
        service_id: sid.to_owned(),
        route_id: rid.to_owned(),
        group_id: gid.to_owned(),
        target_id: tid.to_owned(),
    }
}

/// The services in the order of their ids.
pub open spec fn listed_services(st: RuntimeStateView) -> Seq<RuntimeServiceView> {
    st.services.map_values(|e: (Seq<char>, RuntimeServiceView)| e.1)
}

/// The listeners of a service.
pub open spec fn listed_listeners(st: RuntimeStateView, sid: Seq<char>) -> Result<
    Seq<RuntimeListenerView>,
    RuntimeServiceErrorView,
> {
    match found_service(st, sid) {
        Ok(s) => Ok(s.listeners),
        Err(e) => Err(e),
    }
}

/// The routes of a service, in the order in which they are tried.
pub open spec fn listed_routes(st: RuntimeStateView, sid: Seq<char>) -> Result<
    Seq<RuntimeRouteView>,
    RuntimeServiceErrorView,
> {
    match found_service(st, sid) {
        Ok(s) => Ok(s.routes),
        Err(e) => Err(e),
    }
}

/// The targets of a group.
pub open spec fn listed_targets(
    st: RuntimeStateView,
    sid: Seq<char>,
    rid: Seq<char>,
    gid: Seq<char>,
) -> Result<Seq<RuntimeTargetView>, RuntimeServiceErrorView> {
    match found_group(st, sid, rid, gid) {
        Ok(g) => Ok(g.targets),
        Err(e) => Err(e),
    }
}

/// The targets of a route, each with the id of its group.
pub open spec fn listed_route_targets(
    st: RuntimeStateView,
    sid: Seq<char>,
    rid: Seq<char>,
) -> Result<Seq<RuntimeTargetRefView>, RuntimeServiceErrorView> {
    match found_route(st, sid, rid) {
        Ok(r) => Ok(groups_refs(r.target_groups, 0)),
        Err(e) => Err(e),
    }
}

impl RuntimeState {
    /// Refuses a state of another version.
    pub fn ensure_supported_version(&self) -> (r: Result<(), RuntimeServiceError>)
        ensures
            validate::refusal(r) == (if self.version == RUNTIME_STATE_VERSION {
                None
            } else {
                Some(RuntimeServiceErrorView::UnsupportedVersion(self.version))
            }),
    {
        if self.version != RUNTIME_STATE_VERSION {
            return Err(RuntimeServiceError::UnsupportedVersion(self.version));
        }
        Ok(())
    }

    /// The services in the order of their ids.
    ///
    /// Law: [`crate::runtime_services::forms::lemma_services_listed`].
    pub fn list_services(&self) -> (r: Vec<RuntimeService>)
        ensures
            r.deep_view() == listed_services(self.deep_view()),
    {
        let mut r: Vec<RuntimeService> = Vec::new();
        let ghost s = self.deep_view().services;
        for i in 0..self.services.entries.len()
            invariant
                s == self.services.deep_view(),
                r@.len() == i,
                forall|j: int| 0 <= j < i ==> (#[trigger] r@[j]).deep_view() == s[j].1,
        {
            r.push(self.services.entries[i].1.duplicate());
        }
        assert(r.deep_view() =~= s.map_values(|e: (Seq<char>, RuntimeServiceView)| e.1));
        r
    }

    /// The service with the id.
    pub fn get_service(&self, service_id: &str) -> (r: Option<RuntimeService>)
        ensures
            r.deep_view() == sorted_map::lookup(self.deep_view().services, service_id@),
    {
        match self.services.get(&service_id.to_owned()) {
            Some(s) => Some(s.duplicate()),
            None => None,
        }
    }

    /// The listeners of a service.
    pub fn list_listeners(&self, service_id: &str) -> (r: Result<
        Vec<RuntimeListener>,
        RuntimeServiceError,
    >)
        ensures
            data::outcome(r) == listed_listeners(self.deep_view(), service_id@),
    {
        match self.services.get(&service_id.to_owned()) {
            Some(s) => Ok(s.listeners.duplicate()),
            None => Err(unknown_service(service_id)),
        }
    }

    /// The listener with the id.
    pub fn get_listener(&self, service_id: &str, listener_id: &str) -> (r: Result<
        RuntimeListener,
        RuntimeServiceError,
    >)
        ensures
            data::outcome(r) == found_listener(self.deep_view(), service_id@, listener_id@),
    {
        match self.services.get(&service_id.to_owned()) {
            Some(s) => match find_part(&s.listeners, listener_id) {
                Some(i) => Ok(s.listeners[i].duplicate()),
                None => Err(unknown_listener(service_id, listener_id)),
            },
            None => Err(unknown_service(service_id)),
        }
    }

    /// The routes of a service, in the order in which they are tried.
    pub fn list_routes(&self, service_id: &str) -> (r: Result<
        Vec<RuntimeRoute>,
        RuntimeServiceError,
    >)
        ensures
            data::outcome(r) == listed_routes(self.deep_view(), service_id@),
    {
        match self.services.get(&service_id.to_owned()) {
            Some(s) => Ok(s.routes.duplicate()),
            None => Err(unknown_service(service_id)),
        }
    }

    /// The route with the id.
    pub fn get_route(&self, service_id: &str, route_id: &str) -> (r: Result<
        RuntimeRoute,
        RuntimeServiceError,
    >)
        ensures
            data::outcome(r) == found_route(self.deep_view(), service_id@, route_id@),
    {
        match self.services.get(&service_id.to_owned()) {
            Some(s) => match find_part(&s.routes, route_id) {
                Some(i) => Ok(s.routes[i].duplicate()),
                None => Err(unknown_route(service_id, route_id)),
            },
            None => Err(unknown_service(service_id)),
        }
    }

    /// The group with the id.
    pub fn find_group(&self, service_id: &str, route_id: &str, group_id: &str) -> (r: Result<
        RuntimeTargetGroup,
        RuntimeServiceError,
    >)
        ensures
            data::outcome(r) == found_group(self.deep_view(), service_id@, route_id@, group_id@),
    {
        match self.get_route(service_id, route_id) {
            Ok(route) => match find_part(&route.target_groups, group_id) {
                Some(i) => Ok(route.target_groups[i].duplicate()),
                None => Err(unknown_group(service_id, route_id, group_id)),
            },
            Err(e) => Err(e),
        }
    }

    /// The targets of a group.
    pub fn list_targets(&self, service_id: &str, route_id: &str, group_id: &str) -> (r: Result<
        Vec<RuntimeTarget>,
        RuntimeServiceError,
    >)
        ensures
            data::outcome(r) == listed_targets(
                self.deep_view(),
                service_id@,
                route_id@,
                group_id@,
            ),
    {
        match self.find_group(service_id, route_id, group_id) {
            Ok(g) => Ok(g.targets),
            Err(e) => Err(e),
        }
    }

    /// The targets of a route, each with the id of its group.
    pub fn list_route_targets(&self, service_id: &str, route_id: &str) -> (r: Result<
        Vec<RuntimeTargetRef>,
        RuntimeServiceError,
    >)
        ensures
            data::outcome(r) == listed_route_targets(self.deep_view(), service_id@, route_id@),
    {
        match self.get_route(service_id, route_id) {
            Ok(route) => {
                let mut refs: Vec<RuntimeTargetRef> = Vec::new();
                let ghost gs = route.deep_view().target_groups;
                assert(refs.deep_view() + groups_refs(gs, 0) =~= groups_refs(gs, 0));
                for i in 0..route.target_groups.len()
                    invariant
                        gs == route.target_groups.deep_view(),
                        refs.deep_view() + groups_refs(gs, i as int) == groups_refs(gs, 0),
                {
                    let group = &route.target_groups[i];
                    let ghost start = refs.deep_view();
                    let ghost row = group_refs(gs[i as int]);
                    assert(gs[i as int] == group.deep_view());
                    assert(start + row.take(0) =~= start);
                    for k in 0..group.targets.len()
                        invariant
                            gs[i as int] == group.deep_view(),
                            row == group_refs(gs[i as int]),
                            refs.deep_view() == start + row.take(k as int),
                    {
                        let ghost before = refs.deep_view();
                        let x = RuntimeTargetRef {
                            group_id: group.id.clone(),
                            target: group.targets[k].duplicate(),
                        };
                        refs.push(x);
                        proof {
                            assert(x.deep_view() == row[k as int]);
                            assert(refs.deep_view() =~= before.push(row[k as int]));
                            assert(start + row.take(k + 1) =~= before.push(row[k as int]));
                        }
                    }
                    proof {
                        assert(row.take(row.len() as int) =~= row);
                        assert(refs.deep_view() =~= start + row);
                        assert(refs.deep_view() + groups_refs(gs, i + 1) =~= start + groups_refs(
                            gs,
                            i as int,
                        ));
                    }
                }
                assert(refs.deep_view() =~= groups_refs(gs, 0));
                Ok(refs)
            },
            Err(e) => Err(e),
        }
    }

    /// The target with the id.
    pub fn get_target(
        &self,
        service_id: &str,
        route_id: &str,
        group_id: &str,
        target_id: &str,
    ) -> (r: Result<RuntimeTarget, RuntimeServiceError>)
        ensures
            data::outcome(r) == found_target(
                self.deep_view(),
                service_id@,
                route_id@,
                group_id@,
                target_id@,
            ),
    {
        match self.find_group(service_id, route_id, group_id) {
            Ok(g) => match find_part(&g.targets, target_id) {
                Some(i) => Ok(g.targets[i].duplicate()),
                None => Err(unknown_target(service_id, route_id, group_id, target_id)),
            },
            Err(e) => Err(e),
        }
    }
}

/// The health check of a route.
pub fn route_health_check(state: &RuntimeState, service_id: &str, route_id: &str) -> (r: Result<
    RuntimeHealthCheck,
    RuntimeServiceError,
>)
    ensures
        data::outcome(r) == also(
            found_route(state.deep_view(), service_id@, route_id@),
            |x: RuntimeRouteView| x.health_check,
        ),
{
    match state.get_route(service_id, route_id) {
        Ok(route) => Ok(route.health_check),
        Err(e) => Err(e),
    }
}

// ---------------------------------------------------------------------------
// Changing
// ---------------------------------------------------------------------------

/// The outcome of a change: the new state and what is handed back, or a refusal.
pub type Change<X> = Result<(RuntimeStateView, X), RuntimeServiceErrorView>;

/// A change came out as `out` says: on success the state is the new one, on
/// refusal it is as it was.
pub open spec fn came_out<T: DeepView>(
    before: RuntimeStateView,
    after: RuntimeStateView,
    r: Result<T, RuntimeServiceError>,
    out: Change<T::V>,
) -> bool {
    match out {
        Ok((next, x)) => after == next && (r matches Ok(t) && t.deep_view() == x),
        Err(e) => after == before && (r matches Err(f) && f.deep_view() == e),
    }
}

/// The revision after a change; the greatest one stays.
pub open spec fn bumped(revision: u64) -> u64 {
    if revision == u64::MAX {
        revision
    } else {
        (revision + 1) as u64
    }
}

/// The refusal for a revision other than the expected one.
pub open spec fn stale(expected: Option<u64>, actual: u64) -> Option<RuntimeServiceErrorView> {
    match expected {
        Some(e) => if e != actual {
            Some(RuntimeServiceErrorView::RevisionConflict { expected: e, actual })
        } else {
            None
        },
        None => None,
    }
}

/// Checks the revision that a change expects.
pub fn check_revision(expected: Option<u64>, actual: u64) -> (r: Result<(), RuntimeServiceError>)
    ensures
        validate::refusal(r) == stale(expected, actual),
{
    match expected {
        Some(e) => {
            if e != actual {
                Err(RuntimeServiceError::RevisionConflict { expected: e, actual })
            } else {
                Ok(())
            }
        },
        None => Ok(()),
    }
}

/// The service that is to be changed, at the expected revision.
pub open spec fn opened(st: RuntimeStateView, sid: Seq<char>, expected: Option<u64>) -> Result<
    RuntimeServiceView,
    RuntimeServiceErrorView,
> {
    match found_service(st, sid) {
        Ok(s) => match stale(expected, s.revision) {
            Some(e) => Err(e),
            None => Ok(s),
        },
        Err(e) => Err(e),
    }
}

/// The state with the service `sid` changed to `s` at the next revision.
pub open spec fn revised(st: RuntimeStateView, sid: Seq<char>, s: RuntimeServiceView) -> RuntimeStateView {
    let rev = bumped(st.revision);
    let entry = (sid, RuntimeServiceView { revision: rev, ..s });
    RuntimeStateView {
        revision: rev,
        services: match sorted_map::position(st.services, sid, 0) {
            Some(i) => st.services.update(i, entry),
            None => st.services,
        },
        ..st
    }
}

/// The change of the service `sid` to `s`, unless the rules refuse it.
pub open spec fn committed<X>(
    st: RuntimeStateView,
    sid: Seq<char>,
    s: RuntimeServiceView,
    x: X,
) -> Change<X> {
    match validate::state_fault(revised(st, sid, s)) {
        Some(e) => Err(e),
        None => Ok((revised(st, sid, s), x)),
    }
}

impl RuntimeState {
    /// Where the service stands, at the expected revision.
    fn open_service(&self, service_id: &str, expected: Option<u64>) -> (r: Result<
        usize,
        RuntimeServiceError,
    >)
        ensures
            match r {
                Ok(i) => {
                    &&& i < self.services.entries.len()
                    &&& sorted_map::position(self.deep_view().services, service_id@, 0) == Some(
                        i as int,
                    )
                    &&& opened(self.deep_view(), service_id@, expected) == Ok::<
                        _,
                        RuntimeServiceErrorView,
                    >(self.services.entries@[i as int].1.deep_view())
                },
                Err(e) => opened(self.deep_view(), service_id@, expected) == Err::<
                    RuntimeServiceView,
                    _,
                >(e.deep_view()),
            },
    {
        match self.services.find(&service_id.to_owned()) {
            Some(i) => match check_revision(expected, self.services.entries[i].1.revision) {
                Ok(_) => Ok(i),
                Err(e) => Err(e),
            },
            None => Err(unknown_service(service_id)),
        }
    }

    /// Changes the service that stands at `i`, unless the rules refuse it.
    fn commit(&mut self, i: usize, service_id: &str, service: RuntimeService) -> (r: Result<
        (),
        RuntimeServiceError,
    >)
        requires
            i < old(self).services.entries.len(),
            sorted_map::position(old(self).deep_view().services, service_id@, 0) == Some(i as int),
        ensures
            came_out(
                old(self).deep_view(),
                final(self).deep_view(),
                r,
                committed(old(self).deep_view(), service_id@, service.deep_view(), ()),
            ),
    {
        let ghost st = self.deep_view();
        let mut next = self.duplicate();
        next.revision = self.revision.saturating_add(1);
        let mut changed = service;
        changed.revision = next.revision;
        proof {
            assert(next.services.entries.len() == next.deep_view().services.len());
            assert(self.services.entries.len() == self.deep_view().services.len());
        }
        next.services.entries[i] = (service_id.to_owned(), changed);
        assert(next.deep_view().services =~= revised(
            st,
            service_id@,
            service.deep_view(),
        ).services);
        match validate_state(&next) {
            Ok(_) => {
                *self = next;
                Ok(())
            },
            Err(e) => Err(e),
        }
    }
}

/// The change that sets a service.
pub open spec fn service_set(
    st: RuntimeStateView,
    service: RuntimeServiceView,
    expected: Option<u64>,
) -> Change<RuntimeServiceView> {
    match normalize::normal_service(service) {
        Err(e) => Err(e),
        Ok(s) => {
            let current = match sorted_map::lookup(st.services, s.id) {
                Some(x) => x.revision,
                None => 0,
            };
            match stale(expected, current) {
                Some(e) => Err(e),
                None => {
                    let rev = bumped(st.revision);
                    let s2 = RuntimeServiceView { revision: rev, ..s };
                    let next = RuntimeStateView {
                        revision: rev,
                        services: sorted_map::put::<String, RuntimeServiceView>(
                            st.services,
                            s.id,
                            s2,
                        ),
                        ..st
                    };
                    match validate::state_fault(next) {
                        Some(e) => Err(e),
                        None => Ok((next, s2)),
                    }
                },
            }
        },
    }
}

/// A service with a patch applied.
pub open spec fn patched_service(
    s: RuntimeServiceView,
    p: RuntimeServicePatchView,
) -> RuntimeServiceView {
    RuntimeServiceView {
        listeners: match p.listeners {
            Some(l) => l,
            None => s.listeners,
        },
        tls: match p.tls {
            Some(t) => Some(t),
            None => s.tls,
        },
        ..s
    }
}

/// The change that patches a service.
pub open spec fn service_patched(
    st: RuntimeStateView,
    sid: Seq<char>,
    p: RuntimeServicePatchView,
    expected: Option<u64>,
) -> Change<RuntimeServiceView> {
    match opened(st, sid, expected) {
        Err(e) => Err(e),
        Ok(s) => service_set(st, patched_service(s, p), Some(s.revision)),
    }
}

/// The change that removes a service.
pub open spec fn service_removed(
    st: RuntimeStateView,
    sid: Seq<char>,
    expected: Option<u64>,
) -> Change<RuntimeServiceView> {
    match opened(st, sid, expected) {
        Err(e) => Err(e),
        Ok(s) => Ok(
            (
                RuntimeStateView {
                    revision: bumped(st.revision),
                    services: sorted_map::without(st.services, sid),
                    ..st
                },
                s,
            ),
        ),
    }
}

/// The change that sets a listener.
pub open spec fn listener_set(
    st: RuntimeStateView,
    sid: Seq<char>,
    lid: Seq<char>,
    l: RuntimeListenerView,
    expected: Option<u64>,
) -> Change<RuntimeListenerView> {
    match normalize::normal_listener(RuntimeListenerView { id: lid, ..l }) {
        Err(e) => Err(e),
        Ok(n) => match opened(st, sid, expected) {
            Err(e) => Err(e),
            Ok(s) => committed(
                st,
                sid,
                normalize::service_in_order(
                    RuntimeServiceView {
                        listeners: with_part::<RuntimeListener>(s.listeners, n),
                        ..s
                    },
                ),
                n,
            ),
        },
    }
}

/// A listener with a patch applied.
pub open spec fn patched_listener(
    l: RuntimeListenerView,
    p: RuntimeListenerPatchView,
) -> RuntimeListenerView {
    RuntimeListenerView {
        protocol: match p.protocol {
            Some(x) => x,
            None => l.protocol,
        },
        ..l
    }
}

/// The change that patches a listener.
pub open spec fn listener_patched(
    st: RuntimeStateView,
    sid: Seq<char>,
    lid: Seq<char>,
    p: RuntimeListenerPatchView,
    expected: Option<u64>,
) -> Change<RuntimeListenerView> {
    match found_listener(st, sid, lid) {
        Err(e) => Err(e),
        Ok(l) => listener_set(st, sid, lid, patched_listener(l, p), expected),
    }
}

/// The change that removes a listener.
pub open spec fn listener_removed(
    st: RuntimeStateView,
    sid: Seq<char>,
    lid: Seq<char>,
    expected: Option<u64>,
) -> Change<RuntimeListenerView> {
    match opened(st, sid, expected) {
        Err(e) => Err(e),
        Ok(s) => match at::<RuntimeListener>(s.listeners, lid, 0) {
            None => Err(
                RuntimeServiceErrorView::UnknownListener { service_id: sid, listener_id: lid },
            ),
            Some(i) => committed(
                st,
                sid,
                RuntimeServiceView { listeners: s.listeners.remove(i), ..s },
                s.listeners[i],
            ),
        },
    }
}

/// The change that sets a route.
pub open spec fn route_set(
    st: RuntimeStateView,
    sid: Seq<char>,
    rid: Seq<char>,
    r: RuntimeRouteView,
    expected: Option<u64>,
) -> Change<RuntimeRouteView> {
    match normalize::normal_route(RuntimeRouteView { id: rid, ..r }) {
        Err(e) => Err(e),
        Ok(n) => match opened(st, sid, expected) {
            Err(e) => Err(e),
            Ok(s) => committed(
                st,
                sid,
                normalize::service_in_order(
                    RuntimeServiceView { routes: with_part::<RuntimeRoute>(s.routes, n), ..s },
                ),
                n,
            ),
        },
    }
}

/// The value of a patch, or the one that is there.
pub open spec fn or_else<X>(p: Option<X>, x: X) -> X {
    match p {
        Some(y) => y,
        None => x,
    }
}

/// The optional value of a patch, or the one that is there.
pub open spec fn or_option<X>(p: Option<X>, x: Option<X>) -> Option<X> {
    match p {
        Some(y) => Some(y),
        None => x,
    }
}

/// A route with a patch applied.
pub open spec fn patched_route(r: RuntimeRouteView, p: RuntimeRoutePatchView) -> RuntimeRouteView {
    RuntimeRouteView {
        id: r.id,
        hosts: or_else(p.hosts, r.hosts),
        path_prefix: or_else(p.path_prefix, r.path_prefix),
        matchers: or_else(p.matchers, r.matchers),
        strip_path_prefix: or_else(p.strip_path_prefix, r.strip_path_prefix),
        lb: or_else(p.lb, r.lb),
        lb_header: or_option(p.lb_header, r.lb_header),
        lb_cookie: or_option(p.lb_cookie, r.lb_cookie),
        target_groups: or_else(p.target_groups, r.target_groups),
        health_check: or_else(p.health_check, r.health_check),
    }
}

/// The change that patches a route.
pub open spec fn route_patched(
    st: RuntimeStateView,
    sid: Seq<char>,
    rid: Seq<char>,
    p: RuntimeRoutePatchView,
    expected: Option<u64>,
) -> Change<RuntimeRouteView> {
    match found_route(st, sid, rid) {
        Err(e) => Err(e),
        Ok(r) => route_set(st, sid, rid, patched_route(r, p), expected),
    }
}

/// The change that removes a route.
pub open spec fn route_removed(
    st: RuntimeStateView,
    sid: Seq<char>,
    rid: Seq<char>,
    expected: Option<u64>,
) -> Change<RuntimeRouteView> {
    match opened(st, sid, expected) {
        Err(e) => Err(e),
        Ok(s) => match at::<RuntimeRoute>(s.routes, rid, 0) {
            None => Err(RuntimeServiceErrorView::UnknownRoute { service_id: sid, route_id: rid }),
            Some(i) => committed(
                st,
                sid,
                RuntimeServiceView { routes: s.routes.remove(i), ..s },
                s.routes[i],
            ),
        },
    }
}

/// Where a group stands: the position of its route and its own.
pub open spec fn group_place(
    s: RuntimeServiceView,
    sid: Seq<char>,
    rid: Seq<char>,
    gid: Seq<char>,
) -> Result<(int, int), RuntimeServiceErrorView> {
    match at::<RuntimeRoute>(s.routes, rid, 0) {
        None => Err(RuntimeServiceErrorView::UnknownRoute { service_id: sid, route_id: rid }),
        Some(i) => match at::<RuntimeTargetGroup>(s.routes[i].target_groups, gid, 0) {
            None => Err(
                RuntimeServiceErrorView::UnknownTargetGroup {
                    service_id: sid,
                    route_id: rid,
                    group_id: gid,
                },
            ),
            Some(k) => Ok((i, k)),
        },
    }
}

/// A route with the targets of one group replaced.
pub open spec fn route_with_targets(
    r: RuntimeRouteView,
    k: int,
    ts: Seq<RuntimeTargetView>,
) -> RuntimeRouteView {
    RuntimeRouteView {
        target_groups: r.target_groups.update(
            k,
            RuntimeTargetGroupView { targets: ts, ..r.target_groups[k] },
        ),
        ..r
    }
}

/// A service with the targets of one group replaced, and all in order again.
pub open spec fn service_with_targets(
    s: RuntimeServiceView,
    i: int,
    k: int,
    ts: Seq<RuntimeTargetView>,
) -> RuntimeServiceView {
    normalize::service_in_order(
        RuntimeServiceView {
            routes: s.routes.update(
                i,
                normalize::route_in_order(route_with_targets(s.routes[i], k, ts)),
            ),
            ..s
        },
    )
}

/// The change that sets a target.
pub open spec fn target_set(
    st: RuntimeStateView,
    sid: Seq<char>,
    rid: Seq<char>,
    gid: Seq<char>,
    tid: Seq<char>,
    t: RuntimeTargetView,
    expected: Option<u64>,
) -> Change<RuntimeTargetView> {
    match normalize::normal_target(RuntimeTargetView { id: tid, ..t }) {
        Err(e) => Err(e),
        Ok(n) => match opened(st, sid, expected) {
            Err(e) => Err(e),
            Ok(s) => match group_place(s, sid, rid, gid) {
                Err(e) => Err(e),
                Ok((i, k)) => committed(
                    st,
                    sid,
                    service_with_targets(
                        s,
                        i,
                        k,
                        with_part::<RuntimeTarget>(s.routes[i].target_groups[k].targets, n),
                    ),
                    n,
                ),
            },
        },
    }
}

/// A target with a patch applied; leaving the failed state drops the error text.
pub open spec fn patched_target(t: RuntimeTargetView, p: RuntimeTargetPatchView) -> RuntimeTargetView {
    RuntimeTargetView {
        id: t.id,
        addr: or_else(p.addr, t.addr),
        weight: or_else(p.weight, t.weight),
        state: or_else(p.state, t.state),
        drain_timeout: or_else(p.drain_timeout, t.drain_timeout),
        last_error: if p.state matches Some(x) && x != RuntimeTargetState::Failed {
            None
        } else {
            t.last_error
        },
    }
}

/// The change that patches a target.
pub open spec fn target_patched(
    st: RuntimeStateView,
    sid: Seq<char>,
    rid: Seq<char>,
    gid: Seq<char>,
    tid: Seq<char>,
    p: RuntimeTargetPatchView,
    expected: Option<u64>,
) -> Change<RuntimeTargetView> {
    match found_target(st, sid, rid, gid, tid) {
        Err(e) => Err(e),
        Ok(t) => target_set(st, sid, rid, gid, tid, patched_target(t, p), expected),
    }
}

/// The change that removes a target.
pub open spec fn target_removed(
    st: RuntimeStateView,
    sid: Seq<char>,
    rid: Seq<char>,
    gid: Seq<char>,
    tid: Seq<char>,
    expected: Option<u64>,
) -> Change<RuntimeTargetView> {
    match opened(st, sid, expected) {
        Err(e) => Err(e),
        Ok(s) => match group_place(s, sid, rid, gid) {
            Err(e) => Err(e),
            Ok((i, k)) => {
                let ts = s.routes[i].target_groups[k].targets;
                match at::<RuntimeTarget>(ts, tid, 0) {
                    None => Err(
                        RuntimeServiceErrorView::UnknownTarget {
                            service_id: sid,
                            route_id: rid,
                            group_id: gid,
                            target_id: tid,
                        },
                    ),
                    Some(n) => committed(
                        st,
                        sid,
                        service_with_targets(s, i, k, ts.remove(n)),
                        ts[n],
                    ),
                }
            },
        },
    }
}

/// A target in another state; an error text stays with the failed state alone.
pub open spec fn target_in_state(
    t: RuntimeTargetView,
    state: RuntimeTargetState,
    last_error: Option<Seq<char>>,
) -> RuntimeTargetView {
    RuntimeTargetView {
        state,
        last_error: if state == RuntimeTargetState::Failed {
            last_error
        } else {
            None
        },
        ..t
    }
}

/// The change that moves a target to another state. No revision is expected
/// and nothing is put in order again.
pub open spec fn target_moved(
    st: RuntimeStateView,
    sid: Seq<char>,
    rid: Seq<char>,
    gid: Seq<char>,
    tid: Seq<char>,
    state: RuntimeTargetState,
    last_error: Option<Seq<char>>,
) -> Change<RuntimeTargetView> {
    match found_service(st, sid) {
        Err(e) => Err(e),
        Ok(s) => match group_place(s, sid, rid, gid) {
            Err(e) => Err(e),
            Ok((i, k)) => {
                let ts = s.routes[i].target_groups[k].targets;
                match at::<RuntimeTarget>(ts, tid, 0) {
                    None => Err(
                        RuntimeServiceErrorView::UnknownTarget {
                            service_id: sid,
                            route_id: rid,
                            group_id: gid,
                            target_id: tid,
                        },
                    ),
                    Some(n) => {
                        let t = target_in_state(ts[n], state, last_error);
                        committed(
                            st,
                            sid,
                            RuntimeServiceView {
                                routes: s.routes.update(
                                    i,
                                    route_with_targets(s.routes[i], k, ts.update(n, t)),
                                ),
                                ..s
                            },
                            t,
                        )
                    },
                }
            },
        },
    }
}

/// Where a group stands.
fn find_place(service: &RuntimeService, sid: &str, rid: &str, gid: &str) -> (r: Result<
    (usize, usize),
    RuntimeServiceError,
>)
    ensures
        match r {
            Ok((i, k)) => {
                &&& group_place(service.deep_view(), sid@, rid@, gid@) == Ok::<
                    _,
                    RuntimeServiceErrorView,
                >((i as int, k as int))
                &&& i < service.routes.len()
                &&& k < service.routes@[i as int].target_groups.len()
            },
            Err(e) => group_place(service.deep_view(), sid@, rid@, gid@) == Err::<(int, int), _>(
                e.deep_view(),
            ),
        },
{
    match find_part(&service.routes, rid) {
        None => Err(unknown_route(sid, rid)),
        Some(i) => match find_part(&service.routes[i].target_groups, gid) {
            None => Err(unknown_group(sid, rid, gid)),
            Some(k) => Ok((i, k)),
        },
    }
}

/// Replaces the targets of one group.
fn set_targets(service: &mut RuntimeService, i: usize, k: usize, ts: Vec<RuntimeTarget>)
    requires
        i < old(service).routes.len(),
        k < old(service).routes@[i as int].target_groups.len(),
    ensures
        final(service).deep_view() == (RuntimeServiceView {
            routes: old(service).deep_view().routes.update(
                i as int,
                route_with_targets(
                    old(service).deep_view().routes[i as int],
                    k as int,
                    ts.deep_view(),
                ),
            ),
            ..old(service).deep_view()
        }),
{
    let ghost before = service.deep_view();
    let mut route = service.routes[i].duplicate();
    let ghost rv = route.deep_view();
    proof {
        assert(rv.target_groups.len() == route.target_groups.len());
        assert(before.routes[i as int].target_groups.len()
            == service.routes@[i as int].target_groups.len());
    }
    let group = RuntimeTargetGroup {
        id: route.target_groups[k].id.clone(),
        weight: route.target_groups[k].weight,
        targets: ts,
    };
    route.target_groups[k] = group;
    assert(route.deep_view().target_groups =~= route_with_targets(
        rv,
        k as int,
        ts.deep_view(),
    ).target_groups);
    service.routes[i] = route;
    assert(service.deep_view().routes =~= before.routes.update(
        i as int,
        route_with_targets(rv, k as int, ts.deep_view()),
    ));
}

/// Replaces the targets of one group and puts everything in order again.
fn set_targets_in_order(service: &mut RuntimeService, i: usize, k: usize, ts: Vec<RuntimeTarget>)
    requires
        i < old(service).routes.len(),
        k < old(service).routes@[i as int].target_groups.len(),
    ensures
        final(service).deep_view() == service_with_targets(
            old(service).deep_view(),
            i as int,
            k as int,
            ts.deep_view(),
        ),
{
    let ghost before = service.deep_view();
    set_targets(service, i, k, ts);
    let ghost mid = service.deep_view();
    assert(service.routes.len() == mid.routes.len());
    assert(before.routes.len() == mid.routes.len());
    let mut route = service.routes[i].duplicate();
    let ghost rv = route_with_targets(before.routes[i as int], k as int, ts.deep_view());
    assert(mid.routes[i as int] == rv);
    assert(route.deep_view() == rv);
    sort_route(&mut route);
    service.routes[i] = route;
    proof {
        assert forall|j: int| 0 <= j < mid.routes.len() && j != i implies mid.routes[j]
            == before.routes[j] by {}
    }
    assert(service.deep_view().routes =~= mid.routes.update(i as int, normalize::route_in_order(rv)));
    assert(service.deep_view().routes =~= before.routes.update(
        i as int,
        normalize::route_in_order(
            route_with_targets(before.routes[i as int], k as int, ts.deep_view()),
        ),
    ));
    sort_service(service);
}

impl RuntimeState {
    /// Sets a service, unless its revision is not the expected one or the rules
    /// refuse it.
    pub fn upsert_service(&mut self, service: RuntimeService, expected_revision: Option<u64>) -> (r:
        Result<RuntimeService, RuntimeServiceError>)
        ensures
            came_out(
                old(self).deep_view(),
                final(self).deep_view(),
                r,
                service_set(old(self).deep_view(), service.deep_view(), expected_revision),
            ),
    {
        let mut service = match normalize_service(&service) {
            Ok(s) => s,
            Err(e) => {
                return Err(e);
            },
        };
        let current: u64 = match self.services.get(&service.id) {
            Some(s) => s.revision,
            None => 0,
        };
        if let Err(e) = check_revision(expected_revision, current) {
            return Err(e);
        }
        let mut next = self.duplicate();
        next.revision = self.revision.saturating_add(1);
        service.revision = next.revision;
        next.services.insert(service.id.clone(), service.duplicate());
        match validate_state(&next) {
            Ok(_) => {
                *self = next;
                Ok(service)
            },
            Err(e) => Err(e),
        }
    }

    /// Patches a service.
    pub fn patch_service(
        &mut self,
        service_id: &str,
        patch: RuntimeServicePatch,
        expected_revision: Option<u64>,
    ) -> (r: Result<RuntimeService, RuntimeServiceError>)
        ensures
            came_out(
                old(self).deep_view(),
                final(self).deep_view(),
                r,
                service_patched(
                    old(self).deep_view(),
                    service_id@,
                    patch.deep_view(),
                    expected_revision,
                ),
            ),
    {
        let i: usize = match self.open_service(service_id, expected_revision) {
            Ok(i) => i,
            Err(e) => {
                return Err(e);
            },
        };
        let mut service = self.services.entries[i].1.duplicate();
        let revision: u64 = service.revision;
        if let Some(listeners) = patch.listeners {
            service.listeners = listeners;
        }
        if let Some(tls) = patch.tls {
            service.tls = Some(tls);
        }
        self.upsert_service(service, Some(revision))
    }

    /// Removes a service.
    pub fn remove_service(&mut self, service_id: &str, expected_revision: Option<u64>) -> (r: Result<
        RuntimeService,
        RuntimeServiceError,
    >)
        ensures
            came_out(
                old(self).deep_view(),
                final(self).deep_view(),
                r,
                service_removed(old(self).deep_view(), service_id@, expected_revision),
            ),
    {
        if let Err(e) = self.open_service(service_id, expected_revision) {
            return Err(e);
        }
        match self.services.remove(&service_id.to_owned()) {
            Some(removed) => {
                self.revision = self.revision.saturating_add(1);
                Ok(removed)
            },
            None => Err(unknown_service(service_id)),
        }
    }

    /// Sets a listener of a service.
    ///
    /// Law: [`crate::runtime_services::operations::lemma_upsert_listener`].
    pub fn upsert_listener(
        &mut self,
        service_id: &str,
        listener_id: &str,
        listener: RuntimeListener,
        expected_revision: Option<u64>,
    ) -> (r: Result<RuntimeListener, RuntimeServiceError>)
        ensures
            came_out(
                old(self).deep_view(),
                final(self).deep_view(),
                r,
                listener_set(
                    old(self).deep_view(),
                    service_id@,
                    listener_id@,
                    listener.deep_view(),
                    expected_revision,
                ),
            ),
    {
        let mut wanted = listener;
        wanted.id = listener_id.to_owned();
        let listener = match normalize_listener(&wanted) {
            Ok(l) => l,
            Err(e) => {
                return Err(e);
            },
        };
        let i: usize = match self.open_service(service_id, expected_revision) {
            Ok(i) => i,
            Err(e) => {
                return Err(e);
            },
        };
        let mut service = self.services.entries[i].1.duplicate();
        put_part(&mut service.listeners, listener.duplicate(), listener.id.as_str());
        sort_service(&mut service);
        match self.commit(i, service_id, service) {
            Ok(_) => Ok(listener),
            Err(e) => Err(e),
        }
    }

    /// Patches a listener of a service.
    pub fn patch_listener(
        &mut self,
        service_id: &str,
        listener_id: &str,
        patch: RuntimeListenerPatch,
        expected_revision: Option<u64>,
    ) -> (r: Result<RuntimeListener, RuntimeServiceError>)
        ensures
            came_out(
                old(self).deep_view(),
                final(self).deep_view(),
                r,
                listener_patched(
                    old(self).deep_view(),
                    service_id@,
                    listener_id@,
                    patch.deep_view(),
                    expected_revision,
                ),
            ),
    {
        let mut listener = match self.get_listener(service_id, listener_id) {
            Ok(l) => l,
            Err(e) => {
                return Err(e);
            },
        };
        if let Some(protocol) = patch.protocol {
            listener.protocol = protocol;
        }
        self.upsert_listener(service_id, listener_id, listener, expected_revision)
    }

    /// Removes a listener of a service.
    pub fn remove_listener(
        &mut self,
        service_id: &str,
        listener_id: &str,
        expected_revision: Option<u64>,
    ) -> (r: Result<RuntimeListener, RuntimeServiceError>)
        ensures
            came_out(
                old(self).deep_view(),
                final(self).deep_view(),
                r,
                listener_removed(
                    old(self).deep_view(),
                    service_id@,
                    listener_id@,
                    expected_revision,
                ),
            ),
    {
        let i: usize = match self.open_service(service_id, expected_revision) {
            Ok(i) => i,
            Err(e) => {
                return Err(e);
            },
        };
        let mut service = self.services.entries[i].1.duplicate();
        let ghost sv = service.deep_view();
        match find_part(&service.listeners, listener_id) {
            None => Err(unknown_listener(service_id, listener_id)),
            Some(k) => {
                let removed = service.listeners.remove(k);
                assert(service.deep_view().listeners =~= sv.listeners.remove(k as int));
                match self.commit(i, service_id, service) {
                    Ok(_) => Ok(removed),
                    Err(e) => Err(e),
                }
            },
        }
    }

    /// Sets a route of a service.
    ///
    /// Law: [`crate::runtime_services::operations::lemma_upsert_route`].
    pub fn upsert_route(
        &mut self,
        service_id: &str,
        route_id: &str,
        route: RuntimeRoute,
        expected_revision: Option<u64>,
    ) -> (r: Result<RuntimeRoute, RuntimeServiceError>)
        ensures
            came_out(
                old(self).deep_view(),
                final(self).deep_view(),
                r,
                route_set(
                    old(self).deep_view(),
                    service_id@,
                    route_id@,
                    route.deep_view(),
                    expected_revision,
                ),
            ),
    {
        let mut wanted = route;
        wanted.id = route_id.to_owned();
        let route = match normalize_route(&wanted) {
            Ok(x) => x,
            Err(e) => {
                return Err(e);
            },
        };
        let i: usize = match self.open_service(service_id, expected_revision) {
            Ok(i) => i,
            Err(e) => {
                return Err(e);
            },
        };
        let mut service = self.services.entries[i].1.duplicate();
        put_part(&mut service.routes, route.duplicate(), route.id.as_str());
        sort_service(&mut service);
        match self.commit(i, service_id, service) {
            Ok(_) => Ok(route),
            Err(e) => Err(e),
        }
    }

    /// Patches a route of a service.
    ///
    /// Law: [`crate::runtime_services::operations::lemma_patch_route_empty`].
    pub fn patch_route(
        &mut self,
        service_id: &str,
        route_id: &str,
        patch: RuntimeRoutePatch,
        expected_revision: Option<u64>,
    ) -> (r: Result<RuntimeRoute, RuntimeServiceError>)
        ensures
            came_out(
                old(self).deep_view(),
                final(self).deep_view(),
                r,
                route_patched(
                    old(self).deep_view(),
                    service_id@,
                    route_id@,
                    patch.deep_view(),
                    expected_revision,
                ),
            ),
    {
        let mut route = match self.get_route(service_id, route_id) {
            Ok(x) => x,
            Err(e) => {
                return Err(e);
            },
        };
        if let Some(hosts) = patch.hosts {
            route.hosts = hosts;
        }
        if let Some(path_prefix) = patch.path_prefix {
            route.path_prefix = path_prefix;
        }
        if let Some(matchers) = patch.matchers {
            route.matchers = matchers;
        }
        if let Some(strip_path_prefix) = patch.strip_path_prefix {
            route.strip_path_prefix = strip_path_prefix;
        }
        if let Some(lb) = patch.lb {
            route.lb = lb;
        }
        if let Some(lb_header) = patch.lb_header {
            route.lb_header = Some(lb_header);
        }
        if let Some(lb_cookie) = patch.lb_cookie {
            route.lb_cookie = Some(lb_cookie);
        }
        if let Some(target_groups) = patch.target_groups {
            route.target_groups = target_groups;
        }
        if let Some(health_check) = patch.health_check {
            route.health_check = health_check;
        }
        self.upsert_route(service_id, route_id, route, expected_revision)
    }

    /// Removes a route of a service.
    pub fn remove_route(
        &mut self,
        service_id: &str,
        route_id: &str,
        expected_revision: Option<u64>,
    ) -> (r: Result<RuntimeRoute, RuntimeServiceError>)
        ensures
            came_out(
                old(self).deep_view(),
                final(self).deep_view(),
                r,
                route_removed(old(self).deep_view(), service_id@, route_id@, expected_revision),
            ),
    {
        let i: usize = match self.open_service(service_id, expected_revision) {
            Ok(i) => i,
            Err(e) => {
                return Err(e);
            },
        };
        let mut service = self.services.entries[i].1.duplicate();
        let ghost sv = service.deep_view();
        match find_part(&service.routes, route_id) {
            None => Err(unknown_route(service_id, route_id)),
            Some(k) => {
                let removed = service.routes.remove(k);
                assert(service.deep_view().routes =~= sv.routes.remove(k as int));
                match self.commit(i, service_id, service) {
                    Ok(_) => Ok(removed),
                    Err(e) => Err(e),
                }
            },
        }
    }

    /// Sets a target of a group.
    ///
    /// Law: [`crate::runtime_services::target_ids::lemma_taken_target_refused`].
    pub fn upsert_target(
        &mut self,
        service_id: &str,
        route_id: &str,
        group_id: &str,
        target_id: &str,
        target: RuntimeTarget,
        expected_revision: Option<u64>,
    ) -> (r: Result<RuntimeTarget, RuntimeServiceError>)
        ensures
            came_out(
                old(self).deep_view(),
                final(self).deep_view(),
                r,
                target_set(
                    old(self).deep_view(),
                    service_id@,
                    route_id@,
                    group_id@,
                    target_id@,
                    target.deep_view(),
                    expected_revision,
                ),
            ),
    {
        let mut wanted = target;
        wanted.id = target_id.to_owned();
        let target = match normalize_target(&wanted) {
            Ok(t) => t,
            Err(e) => {
                return Err(e);
            },
        };
        let i: usize = match self.open_service(service_id, expected_revision) {
            Ok(i) => i,
            Err(e) => {
                return Err(e);
            },
        };
        let mut service = self.services.entries[i].1.duplicate();
        match find_place(&service, service_id, route_id, group_id) {
            Err(e) => Err(e),
            Ok((ri, gi)) => {
                let mut targets = service.routes[ri].target_groups[gi].targets.duplicate();
                put_part(&mut targets, target.duplicate(), target.id.as_str());
                set_targets_in_order(&mut service, ri, gi, targets);
                match self.commit(i, service_id, service) {
                    Ok(_) => Ok(target),
                    Err(e) => Err(e),
                }
            },
        }
    }

    /// Patches a target of a group.
    pub fn patch_target(
        &mut self,
        service_id: &str,
        route_id: &str,
        group_id: &str,
        target_id: &str,
        patch: RuntimeTargetPatch,
        expected_revision: Option<u64>,
    ) -> (r: Result<RuntimeTarget, RuntimeServiceError>)
        ensures
            came_out(
                old(self).deep_view(),
                final(self).deep_view(),
                r,
                target_patched(
                    old(self).deep_view(),
                    service_id@,
                    route_id@,
                    group_id@,
                    target_id@,
                    patch.deep_view(),
                    expected_revision,
                ),
            ),
    {
        let mut target = match self.get_target(service_id, route_id, group_id, target_id) {
            Ok(t) => t,
            Err(e) => {
                return Err(e);
            },
        };
        if let Some(addr) = patch.addr {
            target.addr = addr;
        }
        if let Some(weight) = patch.weight {
            target.weight = weight;
        }
        if let Some(state) = patch.state {
            target.state = state;
            if target.state != RuntimeTargetState::Failed {
                target.last_error = None;
            }
        }
        if let Some(drain_timeout) = patch.drain_timeout {
            target.drain_timeout = drain_timeout;
        }
        self.upsert_target(service_id, route_id, group_id, target_id, target, expected_revision)
    }

    /// Removes a target of a group.
    ///
    /// Law: [`crate::runtime_services::operations::lemma_remove_target`].
    pub fn remove_target(
        &mut self,
        service_id: &str,
        route_id: &str,
        group_id: &str,
        target_id: &str,
        expected_revision: Option<u64>,
    ) -> (r: Result<RuntimeTarget, RuntimeServiceError>)
        ensures
            came_out(
                old(self).deep_view(),
                final(self).deep_view(),
                r,
                target_removed(
                    old(self).deep_view(),
                    service_id@,
                    route_id@,
                    group_id@,
                    target_id@,
                    expected_revision,
                ),
            ),
    {
        let i: usize = match self.open_service(service_id, expected_revision) {
            Ok(i) => i,
            Err(e) => {
                return Err(e);
            },
        };
        let mut service = self.services.entries[i].1.duplicate();
        match find_place(&service, service_id, route_id, group_id) {
            Err(e) => Err(e),
            Ok((ri, gi)) => {
                let mut targets = service.routes[ri].target_groups[gi].targets.duplicate();
                let ghost ts = targets.deep_view();
                match find_part(&targets, target_id) {
                    None => Err(unknown_target(service_id, route_id, group_id, target_id)),
                    Some(n) => {
                        let removed = targets.remove(n);
                        assert(targets.deep_view() =~= ts.remove(n as int));
                        set_targets_in_order(&mut service, ri, gi, targets);
                        match self.commit(i, service_id, service) {
                            Ok(_) => Ok(removed),
                            Err(e) => Err(e),
                        }
                    },
                }
            },
        }
    }

    /// Moves a target of a group to another state.
    ///
    /// Law: [`crate::runtime_services::operations::lemma_set_target_state`].
    pub fn set_target_state(
        &mut self,
        service_id: &str,
        route_id: &str,
        group_id: &str,
        target_id: &str,
        state: RuntimeTargetState,
        last_error: Option<String>,
    ) -> (r: Result<RuntimeTarget, RuntimeServiceError>)
        ensures
            came_out(
                old(self).deep_view(),
                final(self).deep_view(),
                r,
                target_moved(
                    old(self).deep_view(),
                    service_id@,
                    route_id@,
                    group_id@,
                    target_id@,
                    state,
                    last_error.deep_view(),
                ),
            ),
    {
        let i: usize = match self.open_service(service_id, None) {
            Ok(i) => i,
            Err(e) => {
                return Err(e);
            },
        };
        let mut service = self.services.entries[i].1.duplicate();
        match find_place(&service, service_id, route_id, group_id) {
            Err(e) => Err(e),
            Ok((ri, gi)) => {
                let mut targets = service.routes[ri].target_groups[gi].targets.duplicate();
                let ghost ts = targets.deep_view();
                match find_part(&targets, target_id) {
                    None => Err(unknown_target(service_id, route_id, group_id, target_id)),
                    Some(n) => {
                        let mut target = targets[n].duplicate();
                        target.state = state;
                        target.last_error = if state == RuntimeTargetState::Failed {
                            last_error
                        } else {
                            None
                        };
                        targets[n] = target.duplicate();
                        assert(targets.deep_view() =~= ts.update(n as int, target.deep_view()));
                        set_targets(&mut service, ri, gi, targets);
                        match self.commit(i, service_id, service) {
                            Ok(_) => Ok(target),
                            Err(e) => Err(e),
                        }
                    },
                }
            },
        }
    }
}

} // verus!
