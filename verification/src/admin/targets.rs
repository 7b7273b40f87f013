//! The targets of the runtime services: what is shown, set and counted of them.

use vstd::prelude::*;
use crate::data::Data;
use crate::proxy::activity;
use crate::proxy::activity::BackendActivityTracker;
use crate::runtime_services::registry;
use crate::runtime_services::registry::runtime_target_activity_key;
use crate::runtime_services::state;
use crate::runtime_services::types::{
    RuntimeRoute, RuntimeRouteView, RuntimeService, RuntimeServiceError, RuntimeServiceErrorView, RuntimeServiceView,
    RuntimeState, RuntimeStateView, RuntimeTarget, RuntimeTargetGroup, RuntimeTargetGroupView,
    RuntimeTargetPatch, RuntimeTargetPatchView, RuntimeTargetRef, RuntimeTargetRefView,
    RuntimeTargetState, RuntimeTargetView,
};
use crate::sorted_map;
use crate::sorted_map::{MapKey, SortedMap};
use crate::text;

verus! {

/// The plain values of a [`TargetStatus`].
#[verifier::ext_equal]
pub struct TargetStatusView {
    pub service_id: Seq<char>,
    pub route_id: Seq<char>,
    pub group_id: Seq<char>,
    pub activity: usize,
    pub target: RuntimeTargetView,
}

/// A target with where it stands and how much it does.
#[derive(Debug, PartialEq, Eq)]
pub struct TargetStatus {
    pub service_id: String,
    pub route_id: String,
    pub group_id: String,
    /// The requests under way.
    pub activity: usize,
    pub target: RuntimeTarget,
}

impl DeepView for TargetStatus {
    type V = TargetStatusView;

    open spec fn deep_view(&self) -> TargetStatusView {
        TargetStatusView {
            service_id: self.service_id.deep_view(),
            route_id: self.route_id.deep_view(),
            group_id: self.group_id.deep_view(),
            activity: self.activity.deep_view(),
            target: self.target.deep_view(),
        }
    }
}

impl Data for TargetStatus {
    fn duplicate(&self) -> (r: TargetStatus) {
        TargetStatus {
            service_id: self.service_id.duplicate(),
            route_id: self.route_id.duplicate(),
            group_id: self.group_id.duplicate(),
            activity: self.activity.duplicate(),
            target: self.target.duplicate(),
        }
    }

    fn same_as(&self, other: &TargetStatus) -> (r: bool) {
        self.service_id.same_as(&other.service_id)
            && self.route_id.same_as(&other.route_id)
            && self.group_id.same_as(&other.group_id)
            && self.activity.same_as(&other.activity)
            && self.target.same_as(&other.target)
    }
}

impl Clone for TargetStatus {
    fn clone(&self) -> (r: TargetStatus)
        ensures
            r.deep_view() == self.deep_view(),
    {
        self.duplicate()
    }
}

/// What is shown of a target.
pub open spec fn status_of(
    m: Map<Seq<char>, Seq<u128>>,
    service: Seq<char>,
    route: Seq<char>,
    group: Seq<char>,
    t: RuntimeTargetView,
) -> TargetStatusView {
    TargetStatusView {
        service_id: service,
        route_id: route,
        group_id: group,
        activity: activity::active_of(m, registry::activity_key(service, route, group, t.id)),
        target: t,
    }
}

/// Shows a target.
pub fn target_view(
    tracker: &BackendActivityTracker,
    service_id: &str,
    route_id: &str,
    group_id: &str,
    target: RuntimeTarget,
) -> (r: TargetStatus)
    ensures
        r.deep_view() == status_of(
            tracker.deep_view(),
            service_id@,
            route_id@,
            group_id@,
            target.deep_view(),
        ),
{
    let key = runtime_target_activity_key(service_id, route_id, group_id, target.id.as_str());
    TargetStatus {
        service_id: service_id.to_owned(),
        route_id: route_id.to_owned(),
        group_id: group_id.to_owned(),
        activity: tracker.active(key.as_str()),
        target,
    }
}

/// Shows a target that comes with the id of its group.
pub fn target_view_from_ref(
    tracker: &BackendActivityTracker,
    service_id: &str,
    route_id: &str,
    target_ref: RuntimeTargetRef,
) -> (r: TargetStatus)
    ensures
        r.deep_view() == status_of(
            tracker.deep_view(),
            service_id@,
            route_id@,
            target_ref.deep_view().group_id,
            target_ref.deep_view().target,
        ),
{
    target_view(tracker, service_id, route_id, target_ref.group_id.as_str(), target_ref.target)
}

/// Shows the targets of a route.
pub fn handle_list_route_targets(
    state: &RuntimeState,
    tracker: &BackendActivityTracker,
    service_id: &str,
    route_id: &str,
) -> (r: Result<Vec<TargetStatus>, RuntimeServiceError>)
    ensures
        crate::data::outcome(r) == state::also(
            state::found_route(state.deep_view(), service_id@, route_id@),
            |x: RuntimeRouteView|
                state::groups_refs(x.target_groups, 0).map_values(
                    |t: RuntimeTargetRefView|
                        status_of(
                            tracker.deep_view(),
                            service_id@,
                            route_id@,
                            t.group_id,
                            t.target,
                        ),
                ),
        ),
{
    match state.list_route_targets(service_id, route_id) {
        Ok(refs) => {
            let ghost v = refs.deep_view();
            let ghost f = |t: RuntimeTargetRefView|
                status_of(tracker.deep_view(), service_id@, route_id@, t.group_id, t.target);
            let mut out: Vec<TargetStatus> = Vec::new();
            for i in 0..refs.len()
                invariant
                    v == refs.deep_view(),
                    f == (|t: RuntimeTargetRefView|
                        status_of(
                            tracker.deep_view(),
                            service_id@,
                            route_id@,
                            t.group_id,
                            t.target,
                        )),
                    out@.len() == i,
                    forall|j: int| 0 <= j < i ==> (#[trigger] out@[j]).deep_view() == f(v[j]),
            {
                assert(v[i as int] == refs@[i as int].deep_view());
                out.push(
                    target_view_from_ref(tracker, service_id, route_id, refs[i].duplicate()),
                );
            }
            assert(out.deep_view() =~= v.map_values(f));
            Ok(out)
        },
        Err(e) => Err(e),
    }
}

/// Shows the targets of a group.
pub fn handle_list_targets(
    state: &RuntimeState,
    tracker: &BackendActivityTracker,
    service_id: &str,
    route_id: &str,
    group_id: &str,
) -> (r: Result<Vec<TargetStatus>, RuntimeServiceError>)
    ensures
        crate::data::outcome(r) == state::also(
            state::found_group(state.deep_view(), service_id@, route_id@, group_id@),
            |g: RuntimeTargetGroupView|
                g.targets.map_values(
                    |t: RuntimeTargetView|
                        status_of(tracker.deep_view(), service_id@, route_id@, group_id@, t),
                ),
        ),
{
    match state.list_targets(service_id, route_id, group_id) {
        Ok(targets) => {
            let ghost v = targets.deep_view();
            let ghost f = |t: RuntimeTargetView|
                status_of(tracker.deep_view(), service_id@, route_id@, group_id@, t);
            let mut out: Vec<TargetStatus> = Vec::new();
            for i in 0..targets.len()
                invariant
                    v == targets.deep_view(),
                    f == (|t: RuntimeTargetView|
                        status_of(tracker.deep_view(), service_id@, route_id@, group_id@, t)),
                    out@.len() == i,
                    forall|j: int| 0 <= j < i ==> (#[trigger] out@[j]).deep_view() == f(v[j]),
            {
                assert(v[i as int] == targets@[i as int].deep_view());
                out.push(
                    target_view(tracker, service_id, route_id, group_id, targets[i].duplicate()),
                );
            }
            assert(out.deep_view() =~= v.map_values(f));
            Ok(out)
        },
        Err(e) => Err(e),
    }
}

/// Shows a target by its ids.
pub fn handle_get_target(
    state: &RuntimeState,
    tracker: &BackendActivityTracker,
    service_id: &str,
    route_id: &str,
    group_id: &str,
    target_id: &str,
) -> (r: Result<TargetStatus, RuntimeServiceError>)
    ensures
        crate::data::outcome(r) == state::also(
            state::found_target(state.deep_view(), service_id@, route_id@, group_id@, target_id@),
            |t: RuntimeTargetView|
                status_of(tracker.deep_view(), service_id@, route_id@, group_id@, t),
        ),
{
    match state.get_target(service_id, route_id, group_id, target_id) {
        Ok(t) => Ok(target_view(tracker, service_id, route_id, group_id, t)),
        Err(e) => Err(e),
    }
}

/// Sets the service with the given id, whatever id it carries.
pub fn handle_put_service(
    state: &mut RuntimeState,
    service_id: &str,
    service: RuntimeService,
    expected_revision: Option<u64>,
) -> (r: Result<RuntimeService, RuntimeServiceError>)
    ensures
        state::came_out(
            old(state).deep_view(),
            final(state).deep_view(),
            r,
            state::service_set(
                old(state).deep_view(),
                RuntimeServiceView { id: service_id@, ..service.deep_view() },
                expected_revision,
            ),
        ),
{
    let ghost given = service.deep_view();
    let mut service = service;
    service.id = service_id.to_owned();
    assert(service.deep_view() == (RuntimeServiceView { id: service_id@, ..given }));
    state.upsert_service(service, expected_revision)
}

/// Nothing but the state of a target is to change: it is drained.
pub open spec fn draining() -> RuntimeTargetPatchView {
    RuntimeTargetPatchView {
        addr: None,
        weight: None,
        state: Some(RuntimeTargetState::Draining),
        drain_timeout: None,
    }
}

/// Has a target drained. It stays in its group until it is idle.
pub fn handle_delete_target(
    state: &mut RuntimeState,
    service_id: &str,
    route_id: &str,
    group_id: &str,
    target_id: &str,
    expected_revision: Option<u64>,
) -> (r: Result<RuntimeTarget, RuntimeServiceError>)
    ensures
        state::came_out(
            old(state).deep_view(),
            final(state).deep_view(),
            r,
            state::target_patched(
                old(state).deep_view(),
                service_id@,
                route_id@,
                group_id@,
                target_id@,
                draining(),
                expected_revision,
            ),
        ),
{
    let patch = RuntimeTargetPatch {
        addr: None,
        weight: None,
        state: Some(RuntimeTargetState::Draining),
        drain_timeout: None,
    };
    assert(patch.deep_view() == draining());
    state.patch_target(service_id, route_id, group_id, target_id, patch, expected_revision)
}

/// The word for the state of a target.
pub open spec fn state_word(s: RuntimeTargetState) -> Seq<char> {
    match s {
        RuntimeTargetState::Active => "healthy"@,
        RuntimeTargetState::Warming => "warming"@,
        RuntimeTargetState::Draining => "draining"@,
        RuntimeTargetState::Failed => "failed"@,
    }
}

/// The word for the state of a target.
pub fn state_text(s: RuntimeTargetState) -> (r: &'static str)
    ensures
        r@ == state_word(s),
{
    match s {
        RuntimeTargetState::Active => "healthy",
        RuntimeTargetState::Warming => "warming",
        RuntimeTargetState::Draining => "draining",
        RuntimeTargetState::Failed => "failed",
    }
}

/// The targets of a group from `i` on.
pub open spec fn group_targets(
    m: Map<Seq<char>, Seq<u128>>,
    service: Seq<char>,
    route: Seq<char>,
    g: RuntimeTargetGroupView,
    i: int,
) -> Seq<TargetStatusView>
    decreases g.targets.len() - i,
{
    if i < 0 || i >= g.targets.len() {
        seq![]
    } else {
        seq![status_of(m, service, route, g.id, g.targets[i])] + group_targets(
            m,
            service,
            route,
            g,
            i + 1,
        )
    }
}

/// The targets of a route from the group at `i` on.
pub open spec fn route_targets(
    m: Map<Seq<char>, Seq<u128>>,
    service: Seq<char>,
    r: RuntimeRouteView,
    i: int,
) -> Seq<TargetStatusView>
    decreases r.target_groups.len() - i,
{
    if i < 0 || i >= r.target_groups.len() {
        seq![]
    } else {
        group_targets(m, service, r.id, r.target_groups[i], 0) + route_targets(m, service, r, i + 1)
    }
}

/// The targets of a service from the route at `i` on.
pub open spec fn service_targets(
    m: Map<Seq<char>, Seq<u128>>,
    s: RuntimeServiceView,
    i: int,
) -> Seq<TargetStatusView>
    decreases s.routes.len() - i,
{
    if i < 0 || i >= s.routes.len() {
        seq![]
    } else {
        route_targets(m, s.id, s.routes[i], 0) + service_targets(m, s, i + 1)
    }
}

/// The targets of a state from the service at `i` on.
pub open spec fn state_targets(
    m: Map<Seq<char>, Seq<u128>>,
    s: Seq<(Seq<char>, RuntimeServiceView)>,
    i: int,
) -> Seq<TargetStatusView>
    decreases s.len() - i,
{
    if i < 0 || i >= s.len() {
        seq![]
    } else {
        service_targets(m, s[i].1, 0) + state_targets(m, s, i + 1)
    }
}

/// Appends the targets of a group.
fn add_group_targets(
    out: &mut Vec<TargetStatus>,
    tracker: &BackendActivityTracker,
    service: &str,
    route: &str,
    group: &RuntimeTargetGroup,
)
    ensures
        final(out).deep_view() == old(out).deep_view() + group_targets(
            tracker.deep_view(),
            service@,
            route@,
            group.deep_view(),
            0,
        ),
{
    let ghost (m, g) = (tracker.deep_view(), group.deep_view());
    let ghost start = out.deep_view();
    for i in 0..group.targets.len()
        invariant
            m == tracker.deep_view(),
            g == group.deep_view(),
            out.deep_view() + group_targets(m, service@, route@, g, i as int) == start
                + group_targets(m, service@, route@, g, 0),
    {
        assert(g.targets[i as int] == group.targets@[i as int].deep_view());
        let row = target_view(
            tracker,
            service,
            route,
            group.id.as_str(),
            group.targets[i].duplicate(),
        );
        let ghost before = out.deep_view();
        let ghost v = row.deep_view();
        out.push(row);
        assert(out.deep_view() =~= before.push(v));
        assert(out.deep_view() + group_targets(m, service@, route@, g, i + 1) =~= before + (seq![v]
            + group_targets(m, service@, route@, g, i + 1)));
    }
    assert(out.deep_view() + Seq::<TargetStatusView>::empty() =~= out.deep_view());
}

/// Appends the targets of a route.
fn add_route_targets(
    out: &mut Vec<TargetStatus>,
    tracker: &BackendActivityTracker,
    service: &str,
    route: &RuntimeRoute,
)
    ensures
        final(out).deep_view() == old(out).deep_view() + route_targets(
            tracker.deep_view(),
            service@,
            route.deep_view(),
            0,
        ),
{
    let ghost (m, r) = (tracker.deep_view(), route.deep_view());
    let ghost start = out.deep_view();
    for i in 0..route.target_groups.len()
        invariant
            m == tracker.deep_view(),
            r == route.deep_view(),
            out.deep_view() + route_targets(m, service@, r, i as int) == start + route_targets(
                m,
                service@,
                r,
                0,
            ),
    {
        let ghost before = out.deep_view();
        assert(r.target_groups[i as int] == route.target_groups@[i as int].deep_view());
        add_group_targets(out, tracker, service, route.id.as_str(), &route.target_groups[i]);
        assert(out.deep_view() + route_targets(m, service@, r, i + 1) =~= before + (group_targets(
            m,
            service@,
            r.id,
            r.target_groups[i as int],
            0,
        ) + route_targets(m, service@, r, i + 1)));
    }
    assert(out.deep_view() + Seq::<TargetStatusView>::empty() =~= out.deep_view());
}

/// Appends the targets of a service.
fn add_service_targets(
    out: &mut Vec<TargetStatus>,
    tracker: &BackendActivityTracker,
    service: &RuntimeService,
)
    ensures
        final(out).deep_view() == old(out).deep_view() + service_targets(
            tracker.deep_view(),
            service.deep_view(),
            0,
        ),
{
    let ghost (m, s) = (tracker.deep_view(), service.deep_view());
    let ghost start = out.deep_view();
    for i in 0..service.routes.len()
        invariant
            m == tracker.deep_view(),
            s == service.deep_view(),
            out.deep_view() + service_targets(m, s, i as int) == start + service_targets(m, s, 0),
    {
        let ghost before = out.deep_view();
        assert(s.routes[i as int] == service.routes@[i as int].deep_view());
        add_route_targets(out, tracker, service.id.as_str(), &service.routes[i]);
        assert(out.deep_view() + service_targets(m, s, i + 1) =~= before + (route_targets(
            m,
            s.id,
            s.routes[i as int],
            0,
        ) + service_targets(m, s, i + 1)));
    }
    assert(out.deep_view() + Seq::<TargetStatusView>::empty() =~= out.deep_view());
}

/// Lists the targets of all services, in the order in which they stand.
pub fn all_targets(state: &RuntimeState, tracker: &BackendActivityTracker) -> (r: Vec<
    TargetStatus,
>)
    ensures
        r.deep_view() == state_targets(tracker.deep_view(), state.deep_view().services, 0),
{
    let ghost (m, s) = (tracker.deep_view(), state.deep_view().services);
    let mut out: Vec<TargetStatus> = Vec::new();
    assert(out.deep_view() + state_targets(m, s, 0) =~= state_targets(m, s, 0));
    for i in 0..state.services.entries.len()
        invariant
            m == tracker.deep_view(),
            s == state.services.deep_view(),
            out.deep_view() + state_targets(m, s, i as int) == state_targets(m, s, 0),
    {
        let ghost before = out.deep_view();
        assert(s[i as int] == state.services.entries@[i as int].deep_view());
        add_service_targets(&mut out, tracker, &state.services.entries[i].1);
        assert(out.deep_view() + state_targets(m, s, i + 1) =~= before + (service_targets(
            m,
            s[i as int].1,
            0,
        ) + state_targets(m, s, i + 1)));
    }
    assert(out.deep_view() + Seq::<TargetStatusView>::empty() =~= out.deep_view());
    out
}

/// The plain values of a [`CountKey`].
#[verifier::ext_equal]
pub struct CountKeyView {
    pub service: Seq<char>,
    pub route: Seq<char>,
    pub group: Seq<char>,
    pub state: Seq<char>,
}

/// What targets are counted by.
#[derive(Debug, PartialEq, Eq)]
pub struct CountKey {
    pub service: String,
    pub route: String,
    pub group: String,
    pub state: String,
}

impl DeepView for CountKey {
    type V = CountKeyView;

    open spec fn deep_view(&self) -> CountKeyView {
        CountKeyView {
            service: self.service.deep_view(),
            route: self.route.deep_view(),
            group: self.group.deep_view(),
            state: self.state.deep_view(),
        }
    }
}

impl Data for CountKey {
    fn duplicate(&self) -> (r: CountKey) {
        CountKey {
            service: self.service.duplicate(),
            route: self.route.duplicate(),
            group: self.group.duplicate(),
            state: self.state.duplicate(),
        }
    }

    fn same_as(&self, other: &CountKey) -> (r: bool) {
        self.service.same_as(&other.service)
            && self.route.same_as(&other.route)
            && self.group.same_as(&other.group)
            && self.state.same_as(&other.state)
    }
}

impl Clone for CountKey {
    fn clone(&self) -> (r: CountKey)
        ensures
            r.deep_view() == self.deep_view(),
    {
        self.duplicate()
    }
}

/// The parts of a key, the most important first.
pub open spec fn key_parts(k: CountKeyView) -> Seq<Seq<char>> {
    seq![k.service, k.route, k.group, k.state]
}

impl CountKey {
    /// The parts of the key, the most important first.
    fn parts(&self) -> (r: Vec<String>)
        ensures
            r.deep_view() == key_parts(self.deep_view()),
    {
        let mut r: Vec<String> = Vec::new();
        r.push(self.service.clone());
        r.push(self.route.clone());
        r.push(self.group.clone());
        r.push(self.state.clone());
        assert(r.deep_view() =~= key_parts(self.deep_view()));
        r
    }
}

impl MapKey for CountKey {
    open spec fn before(a: CountKeyView, b: CountKeyView) -> bool {
        sorted_map::texts_before(key_parts(a), key_parts(b))
    }

    proof fn lemma_total(a: CountKeyView, b: CountKeyView) {
        sorted_map::lemma_texts_before_total(key_parts(a), key_parts(b));
        let (p, q) = (key_parts(a), key_parts(b));
        assert(p[0] == a.service && p[1] == a.route && p[2] == a.group && p[3] == a.state);
        assert(q[0] == b.service && q[1] == b.route && q[2] == b.group && q[3] == b.state);
    }

    proof fn lemma_transitive(a: CountKeyView, b: CountKeyView, c: CountKeyView) {
        sorted_map::lemma_texts_before_transitive(key_parts(a), key_parts(b), key_parts(c));
    }

    fn is_before(&self, other: &CountKey) -> (r: bool) {
        sorted_map::lists_before(&self.parts(), &other.parts())
    }

    fn is_same(&self, other: &CountKey) -> (r: bool) {
        self.same_as(other)
    }
}

/// What a target is counted by.
pub open spec fn key_of(t: TargetStatusView) -> CountKeyView {
    CountKeyView {
        service: t.service_id,
        route: t.route_id,
        group: t.group_id,
        state: state_word(t.target.state),
    }
}

/// The number of targets with the key, from `i` on.
pub open spec fn number_with(ts: Seq<TargetStatusView>, k: CountKeyView, i: int) -> nat
    decreases ts.len() - i,
{
    if i < 0 || i >= ts.len() {
        0
    } else if key_of(ts[i]) == k {
        1 + number_with(ts, k, i + 1)
    } else {
        number_with(ts, k, i + 1)
    }
}

/// Every key that targets have is listed, in order, with their number.
pub open spec fn counts_targets(m: Seq<(CountKeyView, u64)>, ts: Seq<TargetStatusView>) -> bool {
    &&& sorted_map::ascending::<CountKey, u64>(m)
    &&& forall|k: CountKeyView|
        match #[trigger] sorted_map::lookup(m, k) {
            Some(n) => n > 0 && n == number_with(ts, k, 0),
            None => number_with(ts, k, 0) == 0,
        }
}

/// One more target adds one to the number for its key.
proof fn lemma_number_with(ts: Seq<TargetStatusView>, t: TargetStatusView, k: CountKeyView, i: int)
    requires
        0 <= i <= ts.len(),
    ensures
        number_with(ts.push(t), k, i) == number_with(ts, k, i) + (if key_of(t) == k {
            1nat
        } else {
            0
        }),
        number_with(ts, k, i) <= ts.len() - i,
    decreases ts.len() - i,
{
    if i < ts.len() {
        lemma_number_with(ts, t, k, i + 1);
        assert(ts.push(t)[i] == ts[i]);
    } else {
        assert(ts.push(t)[i] == t);
        assert(number_with(ts.push(t), k, i + 1) == 0);
    }
}

/// Counts the targets by service, route, group and state.
pub fn count_targets(ts: &Vec<TargetStatus>) -> (r: SortedMap<CountKey, u64>)
    ensures
        counts_targets(r.deep_view(), ts.deep_view()),
{
    let ghost all = ts.deep_view();
    let mut m: SortedMap<CountKey, u64> = SortedMap::new();
    proof {
        assert forall|k: CountKeyView| (#[trigger] sorted_map::lookup(m.deep_view(), k)) is None by {
            sorted_map::lemma_position(m.deep_view(), k, 0);
        }
    }
    for i in 0..ts.len()
        invariant
            all == ts.deep_view(),
            counts_targets(m.deep_view(), all.take(i as int)),
    {
        let t = &ts[i];
        assert(all[i as int] == t.deep_view());
        let key = CountKey {
            service: t.service_id.clone(),
            route: t.route_id.clone(),
            group: t.group_id.clone(),
            state: state_text(t.target.state).to_owned(),
        };
        let ghost k = key.deep_view();
        let ghost before = m.deep_view();
        let ghost done = all.take(i as int);
        let n: u64 = match m.get(&key) {
            Some(n) => *n,
            None => 0,
        };
        proof {
            assert(k == key_of(t.deep_view()));
            lemma_number_with(done, t.deep_view(), k, 0);
            sorted_map::lemma_put::<CountKey, u64>(before, k, (n + 1) as u64);
            assert(n == number_with(done, k, 0)) by {
                assert(sorted_map::lookup(before, k) is Some || n == 0);
            }
        }
        m.insert(key, n + 1);
        proof {
            assert(all.take(i + 1) =~= done.push(t.deep_view()));
            assert forall|q: CountKeyView|
                match #[trigger] sorted_map::lookup(m.deep_view(), q) {
                    Some(n) => n > 0 && n == number_with(all.take(i + 1), q, 0),
                    None => number_with(all.take(i + 1), q, 0) == 0,
                } by {
                lemma_number_with(done, t.deep_view(), q, 0);
                if q != k {
                    assert(sorted_map::lookup(m.deep_view(), q) == sorted_map::lookup(before, q));
                }
            }
        }
    }
    assert(all.take(all.len() as int) =~= all);
    m
}

/// A target that is to be removed is drained first: it stays where it was, with its
/// address, without white space around it, its weight and its time to drain, and no longer
/// takes requests.
pub proof fn lemma_removed_target_drains(
    st: RuntimeStateView,
    sid: Seq<char>,
    rid: Seq<char>,
    gid: Seq<char>,
    tid: Seq<char>,
    expected: Option<u64>,
    t: RuntimeTargetView,
)
    requires
        state::found_target(st, sid, rid, gid, tid) == Ok::<_, RuntimeServiceErrorView>(t),
    ensures
        state::target_patched(st, sid, rid, gid, tid, draining(), expected) matches Ok((next, n))
            ==> n.state == RuntimeTargetState::Draining && n.addr == text::trimmed(t.addr)
            && n.weight == t.weight && n.drain_timeout == t.drain_timeout && n.last_error is None
            && state::found_target(next, sid, rid, gid, n.id) == Ok::<_, RuntimeServiceErrorView>(n),
{
    crate::runtime_services::laws::lemma_set_target_then_get(
        st,
        sid,
        rid,
        gid,
        tid,
        state::patched_target(t, draining()),
        expected,
    );
}

/// What is shown of a target is the target itself, where it stands, and how many requests
/// are under way to it.
pub proof fn lemma_target_shown(
    m: Map<Seq<char>, Seq<u128>>,
    service: Seq<char>,
    route: Seq<char>,
    group: Seq<char>,
    t: RuntimeTargetView,
)
    ensures
        ({
            let s = status_of(m, service, route, group, t);
            &&& s.target == t && s.service_id == service && s.route_id == route && s.group_id
                == group
            &&& s.activity == activity::active_of(
                m,
                registry::activity_key(service, route, group, t.id),
            )
        }),
{
}

/// Every target of every group of every route of a service is shown.
pub proof fn lemma_every_target_shown(
    m: Map<Seq<char>, Seq<u128>>,
    s: Seq<(Seq<char>, RuntimeServiceView)>,
    from: int,
    n: int,
    k: int,
    g: int,
    t: int,
)
    requires
        0 <= from <= n < s.len(),
        0 <= k < s[n].1.routes.len(),
        0 <= g < s[n].1.routes[k].target_groups.len(),
        0 <= t < s[n].1.routes[k].target_groups[g].targets.len(),
    ensures
        state_targets(m, s, from).contains(
            status_of(
                m,
                s[n].1.id,
                s[n].1.routes[k].id,
                s[n].1.routes[k].target_groups[g].id,
                s[n].1.routes[k].target_groups[g].targets[t],
            ),
        ),
    decreases n - from,
{
    let x = status_of(
        m,
        s[n].1.id,
        s[n].1.routes[k].id,
        s[n].1.routes[k].target_groups[g].id,
        s[n].1.routes[k].target_groups[g].targets[t],
    );
    let here = service_targets(m, s[from].1, 0);
    let rest = state_targets(m, s, from + 1);
    if from < n {
        lemma_every_target_shown(m, s, from + 1, n, k, g, t);
        let j = choose|j: int| 0 <= j < rest.len() && rest[j] == x;
        assert(state_targets(m, s, from)[here.len() + j] == x);
    } else {
        lemma_in_service(m, s[n].1, 0, k, g, t);
        let j = choose|j: int| 0 <= j < here.len() && here[j] == x;
        assert(state_targets(m, s, from)[j] == x);
    }
}

/// Every target of a service is shown.
proof fn lemma_in_service(
    m: Map<Seq<char>, Seq<u128>>,
    s: RuntimeServiceView,
    from: int,
    k: int,
    g: int,
    t: int,
)
    requires
        0 <= from <= k < s.routes.len(),
        0 <= g < s.routes[k].target_groups.len(),
        0 <= t < s.routes[k].target_groups[g].targets.len(),
    ensures
        service_targets(m, s, from).contains(
            status_of(
                m,
                s.id,
                s.routes[k].id,
                s.routes[k].target_groups[g].id,
                s.routes[k].target_groups[g].targets[t],
            ),
        ),
    decreases k - from,
{
    let x = status_of(
        m,
        s.id,
        s.routes[k].id,
        s.routes[k].target_groups[g].id,
        s.routes[k].target_groups[g].targets[t],
    );
    let here = route_targets(m, s.id, s.routes[from], 0);
    let rest = service_targets(m, s, from + 1);
    if from < k {
        lemma_in_service(m, s, from + 1, k, g, t);
        let j = choose|j: int| 0 <= j < rest.len() && rest[j] == x;
        assert(service_targets(m, s, from)[here.len() + j] == x);
    } else {
        lemma_in_route(m, s.id, s.routes[k], 0, g, t);
        let j = choose|j: int| 0 <= j < here.len() && here[j] == x;
        assert(service_targets(m, s, from)[j] == x);
    }
}

/// Every target of a route is shown.
proof fn lemma_in_route(
    m: Map<Seq<char>, Seq<u128>>,
    service: Seq<char>,
    r: RuntimeRouteView,
    from: int,
    g: int,
    t: int,
)
    requires
        0 <= from <= g < r.target_groups.len(),
        0 <= t < r.target_groups[g].targets.len(),
    ensures
        route_targets(m, service, r, from).contains(
            status_of(m, service, r.id, r.target_groups[g].id, r.target_groups[g].targets[t]),
        ),
    decreases g - from,
{
    let x = status_of(m, service, r.id, r.target_groups[g].id, r.target_groups[g].targets[t]);
    let here = group_targets(m, service, r.id, r.target_groups[from], 0);
    let rest = route_targets(m, service, r, from + 1);
    if from < g {
        lemma_in_route(m, service, r, from + 1, g, t);
        let j = choose|j: int| 0 <= j < rest.len() && rest[j] == x;
        assert(route_targets(m, service, r, from)[here.len() + j] == x);
    } else {
        lemma_in_group(m, service, r.id, r.target_groups[g], 0, t);
        let j = choose|j: int| 0 <= j < here.len() && here[j] == x;
        assert(route_targets(m, service, r, from)[j] == x);
    }
}

/// Every target of a group is shown.
proof fn lemma_in_group(
    m: Map<Seq<char>, Seq<u128>>,
    service: Seq<char>,
    route: Seq<char>,
    g: RuntimeTargetGroupView,
    from: int,
    t: int,
)
    requires
        0 <= from <= t < g.targets.len(),
    ensures
        group_targets(m, service, route, g, from).contains(
            status_of(m, service, route, g.id, g.targets[t]),
        ),
    decreases t - from,
{
    let x = status_of(m, service, route, g.id, g.targets[t]);
    let all = group_targets(m, service, route, g, from);
    if from == t {
        assert(all[0] == x);
    } else {
        lemma_in_group(m, service, route, g, from + 1, t);
        let rest = group_targets(m, service, route, g, from + 1);
        let j = choose|j: int| 0 <= j < rest.len() && rest[j] == x;
        assert(all[j + 1] == x);
    }
}

} // verus!
