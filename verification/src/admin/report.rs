//! What is reported of the runtime state: its measures and its changes.

use vstd::prelude::*;
use super::targets;
use super::targets::{
    all_targets, count_targets, state_text, CountKey, CountKeyView, TargetStatus, TargetStatusView,
};
use crate::data::Data;
use crate::proxy::activity::BackendActivityTracker;
use crate::runtime_services::types::{
    RuntimeListener, RuntimeListenerView, RuntimeRoute, RuntimeRouteView, RuntimeService,
    RuntimeServiceView, RuntimeState, RuntimeStateView, RuntimeTarget, RuntimeTargetView,
};
use crate::sorted_map;
use crate::sorted_map::{MapKey, SortedMap};
use crate::text;

verus! {

/// The line for the number of targets with a key.
pub open spec fn count_line(k: CountKeyView, n: u64) -> Seq<char> {
    "gatel_runtime_targets{service=\""@ + k.service + "\",route=\""@ + k.route + "\",group=\""@
        + k.group + "\",state=\""@ + k.state + "\"} "@ + text::decimal(n as nat) + "\n"@
}

/// The line for the requests under way for a target.
pub open spec fn activity_line(t: TargetStatusView) -> Seq<char> {
    "gatel_runtime_target_activity{service=\""@ + t.service_id + "\",route=\""@ + t.route_id
        + "\",group=\""@ + t.group_id + "\",target=\""@ + t.target.id + "\",state=\""@
        + targets::state_word(t.target.state) + "\"} "@ + text::decimal(t.activity as nat) + "\n"@
}

/// The lines for the numbers of targets from `i` on.
pub open spec fn count_lines(m: Seq<(CountKeyView, u64)>, i: int) -> Seq<char>
    decreases m.len() - i,
{
    if i < 0 || i >= m.len() {
        seq![]
    } else {
        count_line(m[i].0, m[i].1) + count_lines(m, i + 1)
    }
}

/// The lines for the requests under way from the target at `i` on.
pub open spec fn activity_lines(ts: Seq<TargetStatusView>, i: int) -> Seq<char>
    decreases ts.len() - i,
{
    if i < 0 || i >= ts.len() {
        seq![]
    } else {
        activity_line(ts[i]) + activity_lines(ts, i + 1)
    }
}

/// The measures of the targets: how many there are of each kind, then what each does.
pub open spec fn target_metrics(m: Seq<(CountKeyView, u64)>, ts: Seq<TargetStatusView>) -> Seq<
    char,
> {
    "# HELP gatel_runtime_targets Number of runtime targets by service, route, group, and state.\n# TYPE gatel_runtime_targets gauge\n"@ + count_lines(m, 0) + "# HELP gatel_runtime_target_activity Active in-flight activity per runtime target.\n# TYPE gatel_runtime_target_activity gauge\n"@ + activity_lines(
        ts,
        0,
    )
}

fn write_count(k: &CountKey, n: u64) -> (r: String)
    ensures
        r@ == count_line(k.deep_view(), n),
{
    let mut out = "gatel_runtime_targets{service=\"".to_owned();
    out.append(k.service.as_str());
    out.append("\",route=\"");
    out.append(k.route.as_str());
    out.append("\",group=\"");
    out.append(k.group.as_str());
    out.append("\",state=\"");
    out.append(k.state.as_str());
    out.append("\"} ");
    out.append(text::number_text(n as u128).as_str());
    out.append("\n");
    out
}

fn write_activity(t: &TargetStatus) -> (r: String)
    ensures
        r@ == activity_line(t.deep_view()),
{
    let mut out = "gatel_runtime_target_activity{service=\"".to_owned();
    out.append(t.service_id.as_str());
    out.append("\",route=\"");
    out.append(t.route_id.as_str());
    out.append("\",group=\"");
    out.append(t.group_id.as_str());
    out.append("\",target=\"");
    out.append(t.target.id.as_str());
    out.append("\",state=\"");
    out.append(state_text(t.target.state));
    out.append("\"} ");
    out.append(text::number_text(t.activity as u128).as_str());
    out.append("\n");
    out
}

/// The text is that of the measures of the targets.
pub open spec fn renders_targets(
    st: RuntimeStateView,
    activity: Map<Seq<char>, Seq<u128>>,
    t: Seq<char>,
) -> bool {
    let ts = targets::state_targets(activity, st.services, 0);
    exists|m: Seq<(CountKeyView, u64)>| #[trigger]
        targets::counts_targets(m, ts) && t == target_metrics(m, ts)
}

/// Writes the measures of the targets.
pub fn render_runtime_target_metrics(state: &RuntimeState, tracker: &BackendActivityTracker) -> (r:
    String)
    ensures
        renders_targets(state.deep_view(), tracker.deep_view(), r@),
{
    let all = all_targets(state, tracker);
    let counts = count_targets(&all);
    let ghost (ts, m) = (all.deep_view(), counts.deep_view());
    let mut out = "# HELP gatel_runtime_targets Number of runtime targets by service, route, group, and state.\n# TYPE gatel_runtime_targets gauge\n".to_owned();
    let ghost start = out@;
    for i in 0..counts.entries.len()
        invariant
            m == counts.deep_view(),
            out@ + count_lines(m, i as int) == start + count_lines(m, 0),
    {
        let ghost before = out@;
        assert(m[i as int] == counts.entries@[i as int].deep_view());
        let line = write_count(&counts.entries[i].0, counts.entries[i].1);
        out.append(line.as_str());
        assert(out@ + count_lines(m, i + 1) =~= before + (line@ + count_lines(m, i + 1)));
    }
    assert(out@ + count_lines(m, m.len() as int) =~= out@);
    out.append(
        "# HELP gatel_runtime_target_activity Active in-flight activity per runtime target.\n# TYPE gatel_runtime_target_activity gauge\n",
    );
    let ghost start = out@;
    for i in 0..all.len()
        invariant
            ts == all.deep_view(),
            out@ + activity_lines(ts, i as int) == start + activity_lines(ts, 0),
    {
        let ghost before = out@;
        assert(ts[i as int] == all@[i as int].deep_view());
        let line = write_activity(&all[i]);
        out.append(line.as_str());
        assert(out@ + activity_lines(ts, i + 1) =~= before + (line@ + activity_lines(ts, i + 1)));
    }
    assert(out@ + activity_lines(ts, ts.len() as int) =~= out@);
    assert(targets::counts_targets(m, ts));
    out
}

/// What is known of the state that was written down.
#[derive(Clone, Copy, Debug, PartialEq, Eq)]
pub struct RuntimeStateStatus {
    pub available: bool,
    pub corrupted: bool,
}

/// One for yes and zero for no.
pub open spec fn flag(b: bool) -> Seq<char> {
    if b {
        "1"@
    } else {
        "0"@
    }
}

fn flag_text(b: bool) -> (r: &'static str)
    ensures
        r@ == flag(b),
{
    if b {
        "1"
    } else {
        "0"
    }
}

/// The measures of the state that was written down.
pub open spec fn status_metrics(s: RuntimeStateStatus) -> Seq<char> {
    "# HELP gatel_runtime_state_corrupted Whether the persisted runtime state is currently marked corrupted.\n# TYPE gatel_runtime_state_corrupted gauge\ngatel_runtime_state_corrupted "@
        + flag(s.corrupted)
        + "\n# HELP gatel_runtime_state_available Whether a runtime state snapshot is currently available.\n# TYPE gatel_runtime_state_available gauge\ngatel_runtime_state_available "@
        + flag(s.available) + "\n"@
}

/// Writes the measures of the state that was written down.
pub fn render_runtime_state_status_metrics(status: &RuntimeStateStatus) -> (r: String)
    ensures
        r@ == status_metrics(*status),
{
    let mut out = "# HELP gatel_runtime_state_corrupted Whether the persisted runtime state is currently marked corrupted.\n# TYPE gatel_runtime_state_corrupted gauge\ngatel_runtime_state_corrupted ".to_owned();
    out.append(flag_text(status.corrupted));
    out.append(
        "\n# HELP gatel_runtime_state_available Whether a runtime state snapshot is currently available.\n# TYPE gatel_runtime_state_available gauge\ngatel_runtime_state_available ",
    );
    out.append(flag_text(status.available));
    out.append("\n");
    out
}

/// The number of entries of `after` from `i` on whose key `before` does not hold.
pub open spec fn added<K, V>(before: Seq<(K, V)>, after: Seq<(K, V)>, i: int) -> nat
    decreases after.len() - i,
{
    if i < 0 || i >= after.len() {
        0
    } else {
        (if sorted_map::lookup(before, after[i].0) is None {
            1nat
        } else {
            0
        }) + added(before, after, i + 1)
    }
}

/// The number of entries of `before` from `i` on that `after` holds with another value.
pub open spec fn updated<K, V>(before: Seq<(K, V)>, after: Seq<(K, V)>, i: int) -> nat
    decreases before.len() - i,
{
    if i < 0 || i >= before.len() {
        0
    } else {
        (if sorted_map::lookup(after, before[i].0) is Some && sorted_map::lookup(
            after,
            before[i].0,
        ) != Some(before[i].1) {
            1nat
        } else {
            0
        }) + updated(before, after, i + 1)
    }
}

/// Counts the entries whose key was not there before.
pub fn count_added<K: MapKey, V: DeepView>(
    before: &SortedMap<K, V>,
    after: &SortedMap<K, V>,
) -> (n: usize)
    ensures
        n == added(before.deep_view(), after.deep_view(), 0),
{
    let ghost (b, a) = (before.deep_view(), after.deep_view());
    let mut n: usize = 0;
    for i in 0..after.entries.len()
        invariant
            b == before.deep_view(),
            a == after.deep_view(),
            n <= i,
            n + added(b, a, i as int) == added(b, a, 0),
    {
        assert(a[i as int].0 == after.entries@[i as int].0.deep_view());
        if before.get(&after.entries[i].0).is_none() {
            n = n + 1;
        }
    }
    n
}

/// Counts the entries whose value became another.
pub fn count_updated<K: MapKey, V: Data>(before: &SortedMap<K, V>, after: &SortedMap<K, V>) -> (n:
    usize)
    ensures
        n == updated(before.deep_view(), after.deep_view(), 0),
{
    let ghost (b, a) = (before.deep_view(), after.deep_view());
    let mut n: usize = 0;
    for i in 0..before.entries.len()
        invariant
            b == before.deep_view(),
            a == after.deep_view(),
            n <= i,
            n + updated(b, a, i as int) == updated(b, a, 0),
    {
        assert(b[i as int].0 == before.entries@[i as int].0.deep_view());
        assert(b[i as int].1 == before.entries@[i as int].1.deep_view());
        if let Some(v) = after.get(&before.entries[i].0) {
            if !v.same_as(&before.entries[i].1) {
                n = n + 1;
            }
        }
    }
    n
}

/// Two texts as a key.
fn pair(a: &str, b: &str) -> (r: Vec<String>)
    ensures
        r.deep_view() == seq![a@, b@],
{
    let mut r: Vec<String> = Vec::new();
    r.push(a.to_owned());
    r.push(b.to_owned());
    assert(r.deep_view() =~= seq![a@, b@]);
    r
}

/// The listeners of a service from `i` on, entered under the ids of the service and
/// their own.
pub open spec fn listeners_entered(
    m: Seq<(Seq<Seq<char>>, RuntimeListenerView)>,
    s: RuntimeServiceView,
    i: int,
) -> Seq<(Seq<Seq<char>>, RuntimeListenerView)>
    decreases s.listeners.len() - i,
{
    if i < 0 || i >= s.listeners.len() {
        m
    } else {
        listeners_entered(
            sorted_map::put::<Vec<String>, RuntimeListenerView>(
                m,
                seq![s.id, s.listeners[i].id],
                s.listeners[i],
            ),
            s,
            i + 1,
        )
    }
}

/// The listeners of the services from `i` on, entered under their ids.
pub open spec fn listener_map(
    m: Seq<(Seq<Seq<char>>, RuntimeListenerView)>,
    s: Seq<(Seq<char>, RuntimeServiceView)>,
    i: int,
) -> Seq<(Seq<Seq<char>>, RuntimeListenerView)>
    decreases s.len() - i,
{
    if i < 0 || i >= s.len() {
        m
    } else {
        listener_map(listeners_entered(m, s[i].1, 0), s, i + 1)
    }
}

/// Enters the listeners of a state under the ids of their services and their own.
pub fn collect_listener_map(state: &RuntimeState) -> (r: SortedMap<Vec<String>, RuntimeListener>)
    ensures
        r.deep_view() == listener_map(seq![], state.deep_view().services, 0),
{
    let ghost s = state.deep_view().services;
    let mut m: SortedMap<Vec<String>, RuntimeListener> = SortedMap::new();
    assert(m.deep_view() =~= seq![]);
    for i in 0..state.services.entries.len()
        invariant
            s == state.services.deep_view(),
            listener_map(m.deep_view(), s, i as int) == listener_map(seq![], s, 0),
    {
        let service = &state.services.entries[i].1;
        let ghost v = service.deep_view();
        assert(s[i as int].1 == v);
        let ghost start = m.deep_view();
        for j in 0..service.listeners.len()
            invariant
                v == service.deep_view(),
                listeners_entered(m.deep_view(), v, j as int) == listeners_entered(start, v, 0),
        {
            assert(v.listeners[j as int] == service.listeners@[j as int].deep_view());
            let key = pair(service.id.as_str(), service.listeners[j].id.as_str());
            m.insert(key, service.listeners[j].duplicate());
        }
    }
    m
}

/// The routes of a service from `i` on, entered under the ids of the service and
/// their own.
pub open spec fn routes_entered(
    m: Seq<(Seq<Seq<char>>, RuntimeRouteView)>,
    s: RuntimeServiceView,
    i: int,
) -> Seq<(Seq<Seq<char>>, RuntimeRouteView)>
    decreases s.routes.len() - i,
{
    if i < 0 || i >= s.routes.len() {
        m
    } else {
        routes_entered(
            sorted_map::put::<Vec<String>, RuntimeRouteView>(
                m,
                seq![s.id, s.routes[i].id],
                s.routes[i],
            ),
            s,
            i + 1,
        )
    }
}

/// The routes of the services from `i` on, entered under their ids.
pub open spec fn route_map(
    m: Seq<(Seq<Seq<char>>, RuntimeRouteView)>,
    s: Seq<(Seq<char>, RuntimeServiceView)>,
    i: int,
) -> Seq<(Seq<Seq<char>>, RuntimeRouteView)>
    decreases s.len() - i,
{
    if i < 0 || i >= s.len() {
        m
    } else {
        route_map(routes_entered(m, s[i].1, 0), s, i + 1)
    }
}

/// Enters the routes of a state under the ids of their services and their own.
pub fn collect_route_map(state: &RuntimeState) -> (r: SortedMap<Vec<String>, RuntimeRoute>)
    ensures
        r.deep_view() == route_map(seq![], state.deep_view().services, 0),
{
    let ghost s = state.deep_view().services;
    let mut m: SortedMap<Vec<String>, RuntimeRoute> = SortedMap::new();
    assert(m.deep_view() =~= seq![]);
    for i in 0..state.services.entries.len()
        invariant
            s == state.services.deep_view(),
            route_map(m.deep_view(), s, i as int) == route_map(seq![], s, 0),
    {
        let service = &state.services.entries[i].1;
        let ghost v = service.deep_view();
        assert(s[i as int].1 == v);
        let ghost start = m.deep_view();
        for j in 0..service.routes.len()
            invariant
                v == service.deep_view(),
                routes_entered(m.deep_view(), v, j as int) == routes_entered(start, v, 0),
        {
            assert(v.routes[j as int] == service.routes@[j as int].deep_view());
            let key = pair(service.id.as_str(), service.routes[j].id.as_str());
            m.insert(key, service.routes[j].duplicate());
        }
    }
    m
}

/// The targets from `i` on, entered under the ids of their service, route and group
/// and their own.
pub open spec fn target_map(
    m: Seq<(Seq<Seq<char>>, RuntimeTargetView)>,
    ts: Seq<TargetStatusView>,
    i: int,
) -> Seq<(Seq<Seq<char>>, RuntimeTargetView)>
    decreases ts.len() - i,
{
    if i < 0 || i >= ts.len() {
        m
    } else {
        target_map(
            sorted_map::put::<Vec<String>, RuntimeTargetView>(
                m,
                seq![ts[i].service_id, ts[i].route_id, ts[i].group_id, ts[i].target.id],
                ts[i].target,
            ),
            ts,
            i + 1,
        )
    }
}

/// The targets of a state, entered under their ids.
pub open spec fn targets_by_id(s: RuntimeStateView) -> Seq<(Seq<Seq<char>>, RuntimeTargetView)> {
    target_map(seq![], targets::state_targets(Map::empty(), s.services, 0), 0)
}

/// Enters the targets of a state under the ids of their service, route and group and
/// their own.
pub fn collect_target_map(state: &RuntimeState) -> (r: SortedMap<Vec<String>, RuntimeTarget>)
    ensures
        r.deep_view() == targets_by_id(state.deep_view()),
{
    let tracker = BackendActivityTracker::default();
    let all = all_targets(state, &tracker);
    let ghost ts = all.deep_view();
    assert(tracker.deep_view() =~= Map::empty());
    let mut m: SortedMap<Vec<String>, RuntimeTarget> = SortedMap::new();
    assert(m.deep_view() =~= seq![]);
    for i in 0..all.len()
        invariant
            ts == all.deep_view(),
            target_map(m.deep_view(), ts, i as int) == target_map(seq![], ts, 0),
    {
        let t = &all[i];
        assert(ts[i as int] == t.deep_view());
        let mut key: Vec<String> = Vec::new();
        key.push(t.service_id.clone());
        key.push(t.route_id.clone());
        key.push(t.group_id.clone());
        key.push(t.target.id.clone());
        assert(key.deep_view() =~= seq![
            ts[i as int].service_id,
            ts[i as int].route_id,
            ts[i as int].group_id,
            ts[i as int].target.id,
        ]);
        m.insert(key, t.target.duplicate());
    }
    m
}

/// How many entries came, went and became others.
pub open spec fn change_text<K, V>(word: Seq<char>, before: Seq<(K, V)>, after: Seq<(K, V)>) -> Seq<
    char,
> {
    word + " +"@ + text::decimal(added(before, after, 0)) + " -"@ + text::decimal(
        added(after, before, 0),
    ) + " ~"@ + text::decimal(updated(before, after, 0))
}

/// Writes how many entries came, went and became others.
fn write_change<K: MapKey, V: Data>(
    word: &str,
    before: &SortedMap<K, V>,
    after: &SortedMap<K, V>,
) -> (r: String)
    ensures
        r@ == change_text(word@, before.deep_view(), after.deep_view()),
{
    let mut out = word.to_owned();
    out.append(" +");
    out.append(text::number_text(count_added(before, after) as u128).as_str());
    out.append(" -");
    out.append(text::number_text(count_added(after, before) as u128).as_str());
    out.append(" ~");
    out.append(text::number_text(count_updated(before, after) as u128).as_str());
    out
}

/// What changed between two states, in numbers.
pub open spec fn runtime_diff(before: RuntimeStateView, after: RuntimeStateView) -> Seq<char> {
    change_text("services"@, before.services, after.services) + "; "@ + change_text(
        "listeners"@,
        listener_map(seq![], before.services, 0),
        listener_map(seq![], after.services, 0),
    ) + "; "@ + change_text(
        "routes"@,
        route_map(seq![], before.services, 0),
        route_map(seq![], after.services, 0),
    ) + "; "@ + change_text("targets"@, targets_by_id(before), targets_by_id(after))
}

/// Writes what changed between two states, in numbers.
pub fn summarize_runtime_diff(before: &RuntimeState, after: &RuntimeState) -> (r: String)
    ensures
        r@ == runtime_diff(before.deep_view(), after.deep_view()),
{
    let mut out = write_change("services", &before.services, &after.services);
    out.append("; ");
    let c = write_change("listeners", &collect_listener_map(before), &collect_listener_map(after));
    out.append(c.as_str());
    out.append("; ");
    let c = write_change("routes", &collect_route_map(before), &collect_route_map(after));
    out.append(c.as_str());
    out.append("; ");
    let c = write_change("targets", &collect_target_map(before), &collect_target_map(after));
    out.append(c.as_str());
    out
}

/// Nothing came, went or became another between a state and itself.
proof fn lemma_same_from<K: MapKey, V>(m: Seq<(K::V, V)>, i: int)
    requires
        sorted_map::ascending::<K, V>(m),
        0 <= i <= m.len(),
    ensures
        added(m, m, i) == 0,
        updated(m, m, i) == 0,
    decreases m.len() - i,
{
    if i < m.len() {
        sorted_map::lemma_position(m, m[i].0, 0);
        let p = sorted_map::position(m, m[i].0, 0);
        if let Some(j) = p {
            if j != i {
                K::lemma_total(m[i].0, m[j].0);
            }
        }
        lemma_same_from::<K, V>(m, i + 1);
    }
}

/// Between a state and itself nothing came, went or became another.
pub proof fn lemma_no_change<K: MapKey, V>(word: Seq<char>, m: Seq<(K::V, V)>)
    requires
        sorted_map::ascending::<K, V>(m),
    ensures
        change_text(word, m, m) == word + " +"@ + text::decimal(0) + " -"@ + text::decimal(0)
            + " ~"@ + text::decimal(0),
{
    lemma_same_from::<K, V>(m, 0);
}

/// What is the same before and after counts as neither new nor changed; an entry under a
/// new key counts as new, and one with another value as changed.
pub proof fn lemma_changes_counted<K, V>(before: Seq<(K, V)>, after: Seq<(K, V)>)
    ensures
        added(before, after, 0) == 0 <==> forall|i: int|
            0 <= i < after.len() ==> sorted_map::lookup(before, (#[trigger] after[i]).0) is Some,
        updated(before, after, 0) == 0 <==> forall|i: int|
            0 <= i < before.len() ==> (sorted_map::lookup(after, (#[trigger] before[i]).0) is None
                || sorted_map::lookup(after, before[i].0) == Some(before[i].1)),
        added(before, after, 0) <= after.len(),
        updated(before, after, 0) <= before.len(),
{
    lemma_added(before, after, 0);
    lemma_updated(before, after, 0);
}

/// The new entries from `i` on.
proof fn lemma_added<K, V>(before: Seq<(K, V)>, after: Seq<(K, V)>, i: int)
    requires
        0 <= i <= after.len(),
    ensures
        added(before, after, i) == 0 <==> forall|j: int|
            i <= j < after.len() ==> sorted_map::lookup(before, (#[trigger] after[j]).0) is Some,
        added(before, after, i) <= after.len() - i,
    decreases after.len() - i,
{
    if i < after.len() {
        lemma_added(before, after, i + 1);
    }
}

/// The changed entries from `i` on.
proof fn lemma_updated<K, V>(before: Seq<(K, V)>, after: Seq<(K, V)>, i: int)
    requires
        0 <= i <= before.len(),
    ensures
        updated(before, after, i) == 0 <==> forall|j: int|
            i <= j < before.len() ==> (sorted_map::lookup(after, (#[trigger] before[j]).0) is None
                || sorted_map::lookup(after, before[j].0) == Some(before[j].1)),
        updated(before, after, i) <= before.len() - i,
    decreases before.len() - i,
{
    if i < before.len() {
        lemma_updated(before, after, i + 1);
    }
}

/// Whether the state that was written down is damaged, and whether there is one, is each shown
/// as one or zero behind its name.
pub proof fn lemma_status_shown(s: RuntimeStateStatus)
    ensures
        s.corrupted ==> text::contains(status_metrics(s), "state_corrupted 1\n"@),
        !s.corrupted ==> text::contains(status_metrics(s), "state_corrupted 0\n"@),
        s.available ==> text::ends(status_metrics(s), "state_available 1\n"@),
        !s.available ==> text::ends(status_metrics(s), "state_available 0\n"@),
{
    let a = "# HELP gatel_runtime_state_corrupted Whether the persisted runtime state is currently marked corrupted.\n# TYPE gatel_runtime_state_corrupted gauge\ngatel_runtime_state_corrupted "@;
    let b = "\n# HELP gatel_runtime_state_available Whether a runtime state snapshot is currently available.\n# TYPE gatel_runtime_state_available gauge\ngatel_runtime_state_available "@;
    reveal_strlit(
        "# HELP gatel_runtime_state_corrupted Whether the persisted runtime state is currently marked corrupted.\n# TYPE gatel_runtime_state_corrupted gauge\ngatel_runtime_state_corrupted ",
    );
    reveal_strlit(
        "\n# HELP gatel_runtime_state_available Whether a runtime state snapshot is currently available.\n# TYPE gatel_runtime_state_available gauge\ngatel_runtime_state_available ",
    );
    reveal_strlit("state_corrupted 1\n");
    reveal_strlit("state_corrupted 0\n");
    reveal_strlit("state_available 1\n");
    reveal_strlit("state_available 0\n");
    reveal_strlit("1");
    reveal_strlit("0");
    reveal_strlit("\n");
    let c = flag(s.corrupted);
    let d = flag(s.available);
    let t = status_metrics(s);
    assert(t =~= a + c + b + d + "\n"@);
    let n = a.len() as int;
    let p = if s.corrupted {
        "state_corrupted 1\n"@
    } else {
        "state_corrupted 0\n"@
    };
    let q = if s.available {
        "state_available 1\n"@
    } else {
        "state_available 0\n"@
    };
    assert(t.subrange(n - 16, n + 2) =~= p);
    assert(t =~= t.take(n - 16) + p + t.skip(n + 2));
    text::lemma_contains_put(t.take(n - 16), p, t.skip(n + 2));
    assert(t.subrange(t.len() - 18, t.len() as int) =~= q);
}

} // verus!
