//! Bringing services, routes and targets into their normal form, and their order.

use vstd::prelude::*;
use crate::data;
use crate::data::Data;
use crate::ranking;
use crate::ranking::Ranked;
use crate::router::matcher;
use crate::router::matcher::pattern_specificity;
use crate::router::signature;
use crate::runtime_services::types::{
    RuntimeListener, RuntimeListenerView, RuntimeRoute, RuntimeRouteView, RuntimeService, RuntimeServiceError, RuntimeServiceErrorView, RuntimeServiceView, RuntimeTarget, RuntimeTargetGroup, RuntimeTargetGroupView, RuntimeTargetState, RuntimeTargetView, RuntimeTlsPolicy, RuntimeTlsPolicyView,
};
use crate::sorted_map;
use crate::sorted_map::comes_before;
use crate::text;

verus! {

// ---------------------------------------------------------------------------
// Hosts
// ---------------------------------------------------------------------------

/// The hosts without white space around them, in lower case; empty ones are
/// left out.
pub open spec fn clean_hosts(hosts: Seq<Seq<char>>) -> Seq<Seq<char>>
    decreases hosts.len(),
{
    if hosts.len() == 0 {
        hosts
    } else {
        let h = text::lowered(text::trimmed(hosts.last()));
        if h.len() == 0 {
            clean_hosts(hosts.drop_last())
        } else {
            clean_hosts(hosts.drop_last()).push(h)
        }
    }
}

/// The hosts that a route answers; a route without hosts answers all, `*`.
pub open spec fn route_hosts(r: RuntimeRouteView) -> Seq<Seq<char>> {
    if r.hosts.len() == 0 {
        seq!["*"@]
    } else {
        clean_hosts(r.hosts)
    }
}

/// `clean_hosts` as code.
pub fn cleaned_hosts(hosts: &Vec<String>) -> (r: Vec<String>)
    ensures
        r.deep_view() == clean_hosts(hosts.deep_view()),
{
    let ghost s = hosts.deep_view();
    let mut r: Vec<String> = Vec::new();
    for i in 0..hosts.len()
        invariant
            s == hosts.deep_view(),
            r.deep_view() == clean_hosts(s.take(i as int)),
    {
        proof {
            assert(s.take(i + 1).drop_last() =~= s.take(i as int));
            assert(s.take(i + 1).last() == hosts@[i as int]@);
        }
        let h = text::to_lower(text::trim(hosts[i].as_str()).as_str());
        if !h.as_str().is_empty() {
            let ghost before = r.deep_view();
            r.push(h);
            assert(r.deep_view() =~= before.push(h@));
        }
    }
    assert(s.take(s.len() as int) =~= s);
    r
}

/// The hosts that a route answers.
pub fn normalized_route_hosts(route: &RuntimeRoute) -> (r: Vec<String>)
    ensures
        r.deep_view() == route_hosts(route.deep_view()),
{
    if route.hosts.len() == 0 {
        let r: Vec<String> = vec!["*".to_owned()];
        assert(r.deep_view() =~= seq!["*"@]);
        r
    } else {
        cleaned_hosts(&route.hosts)
    }
}

// ---------------------------------------------------------------------------
// Order
// ---------------------------------------------------------------------------

/// The pattern of the paths below a prefix.
pub open spec fn prefix_pattern(prefix: Seq<char>) -> Seq<char> {
    if prefix == "/"@ {
        "/*"@
    } else {
        prefix + "/*"@
    }
}

/// The pattern of the paths below a prefix.
pub fn route_pattern(path_prefix: &str) -> (r: String)
    ensures
        r@ == prefix_pattern(path_prefix@),
{
    if text::same(path_prefix, "/") {
        "/*".to_owned()
    } else {
        text::join(path_prefix, "/*")
    }
}

/// How specific the path of a route is.
pub open spec fn path_rank(r: RuntimeRouteView) -> nat {
    matcher::capped(matcher::specificity(prefix_pattern(r.path_prefix)))
}

/// Whether a route names a host.
pub open spec fn names_host(hosts: Seq<Seq<char>>) -> bool {
    exists|i: int| 0 <= i < hosts.len() && #[trigger] hosts[i] != "*"@
}

/// The route `a` is tried before `b`: the more specific path first, then the
/// one that names hosts, then the one with more matchers; routes that are alike
/// in all this go by the JSON form of their matchers and then by id.
pub open spec fn route_before(a: RuntimeRouteView, b: RuntimeRouteView) -> bool {
    let (na, nb) = (names_host(route_hosts(a)), names_host(route_hosts(b)));
    let (sa, sb) = (signature::signatures(a.matchers), signature::signatures(b.matchers));
    if path_rank(a) != path_rank(b) {
        path_rank(a) > path_rank(b)
    } else if na != nb {
        na
    } else if a.matchers.len() != b.matchers.len() {
        a.matchers.len() > b.matchers.len()
    } else if sa != sb {
        sorted_map::texts_before(sa, sb)
    } else {
        sorted_map::text_before(a.id, b.id)
    }
}

/// Tells whether some host is named.
fn has_named_host(hosts: &Vec<String>) -> (r: bool)
    ensures
        r == names_host(hosts.deep_view()),
{
    for i in 0..hosts.len()
        invariant
            forall|j: int| 0 <= j < i ==> #[trigger] hosts.deep_view()[j] == "*"@,
    {
        assert(hosts.deep_view()[i as int] == hosts@[i as int]@);
        if !text::same(hosts[i].as_str(), "*") {
            return true;
        }
    }
    false
}

impl Ranked for RuntimeListener {
    open spec fn precedes(a: RuntimeListenerView, b: RuntimeListenerView) -> bool {
        sorted_map::text_before(a.id, b.id)
    }

    fn goes_before(&self, other: &RuntimeListener) -> (r: bool) {
        comes_before(self.id.as_str(), other.id.as_str())
    }
}

impl Ranked for RuntimeTarget {
    open spec fn precedes(a: RuntimeTargetView, b: RuntimeTargetView) -> bool {
        sorted_map::text_before(a.id, b.id)
    }

    fn goes_before(&self, other: &RuntimeTarget) -> (r: bool) {
        comes_before(self.id.as_str(), other.id.as_str())
    }
}

impl Ranked for RuntimeTargetGroup {
    open spec fn precedes(a: RuntimeTargetGroupView, b: RuntimeTargetGroupView) -> bool {
        sorted_map::text_before(a.id, b.id)
    }

    fn goes_before(&self, other: &RuntimeTargetGroup) -> (r: bool) {
        comes_before(self.id.as_str(), other.id.as_str())
    }
}

impl Ranked for RuntimeRoute {
    open spec fn precedes(a: RuntimeRouteView, b: RuntimeRouteView) -> bool {
        route_before(a, b)
    }

    fn goes_before(&self, other: &RuntimeRoute) -> (r: bool) {
        let pa: usize = pattern_specificity(route_pattern(self.path_prefix.as_str()).as_str());
        let pb: usize = pattern_specificity(route_pattern(other.path_prefix.as_str()).as_str());
        if pa != pb {
            return pa > pb;
        }
        let na = has_named_host(&normalized_route_hosts(self));
        let nb = has_named_host(&normalized_route_hosts(other));
        if na != nb {
            return na;
        }
        if self.matchers.len() != other.matchers.len() {
            return self.matchers.len() > other.matchers.len();
        }
        let sa = signature::matcher_signatures(&self.matchers);
        let sb = signature::matcher_signatures(&other.matchers);
        if !sa.same_as(&sb) {
            return sorted_map::lists_before(&sa, &sb);
        }
        comes_before(self.id.as_str(), other.id.as_str())
    }
}

/// A group with its targets in order.
pub open spec fn group_in_order(g: RuntimeTargetGroupView) -> RuntimeTargetGroupView {
    RuntimeTargetGroupView { targets: ranking::sorted::<RuntimeTarget>(g.targets), ..g }
}

/// A route with its groups and their targets in order.
pub open spec fn route_in_order(r: RuntimeRouteView) -> RuntimeRouteView {
    RuntimeRouteView {
        target_groups: ranking::sorted::<RuntimeTargetGroup>(r.target_groups).map_values(
            |g: RuntimeTargetGroupView| group_in_order(g),
        ),
        ..r
    }
}

/// A service with its listeners, its routes and all below them in order.
pub open spec fn service_in_order(s: RuntimeServiceView) -> RuntimeServiceView {
    RuntimeServiceView {
        listeners: ranking::sorted::<RuntimeListener>(s.listeners),
        routes: ranking::sorted::<RuntimeRoute>(s.routes).map_values(
            |r: RuntimeRouteView| route_in_order(r),
        ),
        ..s
    }
}

/// Puts a route's groups and their targets in order.
pub fn sort_route(route: &mut RuntimeRoute)
    ensures
        final(route).deep_view() == route_in_order(old(route).deep_view()),
{
    let ghost before = route.deep_view();
    let sorted = ranking::sort(&route.target_groups);
    let mut groups: Vec<RuntimeTargetGroup> = Vec::new();
    let ghost sv = sorted.deep_view();
    for i in 0..sorted.len()
        invariant
            sv == sorted.deep_view(),
            groups@.len() == i,
            forall|j: int|
                0 <= j < i ==> (#[trigger] groups@[j]).deep_view() == group_in_order(sv[j]),
    {
        let targets = ranking::sort(&sorted[i].targets);
        groups.push(
            RuntimeTargetGroup { id: sorted[i].id.clone(), weight: sorted[i].weight, targets },
        );
        assert(groups@[i as int].deep_view() == group_in_order(sv[i as int]));
    }
    route.target_groups = groups;
    assert(route.deep_view().target_groups =~= route_in_order(before).target_groups);
}

/// Puts a service's listeners, routes and all below them in order.
pub fn sort_service(service: &mut RuntimeService)
    ensures
        final(service).deep_view() == service_in_order(old(service).deep_view()),
{
    let ghost before = service.deep_view();
    let sorted = ranking::sort(&service.routes);
    let ghost sv = sorted.deep_view();
    let mut routes: Vec<RuntimeRoute> = Vec::new();
    for i in 0..sorted.len()
        invariant
            sv == sorted.deep_view(),
            routes@.len() == i,
            forall|j: int|
                0 <= j < i ==> (#[trigger] routes@[j]).deep_view() == route_in_order(sv[j]),
    {
        let mut route = sorted[i].duplicate();
        assert(route.deep_view() == sv[i as int]);
        sort_route(&mut route);
        routes.push(route);
    }
    service.listeners = ranking::sort(&service.listeners);
    service.routes = routes;
    assert(service.deep_view().routes =~= service_in_order(before).routes);
}

// ---------------------------------------------------------------------------
// Normal forms
// ---------------------------------------------------------------------------

/// A text without white space around it, unless nothing is left.
pub open spec fn present(v: Option<Seq<char>>) -> Option<Seq<char>> {
    match v {
        Some(s) => if text::trimmed(s).len() > 0 {
            Some(text::trimmed(s))
        } else {
            None
        },
        None => None,
    }
}

/// A text in lower case, where there is one.
pub open spec fn lowered_option(v: Option<Seq<char>>) -> Option<Seq<char>> {
    match v {
        Some(s) => Some(text::lowered(s)),
        None => None,
    }
}

/// `present` as code.
fn present_text(v: &Option<String>) -> (r: Option<String>)
    ensures
        r.deep_view() == present(v.deep_view()),
{
    match v {
        Some(s) => {
            let t = text::trim(s.as_str());
            if t.as_str().is_empty() {
                None
            } else {
                Some(t)
            }
        },
        None => None,
    }
}

/// The normal form of a TLS policy; certificate and key come together, and the
/// canonical host is no wildcard.
pub open spec fn normal_tls(t: RuntimeTlsPolicyView) -> Result<
    RuntimeTlsPolicyView,
    RuntimeServiceErrorView,
> {
    let n = RuntimeTlsPolicyView {
        certificate_ref: present(t.certificate_ref),
        private_key_ref: present(t.private_key_ref),
        https_redirect: t.https_redirect,
        canonical_host: lowered_option(present(t.canonical_host)),
    };
    if n.certificate_ref is Some != n.private_key_ref is Some {
        Err(RuntimeServiceErrorView::IncompleteTlsMaterialRefs)
    } else if n.canonical_host == Some("*"@) {
        Err(RuntimeServiceErrorView::InvalidCanonicalHost("*"@))
    } else {
        Ok(n)
    }
}

/// Brings a TLS policy into its normal form.
pub fn normalize_tls_policy(tls: &RuntimeTlsPolicy) -> (r: Result<
    RuntimeTlsPolicy,
    RuntimeServiceError,
>)
    ensures
        data::outcome(r) == normal_tls(tls.deep_view()),
{
    let certificate_ref = present_text(&tls.certificate_ref);
    let private_key_ref = present_text(&tls.private_key_ref);
    let canonical_host = match present_text(&tls.canonical_host) {
        Some(h) => Some(text::to_lower(h.as_str())),
        None => None,
    };
    if certificate_ref.is_some() != private_key_ref.is_some() {
        return Err(RuntimeServiceError::IncompleteTlsMaterialRefs);
    }
    if let Some(h) = &canonical_host {
        if text::same(h.as_str(), "*") {
            return Err(RuntimeServiceError::InvalidCanonicalHost(h.clone()));
        }
    }
    Ok(
        RuntimeTlsPolicy {
            certificate_ref,
            private_key_ref,
            https_redirect: tls.https_redirect,
            canonical_host,
        },
    )
}

/// The normal form of a listener.
pub open spec fn normal_listener(l: RuntimeListenerView) -> Result<
    RuntimeListenerView,
    RuntimeServiceErrorView,
> {
    if text::trimmed(l.id).len() == 0 {
        Err(RuntimeServiceErrorView::EmptyListenerId)
    } else {
        Ok(RuntimeListenerView { id: text::trimmed(l.id), ..l })
    }
}

/// Brings a listener into its normal form.
pub fn normalize_listener(listener: &RuntimeListener) -> (r: Result<
    RuntimeListener,
    RuntimeServiceError,
>)
    ensures
        data::outcome(r) == normal_listener(listener.deep_view()),
{
    let id = text::trim(listener.id.as_str());
    if id.as_str().is_empty() {
        return Err(RuntimeServiceError::EmptyListenerId);
    }
    Ok(RuntimeListener { id, protocol: listener.protocol })
}

/// The normal form of a target; an error text stays on failed targets alone.
pub open spec fn normal_target(t: RuntimeTargetView) -> Result<
    RuntimeTargetView,
    RuntimeServiceErrorView,
> {
    let id = text::trimmed(t.id);
    let addr = text::trimmed(t.addr);
    if id.len() == 0 {
        Err(RuntimeServiceErrorView::EmptyTargetId)
    } else if addr.len() == 0 {
        Err(RuntimeServiceErrorView::EmptyTargetAddress(id))
    } else {
        Ok(
            RuntimeTargetView {
                id,
                addr,
                last_error: if t.state == RuntimeTargetState::Failed {
                    t.last_error
                } else {
                    None
                },
                ..t
            },
        )
    }
}

/// Brings a target into its normal form.
pub fn normalize_target(target: &RuntimeTarget) -> (r: Result<RuntimeTarget, RuntimeServiceError>)
    ensures
        data::outcome(r) == normal_target(target.deep_view()),
{
    let id = text::trim(target.id.as_str());
    if id.as_str().is_empty() {
        return Err(RuntimeServiceError::EmptyTargetId);
    }
    let addr = text::trim(target.addr.as_str());
    if addr.as_str().is_empty() {
        return Err(RuntimeServiceError::EmptyTargetAddress(id));
    }
    let last_error = if target.state == RuntimeTargetState::Failed {
        target.last_error.duplicate()
    } else {
        None
    };
    Ok(
        RuntimeTarget {
            id,
            addr,
            weight: target.weight,
            state: target.state,
            drain_timeout: target.drain_timeout,
            last_error,
        },
    )
}

/// The normal forms of targets, or the first error.
pub open spec fn normal_targets(ts: Seq<RuntimeTargetView>) -> Result<
    Seq<RuntimeTargetView>,
    RuntimeServiceErrorView,
>
    decreases ts.len(),
{
    if ts.len() == 0 {
        Ok(ts)
    } else {
        match normal_targets(ts.drop_last()) {
            Err(e) => Err(e),
            Ok(done) => match normal_target(ts.last()) {
                Err(e) => Err(e),
                Ok(t) => Ok(done.push(t)),
            },
        }
    }
}

/// An error in a beginning of the list is the error of the list.
proof fn lemma_targets_prefix(ts: Seq<RuntimeTargetView>, n: int)
    requires
        0 <= n <= ts.len(),
        normal_targets(ts.take(n)) is Err,
    ensures
        normal_targets(ts) == normal_targets(ts.take(n)),
    decreases ts.len(),
{
    if n < ts.len() {
        assert(ts.drop_last().take(n) =~= ts.take(n));
        lemma_targets_prefix(ts.drop_last(), n);
    } else {
        assert(ts.take(n) =~= ts);
    }
}

/// Brings targets into their normal form.
fn normalize_targets(ts: &Vec<RuntimeTarget>) -> (r: Result<Vec<RuntimeTarget>, RuntimeServiceError>)
    ensures
        data::outcome(r) == normal_targets(ts.deep_view()),
{
    let ghost s = ts.deep_view();
    let mut done: Vec<RuntimeTarget> = Vec::new();
    assert(done.deep_view() =~= s.take(0));
    for i in 0..ts.len()
        invariant
            s == ts.deep_view(),
            normal_targets(s.take(i as int)) == Ok::<_, RuntimeServiceErrorView>(done.deep_view()),
    {
        proof {
            assert(s.take(i + 1).drop_last() =~= s.take(i as int));
            assert(s.take(i + 1).last() == ts@[i as int].deep_view());
        }
        match normalize_target(&ts[i]) {
            Err(e) => {
                proof {
                    lemma_targets_prefix(s, i + 1);
                }
                return Err(e);
            },
            Ok(t) => {
                let ghost before = done.deep_view();
                done.push(t);
                assert(done.deep_view() =~= before.push(t.deep_view()));
            },
        }
    }
    assert(s.take(s.len() as int) =~= s);
    Ok(done)
}

/// The normal form of a group, with its targets in order.
pub open spec fn normal_group(g: RuntimeTargetGroupView) -> Result<
    RuntimeTargetGroupView,
    RuntimeServiceErrorView,
> {
    let id = text::trimmed(g.id);
    if id.len() == 0 {
        Err(RuntimeServiceErrorView::EmptyTargetGroupId)
    } else {
        match normal_targets(g.targets) {
            Err(e) => Err(e),
            Ok(ts) => Ok(
                RuntimeTargetGroupView { id, targets: ranking::sorted::<RuntimeTarget>(ts), ..g },
            ),
        }
    }
}

/// Brings a group into its normal form.
fn normalize_group(group: &RuntimeTargetGroup) -> (r: Result<
    RuntimeTargetGroup,
    RuntimeServiceError,
>)
    ensures
        data::outcome(r) == normal_group(group.deep_view()),
{
    let id = text::trim(group.id.as_str());
    if id.as_str().is_empty() {
        return Err(RuntimeServiceError::EmptyTargetGroupId);
    }
    match normalize_targets(&group.targets) {
        Err(e) => Err(e),
        Ok(ts) => Ok(
            RuntimeTargetGroup { id, weight: group.weight, targets: ranking::sort(&ts) },
        ),
    }
}

/// The normal forms of groups, or the first error.
pub open spec fn normal_groups(gs: Seq<RuntimeTargetGroupView>) -> Result<
    Seq<RuntimeTargetGroupView>,
    RuntimeServiceErrorView,
>
    decreases gs.len(),
{
    if gs.len() == 0 {
        Ok(gs)
    } else {
        match normal_groups(gs.drop_last()) {
            Err(e) => Err(e),
            Ok(done) => match normal_group(gs.last()) {
                Err(e) => Err(e),
                Ok(g) => Ok(done.push(g)),
            },
        }
    }
}

/// An error in a beginning of the list is the error of the list.
proof fn lemma_groups_prefix(gs: Seq<RuntimeTargetGroupView>, n: int)
    requires
        0 <= n <= gs.len(),
        normal_groups(gs.take(n)) is Err,
    ensures
        normal_groups(gs) == normal_groups(gs.take(n)),
    decreases gs.len(),
{
    if n < gs.len() {
        assert(gs.drop_last().take(n) =~= gs.take(n));
        lemma_groups_prefix(gs.drop_last(), n);
    } else {
        assert(gs.take(n) =~= gs);
    }
}

/// Brings groups into their normal form.
fn normalize_groups(gs: &Vec<RuntimeTargetGroup>) -> (r: Result<
    Vec<RuntimeTargetGroup>,
    RuntimeServiceError,
>)
    ensures
        data::outcome(r) == normal_groups(gs.deep_view()),
{
    let ghost s = gs.deep_view();
    let mut done: Vec<RuntimeTargetGroup> = Vec::new();
    assert(done.deep_view() =~= s.take(0));
    for i in 0..gs.len()
        invariant
            s == gs.deep_view(),
            normal_groups(s.take(i as int)) == Ok::<_, RuntimeServiceErrorView>(done.deep_view()),
    {
        proof {
            assert(s.take(i + 1).drop_last() =~= s.take(i as int));
            assert(s.take(i + 1).last() == gs@[i as int].deep_view());
        }
        match normalize_group(&gs[i]) {
            Err(e) => {
                proof {
                    lemma_groups_prefix(s, i + 1);
                }
                return Err(e);
            },
            Ok(g) => {
                let ghost before = done.deep_view();
                done.push(g);
                assert(done.deep_view() =~= before.push(g.deep_view()));
            },
        }
    }
    assert(s.take(s.len() as int) =~= s);
    Ok(done)
}

/// The normal form of a path prefix: it starts with `/` and, unless it is `/`,
/// does not end with one.
pub open spec fn normal_prefix(path: Seq<char>) -> Result<Seq<char>, RuntimeServiceErrorView> {
    let t = text::trimmed(path);
    if t.len() == 0 || !text::begins(t, "/"@) {
        Err(RuntimeServiceErrorView::InvalidPathPrefix)
    } else if t == "/"@ {
        Ok("/"@)
    } else {
        Ok(text::trimmed_end(t, text::only('/')))
    }
}

/// Brings a path prefix into its normal form.
pub fn normalize_path_prefix(path: &str) -> (r: Result<String, RuntimeServiceError>)
    ensures
        data::outcome(r) == normal_prefix(path@),
{
    let trimmed = text::trim(path);
    if trimmed.as_str().is_empty() || !text::starts_with(trimmed.as_str(), "/") {
        return Err(RuntimeServiceError::InvalidPathPrefix);
    }
    if text::same(trimmed.as_str(), "/") {
        Ok("/".to_owned())
    } else {
        Ok(text::trim_end_char(trimmed.as_str(), '/'))
    }
}

/// The normal form of a route, with its groups in order.
pub open spec fn normal_route(r: RuntimeRouteView) -> Result<
    RuntimeRouteView,
    RuntimeServiceErrorView,
> {
    let id = text::trimmed(r.id);
    if id.len() == 0 {
        Err(RuntimeServiceErrorView::EmptyRouteId)
    } else {
        match normal_prefix(r.path_prefix) {
            Err(e) => Err(e),
            Ok(path_prefix) => match normal_groups(r.target_groups) {
                Err(e) => Err(e),
                Ok(target_groups) => Ok(
                    route_in_order(
                        RuntimeRouteView {
                            id,
                            hosts: ranking::text_set(clean_hosts(r.hosts)),
                            path_prefix,
                            lb_header: present(r.lb_header),
                            lb_cookie: present(r.lb_cookie),
                            target_groups,
                            ..r
                        },
                    ),
                ),
            },
        }
    }
}

/// Brings a route into its normal form.
pub fn normalize_route(route: &RuntimeRoute) -> (r: Result<RuntimeRoute, RuntimeServiceError>)
    ensures
        data::outcome(r) == normal_route(route.deep_view()),
{
    let id = text::trim(route.id.as_str());
    if id.as_str().is_empty() {
        return Err(RuntimeServiceError::EmptyRouteId);
    }
    match normalize_path_prefix(route.path_prefix.as_str()) {
        Err(e) => Err(e),
        Ok(path_prefix) => match normalize_groups(&route.target_groups) {
            Err(e) => Err(e),
            Ok(target_groups) => {
                let mut n = RuntimeRoute {
                    id,
                    hosts: ranking::unique_texts(&cleaned_hosts(&route.hosts)),
                    path_prefix,
                    matchers: route.matchers.duplicate(),
                    strip_path_prefix: route.strip_path_prefix,
                    lb: route.lb,
                    lb_header: present_text(&route.lb_header),
                    lb_cookie: present_text(&route.lb_cookie),
                    target_groups,
                    health_check: route.health_check.duplicate(),
                };
                sort_route(&mut n);
                Ok(n)
            },
        },
    }
}

/// The normal forms of listeners, or the first error.
pub open spec fn normal_listeners(ls: Seq<RuntimeListenerView>) -> Result<
    Seq<RuntimeListenerView>,
    RuntimeServiceErrorView,
>
    decreases ls.len(),
{
    if ls.len() == 0 {
        Ok(ls)
    } else {
        match normal_listeners(ls.drop_last()) {
            Err(e) => Err(e),
            Ok(done) => match normal_listener(ls.last()) {
                Err(e) => Err(e),
                Ok(l) => Ok(done.push(l)),
            },
        }
    }
}

/// An error in a beginning of the list is the error of the list.
proof fn lemma_listeners_prefix(ls: Seq<RuntimeListenerView>, n: int)
    requires
        0 <= n <= ls.len(),
        normal_listeners(ls.take(n)) is Err,
    ensures
        normal_listeners(ls) == normal_listeners(ls.take(n)),
    decreases ls.len(),
{
    if n < ls.len() {
        assert(ls.drop_last().take(n) =~= ls.take(n));
        lemma_listeners_prefix(ls.drop_last(), n);
    } else {
        assert(ls.take(n) =~= ls);
    }
}

/// Brings listeners into their normal form.
fn normalize_listeners(ls: &Vec<RuntimeListener>) -> (r: Result<
    Vec<RuntimeListener>,
    RuntimeServiceError,
>)
    ensures
        data::outcome(r) == normal_listeners(ls.deep_view()),
{
    let ghost s = ls.deep_view();
    let mut done: Vec<RuntimeListener> = Vec::new();
    assert(done.deep_view() =~= s.take(0));
    for i in 0..ls.len()
        invariant
            s == ls.deep_view(),
            normal_listeners(s.take(i as int)) == Ok::<_, RuntimeServiceErrorView>(done.deep_view()),
    {
        proof {
            assert(s.take(i + 1).drop_last() =~= s.take(i as int));
            assert(s.take(i + 1).last() == ls@[i as int].deep_view());
        }
        match normalize_listener(&ls[i]) {
            Err(e) => {
                proof {
                    lemma_listeners_prefix(s, i + 1);
                }
                return Err(e);
            },
            Ok(l) => {
                let ghost before = done.deep_view();
                done.push(l);
                assert(done.deep_view() =~= before.push(l.deep_view()));
            },
        }
    }
    assert(s.take(s.len() as int) =~= s);
    Ok(done)
}

/// The normal forms of routes, or the first error.
pub open spec fn normal_routes(rs: Seq<RuntimeRouteView>) -> Result<
    Seq<RuntimeRouteView>,
    RuntimeServiceErrorView,
>
    decreases rs.len(),
{
    if rs.len() == 0 {
        Ok(rs)
    } else {
        match normal_routes(rs.drop_last()) {
            Err(e) => Err(e),
            Ok(done) => match normal_route(rs.last()) {
                Err(e) => Err(e),
                Ok(r) => Ok(done.push(r)),
            },
        }
    }
}

/// An error in a beginning of the list is the error of the list.
proof fn lemma_routes_prefix(rs: Seq<RuntimeRouteView>, n: int)
    requires
        0 <= n <= rs.len(),
        normal_routes(rs.take(n)) is Err,
    ensures
        normal_routes(rs) == normal_routes(rs.take(n)),
    decreases rs.len(),
{
    if n < rs.len() {
        assert(rs.drop_last().take(n) =~= rs.take(n));
        lemma_routes_prefix(rs.drop_last(), n);
    } else {
        assert(rs.take(n) =~= rs);
    }
}

/// Brings routes into their normal form.
fn normalize_routes(rs: &Vec<RuntimeRoute>) -> (r: Result<Vec<RuntimeRoute>, RuntimeServiceError>)
    ensures
        data::outcome(r) == normal_routes(rs.deep_view()),
{
    let ghost s = rs.deep_view();
    let mut done: Vec<RuntimeRoute> = Vec::new();
    assert(done.deep_view() =~= s.take(0));
    for i in 0..rs.len()
        invariant
            s == rs.deep_view(),
            normal_routes(s.take(i as int)) == Ok::<_, RuntimeServiceErrorView>(done.deep_view()),
    {
        proof {
            assert(s.take(i + 1).drop_last() =~= s.take(i as int));
            assert(s.take(i + 1).last() == rs@[i as int].deep_view());
        }
        match normalize_route(&rs[i]) {
            Err(e) => {
                proof {
                    lemma_routes_prefix(s, i + 1);
                }
                return Err(e);
            },
            Ok(x) => {
                let ghost before = done.deep_view();
                done.push(x);
                assert(done.deep_view() =~= before.push(x.deep_view()));
            },
        }
    }
    assert(s.take(s.len() as int) =~= s);
    Ok(done)
}

/// The normal form of a TLS policy, where there is one.
pub open spec fn normal_tls_option(t: Option<RuntimeTlsPolicyView>) -> Result<
    Option<RuntimeTlsPolicyView>,
    RuntimeServiceErrorView,
> {
    match t {
        None => Ok(None),
        Some(p) => match normal_tls(p) {
            Ok(n) => Ok(Some(n)),
            Err(e) => Err(e),
        },
    }
}

/// The normal form of a service, with all its parts in order. Its TLS policy is
/// looked at first, then its listeners, then its routes.
pub open spec fn normal_service(s: RuntimeServiceView) -> Result<
    RuntimeServiceView,
    RuntimeServiceErrorView,
> {
    match normal_tls_option(s.tls) {
        Err(e) => Err(e),
        Ok(tls) => match normal_listeners(s.listeners) {
            Err(e) => Err(e),
            Ok(listeners) => match normal_routes(s.routes) {
                Err(e) => Err(e),
                Ok(routes) => Ok(
                    service_in_order(
                        RuntimeServiceView {
                            id: text::trimmed(s.id),
                            revision: s.revision,
                            listeners,
                            routes,
                            tls,
                        },
                    ),
                ),
            },
        },
    }
}

/// Brings a service into its normal form.
pub fn normalize_service(service: &RuntimeService) -> (r: Result<
    RuntimeService,
    RuntimeServiceError,
>)
    ensures
        data::outcome(r) == normal_service(service.deep_view()),
{
    let tls = match &service.tls {
        None => None,
        Some(p) => match normalize_tls_policy(p) {
            Ok(n) => Some(n),
            Err(e) => {
                return Err(e);
            },
        },
    };
    match normalize_listeners(&service.listeners) {
        Err(e) => Err(e),
        Ok(listeners) => match normalize_routes(&service.routes) {
            Err(e) => Err(e),
            Ok(routes) => {
                let mut n = RuntimeService {
                    id: text::trim(service.id.as_str()),
                    revision: service.revision,
                    listeners,
                    routes,
                    tls,
                };
                sort_service(&mut n);
                Ok(n)
            },
        },
    }
}

/// Routes stand in the order in which they are tried: the more specific path first, then those
/// that name a host, then those with more conditions; of two routes no more than one comes
/// first, and of routes with ids of their own one does.
pub proof fn lemma_route_order(a: RuntimeRouteView, b: RuntimeRouteView)
    ensures
        path_rank(a) > path_rank(b) ==> route_before(a, b) && !route_before(b, a),
        path_rank(a) == path_rank(b) && names_host(route_hosts(a)) && !names_host(route_hosts(b))
            ==> route_before(a, b) && !route_before(b, a),
        path_rank(a) == path_rank(b) && names_host(route_hosts(a)) == names_host(route_hosts(b))
            && a.matchers.len() > b.matchers.len() ==> route_before(a, b) && !route_before(b, a),
        path_rank(a) == path_rank(b) && names_host(route_hosts(a)) == names_host(route_hosts(b))
            && a.matchers == b.matchers ==> route_before(a, b) == sorted_map::text_before(a.id, b.id),
        !(route_before(a, b) && route_before(b, a)),
        a.id != b.id ==> route_before(a, b) || route_before(b, a),
{
    sorted_map::lemma_text_before_total(a.id, b.id);
    sorted_map::lemma_texts_before_total(
        signature::signatures(a.matchers),
        signature::signatures(b.matchers),
    );
}

} // verus!
