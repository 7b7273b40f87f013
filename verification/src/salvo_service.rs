//! Which route answers a request, and what it is made of.

use vstd::prelude::*;
use crate::config::types::{
    AppConfig, AppConfigView, HandlerConfig, HandlerConfigView, HoopConfig, HoopConfigView,
    RouteCondition, RouteConditionView, RouteConfig, RouteConfigView, SiteConfig, SiteConfigView,
};
use crate::data::Data;
use crate::message;
use crate::message::{
    ClientAddr, ClientView, Fields, Headers, Request, RequestView, Response, ResponseView, UriView,
};
use crate::ranking;
use crate::ranking::{sort, Ranked};
use crate::router::matcher;
use crate::router::matcher::{
    match_cidr_pub, path_matches, pattern_specificity, MatcherView, RequestMatcher,
};
use crate::text;
use crate::time::Duration;

verus! {

// ---------------------------------------------------------------------------
// Sites and routes
// ---------------------------------------------------------------------------

/// The host of an authority with what is before the last `@` taken off, up to the first
/// colon.
pub open spec fn authority_host(a: Seq<char>) -> Seq<char> {
    text::before(
        match text::last_char_at(a, '@', a.len() as int) {
            Some(i) => a.skip(i + 1),
            None => a,
        },
        ':',
    )
}

/// The host that a request is for, without the port: that of the field `host`, else
/// that of the URI.
pub open spec fn host_of(r: RequestView) -> Seq<char> {
    match message::field_of(r.headers, "host"@) {
        Some(t) => text::before(t, ':'),
        None => match r.uri.authority {
            Some(a) => authority_host(a),
            None => ""@,
        },
    }
}

/// Finds out which host a request is for.
pub fn extract_host(request: &Request) -> (r: String)
    ensures
        r@ == host_of(request.deep_view()),
{
    if let Some(t) = request.headers.text("host") {
        return text::before_char(t.as_str(), ':');
    }
    match &request.uri.authority {
        Some(a) => {
            let v = text::chars(a.as_str());
            match text::rfind_char_in(v.as_slice(), '@') {
                Some(i) => {
                    let rest = text::string_of(v.as_slice(), i + 1, v.len());
                    assert(rest@ =~= a@.skip(i + 1));
                    text::before_char(rest.as_str(), ':')
                },
                None => text::before_char(a.as_str(), ':'),
            }
        },
        None => "".to_owned(),
    }
}

/// The site takes requests for the host; the site `*` takes all.
pub open spec fn site_takes(host: Seq<char>, r: RequestView) -> bool {
    host == "*"@ || host_of(r) == host
}

/// Tells whether the site takes a request.
pub fn site_matches(site_host: &str, request: &Request) -> (r: bool)
    ensures
        r == site_takes(site_host@, request.deep_view()),
{
    text::same(site_host, "*") || text::same(extract_host(request).as_str(), site_host)
}

/// The field has exactly the value.
pub open spec fn field_is(h: Fields, name: Seq<char>, value: Seq<char>) -> bool {
    message::field_of(h, name) == Some(value)
}

/// A condition holds of a request.
pub open spec fn condition_holds(c: RouteConditionView, r: RequestView, client: ClientView) -> bool {
    match c {
        RouteConditionView::RemoteIp(ranges) => matcher::in_ranges(ranges, client.ip),
        RouteConditionView::NotRemoteIp(ranges) => !matcher::in_ranges(ranges, client.ip),
        RouteConditionView::Header { name, value } => field_is(r.headers, name, value),
        RouteConditionView::NotHeader { name, value } => !field_is(r.headers, name, value),
    }
}

/// Tells whether the address is in one of the ranges.
fn in_one_of(ranges: &Vec<String>, client: &ClientAddr) -> (r: bool)
    ensures
        r == matcher::in_ranges(ranges.deep_view(), client.deep_view().ip),
{
    let ghost rs = ranges.deep_view();
    for i in 0..ranges.len()
        invariant
            rs == ranges.deep_view(),
            forall|j: int| 0 <= j < i ==> !matcher::in_range(#[trigger] rs[j], client.ip),
    {
        assert(rs[i as int] == ranges@[i as int]@);
        if match_cidr_pub(ranges[i].as_str(), &client.ip) {
            return true;
        }
    }
    false
}

/// Tells whether the field has exactly the value.
fn field_equals(headers: &Headers, name: &str, value: &str) -> (r: bool)
    ensures
        r == field_is(headers.deep_view(), name@, value@),
{
    match headers.text(name) {
        Some(t) => text::same(t.as_str(), value),
        None => false,
    }
}

/// Tells whether a condition holds of a request.
pub fn evaluate_condition(
    condition: &RouteCondition,
    request: &Request,
    client: &ClientAddr,
) -> (r: bool)
    ensures
        r == condition_holds(condition.deep_view(), request.deep_view(), client.deep_view()),
{
    match condition {
        RouteCondition::RemoteIp(ranges) => in_one_of(ranges, client),
        RouteCondition::NotRemoteIp(ranges) => !in_one_of(ranges, client),
        RouteCondition::Header { name, value } => field_equals(
            &request.headers,
            name.as_str(),
            value.as_str(),
        ),
        RouteCondition::NotHeader { name, value } => !field_equals(
            &request.headers,
            name.as_str(),
            value.as_str(),
        ),
    }
}

/// The matchers from `i` on take the request.
pub open spec fn all_accept(
    ms: Seq<MatcherView>,
    r: RequestView,
    client: ClientView,
    i: int,
) -> bool
    decreases ms.len() - i,
{
    i < 0 || i >= ms.len() || (matcher::accepts(ms[i], r, client) && all_accept(
        ms,
        r,
        client,
        i + 1,
    ))
}

/// The route takes the request: its path, all its matchers and its condition do.
pub open spec fn route_takes(route: RouteConfigView, r: RequestView, client: ClientView) -> bool {
    &&& matcher::covers(route.path, r.uri.path())
    &&& all_accept(route.matchers, r, client, 0)
    &&& match route.condition {
        Some(c) => condition_holds(c, r, client),
        None => true,
    }
}

/// Tells whether a route takes a request.
pub fn route_matches_request(route: &RouteConfig, request: &Request, client: &ClientAddr) -> (r:
    bool)
    ensures
        r == route_takes(route.deep_view(), request.deep_view(), client.deep_view()),
{
    if !path_matches(route.path.as_str(), request.uri.path().as_str()) {
        return false;
    }
    let ghost ms = route.deep_view().matchers;
    let ghost (q, c) = (request.deep_view(), client.deep_view());
    for i in 0..route.matchers.len()
        invariant
            ms == route.matchers.deep_view(),
            route.deep_view().matchers == ms,
            q == request.deep_view(),
            c == client.deep_view(),
            all_accept(ms, q, c, 0) == all_accept(ms, q, c, i as int),
    {
        assert(ms[i as int] == route.matchers@[i as int].deep_view());
        if !route.matchers[i].matches(request, client) {
            return false;
        }
    }
    match &route.condition {
        Some(c) => evaluate_condition(c, request, client),
        None => true,
    }
}

/// The place of a route among those of its site, and how specific its path is.
#[derive(Clone, Copy, Debug, PartialEq, Eq, Structural)]
pub struct RouteRank {
    pub index: usize,
    pub specificity: usize,
}

impl DeepView for RouteRank {
    type V = RouteRank;

    open spec fn deep_view(&self) -> RouteRank {
        *self
    }
}

impl Data for RouteRank {
    fn duplicate(&self) -> (r: RouteRank) {
        *self
    }

    fn same_as(&self, other: &RouteRank) -> (r: bool) {
        *self == *other
    }
}

impl Ranked for RouteRank {
    /// The more specific path comes first.
    open spec fn precedes(a: RouteRank, b: RouteRank) -> bool {
        a.specificity > b.specificity
    }

    fn goes_before(&self, other: &RouteRank) -> (r: bool) {
        self.specificity > other.specificity
    }
}

/// The routes of a site with how specific they are.
pub open spec fn ranks(routes: Seq<RouteConfigView>) -> Seq<RouteRank> {
    Seq::new(
        routes.len(),
        |i: int|
            RouteRank {
                index: i as usize,
                specificity: matcher::capped(matcher::specificity(routes[i].path)) as usize,
            },
    )
}

/// The order in which the routes of a site are tried: the more specific first, and
/// of those that are as specific the one that was written first.
pub open spec fn route_order(routes: Seq<RouteConfigView>) -> Seq<RouteRank> {
    ranking::sorted::<RouteRank>(ranks(routes))
}

/// Puts the routes of a site in the order in which they are tried.
pub fn order_routes(routes: &Vec<RouteConfig>) -> (r: Vec<RouteRank>)
    ensures
        r.deep_view() == route_order(routes.deep_view()),
{
    let ghost rs = routes.deep_view();
    let mut list: Vec<RouteRank> = Vec::new();
    for i in 0..routes.len()
        invariant
            rs == routes.deep_view(),
            list@.len() == i,
            forall|j: int| 0 <= j < i ==> #[trigger] list@[j] == ranks(rs)[j],
    {
        assert(rs[i as int] == routes@[i as int].deep_view());
        let specificity = pattern_specificity(routes[i].path.as_str());
        list.push(RouteRank { index: i, specificity });
    }
    assert(list.deep_view() =~= ranks(rs));
    sort(&list)
}

/// The first route that takes the request, in the given order from `k` on.
pub open spec fn first_route(
    order: Seq<RouteRank>,
    routes: Seq<RouteConfigView>,
    r: RequestView,
    client: ClientView,
    k: int,
) -> Option<usize>
    decreases order.len() - k,
{
    if k < 0 || k >= order.len() {
        None
    } else if route_takes(routes[order[k].index as int], r, client) {
        Some(order[k].index)
    } else {
        first_route(order, routes, r, client, k + 1)
    }
}

/// The first site from `i` on with a route that takes the request, and that route.
pub open spec fn selected(
    sites: Seq<SiteConfigView>,
    r: RequestView,
    client: ClientView,
    i: int,
) -> Option<(usize, usize)>
    decreases sites.len() - i,
{
    if i < 0 || i >= sites.len() {
        None
    } else {
        let route = if site_takes(sites[i].host, r) {
            first_route(route_order(sites[i].routes), sites[i].routes, r, client, 0)
        } else {
            None
        };
        match route {
            Some(j) => Some((i as usize, j)),
            None => selected(sites, r, client, i + 1),
        }
    }
}

/// The ranks of a site are those of its routes.
proof fn lemma_order_indices(routes: Seq<RouteConfigView>)
    requires
        routes.len() <= usize::MAX,
    ensures
        route_order(routes).len() == routes.len(),
        forall|k: int|
            0 <= k < route_order(routes).len() ==> (#[trigger] route_order(routes)[k]).index
                < routes.len() && ranks(routes)[route_order(routes)[k].index as int]
                == route_order(routes)[k],
        forall|j: int|
            0 <= j < routes.len() ==> route_order(routes).contains(#[trigger] ranks(routes)[j]),
{
    broadcast use vstd::seq_lib::group_to_multiset_ensures;

    let (s, o) = (ranks(routes), route_order(routes));
    ranking::lemma_sorted_keeps::<RouteRank>(s);
    assert forall|k: int| 0 <= k < o.len() implies (#[trigger] o[k]).index < routes.len() && s[
        o[k].index as int
    ] == o[k] by {
        assert(o.contains(o[k]));
        assert(o.to_multiset().count(o[k]) > 0);
        assert(s.to_multiset().count(o[k]) > 0);
        assert(s.contains(o[k]));
        let j = choose|j: int| 0 <= j < s.len() && s[j] == o[k];
        assert(s[j].index == j);
    }
    assert forall|j: int| 0 <= j < routes.len() implies o.contains(#[trigger] s[j]) by {
        assert(s.contains(s[j]));
        assert(s.to_multiset().count(s[j]) > 0);
        assert(o.to_multiset().count(s[j]) > 0);
    }
}

/// Finds the route of a site that takes a request.
fn select_in_site(site: &SiteConfig, request: &Request, client: &ClientAddr) -> (r: Option<usize>)
    ensures
        r == first_route(
            route_order(site.deep_view().routes),
            site.deep_view().routes,
            request.deep_view(),
            client.deep_view(),
            0,
        ),
{
    let order = order_routes(&site.routes);
    let ghost o = order.deep_view();
    let ghost rs = site.deep_view().routes;
    let n = site.routes.len();
    proof {
        assert(rs.len() == n);
        lemma_order_indices(rs);
    }
    for k in 0..order.len()
        invariant
            o == order.deep_view(),
            o == route_order(rs),
            rs == site.routes.deep_view(),
            rs.len() == site.routes@.len(),
            forall|k: int| 0 <= k < o.len() ==> (#[trigger] o[k]).index < rs.len(),
            first_route(o, rs, request.deep_view(), client.deep_view(), 0) == first_route(
                o,
                rs,
                request.deep_view(),
                client.deep_view(),
                k as int,
            ),
    {
        assert(o[k as int] == order@[k as int]);
        let j: usize = order[k].index;
        assert(rs[j as int] == site.routes@[j as int].deep_view());
        if route_matches_request(&site.routes[j], request, client) {
            return Some(j);
        }
    }
    None
}

/// Finds the site and the route that answer a request.
pub fn select_route(config: &AppConfig, request: &Request, client: &ClientAddr) -> (r: Option<
    (usize, usize),
>)
    ensures
        r == selected(
            config.deep_view().sites,
            request.deep_view(),
            client.deep_view(),
            0,
        ),
{
    let ghost sites = config.deep_view().sites;
    for i in 0..config.sites.len()
        invariant
            sites == config.sites.deep_view(),
            selected(sites, request.deep_view(), client.deep_view(), 0) == selected(
                sites,
                request.deep_view(),
                client.deep_view(),
                i as int,
            ),
    {
        let site = &config.sites[i];
        assert(sites[i as int] == site.deep_view());
        if site_matches(site.host.as_str(), request) {
            if let Some(j) = select_in_site(site, request, client) {
                return Some((i, j));
            }
        }
    }
    None
}

/// The route that is found takes the request, and no route of its site that takes it
/// as well has a more specific path.
proof fn lemma_first_route(
    routes: Seq<RouteConfigView>,
    r: RequestView,
    client: ClientView,
    k: int,
    other: int,
)
    requires
        routes.len() <= usize::MAX,
        0 <= k <= routes.len(),
        0 <= other < routes.len(),
        route_takes(routes[other], r, client),
        forall|m: int|
            0 <= m < k ==> !route_takes(
                routes[(#[trigger] route_order(routes)[m]).index as int],
                r,
                client,
            ),
    ensures
        match first_route(route_order(routes), routes, r, client, k) {
            Some(j) => j < routes.len() && route_takes(routes[j as int], r, client) && ranks(
                routes,
            )[j as int].specificity >= ranks(routes)[other].specificity,
            None => false,
        },
    decreases routes.len() - k,
{
    let o = route_order(routes);
    lemma_order_indices(routes);
    ranking::lemma_sorted_in_order::<RouteRank>(ranks(routes));
    assert(o.contains(ranks(routes)[other]));
    let p = choose|p: int| 0 <= p < o.len() && o[p] == ranks(routes)[other];
    assert(o[p].index == other);
    assert(p >= k);
    if k < o.len() && !route_takes(routes[o[k].index as int], r, client) {
        lemma_first_route(routes, r, client, k + 1, other);
    } else if k < o.len() && k < p {
        assert(!RouteRank::precedes(o[p], o[k]));
    }
}

/// A request that a route of a site takes is answered by a route that takes it and has
/// at least as specific a path.
pub proof fn lemma_most_specific(
    site: SiteConfigView,
    r: RequestView,
    client: ClientView,
    other: int,
)
    requires
        site.routes.len() <= usize::MAX,
        site_takes(site.host, r),
        0 <= other < site.routes.len(),
        route_takes(site.routes[other], r, client),
    ensures
        match selected(seq![site], r, client, 0) {
            Some((i, j)) => i == 0 && j < site.routes.len() && route_takes(
                site.routes[j as int],
                r,
                client,
            ) && matcher::capped(matcher::specificity(site.routes[j as int].path))
                >= matcher::capped(matcher::specificity(site.routes[other].path)),
            None => false,
        },
{
    lemma_first_route(site.routes, r, client, 0, other);
    let s = seq![site];
    assert(s[0] == site);
}

/// The routes of a site are tried from the most specific to the least, those that are as
/// specific as they were written.
proof fn lemma_order_stable(s: Seq<RouteRank>)
    requires
        s.len() <= usize::MAX,
        forall|i: int| 0 <= i < s.len() ==> (#[trigger] s[i]).index == i,
    ensures
        forall|a: int, b: int|
            #![trigger ranking::sorted::<RouteRank>(s)[a], ranking::sorted::<RouteRank>(s)[b]]
            0 <= a < b < ranking::sorted::<RouteRank>(s).len() ==> {
                let (x, y) = (
                    ranking::sorted::<RouteRank>(s)[a],
                    ranking::sorted::<RouteRank>(s)[b],
                );
                x.specificity > y.specificity || (x.specificity == y.specificity && x.index
                    < y.index)
            },
    decreases s.len(),
{
    if s.len() > 0 {
        let d = s.drop_last();
        let x = s.last();
        assert forall|i: int| 0 <= i < d.len() implies (#[trigger] d[i]).index == i by {
            assert(d[i] == s[i]);
        }
        lemma_order_stable(d);
        let done = ranking::sorted::<RouteRank>(d);
        let t = ranking::sorted::<RouteRank>(s);
        ranking::lemma_sorted_keeps::<RouteRank>(d);
        ranking::lemma_place::<RouteRank>(done, x, 0);
        let p = ranking::place::<RouteRank>(done, x, 0);
        assert forall|j: int| 0 <= j < done.len() implies (#[trigger] done[j]).index < x.index by {
            ranking::lemma_sorted_member::<RouteRank>(d, j);
            let i = choose|i: int| 0 <= i < d.len() && d[i] == done[j];
            assert(d[i].index == i);
        }
        assert forall|a: int, b: int|
            #![trigger t[a], t[b]]
            0 <= a < b < t.len() implies t[a].specificity > t[b].specificity || (t[a].specificity
            == t[b].specificity && t[a].index < t[b].index) by {
            let (i, j) = (
                if a > p {
                    a - 1
                } else {
                    a
                },
                if b > p {
                    b - 1
                } else {
                    b
                },
            );
            if a == p {
                assert(t[a] == x && t[b] == done[j]);
                if j > p {
                    assert(done[p].specificity >= done[j].specificity);
                }
            } else if b == p {
                assert(t[b] == x && t[a] == done[i]);
                assert(!RouteRank::precedes(x, done[i]));
            } else {
                assert(t[a] == done[i] && t[b] == done[j]);
            }
        }
    }
}

/// The first route that takes the request stands before all others that do.
proof fn lemma_first_of_all(
    routes: Seq<RouteConfigView>,
    r: RequestView,
    client: ClientView,
    k: int,
)
    requires
        routes.len() <= usize::MAX,
        0 <= k <= routes.len(),
        forall|m: int|
            0 <= m < k ==> !route_takes(
                routes[(#[trigger] route_order(routes)[m]).index as int],
                r,
                client,
            ),
    ensures
        match first_route(route_order(routes), routes, r, client, k) {
            Some(j) => chosen(routes, r, client, j as int),
            None => forall|o: int|
                0 <= o < routes.len() ==> !route_takes(#[trigger] routes[o], r, client),
        },
    decreases routes.len() - k,
{
    let o = route_order(routes);
    lemma_order_indices(routes);
    lemma_order_stable(ranks(routes));
    if k < o.len() && !route_takes(routes[o[k].index as int], r, client) {
        lemma_first_of_all(routes, r, client, k + 1);
    } else if k < o.len() {
        let j = o[k].index as int;
        assert forall|other: int|
            0 <= other < routes.len() && other != j && route_takes(
                #[trigger] routes[other],
                r,
                client,
            ) implies more_specific(routes, j, other) by {
            assert(o.contains(ranks(routes)[other]));
            let p = choose|p: int| 0 <= p < o.len() && o[p] == ranks(routes)[other];
            assert(o[p].index == other);
            if p < k {
                assert(!route_takes(routes[o[p].index as int], r, client));
            }
            assert(p != k);
            assert(o[k] == ranks(routes)[j]);
        }
    } else {
        assert forall|other: int| 0 <= other < routes.len() implies !route_takes(
            #[trigger] routes[other],
            r,
            client,
        ) by {
            assert(o.contains(ranks(routes)[other]));
            let p = choose|p: int| 0 <= p < o.len() && o[p] == ranks(routes)[other];
            assert(o[p].index == other);
        }
    }
}

/// The route comes before another: its path is more specific, or as specific and written
/// first.
pub open spec fn more_specific(routes: Seq<RouteConfigView>, j: int, other: int) -> bool {
    let (a, b) = (
        matcher::capped(matcher::specificity(routes[j].path)),
        matcher::capped(matcher::specificity(routes[other].path)),
    );
    a > b || (a == b && j < other)
}

/// The route takes the request and comes before all others of its site that do.
pub open spec fn chosen(
    routes: Seq<RouteConfigView>,
    r: RequestView,
    client: ClientView,
    j: int,
) -> bool {
    &&& 0 <= j < routes.len()
    &&& route_takes(routes[j], r, client)
    &&& forall|other: int|
        0 <= other < routes.len() && other != j && route_takes(#[trigger] routes[other], r, client)
            ==> more_specific(routes, j, other)
}

/// A request is answered by the first site that is for its host, or for all, and has a
/// route that takes it, and there by the most specific such route, of those that are as
/// specific by the one that was written first. It finds no route exactly where no such
/// site has one that takes it.
pub proof fn lemma_route_selected(
    sites: Seq<SiteConfigView>,
    r: RequestView,
    client: ClientView,
    i: int,
)
    requires
        0 <= i <= sites.len() <= usize::MAX,
        forall|n: int| 0 <= n < sites.len() ==> (#[trigger] sites[n]).routes.len() <= usize::MAX,
    ensures
        match selected(sites, r, client, i) {
            Some((n, j)) => i <= n < sites.len() && (sites[n as int].host == "*"@ || sites[n as int].host
                == host_of(r)) && chosen(sites[n as int].routes, r, client, j as int) && forall|
                m: int,
                o: int,
            |
                i <= m < n && (sites[m].host == "*"@ || sites[m].host == host_of(r)) && 0 <= o
                    < sites[m].routes.len() ==> !route_takes(
                    #[trigger] sites[m].routes[o],
                    r,
                    client,
                ),
            None => forall|m: int, o: int|
                i <= m < sites.len() && (sites[m].host == "*"@ || sites[m].host == host_of(r)) && 0
                    <= o < sites[m].routes.len() ==> !route_takes(
                    #[trigger] sites[m].routes[o],
                    r,
                    client,
                ),
        },
    decreases sites.len() - i,
{
    if i < sites.len() {
        assert(sites[i].routes.len() <= usize::MAX);
        lemma_first_of_all(sites[i].routes, r, client, 0);
        lemma_route_selected(sites, r, client, i + 1);
    }
}

/// A request is for the host that its field names, without the port; where it has no such
/// field, for that of its URI without what stands before an `@` and without the port.
pub proof fn lemma_host_named(
    r: RequestView,
    host: Seq<char>,
    port: Seq<char>,
    user: Seq<char>,
)
    requires
        !host.contains(':'),
        !host.contains('@'),
        !port.contains('@'),
    ensures
        message::field_of(r.headers, "host"@) == Some(host) || message::field_of(
            r.headers,
            "host"@,
        ) == Some(host + seq![':'] + port) ==> host_of(r) == host,
        message::field_of(r.headers, "host"@) is None && (r.uri.authority == Some(host)
            || r.uri.authority == Some(host + seq![':'] + port) || r.uri.authority == Some(
            user + seq!['@'] + (host + seq![':'] + port),
        ) || r.uri.authority == Some(user + seq!['@'] + host)) ==> host_of(r) == host,
{
    text::lemma_cut_at(host, ':', port);
    let both = host + seq![':'] + port;
    assert(!both.contains('@')) by {
        if both.contains('@') {
            let i = choose|i: int| 0 <= i < both.len() && both[i] == '@';
            if i < host.len() {
                assert(host.contains(host[i]));
            } else {
                assert(both[i] == ':' || port.contains(port[i - host.len() - 1]));
            }
        }
    }
    lemma_behind_at(user, both);
    lemma_behind_at(user, host);
    lemma_no_at(both);
    lemma_no_at(host);
}

/// What stands behind the last `@`.
proof fn lemma_behind_at(user: Seq<char>, h: Seq<char>)
    requires
        !h.contains('@'),
    ensures
        authority_host(user + seq!['@'] + h) == text::before(h, ':'),
{
    let a = user + seq!['@'] + h;
    text::lemma_last_char_at(a, '@', a.len() as int);
    assert(a[user.len() as int] == '@');
    let i = text::last_char_at(a, '@', a.len() as int)->0;
    if i > user.len() {
        assert(a[i] == h[i - user.len() - 1]);
        assert(h.contains(h[i - user.len() - 1]));
    }
    assert(a.skip(i + 1) =~= h);
}

/// A text without `@` is all host.
proof fn lemma_no_at(h: Seq<char>)
    requires
        !h.contains('@'),
    ensures
        authority_host(h) == text::before(h, ':'),
{
    text::lemma_last_char_at(h, '@', h.len() as int);
    if let Some(i) = text::last_char_at(h, '@', h.len() as int) {
        assert(h.contains(h[i]));
    }
}

/// A route takes a request exactly where its pattern covers the path, every matcher takes
/// the request, and its condition holds where it has one.
pub proof fn lemma_route_takes(route: RouteConfigView, r: RequestView, client: ClientView)
    ensures
        route_takes(route, r, client) <==> matcher::covers(route.path, r.uri.path()) && (forall|
            i: int,
        |
            0 <= i < route.matchers.len() ==> matcher::accepts(#[trigger] route.matchers[i], r, client))
            && (route.condition matches Some(c) ==> condition_holds(c, r, client)),
{
    lemma_all_taken(route.matchers, r, client, 0);
}

/// `all_accept` speaks of every matcher from `i` on.
proof fn lemma_all_taken(ms: Seq<MatcherView>, r: RequestView, client: ClientView, i: int)
    requires
        0 <= i,
    ensures
        all_accept(ms, r, client, i) <==> forall|j: int|
            i <= j < ms.len() ==> matcher::accepts(#[trigger] ms[j], r, client),
    decreases ms.len() - i,
{
    if i < ms.len() {
        lemma_all_taken(ms, r, client, i + 1);
    }
}

/// A condition on the client's address holds where it lies in one of the ranges, one on a
/// field where the field has just the value; what is excluded is what the condition
/// without the exclusion holds of.
pub proof fn lemma_conditions(
    ranges: Seq<Seq<char>>,
    name: Seq<char>,
    value: Seq<char>,
    r: RequestView,
    client: ClientView,
)
    ensures
        condition_holds(RouteConditionView::RemoteIp(ranges), r, client) <==> exists|i: int|
            0 <= i < ranges.len() && matcher::in_range(#[trigger] ranges[i], client.ip),
        condition_holds(RouteConditionView::NotRemoteIp(ranges), r, client) <==> forall|i: int|
            0 <= i < ranges.len() ==> !matcher::in_range(#[trigger] ranges[i], client.ip),
        condition_holds(RouteConditionView::Header { name, value }, r, client)
            <==> message::field_of(r.headers, name) == Some(value),
        condition_holds(RouteConditionView::NotHeader { name, value }, r, client)
            <==> message::field_of(r.headers, name) != Some(value),
{
}

// ---------------------------------------------------------------------------
// What a route is made of
// ---------------------------------------------------------------------------

/// A way of compressing.
#[derive(Clone, Copy, Debug, PartialEq, Eq, Structural)]
pub enum Algorithm {
    Gzip,
    Brotli,
    Deflate,
    Zstd,
}

impl DeepView for Algorithm {
    type V = Algorithm;

    open spec fn deep_view(&self) -> Algorithm {
        *self
    }
}

impl Data for Algorithm {
    fn duplicate(&self) -> (r: Algorithm) {
        *self
    }

    fn same_as(&self, other: &Algorithm) -> (r: bool) {
        *self == *other
    }
}

/// The way of compressing that a name stands for.
pub open spec fn algorithm(name: Seq<char>) -> Option<Algorithm> {
    if name == "gzip"@ {
        Some(Algorithm::Gzip)
    } else if name == "br"@ || name == "brotli"@ {
        Some(Algorithm::Brotli)
    } else if name == "deflate"@ {
        Some(Algorithm::Deflate)
    } else if name == "zstd"@ {
        Some(Algorithm::Zstd)
    } else {
        None
    }
}

/// The ways of compressing that the names from `i` on stand for.
pub open spec fn algorithms(names: Seq<Seq<char>>, i: int) -> Seq<Algorithm>
    decreases names.len() - i,
{
    if i < 0 || i >= names.len() {
        seq![]
    } else {
        match algorithm(names[i]) {
            Some(a) => seq![a] + algorithms(names, i + 1),
            None => algorithms(names, i + 1),
        }
    }
}

/// Reads the way of compressing that a name stands for.
pub fn read_algorithm(name: &str) -> (r: Option<Algorithm>)
    ensures
        r == algorithm(name@),
{
    if text::same(name, "gzip") {
        Some(Algorithm::Gzip)
    } else if text::same(name, "br") || text::same(name, "brotli") {
        Some(Algorithm::Brotli)
    } else if text::same(name, "deflate") {
        Some(Algorithm::Deflate)
    } else if text::same(name, "zstd") {
        Some(Algorithm::Zstd)
    } else {
        None
    }
}

/// Reads the ways of compressing that names stand for. Other names are passed over.
pub fn read_algorithms(names: &Vec<String>) -> (r: Vec<Algorithm>)
    ensures
        r@ == algorithms(names.deep_view(), 0),
{
    let ghost ns = names.deep_view();
    let mut out: Vec<Algorithm> = Vec::new();
    assert(out@ + algorithms(ns, 0) =~= algorithms(ns, 0));
    for i in 0..names.len()
        invariant
            ns == names.deep_view(),
            out@ + algorithms(ns, i as int) == algorithms(ns, 0),
    {
        assert(ns[i as int] == names@[i as int]@);
        if let Some(a) = read_algorithm(names[i].as_str()) {
            let ghost before = out@;
            out.push(a);
            assert(out@ + algorithms(ns, i + 1) =~= before + (seq![a] + algorithms(ns, i + 1)));
        }
    }
    assert(out@ + algorithms(ns, ns.len() as int) =~= out@);
    out
}

/// The plain values of a [`Allowed`].
#[verifier::ext_equal]
pub enum AllowedView {
    Nothing,
    Anything,
    Listed(Seq<Seq<char>>),
}

/// What is allowed of a kind.
#[derive(Debug, PartialEq, Eq)]
pub enum Allowed {
    /// Nothing is said.
    Nothing,
    Anything,
    Listed(Vec<String>),
}

impl DeepView for Allowed {
    type V = AllowedView;

    open spec fn deep_view(&self) -> AllowedView {
        match self {
            Allowed::Nothing => AllowedView::Nothing,
            Allowed::Anything => AllowedView::Anything,
            Allowed::Listed(a) => AllowedView::Listed(a.deep_view()),
        }
    }
}

impl Data for Allowed {
    fn duplicate(&self) -> (r: Allowed) {
        match self {
            Allowed::Nothing => Allowed::Nothing,
            Allowed::Anything => Allowed::Anything,
            Allowed::Listed(a) => Allowed::Listed(a.duplicate()),
        }
    }

    fn same_as(&self, other: &Allowed) -> (r: bool) {
        match (self, other) {
            (Allowed::Nothing, Allowed::Nothing) => true,
            (Allowed::Anything, Allowed::Anything) => true,
            (Allowed::Listed(a), Allowed::Listed(b_a)) => a.same_as(b_a),
            _ => false,
        }
    }
}

impl Clone for Allowed {
    fn clone(&self) -> (r: Allowed)
        ensures
            r.deep_view() == self.deep_view(),
    {
        self.duplicate()
    }
}

/// The plain values of a [`CorsPlan`].
#[verifier::ext_equal]
pub struct CorsPlanView {
    pub origins: AllowedView,
    pub methods: AllowedView,
    pub headers: AllowedView,
    pub credentials: bool,
    pub exposed: AllowedView,
    pub max_age: Option<u64>,
}

/// What other origins may do.
#[derive(Debug, PartialEq, Eq)]
pub struct CorsPlan {
    pub origins: Allowed,
    pub methods: Allowed,
    pub headers: Allowed,
    pub credentials: bool,
    pub exposed: Allowed,
    pub max_age: Option<u64>,
}

impl DeepView for CorsPlan {
    type V = CorsPlanView;

    open spec fn deep_view(&self) -> CorsPlanView {
        CorsPlanView {
            origins: self.origins.deep_view(),
            methods: self.methods.deep_view(),
            headers: self.headers.deep_view(),
            credentials: self.credentials.deep_view(),
            exposed: self.exposed.deep_view(),
            max_age: self.max_age.deep_view(),
        }
    }
}

impl Data for CorsPlan {
    fn duplicate(&self) -> (r: CorsPlan) {
        CorsPlan {
            origins: self.origins.duplicate(),
            methods: self.methods.duplicate(),
            headers: self.headers.duplicate(),
            credentials: self.credentials.duplicate(),
            exposed: self.exposed.duplicate(),
            max_age: self.max_age.duplicate(),
        }
    }

    fn same_as(&self, other: &CorsPlan) -> (r: bool) {
        self.origins.same_as(&other.origins) && self.methods.same_as(&other.methods) && self.headers.same_as(&other.headers) && self.credentials.same_as(&other.credentials) && self.exposed.same_as(&other.exposed) && self.max_age.same_as(
            &other.max_age,
        )
    }
}

impl Clone for CorsPlan {
    fn clone(&self) -> (r: CorsPlan)
        ensures
            r.deep_view() == self.deep_view(),
    {
        self.duplicate()
    }
}

/// The list holds the star alone.
pub open spec fn is_star(v: Seq<Seq<char>>) -> bool {
    v.len() == 1 && v[0] == "*"@
}

/// Tells whether the list holds the star alone.
fn only_star(v: &Vec<String>) -> (r: bool)
    ensures
        r == is_star(v.deep_view()),
{
    if v.len() == 1 {
        assert(v.deep_view()[0] == v@[0]@);
        text::same(v[0].as_str(), "*")
    } else {
        false
    }
}

/// What a list allows: everything where it holds the star alone, and nothing is said
/// where it is empty.
pub open spec fn allowed(v: Seq<Seq<char>>) -> AllowedView {
    if is_star(v) {
        AllowedView::Anything
    } else if v.len() == 0 {
        AllowedView::Nothing
    } else {
        AllowedView::Listed(v)
    }
}

/// Reads what a list allows.
fn read_allowed(v: &Vec<String>) -> (r: Allowed)
    ensures
        r.deep_view() == allowed(v.deep_view()),
{
    if only_star(v) {
        Allowed::Anything
    } else if v.len() == 0 {
        Allowed::Nothing
    } else {
        Allowed::Listed(v.duplicate())
    }
}

/// The names from `i` on that are names of methods.
pub open spec fn method_names(v: Seq<Seq<char>>, i: int) -> Seq<Seq<char>>
    decreases v.len() - i,
{
    if i < 0 || i >= v.len() {
        seq![]
    } else if message::is_method_name(v[i]) {
        seq![v[i]] + method_names(v, i + 1)
    } else {
        method_names(v, i + 1)
    }
}

/// Keeps the names of methods.
fn keep_methods(v: &Vec<String>) -> (r: Vec<String>)
    ensures
        r.deep_view() == method_names(v.deep_view(), 0),
{
    let ghost s = v.deep_view();
    let mut out: Vec<String> = Vec::new();
    assert(out.deep_view() + method_names(s, 0) =~= method_names(s, 0));
    for i in 0..v.len()
        invariant
            s == v.deep_view(),
            out.deep_view() + method_names(s, i as int) == method_names(s, 0),
    {
        assert(s[i as int] == v@[i as int]@);
        if message::is_method(v[i].as_str()) {
            let ghost before = out.deep_view();
            out.push(v[i].clone());
            assert(out.deep_view() =~= before.push(s[i as int]));
            assert(out.deep_view() + method_names(s, i + 1) =~= before + (seq![s[i as int]]
                + method_names(s, i + 1)));
        }
    }
    assert(out.deep_view() + method_names(s, s.len() as int) =~= out.deep_view());
    out
}

/// What other origins may do, as the configuration says it.
pub open spec fn cors_plan(
    origins: Seq<Seq<char>>,
    methods: Seq<Seq<char>>,
    headers: Seq<Seq<char>>,
    credentials: bool,
    exposed: Seq<Seq<char>>,
    max_age: Option<u64>,
) -> CorsPlanView {
    CorsPlanView {
        origins: if is_star(origins) {
            AllowedView::Anything
        } else {
            AllowedView::Listed(origins)
        },
        methods: match allowed(methods) {
            AllowedView::Listed(m) => AllowedView::Listed(method_names(m, 0)),
            a => a,
        },
        headers: allowed(headers),
        credentials,
        exposed: allowed(exposed),
        max_age,
    }
}

/// Reads what other origins may do.
pub fn plan_cors(
    origins: &Vec<String>,
    methods: &Vec<String>,
    headers: &Vec<String>,
    credentials: bool,
    exposed: &Vec<String>,
    max_age: Option<u64>,
) -> (r: CorsPlan)
    ensures
        r.deep_view() == cors_plan(
            origins.deep_view(),
            methods.deep_view(),
            headers.deep_view(),
            credentials,
            exposed.deep_view(),
            max_age,
        ),
{
    CorsPlan {
        origins: if only_star(origins) {
            Allowed::Anything
        } else {
            Allowed::Listed(origins.duplicate())
        },
        methods: match read_allowed(methods) {
            Allowed::Listed(m) => Allowed::Listed(keep_methods(&m)),
            a => a,
        },
        headers: read_allowed(headers),
        credentials,
        exposed: read_allowed(exposed),
        max_age,
    }
}

/// The plain values of a [`HoopPlan`].
#[verifier::ext_equal]
pub enum HoopPlanView {
    Own,
    Compression { algorithms: Seq<Algorithm>, level: Option<u32> },
    Cors(CorsPlanView),
    Timeout(nat),
    RequestId { header_name: Option<Seq<char>>, overwrite: bool },
    ForceHttps(Option<u16>),
    TrailingSlash { remove: bool },
    Module(Seq<char>),
}

/// How a step of a route is built.
#[derive(Debug, PartialEq, Eq)]
pub enum HoopPlan {
    /// By the hoop of this library for the configuration.
    Own,
    /// By the compression of the web framework.
    Compression {
        algorithms: Vec<Algorithm>,
        level: Option<u32>,
    },
    /// By the access rules of the web framework.
    Cors(CorsPlan),
    /// By the timeout of the web framework.
    Timeout(Duration),
    /// By the request numbers of the web framework.
    RequestId {
        header_name: Option<String>,
        overwrite: bool,
    },
    /// By the redirection of the web framework.
    ForceHttps(Option<u16>),
    /// By the redirection of the web framework: the slash is removed or added.
    TrailingSlash {
        remove: bool,
    },
    /// By a module, if there is one of the name.
    Module(String),
}

impl DeepView for HoopPlan {
    type V = HoopPlanView;

    open spec fn deep_view(&self) -> HoopPlanView {
        match self {
            HoopPlan::Own => HoopPlanView::Own,
            HoopPlan::Compression { algorithms, level } => {
                HoopPlanView::Compression {
                    algorithms: algorithms.deep_view(),
                    level: level.deep_view(),
                }
            },
            HoopPlan::Cors(a) => HoopPlanView::Cors(a.deep_view()),
            HoopPlan::Timeout(a) => HoopPlanView::Timeout(a.deep_view()),
            HoopPlan::RequestId { header_name, overwrite } => {
                HoopPlanView::RequestId {
                    header_name: header_name.deep_view(),
                    overwrite: overwrite.deep_view(),
                }
            },
            HoopPlan::ForceHttps(a) => HoopPlanView::ForceHttps(a.deep_view()),
            HoopPlan::TrailingSlash { remove } => {
                HoopPlanView::TrailingSlash { remove: remove.deep_view() }
            },
            HoopPlan::Module(a) => HoopPlanView::Module(a.deep_view()),
        }
    }
}

impl Data for HoopPlan {
    fn duplicate(&self) -> (r: HoopPlan) {
        match self {
            HoopPlan::Own => HoopPlan::Own,
            HoopPlan::Compression { algorithms, level } => {
                HoopPlan::Compression {
                    algorithms: algorithms.duplicate(),
                    level: level.duplicate(),
                }
            },
            HoopPlan::Cors(a) => HoopPlan::Cors(a.duplicate()),
            HoopPlan::Timeout(a) => HoopPlan::Timeout(a.duplicate()),
            HoopPlan::RequestId { header_name, overwrite } => {
                HoopPlan::RequestId {
                    header_name: header_name.duplicate(),
                    overwrite: overwrite.duplicate(),
                }
            },
            HoopPlan::ForceHttps(a) => HoopPlan::ForceHttps(a.duplicate()),
            HoopPlan::TrailingSlash { remove } => {
                HoopPlan::TrailingSlash { remove: remove.duplicate() }
            },
            HoopPlan::Module(a) => HoopPlan::Module(a.duplicate()),
        }
    }

    fn same_as(&self, other: &HoopPlan) -> (r: bool) {
        match (self, other) {
            (HoopPlan::Own, HoopPlan::Own) => true,
            (
                HoopPlan::Compression { algorithms, level },
                HoopPlan::Compression { algorithms: b_algorithms, level: b_level },
            ) => {
                algorithms.same_as(b_algorithms) && level.same_as(b_level)
            },
            (HoopPlan::Cors(a), HoopPlan::Cors(b_a)) => a.same_as(b_a),
            (HoopPlan::Timeout(a), HoopPlan::Timeout(b_a)) => a.same_as(b_a),
            (
                HoopPlan::RequestId { header_name, overwrite },
                HoopPlan::RequestId { header_name: b_header_name, overwrite: b_overwrite },
            ) => {
                header_name.same_as(b_header_name) && overwrite.same_as(b_overwrite)
            },
            (HoopPlan::ForceHttps(a), HoopPlan::ForceHttps(b_a)) => a.same_as(b_a),
            (HoopPlan::TrailingSlash { remove }, HoopPlan::TrailingSlash { remove: b_remove }) => {
                remove.same_as(b_remove)
            },
            (HoopPlan::Module(a), HoopPlan::Module(b_a)) => a.same_as(b_a),
            _ => false,
        }
    }
}

impl Clone for HoopPlan {
    fn clone(&self) -> (r: HoopPlan)
        ensures
            r.deep_view() == self.deep_view(),
    {
        self.duplicate()
    }
}

/// How a step of a route is built.
pub open spec fn hoop_plan(c: HoopConfigView) -> HoopPlanView {
    match c {
        HoopConfigView::Encode { encodings, level } => if algorithms(encodings, 0).len() > 0 {
            HoopPlanView::Compression { algorithms: algorithms(encodings, 0), level }
        } else {
            HoopPlanView::Own
        },
        HoopConfigView::Cors {
            allow_origins,
            allow_methods,
            allow_headers,
            allow_credentials,
            expose_headers,
            max_age,
        } => HoopPlanView::Cors(
            cors_plan(
                allow_origins,
                allow_methods,
                allow_headers,
                allow_credentials,
                expose_headers,
                max_age,
            ),
        ),
        HoopConfigView::Timeout { duration } => HoopPlanView::Timeout(duration),
        HoopConfigView::RequestId { header_name, overwrite } => HoopPlanView::RequestId {
            header_name: match header_name {
                Some(n) if message::is_field_name(n) => Some(text::lowered(n)),
                _ => None,
            },
            overwrite,
        },
        HoopConfigView::ForceHttps { https_port } => HoopPlanView::ForceHttps(https_port),
        HoopConfigView::TrailingSlash { action } => HoopPlanView::TrailingSlash {
            remove: action == "remove"@,
        },
        HoopConfigView::Module { name, config } => HoopPlanView::Module(name),
        _ => HoopPlanView::Own,
    }
}

/// Finds out how a step of a route is built.
pub fn plan_hoop(c: &HoopConfig) -> (r: HoopPlan)
    ensures
        r.deep_view() == hoop_plan(c.deep_view()),
{
    match c {
        HoopConfig::Encode { encodings, level } => {
            let algorithms = read_algorithms(encodings);
            assert(algorithms.deep_view() =~= algorithms@);
            if algorithms.len() > 0 {
                HoopPlan::Compression { algorithms, level: *level }
            } else {
                HoopPlan::Own
            }
        },
        HoopConfig::Cors {
            allow_origins,
            allow_methods,
            allow_headers,
            allow_credentials,
            expose_headers,
            max_age,
        } => HoopPlan::Cors(
            plan_cors(
                allow_origins,
                allow_methods,
                allow_headers,
                *allow_credentials,
                expose_headers,
                *max_age,
            ),
        ),
        HoopConfig::Timeout { duration } => HoopPlan::Timeout(*duration),
        HoopConfig::RequestId { header_name, overwrite } => HoopPlan::RequestId {
            header_name: match header_name {
                Some(n) => message::field_name(n.as_str()),
                None => None,
            },
            overwrite: *overwrite,
        },
        HoopConfig::ForceHttps { https_port } => HoopPlan::ForceHttps(*https_port),
        HoopConfig::TrailingSlash { action } => HoopPlan::TrailingSlash {
            remove: text::same(action.as_str(), "remove"),
        },
        HoopConfig::Module { name, config } => HoopPlan::Module(name.clone()),
        _ => HoopPlan::Own,
    }
}

/// Files are served by the web framework.
pub open spec fn framework_serves(c: HandlerConfigView) -> bool {
    c matches HandlerConfigView::FileServer(f) && f.trailing_slash
}

/// Tells whether files are served by the web framework. The handler of this library
/// serves those of a server without slashes at the end.
pub fn serves_by_framework(c: &HandlerConfig) -> (r: bool)
    ensures
        r == framework_serves(c.deep_view()),
{
    match c {
        HandlerConfig::FileServer(f) => f.trailing_slash,
        _ => false,
    }
}

/// What a module made of a route.
#[derive(Debug, PartialEq, Eq)]
pub enum ModuleOutcome {
    /// There is no such module.
    Unknown,
    /// The module has no handler.
    Nothing,
    /// The module failed.
    Failed(String),
}

/// The answer of a route whose module gave no handler.
pub open spec fn module_failure(name: Seq<char>, o: ModuleOutcome) -> ResponseView {
    message::plain_response(
        500,
        match o {
            ModuleOutcome::Unknown => "unknown module: "@ + name,
            ModuleOutcome::Nothing => "module '"@ + name + "' did not provide a handler"@,
            ModuleOutcome::Failed(e) => "module '"@ + name + "' error: "@ + e@,
        },
    )
}

/// Answers for a route whose module gave no handler.
pub fn answer_without_module(name: &str, outcome: ModuleOutcome) -> (r: Response)
    ensures
        r.deep_view() == module_failure(name@, outcome),
{
    let words = match outcome {
        ModuleOutcome::Unknown => text::join("unknown module: ", name),
        ModuleOutcome::Nothing => text::join3("module '", name, "' did not provide a handler"),
        ModuleOutcome::Failed(e) => {
            let mut out = text::join3("module '", name, "' error: ");
            out.append(e.as_str());
            out
        },
    };
    Response::plain(500, words.as_str())
}

/// Sends clients elsewhere.
#[derive(Debug, PartialEq, Eq)]
pub struct RedirectGoal {
    pub target: String,
    pub permanent: bool,
}

/// The answer that sends a client elsewhere.
pub open spec fn sent_elsewhere(target: Seq<char>, permanent: bool) -> ResponseView {
    ResponseView {
        status: if permanent {
            301
        } else {
            307
        },
        headers: if message::is_field_value(target) {
            message::fields_with(seq![], "location"@, vstd::utf8::encode_utf8(target))
        } else {
            seq![]
        },
        body: seq![],
    }
}

impl RedirectGoal {
    /// Answers a request.
    pub fn handle(&self) -> (r: Response)
        ensures
            r.deep_view() == sent_elsewhere(self.target@, self.permanent),
    {
        let mut headers = Headers::new();
        if let Some(v) = message::field_value(self.target.as_str()) {
            headers.insert("location", v);
        }
        let status: u16 = if self.permanent {
            301
        } else {
            307
        };
        let body: Vec<u8> = Vec::new();
        assert(body@ =~= seq![]);
        Response { status, headers, body }
    }
}

/// Answers every request in the same way.
#[derive(Debug, PartialEq, Eq)]
pub struct RespondGoal {
    pub status: u16,
    pub body: String,
}

/// The status of an answer: a number that is none stands for an error of the server.
pub open spec fn answer_status(n: u16) -> u16 {
    if 100 <= n < 1000 {
        n
    } else {
        500
    }
}

impl RespondGoal {
    /// Answers a request. A number that is no status stands for an error of the server.
    pub fn handle(&self) -> (r: Response)
        ensures
            r.deep_view() == message::plain_response(answer_status(self.status), self.body@),
    {
        let status: u16 = if 100 <= self.status && self.status < 1000 {
            self.status
        } else {
            500
        };
        Response::plain(status, self.body.as_str())
    }
}

// ---------------------------------------------------------------------------
// What holds of every plan
// ---------------------------------------------------------------------------

/// The ways of compressing of a route are those that its names stand for, in their order:
/// one that is known adds to the rest, one that is not is passed over.
pub proof fn lemma_known_algorithms(names: Seq<Seq<char>>, a: Algorithm)
    ensures
        algorithms(names, 0).contains(a) <==> exists|i: int|
            0 <= i < names.len() && known_as(#[trigger] names[i], a),
        algorithms(names, 0).len() <= names.len(),
        (forall|i: int| 0 <= i < names.len() ==> known(#[trigger] names[i])) ==> algorithms(
            names,
            0,
        ).len() == names.len(),
{
    lemma_algorithms_from(names, 0, a);
}

/// The name is one of a way of compressing.
pub open spec fn known_as(name: Seq<char>, a: Algorithm) -> bool {
    match a {
        Algorithm::Gzip => name == "gzip"@,
        Algorithm::Brotli => name == "br"@ || name == "brotli"@,
        Algorithm::Deflate => name == "deflate"@,
        Algorithm::Zstd => name == "zstd"@,
    }
}

/// The name is one of some way of compressing.
pub open spec fn known(name: Seq<char>) -> bool {
    exists|a: Algorithm| #[trigger] known_as(name, a)
}

/// The ways of compressing of the names from `i` on.
proof fn lemma_algorithms_from(names: Seq<Seq<char>>, i: int, a: Algorithm)
    requires
        0 <= i,
    ensures
        algorithms(names, i).contains(a) <==> exists|j: int|
            i <= j < names.len() && known_as(#[trigger] names[j], a),
        i <= names.len() ==> algorithms(names, i).len() <= names.len() - i,
        i <= names.len() && (forall|j: int| i <= j < names.len() ==> known(#[trigger] names[j]))
            ==> algorithms(names, i).len() == names.len() - i,
    decreases names.len() - i,
{
    if i < names.len() {
        lemma_algorithms_from(names, i + 1, a);
        lemma_name_known(names[i]);
        let rest = algorithms(names, i + 1);
        let all = algorithms(names, i);
        if let Some(x) = algorithm(names[i]) {
            assert(all[0] == x);
            if rest.contains(a) {
                let j = choose|j: int| 0 <= j < rest.len() && rest[j] == a;
                assert(all[j + 1] == a);
            }
            if all.contains(a) && x != a {
                let j = choose|j: int| 0 <= j < all.len() && all[j] == a;
                assert(rest[j - 1] == a);
            }
            assert(known_as(names[i], x));
        } else {
            assert(!known_as(names[i], a));
            assert(!known(names[i]));
        }
    }
}

/// A name stands for the way of compressing that it is one of, and for no other.
proof fn lemma_name_known(name: Seq<char>)
    ensures
        forall|b: Algorithm| #[trigger] known_as(name, b) <==> algorithm(name) == Some(b),
{
    reveal_strlit("gzip");
    reveal_strlit("br");
    reveal_strlit("brotli");
    reveal_strlit("deflate");
    reveal_strlit("zstd");
    assert("gzip"@.len() == 4 && "zstd"@.len() == 4 && "gzip"@[0] != "zstd"@[0]);
    assert("br"@.len() == 2 && "brotli"@.len() == 6 && "deflate"@.len() == 7);
}

/// A list that holds the star alone allows everything, an empty one says nothing, and any
/// other allows what it lists; origins are always said.
pub proof fn lemma_cors_plan(
    origins: Seq<Seq<char>>,
    methods: Seq<Seq<char>>,
    headers: Seq<Seq<char>>,
    credentials: bool,
    exposed: Seq<Seq<char>>,
    max_age: Option<u64>,
)
    ensures
        ({
            let p = cors_plan(origins, methods, headers, credentials, exposed, max_age);
            &&& p.credentials == credentials && p.max_age == max_age
            &&& origins == seq!["*"@] ==> p.origins is Anything
            &&& origins != seq!["*"@] ==> p.origins == AllowedView::Listed(origins)
            &&& methods == seq!["*"@] ==> p.methods is Anything
            &&& methods.len() == 0 ==> p.methods is Nothing
            &&& headers == seq!["*"@] ==> p.headers is Anything
            &&& headers.len() == 0 ==> p.headers is Nothing
            &&& headers.len() > 0 && headers != seq!["*"@] ==> p.headers == AllowedView::Listed(
                headers,
            )
            &&& exposed == seq!["*"@] ==> p.exposed is Anything
            &&& exposed.len() == 0 ==> p.exposed is Nothing
            &&& exposed.len() > 0 && exposed != seq!["*"@] ==> p.exposed == AllowedView::Listed(
                exposed,
            )
            &&& methods.len() > 0 && methods != seq!["*"@] && (forall|i: int|
                0 <= i < methods.len() ==> message::is_method_name(#[trigger] methods[i]))
                ==> p.methods == AllowedView::Listed(methods)
        }),
{
    assert(origins.len() == 1 && origins[0] == "*"@ ==> origins =~= seq!["*"@]);
    assert(methods.len() == 1 && methods[0] == "*"@ ==> methods =~= seq!["*"@]);
    assert(headers.len() == 1 && headers[0] == "*"@ ==> headers =~= seq!["*"@]);
    assert(exposed.len() == 1 && exposed[0] == "*"@ ==> exposed =~= seq!["*"@]);
    if forall|i: int| 0 <= i < methods.len() ==> message::is_method_name(#[trigger] methods[i]) {
        lemma_all_methods(methods, 0);
        assert(methods.skip(0) =~= methods);
    }
}

/// A list of names of methods keeps them all.
proof fn lemma_all_methods(v: Seq<Seq<char>>, i: int)
    requires
        0 <= i <= v.len(),
        forall|j: int| 0 <= j < v.len() ==> message::is_method_name(#[trigger] v[j]),
    ensures
        method_names(v, i) == v.skip(i),
    decreases v.len() - i,
{
    if i < v.len() {
        lemma_all_methods(v, i + 1);
        assert(v.skip(i) =~= seq![v[i]] + v.skip(i + 1));
    }
}

/// A client that is sent elsewhere is told where, and whether for good.
pub proof fn lemma_sent_elsewhere(target: Seq<char>, permanent: bool)
    ensures
        sent_elsewhere(target, true).status == 301,
        sent_elsewhere(target, false).status == 307,
        message::is_field_value(target) ==> message::value_of(
            sent_elsewhere(target, permanent).headers,
            "location"@,
        ) == Some(vstd::utf8::encode_utf8(target)),
        sent_elsewhere(target, permanent).body.len() == 0,
{
    message::lemma_fields_with(
        seq![],
        "location"@,
        vstd::utf8::encode_utf8(target),
        "location"@,
    );
}

/// Every number of three digits is a status, and any other number stands for 500.
pub proof fn lemma_answer_status(n: u16)
    ensures
        100 <= n <= 999 ==> answer_status(n) == n,
        n < 100 || n > 999 ==> answer_status(n) == 500,
{
}

/// A step that numbers requests goes by the name of its field whatever letters it is written
/// in, and one whose name is no field name is planned like one without a name; slashes are
/// taken away exactly where this is asked for.
pub proof fn lemma_steps_planned(a: Seq<char>, b: Seq<char>, overwrite: bool, action: Seq<char>)
    ensures
        message::is_field_name(a) && message::is_field_name(b) && text::lowered(a) == text::lowered(b)
            ==> hoop_plan(HoopConfigView::RequestId { header_name: Some(a), overwrite })
            == hoop_plan(HoopConfigView::RequestId { header_name: Some(b), overwrite }),
        !message::is_field_name(a) ==> hoop_plan(
            HoopConfigView::RequestId { header_name: Some(a), overwrite },
        ) == hoop_plan(HoopConfigView::RequestId { header_name: None, overwrite }),
        hoop_plan(HoopConfigView::RequestId { header_name: None, overwrite })
            == (HoopPlanView::RequestId { header_name: None, overwrite }),
        hoop_plan(HoopConfigView::TrailingSlash { action }) == (HoopPlanView::TrailingSlash {
            remove: action == seq!['r', 'e', 'm', 'o', 'v', 'e'],
        }),
{
    reveal_strlit("remove");
    assert("remove"@ =~= seq!['r', 'e', 'm', 'o', 'v', 'e']);
}

/// What a step is configured with is what it is planned with.
pub proof fn lemma_settings_planned(
    d: nat,
    port: Option<u16>,
    name: Seq<char>,
    c: HoopConfigView,
)
    ensures
        hoop_plan(HoopConfigView::Timeout { duration: d }) == HoopPlanView::Timeout(d),
        hoop_plan(HoopConfigView::ForceHttps { https_port: port }) == HoopPlanView::ForceHttps(port),
        c matches HoopConfigView::Module { name: n, .. } ==> hoop_plan(c) == HoopPlanView::Module(n),
        c is RateLimit || c is BasicAuth || c is IpFilter || c is Cache || c is ForwardAuth
            ==> hoop_plan(c) == HoopPlanView::Own,
{
}

} // verus!
