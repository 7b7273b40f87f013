//! Merging the runtime state into the configuration.

use vstd::prelude::*;
use crate::config::types::{
    AppConfig, AppConfigView, HandlerConfig, HandlerConfigView, HoopConfig, HoopConfigView,
    ProxyConfig, ProxyConfigView, RouteConfig, RouteConfigView, SiteConfig, SiteConfigView,
    SiteTlsConfig, SiteTlsConfigView, UpstreamConfig, UpstreamConfigView,
};
use crate::data;
use crate::data::Data;
use crate::router::matcher::{MatcherView, RequestMatcher};
use crate::runtime_services::normalize;
use crate::runtime_services::normalize::{normalized_route_hosts, route_pattern};
use crate::runtime_services::types;
use crate::runtime_services::types::{
    RuntimeListenerProtocol, RuntimeRoute, RuntimeRouteView, RuntimeService, RuntimeServiceError,
    RuntimeServiceErrorView, RuntimeServiceView, RuntimeState, RuntimeStateView, RuntimeTargetGroup,
    RuntimeTargetGroupView, RuntimeTargetState, RuntimeTargetView,
};
use crate::runtime_services::validate;
use crate::runtime_services::validate::{
    listener_protocols_for_service, service_site_tls_config, validate_state,
};
use crate::sorted_map;
use crate::sorted_map::SortedMap;
use crate::text;

verus! {

/// The plain values of a [`RuntimeMergedSite`].
#[verifier::ext_equal]
pub struct RuntimeMergedSiteView {
    pub site: SiteConfigView,
    pub owner_service_id: Seq<char>,
}

/// A site made of runtime routes, with the service that gave its certificate.
#[derive(Debug, PartialEq, Eq)]
pub struct RuntimeMergedSite {
    pub site: SiteConfig,
    pub owner_service_id: String,
}

impl DeepView for RuntimeMergedSite {
    type V = RuntimeMergedSiteView;

    open spec fn deep_view(&self) -> RuntimeMergedSiteView {
        RuntimeMergedSiteView {
            site: self.site.deep_view(),
            owner_service_id: self.owner_service_id.deep_view(),
        }
    }
}

impl Data for RuntimeMergedSite {
    fn duplicate(&self) -> (r: RuntimeMergedSite) {
        RuntimeMergedSite {
            site: self.site.duplicate(),
            owner_service_id: self.owner_service_id.duplicate(),
        }
    }

    fn same_as(&self, other: &RuntimeMergedSite) -> (r: bool) {
        self.site.same_as(&other.site) && self.owner_service_id.same_as(&other.owner_service_id)
    }
}

impl Clone for RuntimeMergedSite {
    fn clone(&self) -> (r: RuntimeMergedSite)
        ensures
            r.deep_view() == self.deep_view(),
    {
        self.duplicate()
    }
}



// ---------------------------------------------------------------------------
// Upstreams
// ---------------------------------------------------------------------------

/// The weight of an upstream: the product of the weights of its group and
/// target, at least one and at most the greatest `u32`.
pub open spec fn joint_weight(group: u32, target: u32) -> u32 {
    let p = group * target;
    if p > u32::MAX {
        u32::MAX
    } else if p < 1 {
        1
    } else {
        p as u32
    }
}

/// The upstreams of the active targets from `i` on.
pub open spec fn targets_upstreams(weight: u32, ts: Seq<RuntimeTargetView>, i: int) -> Seq<
    UpstreamConfigView,
>
    decreases ts.len() - i,
{
    if i < 0 || i >= ts.len() {
        seq![]
    } else if ts[i].state == RuntimeTargetState::Active {
        seq![
            UpstreamConfigView {
                addr: ts[i].addr,
                weight: joint_weight(weight, ts[i].weight),
                activity_key: None,
            },
        ] + targets_upstreams(weight, ts, i + 1)
    } else {
        targets_upstreams(weight, ts, i + 1)
    }
}

/// The upstreams of the active targets of the groups from `i` on.
pub open spec fn groups_upstreams(gs: Seq<RuntimeTargetGroupView>, i: int) -> Seq<
    UpstreamConfigView,
>
    decreases gs.len() - i,
{
    if i < 0 || i >= gs.len() {
        seq![]
    } else {
        targets_upstreams(gs[i].weight, gs[i].targets, 0) + groups_upstreams(gs, i + 1)
    }
}

/// The upstreams of the active targets of a route.
pub fn active_upstreams(route: &RuntimeRoute) -> (r: Vec<UpstreamConfig>)
    ensures
        r.deep_view() == groups_upstreams(route.deep_view().target_groups, 0),
{
    let ghost gs = route.deep_view().target_groups;
    let mut r: Vec<UpstreamConfig> = Vec::new();
    assert(r.deep_view() + groups_upstreams(gs, 0) =~= groups_upstreams(gs, 0));
    for i in 0..route.target_groups.len()
        invariant
            gs == route.target_groups.deep_view(),
            r.deep_view() + groups_upstreams(gs, i as int) == groups_upstreams(gs, 0),
    {
        let group = &route.target_groups[i];
        let ghost gv = group.deep_view();
        assert(gs[i as int] == gv);
        let ghost start = r.deep_view();
        let ghost all = targets_upstreams(gv.weight, gv.targets, 0);
        assert(r.deep_view() + all =~= start + all);
        for k in 0..group.targets.len()
            invariant
                gv == group.deep_view(),
                r.deep_view() + targets_upstreams(gv.weight, gv.targets, k as int) == start + all,
        {
            let target = &group.targets[k];
            assert(gv.targets[k as int] == target.deep_view());
            if target.state == RuntimeTargetState::Active {
                let weight: u32 = match group.weight.checked_mul(target.weight) {
                    Some(p) => if p < 1 {
                        1
                    } else {
                        p
                    },
                    None => u32::MAX,
                };
                let ghost before = r.deep_view();
                let u = UpstreamConfig { addr: target.addr.clone(), weight, activity_key: None };
                r.push(u);
                proof {
                    assert(r.deep_view() =~= before.push(u.deep_view()));
                    assert(r.deep_view() + targets_upstreams(gv.weight, gv.targets, k + 1)
                        =~= before + targets_upstreams(gv.weight, gv.targets, k as int));
                }
            }
        }
        proof {
            assert(r.deep_view() =~= start + all);
            assert(r.deep_view() + groups_upstreams(gs, i + 1) =~= start + groups_upstreams(
                gs,
                i as int,
            ));
        }
    }
    assert(r.deep_view() =~= groups_upstreams(gs, 0));
    r
}

// ---------------------------------------------------------------------------
// Routes
// ---------------------------------------------------------------------------

/// Some matcher asks for the protocol.
pub open spec fn asks_protocol(ms: Seq<MatcherView>, name: Seq<char>) -> bool {
    exists|i: int|
        0 <= i < ms.len() && (#[trigger] ms[i] matches MatcherView::Protocol(p) && text::lowered(p)
            == text::lowered(name))
}

/// The matchers of a route; where its service speaks one protocol, they ask for
/// it.
pub open spec fn protocol_matchers(
    ms: Seq<MatcherView>,
    ps: Seq<RuntimeListenerProtocol>,
) -> Seq<MatcherView> {
    if ps.len() == 1 && !asks_protocol(ms, types::protocol_name(ps[0])) {
        ms.push(MatcherView::Protocol(types::protocol_name(ps[0])))
    } else {
        ms
    }
}

/// The matchers of a route with the protocol of its service.
pub fn route_matchers_for_listener_protocols(
    route: &RuntimeRoute,
    ps: &Vec<RuntimeListenerProtocol>,
) -> (r: Vec<RequestMatcher>)
    ensures
        r.deep_view() == protocol_matchers(route.deep_view().matchers, ps@),
{
    let mut r = route.matchers.duplicate();
    let ghost ms = r.deep_view();
    if ps.len() == 1 {
        let name = ps[0].as_str();
        let mut asked: bool = false;
        for i in 0..r.len()
            invariant
                ms == r.deep_view(),
                asked == exists|k: int|
                    0 <= k < i && (#[trigger] ms[k] matches MatcherView::Protocol(p)
                        && text::lowered(p) == text::lowered(name@)),
        {
            assert(ms[i as int] == r@[i as int].deep_view());
            if let RequestMatcher::Protocol(p) = &r[i] {
                if text::same_ignore_case(p.as_str(), name) {
                    asked = true;
                }
            }
        }
        if !asked {
            let m = RequestMatcher::Protocol(name.to_owned());
            r.push(m);
            assert(r.deep_view() =~= ms.push(m.deep_view()));
        }
    }
    r
}

/// A service redirects plain requests to HTTPS.
pub open spec fn redirects(s: RuntimeServiceView) -> bool {
    s.tls matches Some(t) && t.https_redirect == Some(true)
}

/// The canonical host of a service.
pub open spec fn canonical(s: RuntimeServiceView) -> Option<Seq<char>> {
    match s.tls {
        Some(t) => t.canonical_host,
        None => None,
    }
}

/// The middlewares of a proxied route.
pub open spec fn proxy_middlewares(s: RuntimeServiceView, r: RuntimeRouteView) -> Seq<
    HoopConfigView,
> {
    let strip = seq![
        HoopConfigView::Rewrite {
            strip_prefix: Some(r.path_prefix),
            uri: None,
            regex_rules: seq![],
            if_not_file: false,
            if_not_dir: false,
            root: None,
            normalize_slashes: false,
        },
    ];
    let force = seq![HoopConfigView::ForceHttps { https_port: None }];
    (if r.strip_path_prefix && r.path_prefix != "/"@ {
        strip
    } else {
        seq![]
    }) + (if redirects(s) {
        force
    } else {
        seq![]
    })
}

/// The configuration of a route that proxies to its upstreams.
pub open spec fn proxied(
    s: RuntimeServiceView,
    r: RuntimeRouteView,
    upstreams: Seq<UpstreamConfigView>,
) -> RouteConfigView {
    RouteConfigView {
        path: normalize::prefix_pattern(r.path_prefix),
        matchers: protocol_matchers(r.matchers, validate::protocols(s.listeners)),
        middlewares: proxy_middlewares(s, r),
        handler: HandlerConfigView::Proxy(
            ProxyConfigView {
                upstreams,
                lb: r.lb,
                lb_header: r.lb_header,
                lb_cookie: r.lb_cookie,
                health_check: None,
                passive_health: None,
                headers_up: seq![],
                headers_down: seq![],
                retries: 0,
                dynamic_upstreams: None,
                error_pages: seq![],
                headers_up_replace: seq![],
                tls_skip_verify: false,
                upstream_http2: false,
                max_connections: None,
                keepalive_timeout: None,
                sanitize_uri: true,
                srv_upstream: None,
            },
        ),
        condition: None,
    }
}

/// The configuration of a route that redirects to the canonical host.
pub open spec fn redirected(
    s: RuntimeServiceView,
    r: RuntimeRouteView,
    host: Seq<char>,
) -> RouteConfigView {
    RouteConfigView {
        path: normalize::prefix_pattern(r.path_prefix),
        matchers: protocol_matchers(r.matchers, validate::protocols(s.listeners)),
        middlewares: seq![],
        handler: HandlerConfigView::Redirect {
            to: (if redirects(s) {
                "https://"@
            } else {
                "{scheme}://"@
            }) + host + "{path}{query_suffix}"@,
            permanent: true,
        },
        condition: None,
    }
}

/// Tells whether a service redirects plain requests to HTTPS.
fn wants_https(service: &RuntimeService) -> (r: bool)
    ensures
        r == redirects(service.deep_view()),
{
    match &service.tls {
        Some(t) => match t.https_redirect {
            Some(b) => b,
            None => false,
        },
        None => false,
    }
}

/// The configuration of a route that proxies to its upstreams.
pub fn proxy_route_config(
    service: &RuntimeService,
    route: &RuntimeRoute,
    upstreams: Vec<UpstreamConfig>,
    ps: &Vec<RuntimeListenerProtocol>,
) -> (r: RouteConfig)
    requires
        ps@ == validate::protocols(service.deep_view().listeners),
    ensures
        r.deep_view() == proxied(service.deep_view(), route.deep_view(), upstreams.deep_view()),
{
    let mut middlewares: Vec<HoopConfig> = Vec::new();
    if route.strip_path_prefix && !text::same(route.path_prefix.as_str(), "/") {
        let regex_rules: Vec<(String, String)> = Vec::new();
        assert(regex_rules.deep_view() =~= seq![]);
        middlewares.push(
            HoopConfig::Rewrite {
                strip_prefix: Some(route.path_prefix.clone()),
                uri: None,
                regex_rules,
                if_not_file: false,
                if_not_dir: false,
                root: None,
                normalize_slashes: false,
            },
        );
    }
    if wants_https(service) {
        middlewares.push(HoopConfig::ForceHttps { https_port: None });
    }
    assert(middlewares.deep_view() =~= proxy_middlewares(service.deep_view(), route.deep_view()));
    let headers_up_replace: Vec<(String, String, String)> = Vec::new();
    assert(headers_up_replace.deep_view() =~= seq![]);
    RouteConfig {
        path: route_pattern(route.path_prefix.as_str()),
        matchers: route_matchers_for_listener_protocols(route, ps),
        middlewares,
        handler: HandlerConfig::Proxy(
            ProxyConfig {
                upstreams,
                lb: route.lb,
                lb_header: route.lb_header.duplicate(),
                lb_cookie: route.lb_cookie.duplicate(),
                health_check: None,
                passive_health: None,
                headers_up: SortedMap::new(),
                headers_down: SortedMap::new(),
                retries: 0,
                dynamic_upstreams: None,
                error_pages: SortedMap::new(),
                headers_up_replace,
                tls_skip_verify: false,
                upstream_http2: false,
                max_connections: None,
                keepalive_timeout: None,
                sanitize_uri: true,
                srv_upstream: None,
            },
        ),
        condition: None,
    }
}

/// The configuration of a route that redirects to the canonical host.
pub fn canonical_redirect_route_config(
    service: &RuntimeService,
    route: &RuntimeRoute,
    host: &str,
    ps: &Vec<RuntimeListenerProtocol>,
) -> (r: RouteConfig)
    requires
        ps@ == validate::protocols(service.deep_view().listeners),
    ensures
        r.deep_view() == redirected(service.deep_view(), route.deep_view(), host@),
{
    let scheme = if wants_https(service) {
        "https://"
    } else {
        "{scheme}://"
    };
    let middlewares: Vec<HoopConfig> = Vec::new();
    assert(middlewares.deep_view() =~= seq![]);
    RouteConfig {
        path: route_pattern(route.path_prefix.as_str()),
        matchers: route_matchers_for_listener_protocols(route, ps),
        middlewares,
        handler: HandlerConfig::Redirect {
            to: text::join3(scheme, host, "{path}{query_suffix}"),
            permanent: true,
        },
        condition: None,
    }
}

// ---------------------------------------------------------------------------
// Runtime sites
// ---------------------------------------------------------------------------

/// Sites made of runtime routes, by host.
pub type RuntimeSites = Seq<(Seq<char>, RuntimeMergedSiteView)>;

/// The runtime sites with one more route for a host. The first service with a
/// certificate owns the site.
pub open spec fn site_added(
    sites: RuntimeSites,
    host: Seq<char>,
    sid: Seq<char>,
    tls: Option<SiteTlsConfigView>,
    route: RouteConfigView,
) -> RuntimeSites {
    let entry = match sorted_map::lookup(sites, host) {
        Some(e) => if e.site.tls is None && tls is Some {
            RuntimeMergedSiteView {
                site: SiteConfigView { tls, ..e.site },
                owner_service_id: sid,
            }
        } else {
            e
        },
        None => RuntimeMergedSiteView {
            site: SiteConfigView { host, tls, routes: seq![] },
            owner_service_id: sid,
        },
    };
    sorted_map::put::<String, RuntimeMergedSiteView>(
        sites,
        host,
        RuntimeMergedSiteView {
            site: SiteConfigView { routes: entry.site.routes.push(route), ..entry.site },
            ..entry
        },
    )
}

/// The configuration of a route under one of its hosts: a redirect where
/// another host is the canonical one.
pub open spec fn host_route(
    s: RuntimeServiceView,
    r: RuntimeRouteView,
    host: Seq<char>,
    upstreams: Seq<UpstreamConfigView>,
) -> RouteConfigView {
    match canonical(s) {
        Some(c) => if host != c {
            redirected(s, r, c)
        } else {
            proxied(s, r, upstreams)
        },
        None => proxied(s, r, upstreams),
    }
}

/// The runtime sites with a route under its hosts from `i` on.
pub open spec fn hosts_added(
    sites: RuntimeSites,
    s: RuntimeServiceView,
    r: RuntimeRouteView,
    upstreams: Seq<UpstreamConfigView>,
    hosts: Seq<Seq<char>>,
    i: int,
) -> RuntimeSites
    decreases hosts.len() - i,
{
    if i < 0 || i >= hosts.len() {
        sites
    } else {
        hosts_added(
            site_added(
                sites,
                hosts[i],
                s.id,
                validate::site_tls(s),
                host_route(s, r, hosts[i], upstreams),
            ),
            s,
            r,
            upstreams,
            hosts,
            i + 1,
        )
    }
}

/// The runtime sites with the routes of a service from `i` on; routes without
/// active targets are left out.
pub open spec fn routes_added(sites: RuntimeSites, s: RuntimeServiceView, i: int) -> RuntimeSites
    decreases s.routes.len() - i,
{
    if i < 0 || i >= s.routes.len() {
        sites
    } else {
        let ups = groups_upstreams(s.routes[i].target_groups, 0);
        if ups.len() == 0 {
            routes_added(sites, s, i + 1)
        } else {
            routes_added(
                hosts_added(sites, s, s.routes[i], ups, normalize::route_hosts(s.routes[i]), 0),
                s,
                i + 1,
            )
        }
    }
}

/// The runtime sites of the services from `i` on.
pub open spec fn services_added(
    sites: RuntimeSites,
    es: Seq<(Seq<char>, RuntimeServiceView)>,
    i: int,
) -> RuntimeSites
    decreases es.len() - i,
{
    if i < 0 || i >= es.len() {
        sites
    } else {
        services_added(routes_added(sites, es[i].1, 0), es, i + 1)
    }
}

/// Adds a route to the runtime sites.
fn upsert_runtime_site(
    sites: &mut SortedMap<String, RuntimeMergedSite>,
    host: &str,
    service_id: &str,
    site_tls: &Option<SiteTlsConfig>,
    route: RouteConfig,
)
    ensures
        final(sites).deep_view() == site_added(
            old(sites).deep_view(),
            host@,
            service_id@,
            site_tls.deep_view(),
            route.deep_view(),
        ),
{
    let key = host.to_owned();
    let found: Option<RuntimeMergedSite> = match sites.get(&key) {
        Some(e) => Some(e.duplicate()),
        None => None,
    };
    let mut entry = match found {
        Some(e) => {
            let mut e = e;
            if e.site.tls.is_none() && site_tls.is_some() {
                e.site.tls = site_tls.duplicate();
                e.owner_service_id = service_id.to_owned();
            }
            e
        },
        None => {
            let routes: Vec<RouteConfig> = Vec::new();
            assert(routes.deep_view() =~= seq![]);
            RuntimeMergedSite {
                site: SiteConfig { host: host.to_owned(), tls: site_tls.duplicate(), routes },
                owner_service_id: service_id.to_owned(),
            }
        },
    };
    let ghost before = entry.site.routes.deep_view();
    entry.site.routes.push(route);
    assert(entry.site.routes.deep_view() =~= before.push(route.deep_view()));
    sites.insert(key, entry);
}

/// Adds a route to the runtime sites under each of its hosts.
fn add_route(
    sites: &mut SortedMap<String, RuntimeMergedSite>,
    service: &RuntimeService,
    route: &RuntimeRoute,
    upstreams: &Vec<UpstreamConfig>,
)
    ensures
        final(sites).deep_view() == hosts_added(
            old(sites).deep_view(),
            service.deep_view(),
            route.deep_view(),
            upstreams.deep_view(),
            normalize::route_hosts(route.deep_view()),
            0,
        ),
{
    let hosts = normalized_route_hosts(route);
    let ps = listener_protocols_for_service(service);
    let site_tls = service_site_tls_config(service);
    let canonical_host: Option<String> = match &service.tls {
        Some(t) => t.canonical_host.duplicate(),
        None => None,
    };
    let ghost (sv, rv, uv) = (service.deep_view(), route.deep_view(), upstreams.deep_view());
    let ghost hv = hosts.deep_view();
    for i in 0..hosts.len()
        invariant
            hv == hosts.deep_view(),
            sv == service.deep_view(),
            rv == route.deep_view(),
            uv == upstreams.deep_view(),
            ps@ == validate::protocols(sv.listeners),
            site_tls.deep_view() == validate::site_tls(sv),
            canonical_host.deep_view() == canonical(sv),
            hosts_added(old(sites).deep_view(), sv, rv, uv, hv, 0) == hosts_added(
                sites.deep_view(),
                sv,
                rv,
                uv,
                hv,
                i as int,
            ),
    {
        assert(hv[i as int] == hosts@[i as int]@);
        let config = match &canonical_host {
            Some(c) => {
                if hosts[i] != *c {
                    canonical_redirect_route_config(service, route, c.as_str(), &ps)
                } else {
                    proxy_route_config(service, route, upstreams.duplicate(), &ps)
                }
            },
            None => proxy_route_config(service, route, upstreams.duplicate(), &ps),
        };
        upsert_runtime_site(sites, hosts[i].as_str(), service.id.as_str(), &site_tls, config);
    }
}

/// The sites of the runtime routes.
pub fn runtime_sites_of(state: &RuntimeState) -> (r: SortedMap<String, RuntimeMergedSite>)
    ensures
        r.deep_view() == services_added(seq![], state.deep_view().services, 0),
{
    let mut sites: SortedMap<String, RuntimeMergedSite> = SortedMap::new();
    let ghost es = state.deep_view().services;
    assert(sites.deep_view() =~= seq![]);
    for i in 0..state.services.entries.len()
        invariant
            es == state.services.deep_view(),
            services_added(seq![], es, 0) == services_added(sites.deep_view(), es, i as int),
    {
        let service = &state.services.entries[i].1;
        let ghost sv = service.deep_view();
        let ghost start = sites.deep_view();
        assert(es[i as int].1 == sv);
        for k in 0..service.routes.len()
            invariant
                sv == service.deep_view(),
                routes_added(start, sv, 0) == routes_added(sites.deep_view(), sv, k as int),
        {
            let route = &service.routes[k];
            assert(sv.routes[k as int] == route.deep_view());
            let upstreams = active_upstreams(route);
            if upstreams.len() != 0 {
                assert(upstreams.deep_view().len() != 0);
                add_route(&mut sites, service, route, &upstreams);
            }
        }
    }
    sites
}

// ---------------------------------------------------------------------------
// Merging
// ---------------------------------------------------------------------------

/// The first site from `i` on with the host, whatever the letter case.
pub open spec fn site_at(sites: Seq<SiteConfigView>, host: Seq<char>, i: int) -> Option<int>
    decreases sites.len() - i,
{
    if i < 0 || i >= sites.len() {
        None
    } else if text::lowered(sites[i].host) == text::lowered(host) {
        Some(i)
    } else {
        site_at(sites, host, i + 1)
    }
}

/// The first catch-all site from `i` on, or the end.
pub open spec fn catch_all_at(sites: Seq<SiteConfigView>, i: int) -> int
    decreases sites.len() - i,
{
    if 0 <= i < sites.len() && sites[i].host != "*"@ {
        catch_all_at(sites, i + 1)
    } else {
        i
    }
}

/// The sites with a new one: before the first catch-all site, or at the end
/// where it is one itself.
pub open spec fn site_inserted(sites: Seq<SiteConfigView>, s: SiteConfigView) -> Seq<
    SiteConfigView,
> {
    if s.host == "*"@ {
        sites.push(s)
    } else {
        sites.insert(catch_all_at(sites, 0), s)
    }
}

/// The sites with a runtime site merged in: its routes come before those of the
/// configured site with its host, and two different certificates are refused.
pub open spec fn site_merged(sites: Seq<SiteConfigView>, m: RuntimeMergedSiteView) -> Result<
    Seq<SiteConfigView>,
    RuntimeServiceErrorView,
> {
    match site_at(sites, m.site.host, 0) {
        Some(i) => {
            let e = sites[i];
            if e.tls is Some && m.site.tls is Some && e.tls != m.site.tls {
                Err(
                    RuntimeServiceErrorView::StaticTlsHostConflict {
                        host: m.site.host,
                        service_id: m.owner_service_id,
                    },
                )
            } else {
                Ok(
                    sites.update(
                        i,
                        SiteConfigView {
                            host: e.host,
                            tls: if e.tls is None {
                                m.site.tls
                            } else {
                                e.tls
                            },
                            routes: m.site.routes + e.routes,
                        },
                    ),
                )
            }
        },
        None => Ok(site_inserted(sites, m.site)),
    }
}

/// The sites with the runtime sites from `i` on merged in.
pub open spec fn sites_merged(sites: Seq<SiteConfigView>, ms: RuntimeSites, i: int) -> Result<
    Seq<SiteConfigView>,
    RuntimeServiceErrorView,
>
    decreases ms.len() - i,
{
    if i < 0 || i >= ms.len() {
        Ok(sites)
    } else {
        match site_merged(sites, ms[i].1) {
            Err(e) => Err(e),
            Ok(next) => sites_merged(next, ms, i + 1),
        }
    }
}

/// The configuration with the runtime state merged in.
pub open spec fn merged(base: AppConfigView, st: RuntimeStateView) -> Result<
    AppConfigView,
    RuntimeServiceErrorView,
> {
    match validate::state_fault(st) {
        Some(e) => Err(e),
        None => match sites_merged(base.sites, services_added(seq![], st.services, 0), 0) {
            Err(e) => Err(e),
            Ok(sites) => Ok(AppConfigView { sites, ..base }),
        },
    }
}

/// Inserts a site before the first catch-all site, or at the end where it is
/// one itself.
fn insert_runtime_site(sites: &mut Vec<SiteConfig>, site: SiteConfig)
    ensures
        final(sites).deep_view() == site_inserted(old(sites).deep_view(), site.deep_view()),
{
    let ghost s = sites.deep_view();
    let ghost x = site.deep_view();
    if text::same(site.host.as_str(), "*") {
        sites.push(site);
        assert(sites.deep_view() =~= s.push(x));
        return;
    }
    let mut i: usize = 0;
    while i < sites.len() && !text::same(sites[i].host.as_str(), "*")
        invariant
            *sites == *old(sites),
            i <= sites.len(),
            s == sites.deep_view(),
            catch_all_at(s, 0) == catch_all_at(s, i as int),
        decreases sites.len() - i,
    {
        i += 1;
    }
    sites.insert(i, site);
    assert(sites.deep_view() =~= s.insert(i as int, x));
}

/// Where the site with the host stands.
fn find_site(sites: &Vec<SiteConfig>, host: &str) -> (r: Option<usize>)
    ensures
        match r {
            Some(i) => site_at(sites.deep_view(), host@, 0) == Some(i as int) && i < sites.len(),
            None => site_at(sites.deep_view(), host@, 0) is None,
        },
{
    let ghost s = sites.deep_view();
    for i in 0..sites.len()
        invariant
            s == sites.deep_view(),
            site_at(s, host@, 0) == site_at(s, host@, i as int),
    {
        if text::same_ignore_case(sites[i].host.as_str(), host) {
            return Some(i);
        }
    }
    None
}

/// Merges one runtime site in.
fn merge_site(sites: &mut Vec<SiteConfig>, m: &RuntimeMergedSite) -> (r: Result<
    (),
    RuntimeServiceError,
>)
    ensures
        match r {
            Ok(_) => site_merged(old(sites).deep_view(), m.deep_view()) == Ok::<
                _,
                RuntimeServiceErrorView,
            >(final(sites).deep_view()),
            Err(e) => site_merged(old(sites).deep_view(), m.deep_view()) == Err::<
                Seq<SiteConfigView>,
                _,
            >(e.deep_view()),
        },
{
    let ghost s = sites.deep_view();
    match find_site(sites, m.site.host.as_str()) {
        Some(i) => {
            let existing = sites[i].duplicate();
            assert(existing.deep_view() == s[i as int]);
            if existing.tls.is_some() && m.site.tls.is_some() && !existing.tls.same_as(&m.site.tls) {
                return Err(
                    RuntimeServiceError::StaticTlsHostConflict {
                        host: m.site.host.clone(),
                        service_id: m.owner_service_id.clone(),
                    },
                );
            }
            let tls = if existing.tls.is_none() {
                m.site.tls.duplicate()
            } else {
                existing.tls.duplicate()
            };
            let mut routes = m.site.routes.duplicate();
            let ghost own = routes.deep_view();
            for k in 0..existing.routes.len()
                invariant
                    routes.deep_view() == own + existing.routes.deep_view().take(k as int),
            {
                let ghost before = routes.deep_view();
                let x = existing.routes[k].duplicate();
                routes.push(x);
                proof {
                    assert(routes.deep_view() =~= before.push(x.deep_view()));
                    assert(own + existing.routes.deep_view().take(k + 1) =~= before.push(
                        existing.routes.deep_view()[k as int],
                    ));
                }
            }
            proof {
                let er = existing.routes.deep_view();
                assert(er.take(er.len() as int) =~= er);
            }
            sites[i] = SiteConfig { host: existing.host.clone(), tls, routes };
            assert(sites.deep_view() =~= s.update(i as int, sites@[i as int].deep_view()));
            Ok(())
        },
        None => {
            insert_runtime_site(sites, m.site.duplicate());
            Ok(())
        },
    }
}

/// Merges the routes of the runtime services into the configuration.
pub fn merge_runtime_config(base_config: &AppConfig, runtime_state: &RuntimeState) -> (r: Result<
    AppConfig,
    RuntimeServiceError,
>)
    ensures
        data::outcome(r) == merged(base_config.deep_view(), runtime_state.deep_view()),
{
    if let Err(e) = validate_state(runtime_state) {
        return Err(e);
    }
    let mut config = base_config.duplicate();
    let sites = runtime_sites_of(runtime_state);
    let ghost ms = sites.deep_view();
    let ghost base = base_config.deep_view();
    for i in 0..sites.entries.len()
        invariant
            ms == sites.deep_view(),
            base == base_config.deep_view(),
            config.deep_view() == (AppConfigView { sites: config.sites.deep_view(), ..base }),
            validate::state_fault(runtime_state.deep_view()) is None,
            ms == services_added(seq![], runtime_state.deep_view().services, 0),
            sites_merged(base.sites, ms, 0) == sites_merged(config.sites.deep_view(), ms, i as int),
    {
        assert(ms[i as int].1 == sites.entries@[i as int].1.deep_view());
        if let Err(e) = merge_site(&mut config.sites, &sites.entries[i].1) {
            return Err(e);
        }
    }
    Ok(config)
}

// ---------------------------------------------------------------------------
// Laws
// ---------------------------------------------------------------------------

/// Merging changes the sites alone.
pub proof fn lemma_merge_keeps_rest(base: AppConfigView, st: RuntimeStateView)
    ensures
        merged(base, st) matches Ok(c) ==> c.global == base.global && c.tls == base.tls && c.stream
            == base.stream,
{
}

/// A service without routes that have active targets adds no site.
proof fn lemma_idle_service(sites: RuntimeSites, s: RuntimeServiceView, i: int)
    requires
        0 <= i,
        forall|k: int|
            0 <= k < s.routes.len() ==> groups_upstreams(
                (#[trigger] s.routes[k]).target_groups,
                0,
            ).len() == 0,
    ensures
        routes_added(sites, s, i) == sites,
    decreases s.routes.len() - i,
{
    if i < s.routes.len() {
        assert(groups_upstreams(s.routes[i].target_groups, 0).len() == 0);
        lemma_idle_service(sites, s, i + 1);
    }
}

/// Services without active targets add no site.
proof fn lemma_idle_services(sites: RuntimeSites, es: Seq<(Seq<char>, RuntimeServiceView)>, i: int)
    requires
        0 <= i,
        forall|n: int, k: int|
            0 <= n < es.len() && 0 <= k < es[n].1.routes.len() ==> groups_upstreams(
                (#[trigger] es[n].1.routes[k]).target_groups,
                0,
            ).len() == 0,
    ensures
        services_added(sites, es, i) == sites,
    decreases es.len() - i,
{
    if i < es.len() {
        lemma_idle_service(sites, es[i].1, 0);
        lemma_idle_services(sites, es, i + 1);
    }
}

/// Where no target is active, merging leaves the configuration as it is.
pub proof fn lemma_merge_without_active_targets(base: AppConfigView, st: RuntimeStateView)
    requires
        forall|n: int, k: int|
            0 <= n < st.services.len() && 0 <= k < st.services[n].1.routes.len()
                ==> groups_upstreams((#[trigger] st.services[n].1.routes[k]).target_groups, 0).len()
                == 0,
    ensures
        merged(base, st) matches Ok(c) ==> c == base,
{
    lemma_idle_services(seq![], st.services, 0);
}

/// The bounds of `site_at`.
proof fn lemma_site_at(sites: Seq<SiteConfigView>, host: Seq<char>, i: int)
    requires
        0 <= i,
    ensures
        match site_at(sites, host, i) {
            Some(p) => i <= p < sites.len() && text::lowered(sites[p].host) == text::lowered(host)
                && forall|j: int|
                i <= j < p ==> text::lowered((#[trigger] sites[j]).host) != text::lowered(host),
            None => forall|j: int|
                i <= j < sites.len() ==> text::lowered((#[trigger] sites[j]).host) != text::lowered(
                    host,
                ),
        },
    decreases sites.len() - i,
{
    if i < sites.len() && text::lowered(sites[i].host) != text::lowered(host) {
        lemma_site_at(sites, host, i + 1);
    }
}

/// The bounds of `catch_all_at`.
proof fn lemma_catch_all_at(sites: Seq<SiteConfigView>, i: int)
    requires
        0 <= i <= sites.len(),
    ensures
        i <= catch_all_at(sites, i) <= sites.len(),
    decreases sites.len() - i,
{
    if i < sites.len() && sites[i].host != "*"@ {
        lemma_catch_all_at(sites, i + 1);
    }
}

/// Every configured site is still there after merging: with its host, with its
/// certificate where it had one, and with its routes as the last ones.
pub open spec fn kept(before: SiteConfigView, after: SiteConfigView) -> bool {
    &&& after.host == before.host
    &&& before.tls is Some ==> after.tls == before.tls
    &&& after.routes.len() >= before.routes.len()
    &&& after.routes.skip(after.routes.len() - before.routes.len()) == before.routes
}

/// Some site keeps the configured one.
pub open spec fn keeps(sites: Seq<SiteConfigView>, s: SiteConfigView) -> bool {
    exists|i: int| 0 <= i < sites.len() && kept(s, #[trigger] sites[i])
}

/// Merging one runtime site in keeps every site.
proof fn lemma_site_merged_keeps(
    sites: Seq<SiteConfigView>,
    m: RuntimeMergedSiteView,
    s: SiteConfigView,
)
    requires
        keeps(sites, s),
    ensures
        site_merged(sites, m) matches Ok(next) ==> keeps(next, s),
{
    let k = choose|k: int| 0 <= k < sites.len() && kept(s, #[trigger] sites[k]);
    lemma_site_at(sites, m.site.host, 0);
    lemma_catch_all_at(sites, 0);
    if let Ok(next) = site_merged(sites, m) {
        match site_at(sites, m.site.host, 0) {
            Some(i) => {
                if k == i {
                    let (a, b) = (sites[i], next[i]);
                    assert(b.routes.skip(b.routes.len() - s.routes.len()) =~= a.routes.skip(
                        a.routes.len() - s.routes.len(),
                    ));
                    assert(kept(s, next[i]));
                } else {
                    assert(next[k] == sites[k]);
                    assert(kept(s, next[k]));
                }
            },
            None => {
                if m.site.host == "*"@ {
                    assert(next[k] == sites[k]);
                    assert(kept(s, next[k]));
                } else {
                    let p = catch_all_at(sites, 0);
                    let k2 = if k < p { k } else { k + 1 };
                    assert(next[k2] == sites[k]);
                    assert(kept(s, next[k2]));
                }
            },
        }
    }
}

/// Merging runtime sites in keeps every site.
proof fn lemma_sites_merged_keep(
    sites: Seq<SiteConfigView>,
    ms: RuntimeSites,
    i: int,
    s: SiteConfigView,
)
    requires
        0 <= i,
        keeps(sites, s),
    ensures
        sites_merged(sites, ms, i) matches Ok(next) ==> keeps(next, s),
    decreases ms.len() - i,
{
    if i < ms.len() {
        lemma_site_merged_keeps(sites, ms[i].1, s);
        if let Ok(next) = site_merged(sites, ms[i].1) {
            lemma_sites_merged_keep(next, ms, i + 1, s);
        }
    }
}

/// Merging keeps every configured site, its certificate and its routes; runtime
/// routes come before them.
pub proof fn lemma_merge_keeps_sites(base: AppConfigView, st: RuntimeStateView, k: int)
    requires
        0 <= k < base.sites.len(),
    ensures
        merged(base, st) matches Ok(c) ==> keeps(c.sites, base.sites[k]),
{
    let s = base.sites[k];
    assert(s.routes.skip(0) =~= s.routes);
    assert(kept(s, base.sites[k]));
    lemma_sites_merged_keep(base.sites, services_added(seq![], st.services, 0), 0, s);
}

/// The target is one of the route's and takes requests.
pub open spec fn active_at(gs: Seq<RuntimeTargetGroupView>, g: int, t: int) -> bool {
    0 <= g < gs.len() && 0 <= t < gs[g].targets.len() && gs[g].targets[t].state
        == RuntimeTargetState::Active
}

/// The upstream is that of a target: it has its address, and the product of the weights
/// of the group and the target, at least one and at most the greatest that there is.
pub open spec fn stands_for(u: UpstreamConfigView, group: u32, t: RuntimeTargetView) -> bool {
    &&& u.addr == t.addr
    &&& u.activity_key is None
    &&& 1 <= group * t.weight <= u32::MAX ==> u.weight == group * t.weight
    &&& group * t.weight == 0 ==> u.weight == 1
    &&& group * t.weight > u32::MAX ==> u.weight == u32::MAX
}

/// One place comes before another: in an earlier group, or earlier in the same one.
pub open spec fn earlier(a: (int, int), b: (int, int)) -> bool {
    a.0 < b.0 || (a.0 == b.0 && a.1 < b.1)
}

/// The places of the active targets from `i` on, one for each upstream.
proof fn lemma_targets_places(weight: u32, ts: Seq<RuntimeTargetView>, i: int) -> (f: Seq<int>)
    requires
        0 <= i,
    ensures
        f.len() == targets_upstreams(weight, ts, i).len(),
        forall|j: int|
            0 <= j < f.len() ==> i <= #[trigger] f[j] < ts.len() && ts[f[j]].state
                == RuntimeTargetState::Active && stands_for(
                targets_upstreams(weight, ts, i)[j],
                weight,
                ts[f[j]],
            ),
        forall|j: int, m: int| 0 <= j < m < f.len() ==> #[trigger] f[j] < #[trigger] f[m],
        forall|t: int|
            i <= t < ts.len() && (#[trigger] ts[t]).state == RuntimeTargetState::Active
                ==> f.contains(t),
    decreases ts.len() - i,
{
    if i >= ts.len() {
        seq![]
    } else {
        let rest = lemma_targets_places(weight, ts, i + 1);
        if ts[i].state == RuntimeTargetState::Active {
            let f = seq![i] + rest;
            let us = targets_upstreams(weight, ts, i);
            assert forall|j: int| 0 <= j < f.len() implies i <= #[trigger] f[j] < ts.len()
                && ts[f[j]].state == RuntimeTargetState::Active && stands_for(
                us[j],
                weight,
                ts[f[j]],
            ) by {
                if j > 0 {
                    assert(f[j] == rest[j - 1]);
                    assert(us[j] == targets_upstreams(weight, ts, i + 1)[j - 1]);
                } else {
                    assert(0 <= weight * ts[i].weight) by (nonlinear_arith)
                        requires
                            0 <= weight,
                            0 <= ts[i].weight,
                    ;
                }
            }
            assert forall|j: int, m: int| 0 <= j < m < f.len() implies #[trigger] f[j]
                < #[trigger] f[m] by {
                assert(f[m] == rest[m - 1]);
                if j > 0 {
                    assert(f[j] == rest[j - 1]);
                }
            }
            assert forall|t: int|
                i <= t < ts.len() && (#[trigger] ts[t]).state
                    == RuntimeTargetState::Active implies f.contains(t) by {
                if t == i {
                    assert(f[0] == t);
                } else {
                    let m = choose|m: int| 0 <= m < rest.len() && rest[m] == t;
                    assert(f[m + 1] == t);
                }
            }
            f
        } else {
            rest
        }
    }
}

/// The upstreams of a route stand for its active targets, one for each, in the order of
/// the groups and of the targets in them.
pub open spec fn places_of(
    gs: Seq<RuntimeTargetGroupView>,
    us: Seq<UpstreamConfigView>,
    from: int,
    f: Seq<(int, int)>,
) -> bool {
    &&& f.len() == us.len()
    &&& forall|j: int|
        0 <= j < f.len() ==> from <= (#[trigger] f[j]).0 && active_at(gs, f[j].0, f[j].1)
            && stands_for(us[j], gs[f[j].0].weight, gs[f[j].0].targets[f[j].1])
    &&& forall|j: int, m: int| 0 <= j < m < f.len() ==> earlier(#[trigger] f[j], #[trigger] f[m])
    &&& forall|g: int, t: int|
        from <= g && #[trigger] active_at(gs, g, t) ==> f.contains((g, t))
}

/// The places of the active targets of the groups from `i` on, one for each upstream.
proof fn lemma_groups_places(gs: Seq<RuntimeTargetGroupView>, i: int) -> (f: Seq<(int, int)>)
    requires
        0 <= i,
    ensures
        places_of(gs, groups_upstreams(gs, i), i, f),
    decreases gs.len() - i,
{
    if i >= gs.len() {
        seq![]
    } else {
        let rest = lemma_groups_places(gs, i + 1);
        let own = lemma_targets_places(gs[i].weight, gs[i].targets, 0);
        let first = Seq::new(own.len(), |j: int| (i, own[j]));
        let f = first + rest;
        let us = groups_upstreams(gs, i);
        let n = own.len() as int;
        assert forall|j: int| 0 <= j < f.len() implies i <= (#[trigger] f[j]).0 && active_at(
            gs,
            f[j].0,
            f[j].1,
        ) && stands_for(us[j], gs[f[j].0].weight, gs[f[j].0].targets[f[j].1]) by {
            if j < n {
                assert(f[j] == first[j]);
                assert(own[j] < gs[i].targets.len());
                assert(us[j] == targets_upstreams(gs[i].weight, gs[i].targets, 0)[j]);
            } else {
                assert(f[j] == rest[j - n]);
                assert(us[j] == groups_upstreams(gs, i + 1)[j - n]);
            }
        }
        assert forall|j: int, m: int| 0 <= j < m < f.len() implies earlier(
            #[trigger] f[j],
            #[trigger] f[m],
        ) by {
            if m < n {
                assert(own[j] < own[m]);
                assert(f[j] == first[j] && f[m] == first[m]);
            } else if j < n {
                assert(f[j] == first[j] && f[m] == rest[m - n]);
            } else {
                assert(f[j] == rest[j - n] && f[m] == rest[m - n]);
            }
        }
        assert forall|g: int, t: int| i <= g && #[trigger] active_at(gs, g, t) implies f.contains(
            (g, t),
        ) by {
            if g == i {
                assert(gs[i].targets[t].state == RuntimeTargetState::Active);
                let m = choose|m: int| 0 <= m < own.len() && own[m] == t;
                assert(f[m] == (g, t));
            } else {
                let m = choose|m: int| 0 <= m < rest.len() && rest[m] == (g, t);
                assert(f[m + n] == (g, t));
            }
        }
        f
    }
}

/// The upstream is that of some target that takes requests.
pub open spec fn for_some_active(
    gs: Seq<RuntimeTargetGroupView>,
    u: UpstreamConfigView,
) -> bool {
    exists|g: int, t: int|
        0 <= g < gs.len() && 0 <= t < gs[g].targets.len() && (#[trigger] gs[g].targets[t]).state
            == RuntimeTargetState::Active && u.addr == gs[g].targets[t].addr && stands_for(
            u,
            gs[g].weight,
            gs[g].targets[t],
        )
}

/// Every upstream of a route has the address of a target of the route that takes
/// requests, and the weight that the target and its group give it; and every target that
/// takes requests has such an upstream. Targets that are drained or in any other state
/// have none.
pub proof fn lemma_upstreams_are_active_targets(gs: Seq<RuntimeTargetGroupView>)
    ensures
        forall|j: int|
            0 <= j < groups_upstreams(gs, 0).len() ==> for_some_active(
                gs,
                #[trigger] groups_upstreams(gs, 0)[j],
            ),
        forall|g: int, t: int|
            0 <= g < gs.len() && 0 <= t < gs[g].targets.len() && (
            #[trigger] gs[g].targets[t]).state == RuntimeTargetState::Active ==> exists|j: int|
                0 <= j < groups_upstreams(gs, 0).len() && stands_for(
                    #[trigger] groups_upstreams(gs, 0)[j],
                    gs[g].weight,
                    gs[g].targets[t],
                ),
{
    let us = groups_upstreams(gs, 0);
    let f = lemma_groups_places(gs, 0);
    assert forall|j: int| 0 <= j < us.len() implies for_some_active(gs, #[trigger] us[j]) by {
        let (g, t) = f[j];
        assert(active_at(gs, g, t));
        assert(gs[g].targets[t].state == RuntimeTargetState::Active);
    }
    assert forall|g: int, t: int|
        0 <= g < gs.len() && 0 <= t < gs[g].targets.len() && (#[trigger] gs[g].targets[t]).state
            == RuntimeTargetState::Active implies exists|j: int|
        0 <= j < us.len() && stands_for(#[trigger] us[j], gs[g].weight, gs[g].targets[t]) by {
        assert(active_at(gs, g, t));
        let j = choose|j: int| 0 <= j < f.len() && f[j] == (g, t);
        assert(stands_for(us[j], gs[g].weight, gs[g].targets[t]));
    }
}

/// The upstreams stand for the active targets in their order, each once.
pub proof fn lemma_upstreams_in_order(gs: Seq<RuntimeTargetGroupView>)
    ensures
        exists|f: Seq<(int, int)>| #[trigger] places_of(gs, groups_upstreams(gs, 0), 0, f),
{
    let f = lemma_groups_places(gs, 0);
}

/// Some target of the route takes requests.
pub open spec fn some_active(r: RuntimeRouteView) -> bool {
    exists|g: int, t: int| #[trigger] active_at(r.target_groups, g, t)
}

/// A route has an upstream exactly where one of its targets takes requests.
proof fn lemma_some_upstream(r: RuntimeRouteView)
    ensures
        groups_upstreams(r.target_groups, 0).len() > 0 <==> some_active(r),
{
    let f = lemma_groups_places(r.target_groups, 0);
    if groups_upstreams(r.target_groups, 0).len() > 0 {
        assert(active_at(r.target_groups, f[0].0, f[0].1));
    }
    if some_active(r) {
        let (g, t) = choose|g: int, t: int| #[trigger] active_at(r.target_groups, g, t);
        assert(f.contains((g, t)));
    }
}

/// Where no target of the state takes requests, merging leaves the configuration as it
/// is.
pub proof fn lemma_idle_state_changes_nothing(base: AppConfigView, st: RuntimeStateView)
    requires
        forall|n: int, k: int|
            0 <= n < st.services.len() && 0 <= k < st.services[n].1.routes.len() ==> !some_active(
                #[trigger] st.services[n].1.routes[k],
            ),
    ensures
        merged(base, st) matches Ok(c) ==> c == base,
{
    assert forall|n: int, k: int|
        0 <= n < st.services.len() && 0 <= k < st.services[n].1.routes.len() implies groups_upstreams(
        (#[trigger] st.services[n].1.routes[k]).target_groups,
        0,
    ).len() == 0 by {
        lemma_some_upstream(st.services[n].1.routes[k]);
    }
    lemma_merge_without_active_targets(base, st);
}

/// The runtime sites hold the route under the host.
spec fn holds(sites: RuntimeSites, host: Seq<char>, route: RouteConfigView) -> bool {
    sorted_map::lookup(sites, host) matches Some(m) && m.site.routes.contains(route)
}

/// What is true of the runtime sites while they are made.
spec fn in_making(sites: RuntimeSites) -> bool {
    &&& sorted_map::ascending::<String, RuntimeMergedSiteView>(sites)
    &&& forall|i: int| 0 <= i < sites.len() ==> (#[trigger] sites[i]).1.site.host == sites[i].0
}

/// One more route is held, and what was held stays.
proof fn lemma_site_added(
    sites: RuntimeSites,
    host: Seq<char>,
    sid: Seq<char>,
    tls: Option<SiteTlsConfigView>,
    route: RouteConfigView,
    h: Seq<char>,
    x: RouteConfigView,
)
    requires
        in_making(sites),
    ensures
        in_making(site_added(sites, host, sid, tls, route)),
        holds(site_added(sites, host, sid, tls, route), host, route),
        holds(sites, h, x) ==> holds(site_added(sites, host, sid, tls, route), h, x),
        holds(site_added(sites, host, sid, tls, route), h, x) ==> holds(sites, h, x) || (h == host
            && x == route),
{
    let entry = match sorted_map::lookup(sites, host) {
        Some(e) => if e.site.tls is None && tls is Some {
            RuntimeMergedSiteView {
                site: SiteConfigView { tls, ..e.site },
                owner_service_id: sid,
            }
        } else {
            e
        },
        None => RuntimeMergedSiteView {
            site: SiteConfigView { host, tls, routes: seq![] },
            owner_service_id: sid,
        },
    };
    let v = RuntimeMergedSiteView {
        site: SiteConfigView { routes: entry.site.routes.push(route), ..entry.site },
        ..entry
    };
    sorted_map::lemma_put::<String, RuntimeMergedSiteView>(sites, host, v);
    let all = site_added(sites, host, sid, tls, route);
    assert(all == sorted_map::put::<String, RuntimeMergedSiteView>(sites, host, v));
    sorted_map::lemma_position(sites, host, 0);
    let own = entry.site.routes.push(route);
    assert(own[own.len() - 1] == route);
    assert(own.contains(route));
    assert(entry.site.host == host);
    assert forall|i: int| 0 <= i < all.len() implies (#[trigger] all[i]).1.site.host == all[i].0 by {
        let n = sorted_map::slot::<String, RuntimeMergedSiteView>(sites, host, 0);
        sorted_map::lemma_slot::<String, RuntimeMergedSiteView>(sites, host, 0);
        if i < n {
            assert(all[i] == sites[i]);
        } else if i == n {
            assert(all[i] == (host, v));
        } else if n < sites.len() && sites[n].0 == host {
            assert(all[i] == sites[i]);
        } else {
            assert(all[i] == sites[i - 1]);
        }
    }
    if h == host {
        if holds(sites, h, x) {
            let j = choose|j: int| 0 <= j < entry.site.routes.len() && entry.site.routes[j] == x;
            assert(own[j] == x);
        }
        if holds(all, h, x) && x != route {
            let j = choose|j: int| 0 <= j < own.len() && own[j] == x;
            assert(entry.site.routes[j] == x);
        }
    }
}

/// A route is held under each of its hosts from `i` on, and what was held stays.
proof fn lemma_hosts_added(
    sites: RuntimeSites,
    s: RuntimeServiceView,
    r: RuntimeRouteView,
    ups: Seq<UpstreamConfigView>,
    hosts: Seq<Seq<char>>,
    i: int,
    h: Seq<char>,
    x: RouteConfigView,
)
    requires
        in_making(sites),
        0 <= i,
    ensures
        in_making(hosts_added(sites, s, r, ups, hosts, i)),
        holds(sites, h, x) ==> holds(hosts_added(sites, s, r, ups, hosts, i), h, x),
        (exists|j: int| i <= j < hosts.len() && #[trigger] hosts[j] == h) && x == host_route(
            s,
            r,
            h,
            ups,
        ) ==> holds(hosts_added(sites, s, r, ups, hosts, i), h, x),
        holds(hosts_added(sites, s, r, ups, hosts, i), h, x) ==> holds(sites, h, x) || (
        hosts.contains(h) && x == host_route(s, r, h, ups)),
    decreases hosts.len() - i,
{
    if i < hosts.len() {
        let route = host_route(s, r, hosts[i], ups);
        lemma_site_added(sites, hosts[i], s.id, validate::site_tls(s), route, h, x);
        let next = site_added(sites, hosts[i], s.id, validate::site_tls(s), route);
        lemma_hosts_added(next, s, r, ups, hosts, i + 1, h, x);
        assert(hosts.contains(hosts[i]));
    }
}

/// The route stands, under the host, for a route of the service that has a target that
/// takes requests.
pub open spec fn route_of_service(
    s: RuntimeServiceView,
    k: int,
    h: Seq<char>,
    x: RouteConfigView,
) -> bool {
    0 <= k < s.routes.len() && some_active(s.routes[k]) && normalize::route_hosts(
        s.routes[k],
    ).contains(h) && x == host_route(s, s.routes[k], h, groups_upstreams(s.routes[k].target_groups, 0))
}

/// The routes of a service from `i` on are held, and what was held stays.
proof fn lemma_routes_added(
    sites: RuntimeSites,
    s: RuntimeServiceView,
    i: int,
    h: Seq<char>,
    x: RouteConfigView,
)
    requires
        in_making(sites),
        0 <= i,
    ensures
        in_making(routes_added(sites, s, i)),
        holds(sites, h, x) ==> holds(routes_added(sites, s, i), h, x),
        forall|k: int| i <= k && #[trigger] route_of_service(s, k, h, x) ==> holds(
            routes_added(sites, s, i),
            h,
            x,
        ),
        holds(routes_added(sites, s, i), h, x) ==> holds(sites, h, x) || exists|k: int|
            #[trigger] route_of_service(s, k, h, x),
    decreases s.routes.len() - i,
{
    if i < s.routes.len() {
        let r = s.routes[i];
        let ups = groups_upstreams(r.target_groups, 0);
        let hosts = normalize::route_hosts(r);
        lemma_some_upstream(r);
        if ups.len() == 0 {
            lemma_routes_added(sites, s, i + 1, h, x);
        } else {
            let next = hosts_added(sites, s, r, ups, hosts, 0);
            lemma_hosts_added(sites, s, r, ups, hosts, 0, h, x);
            lemma_routes_added(next, s, i + 1, h, x);
            if route_of_service(s, i, h, x) {
                let j = choose|j: int| 0 <= j < hosts.len() && hosts[j] == h;
                assert(hosts[j] == h);
                assert(holds(next, h, x));
            }
            if holds(next, h, x) && !holds(sites, h, x) {
                assert(route_of_service(s, i, h, x));
            }
        }
    }
}

/// The routes of the services from `i` on are held, and what was held stays.
proof fn lemma_services_added(
    sites: RuntimeSites,
    es: Seq<(Seq<char>, RuntimeServiceView)>,
    i: int,
    h: Seq<char>,
    x: RouteConfigView,
)
    requires
        in_making(sites),
        0 <= i,
    ensures
        in_making(services_added(sites, es, i)),
        holds(sites, h, x) ==> holds(services_added(sites, es, i), h, x),
        forall|n: int, k: int|
            i <= n < es.len() && #[trigger] route_of_service(es[n].1, k, h, x) ==> holds(
                services_added(sites, es, i),
                h,
                x,
            ),
        holds(services_added(sites, es, i), h, x) ==> holds(sites, h, x) || exists|n: int, k: int|
            0 <= n < es.len() && #[trigger] route_of_service(es[n].1, k, h, x),
    decreases es.len() - i,
{
    if i < es.len() {
        let s = es[i].1;
        let next = routes_added(sites, s, 0);
        lemma_routes_added(sites, s, 0, h, x);
        lemma_services_added(next, es, i + 1, h, x);
        assert forall|n: int, k: int|
            i <= n < es.len() && #[trigger] route_of_service(es[n].1, k, h, x) implies holds(
            services_added(sites, es, i),
            h,
            x,
        ) by {
            if n == i {
                assert(holds(next, h, x));
            }
        }
        if holds(next, h, x) && !holds(sites, h, x) {
            let k = choose|k: int| #[trigger] route_of_service(s, k, h, x);
            assert(route_of_service(es[i].1, k, h, x));
        }
    }
}

/// Some site with the host, whatever the letter case, has the route.
pub open spec fn serves(sites: Seq<SiteConfigView>, h: Seq<char>, x: RouteConfigView) -> bool {
    exists|i: int|
        0 <= i < sites.len() && text::lowered((#[trigger] sites[i]).host) == text::lowered(h)
            && sites[i].routes.contains(x)
}

/// The routes of a merged site are served, and what was served still is.
proof fn lemma_site_merged_serves(
    sites: Seq<SiteConfigView>,
    m: RuntimeMergedSiteView,
    h: Seq<char>,
    x: RouteConfigView,
)
    ensures
        site_merged(sites, m) matches Ok(next) ==> {
            &&& serves(sites, h, x) ==> serves(next, h, x)
            &&& text::lowered(m.site.host) == text::lowered(h) && m.site.routes.contains(x)
                ==> serves(next, h, x)
            &&& serves(next, h, x) ==> serves(sites, h, x) || (text::lowered(m.site.host)
                == text::lowered(h) && m.site.routes.contains(x))
        },
{
    lemma_site_at(sites, m.site.host, 0);
    lemma_catch_all_at(sites, 0);
    if let Ok(next) = site_merged(sites, m) {
        match site_at(sites, m.site.host, 0) {
            Some(p) => {
                let (own, old_routes) = (m.site.routes, sites[p].routes);
                let all = own + old_routes;
                assert(next[p].routes == all);
                if serves(sites, h, x) {
                    let i = choose|i: int|
                        0 <= i < sites.len() && text::lowered((#[trigger] sites[i]).host)
                            == text::lowered(h) && sites[i].routes.contains(x);
                    if i == p {
                        let j = choose|j: int| 0 <= j < old_routes.len() && old_routes[j] == x;
                        assert(all[own.len() + j] == x);
                    }
                    assert(next[i].routes.contains(x));
                }
                if text::lowered(m.site.host) == text::lowered(h) && own.contains(x) {
                    let j = choose|j: int| 0 <= j < own.len() && own[j] == x;
                    assert(all[j] == x);
                    assert(next[p].routes.contains(x));
                }
                if serves(next, h, x) {
                    let i = choose|i: int|
                        0 <= i < next.len() && text::lowered((#[trigger] next[i]).host)
                            == text::lowered(h) && next[i].routes.contains(x);
                    if i == p {
                        let j = choose|j: int| 0 <= j < all.len() && all[j] == x;
                        if j < own.len() {
                            assert(own[j] == x);
                        } else {
                            assert(old_routes[j - own.len()] == x);
                            assert(sites[p].routes.contains(x));
                        }
                    } else {
                        assert(sites[i].routes.contains(x));
                    }
                }
            },
            None => {
                let at = if m.site.host == "*"@ {
                    sites.len() as int
                } else {
                    catch_all_at(sites, 0)
                };
                assert(next =~= sites.insert(at, m.site));
                if serves(sites, h, x) {
                    let i = choose|i: int|
                        0 <= i < sites.len() && text::lowered((#[trigger] sites[i]).host)
                            == text::lowered(h) && sites[i].routes.contains(x);
                    let k = if i < at {
                        i
                    } else {
                        i + 1
                    };
                    assert(next[k] == sites[i]);
                }
                assert(next[at] == m.site);
                if serves(next, h, x) {
                    let i = choose|i: int|
                        0 <= i < next.len() && text::lowered((#[trigger] next[i]).host)
                            == text::lowered(h) && next[i].routes.contains(x);
                    if i < at {
                        assert(sites[i] == next[i]);
                    } else if i > at {
                        assert(sites[i - 1] == next[i]);
                    }
                }
            },
        }
    }
}

/// The routes of the merged sites from `i` on are served, and what was served still is.
proof fn lemma_sites_merged_serve(
    sites: Seq<SiteConfigView>,
    ms: RuntimeSites,
    i: int,
    h: Seq<char>,
    x: RouteConfigView,
)
    requires
        0 <= i,
    ensures
        sites_merged(sites, ms, i) matches Ok(all) ==> {
            &&& serves(sites, h, x) ==> serves(all, h, x)
            &&& forall|j: int|
                i <= j < ms.len() && text::lowered((#[trigger] ms[j]).1.site.host)
                    == text::lowered(h) && ms[j].1.site.routes.contains(x) ==> serves(all, h, x)
            &&& serves(all, h, x) ==> serves(sites, h, x) || exists|j: int|
                i <= j < ms.len() && text::lowered((#[trigger] ms[j]).1.site.host)
                    == text::lowered(h) && ms[j].1.site.routes.contains(x)
        },
    decreases ms.len() - i,
{
    if i < ms.len() {
        lemma_site_merged_serves(sites, ms[i].1, h, x);
        if let Ok(next) = site_merged(sites, ms[i].1) {
            lemma_sites_merged_serve(next, ms, i + 1, h, x);
        }
    }
}

/// Every route of a service that has a target that takes requests is served under each of
/// its hosts.
pub proof fn lemma_active_route_served(
    base: AppConfigView,
    st: RuntimeStateView,
    n: int,
    k: int,
    h: Seq<char>,
)
    requires
        0 <= n < st.services.len(),
        0 <= k < st.services[n].1.routes.len(),
        some_active(st.services[n].1.routes[k]),
        normalize::route_hosts(st.services[n].1.routes[k]).contains(h),
    ensures
        merged(base, st) matches Ok(c) ==> serves(
            c.sites,
            h,
            host_route(
                st.services[n].1,
                st.services[n].1.routes[k],
                h,
                groups_upstreams(st.services[n].1.routes[k].target_groups, 0),
            ),
        ),
{
    let s = st.services[n].1;
    let x = host_route(s, s.routes[k], h, groups_upstreams(s.routes[k].target_groups, 0));
    let ms = services_added(seq![], st.services, 0);
    lemma_services_added(seq![], st.services, 0, h, x);
    assert(route_of_service(st.services[n].1, k, h, x));
    sorted_map::lemma_position(ms, h, 0);
    let p = sorted_map::position(ms, h, 0)->0;
    assert(ms[p].1.site.host == h);
    lemma_sites_merged_serve(base.sites, ms, 0, h, x);
}

/// Every route that is served was configured for the host, or is that of a route of a
/// service that answers the host and has a target that takes requests.
pub proof fn lemma_served_routes_known(
    base: AppConfigView,
    st: RuntimeStateView,
    h: Seq<char>,
    x: RouteConfigView,
)
    ensures
        merged(base, st) matches Ok(c) ==> serves(c.sites, h, x) ==> serves(base.sites, h, x)
            || exists|n: int, k: int, g: Seq<char>|
            0 <= n < st.services.len() && text::lowered(g) == text::lowered(h)
                && #[trigger] route_of_service(st.services[n].1, k, g, x),
{
    let ms = services_added(seq![], st.services, 0);
    if let Ok(c) = merged(base, st) {
        lemma_sites_merged_serve(base.sites, ms, 0, h, x);
        if serves(c.sites, h, x) && !serves(base.sites, h, x) {
            let j = choose|j: int|
                0 <= j < ms.len() && text::lowered((#[trigger] ms[j]).1.site.host)
                    == text::lowered(h) && ms[j].1.site.routes.contains(x);
            let g = ms[j].0;
            lemma_services_added(seq![], st.services, 0, g, x);
            assert(ms[j].1.site.host == g);
            sorted_map::lemma_position(ms, g, 0);
            let p = sorted_map::position(ms, g, 0)->0;
            if p < j {
                <String as sorted_map::MapKey>::lemma_total(ms[p].0, ms[j].0);
            }
            assert(holds(ms, g, x));
        }
    }
}

/// A route proxies to its upstreams under the canonical host of its service, and under
/// each of its hosts where there is no canonical one; under any other host it redirects
/// there for good. It answers what is below its prefix.
pub proof fn lemma_route_under_host(
    s: RuntimeServiceView,
    r: RuntimeRouteView,
    h: Seq<char>,
    ups: Seq<UpstreamConfigView>,
)
    ensures
        ({
            let x = host_route(s, r, h, ups);
            let canonical_host = match s.tls {
                Some(t) => t.canonical_host,
                None => None,
            };
            let forced = s.tls matches Some(t) && t.https_redirect == Some(true);
            &&& canonical_host is None || canonical_host == Some(h) ==> (
            x.handler matches HandlerConfigView::Proxy(p) && p.upstreams == ups && p.lb == r.lb
                && p.lb_header == r.lb_header && p.lb_cookie == r.lb_cookie)
            &&& canonical_host is Some && canonical_host != Some(h) ==> (
            x.handler matches HandlerConfigView::Redirect { to, permanent } && permanent && to == (
            if forced {
                "https://"@
            } else {
                "{scheme}://"@
            }) + canonical_host->0 + "{path}{query_suffix}"@)
            &&& x.condition is None
            &&& x.path == normalize::prefix_pattern(r.path_prefix)
        }),
{
}

/// A route drops its prefix from the paths that it hands on where it is asked to and the
/// prefix is not the root, and sends plain requests to HTTPS where its service is asked
/// to; nothing else is done to requests on their way.
pub proof fn lemma_middlewares_of_route(s: RuntimeServiceView, r: RuntimeRouteView)
    ensures
        ({
            let m = proxy_middlewares(s, r);
            let strips = r.strip_path_prefix && r.path_prefix != "/"@;
            let forced = s.tls matches Some(t) && t.https_redirect == Some(true);
            &&& m.len() == (if strips {
                1int
            } else {
                0
            }) + (if forced {
                1int
            } else {
                0
            })
            &&& strips ==> (m[0] matches HoopConfigView::Rewrite { strip_prefix, uri, .. }
                && strip_prefix == Some(r.path_prefix) && uri is None)
            &&& forced ==> m.last() is ForceHttps
        }),
{
}

/// A route of a service that speaks one protocol asks for this protocol, and for
/// whatever else it asked for; with both protocols it asks for neither of itself.
pub proof fn lemma_protocol_asked_for(ms: Seq<MatcherView>, ps: Seq<RuntimeListenerProtocol>)
    ensures
        ps.len() == 1 ==> asks_protocol(protocol_matchers(ms, ps), types::protocol_name(ps[0])),
        ps.len() != 1 ==> protocol_matchers(ms, ps) == ms,
        protocol_matchers(ms, ps).take(ms.len() as int) == ms,
{
    let all = protocol_matchers(ms, ps);
    assert(all.take(ms.len() as int) =~= ms);
    if ps.len() == 1 && !asks_protocol(ms, types::protocol_name(ps[0])) {
        assert(all[ms.len() as int] == MatcherView::Protocol(types::protocol_name(ps[0])));
        assert(asks_protocol(all, types::protocol_name(ps[0])));
    }
}

} // verus!
