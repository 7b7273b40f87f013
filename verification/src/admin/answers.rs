//! What the admin interface answers.

use vstd::prelude::*;
use crate::config::error;
use crate::config::document;
use crate::config::parse;
use crate::config::parse::parse_config;
use crate::config::error::ConfigErrorView;
use crate::config::types::{
    AppConfig, AppConfigView, HandlerConfig, HandlerConfigView, RouteConfig, RouteConfigView,
    SiteConfigView,
};
use crate::data::Data;
use crate::message;
use crate::message::{Fields, Headers, Response, ResponseView};
use crate::runtime;
use crate::runtime::RuntimeInfo;
use crate::runtime_services::messages;
use crate::runtime_services::types::{RuntimeServiceError, RuntimeServiceErrorView};
use crate::text;

verus! {

/// An answer that holds JSON.
pub open spec fn json(status: u16, body: Seq<char>) -> ResponseView {
    ResponseView {
        status,
        headers: seq![("content-type"@, vstd::utf8::encode_utf8("application/json"@))],
        body: vstd::utf8::encode_utf8(body),
    }
}

/// An answer that holds JSON.
pub fn json_response(status: u16, body: &str) -> (r: Response)
    ensures
        r.deep_view() == json(status, body@),
{
    let mut headers = Headers::new();
    headers.append("content-type", message::utf8("application/json"));
    proof {
        reveal_strlit("content-type");
        assert(text::lowered("content-type"@) =~= "content-type"@);
        assert(headers.deep_view() =~= json(status, body@).headers);
    }
    Response { status, headers, body: message::utf8(body) }
}

/// The JSON that names what went wrong.
pub open spec fn error_body(words: Seq<char>) -> Seq<char> {
    "{\"error\":\""@ + words + "\"}"@
}

/// An answer that names what went wrong.
pub fn error_answer(status: u16, words: &str) -> (r: Response)
    ensures
        r.deep_view() == json(status, error_body(words@)),
{
    json_response(status, text::join3("{\"error\":\"", words, "\"}").as_str())
}

/// The plain values of a [`RuntimeStateError`].
#[verifier::ext_equal]
pub enum RuntimeStateErrorView {
    Validation(RuntimeServiceErrorView),
    Persist(Seq<char>),
    Restore(Seq<char>),
    Apply(Seq<char>),
}

/// Why a change of the runtime state did not come about.
#[derive(Debug, PartialEq, Eq)]
pub enum RuntimeStateError {
    /// The rules refuse it.
    Validation(RuntimeServiceError),
    /// It could not be written down.
    Persist(String),
    /// The state before it could not be restored.
    Restore(String),
    /// It could not be put into effect.
    Apply(String),
}

impl DeepView for RuntimeStateError {
    type V = RuntimeStateErrorView;

    open spec fn deep_view(&self) -> RuntimeStateErrorView {
        match self {
            RuntimeStateError::Validation(a) => RuntimeStateErrorView::Validation(a.deep_view()),
            RuntimeStateError::Persist(a) => RuntimeStateErrorView::Persist(a.deep_view()),
            RuntimeStateError::Restore(a) => RuntimeStateErrorView::Restore(a.deep_view()),
            RuntimeStateError::Apply(a) => RuntimeStateErrorView::Apply(a.deep_view()),
        }
    }
}

impl Data for RuntimeStateError {
    fn duplicate(&self) -> (r: RuntimeStateError) {
        match self {
            RuntimeStateError::Validation(a) => RuntimeStateError::Validation(a.duplicate()),
            RuntimeStateError::Persist(a) => RuntimeStateError::Persist(a.duplicate()),
            RuntimeStateError::Restore(a) => RuntimeStateError::Restore(a.duplicate()),
            RuntimeStateError::Apply(a) => RuntimeStateError::Apply(a.duplicate()),
        }
    }

    fn same_as(&self, other: &RuntimeStateError) -> (r: bool) {
        match (self, other) {
            (RuntimeStateError::Validation(a), RuntimeStateError::Validation(b_a)) => {
                a.same_as(b_a)
            },
            (RuntimeStateError::Persist(a), RuntimeStateError::Persist(b_a)) => a.same_as(b_a),
            (RuntimeStateError::Restore(a), RuntimeStateError::Restore(b_a)) => a.same_as(b_a),
            (RuntimeStateError::Apply(a), RuntimeStateError::Apply(b_a)) => a.same_as(b_a),
            _ => false,
        }
    }
}

impl Clone for RuntimeStateError {
    fn clone(&self) -> (r: RuntimeStateError)
        ensures
            r.deep_view() == self.deep_view(),
    {
        self.duplicate()
    }
}

/// The answer to a change that did not come about.
pub open spec fn failure(e: RuntimeStateErrorView) -> ResponseView {
    match e {
        RuntimeStateErrorView::Validation(e) => json(
            messages::refusal_status(e),
            error_body(messages::refusal_message(e)),
        ),
        RuntimeStateErrorView::Persist(m)
        | RuntimeStateErrorView::Restore(m)
        | RuntimeStateErrorView::Apply(m) => json(500, error_body(m)),
    }
}

/// The answer to a request that was refused.
pub fn json_runtime_service_error(e: &RuntimeServiceError) -> (r: Response)
    ensures
        r.deep_view() == json(
            messages::refusal_status(e.deep_view()),
            error_body(messages::refusal_message(e.deep_view())),
        ),
{
    error_answer(e.status(), e.message().as_str())
}

/// The answer to a change that did not come about.
pub fn json_runtime_state_error(e: &RuntimeStateError) -> (r: Response)
    ensures
        r.deep_view() == failure(e.deep_view()),
{
    match e {
        RuntimeStateError::Validation(e) => json_runtime_service_error(e),
        RuntimeStateError::Persist(m) => error_answer(500, m.as_str()),
        RuntimeStateError::Restore(m) => error_answer(500, m.as_str()),
        RuntimeStateError::Apply(m) => error_answer(500, m.as_str()),
    }
}

/// The answer that holds a value as it was written in JSON, or says that it could
/// not be written.
pub open spec fn written(status: u16, value: Result<Seq<char>, Seq<char>>) -> ResponseView {
    match value {
        Ok(t) => json(status, t),
        Err(e) => json(500, error_body("serialization failed: "@ + e)),
    }
}

/// Answers with a value as it was written in JSON.
pub fn json_pretty_response(status: u16, value: Result<String, String>) -> (r: Response)
    ensures
        r.deep_view() == written(status, crate::data::outcome(value)),
{
    match value {
        Ok(t) => json_response(status, t.as_str()),
        Err(e) => error_answer(500, text::join("serialization failed: ", e.as_str()).as_str()),
    }
}

/// The revision that a change expects: the number in the field `if-match`, with
/// quotation marks around it or not.
pub open spec fn revision_expected(h: Fields) -> Option<nat> {
    match message::field_of(h, "if-match"@) {
        Some(t) => text::number(text::trimmed_of(t, '"'), u64::MAX as nat),
        None => None,
    }
}

/// Reads the revision that a change expects.
pub fn expected_revision(headers: &Headers) -> (r: Option<u64>)
    ensures
        match r {
            Some(n) => revision_expected(headers.deep_view()) == Some(n as nat),
            None => revision_expected(headers.deep_view()) is None,
        },
{
    match headers.text("if-match") {
        Some(t) => text::parse_number(text::trim_char(t.as_str(), '"').as_str(), u64::MAX),
        None => None,
    }
}

/// Who makes a change.
pub open spec fn actor(h: Fields) -> Seq<char> {
    match message::field_of(h, "x-gatel-actor"@) {
        Some(t) => if text::trimmed(t).len() > 0 {
            text::trimmed(t)
        } else {
            "admin_api"@
        },
        None => "admin_api"@,
    }
}

/// Reads who makes a change.
pub fn runtime_actor(headers: &Headers) -> (r: String)
    ensures
        r@ == actor(headers.deep_view()),
{
    if let Some(t) = headers.text("x-gatel-actor") {
        let t = text::trim(t.as_str());
        if !t.as_str().is_empty() {
            return t;
        }
    }
    "admin_api".to_owned()
}

/// The answer to a request for the state of health.
pub fn handle_health() -> (r: Response)
    ensures
        r.deep_view() == json(200, "{\"status\":\"healthy\"}"@),
{
    json_response(200, "{\"status\":\"healthy\"}")
}

/// The answer to a request to stop.
pub fn handle_stop() -> (r: Response)
    ensures
        r.deep_view() == json(200, "{\"status\":\"stopping\"}"@),
{
    json_response(200, "{\"status\":\"stopping\"}")
}

/// A truth value in JSON.
pub open spec fn truth(b: bool) -> Seq<char> {
    if b {
        "true"@
    } else {
        "false"@
    }
}

/// A truth value in JSON.
fn truth_text(b: bool) -> (r: &'static str)
    ensures
        r@ == truth(b),
{
    if b {
        "true"
    } else {
        "false"
    }
}

/// What is said of the machinery that runs the tasks.
pub open spec fn runtime_body(i: RuntimeInfo) -> Seq<char> {
    "{\"runtime\":\""@ + i.name@ + "\",\"io_uring\":"@ + truth(i.io_uring) + ",\"send_tasks\":"@
        + truth(i.send_tasks) + "}"@
}

/// The answer to a question for the machinery that runs the tasks.
pub fn handle_runtime() -> (r: Response)
    ensures
        exists|i: RuntimeInfo| #[trigger]
            runtime::is_active(i) && r.deep_view() == json(200, runtime_body(i)),
{
    let i = runtime::info();
    let mut out = "{\"runtime\":\"".to_owned();
    out.append(i.name);
    out.append("\",\"io_uring\":");
    out.append(truth_text(i.io_uring));
    out.append(",\"send_tasks\":");
    out.append(truth_text(i.send_tasks));
    out.append("}");
    json_response(200, out.as_str())
}

/// The number of routes from the site at `i` on.
pub open spec fn route_count(sites: Seq<SiteConfigView>, i: int) -> nat
    decreases sites.len() - i,
{
    if i < 0 || i >= sites.len() {
        0
    } else {
        sites[i].routes.len() + route_count(sites, i + 1)
    }
}

/// The number of routes of a configuration.
fn count_routes(config: &AppConfig) -> (r: u128)
    ensures
        r == route_count(config.deep_view().sites, 0),
{
    let ghost sites = config.deep_view().sites;
    let mut n: u128 = 0;
    for i in 0..config.sites.len()
        invariant
            sites == config.sites.deep_view(),
            n + route_count(sites, i as int) == route_count(sites, 0),
            n <= i * u64::MAX,
            i <= u64::MAX,
    {
        assert(sites[i as int] == config.sites@[i as int].deep_view());
        assert(n <= i * u64::MAX <= u64::MAX * u64::MAX) by (nonlinear_arith)
            requires
                n <= i * u64::MAX,
                0 <= i <= u64::MAX,
        ;
        assert((i + 1) * u64::MAX == i * u64::MAX + u64::MAX) by (nonlinear_arith);
        n = n + config.sites[i].routes.len() as u128;
    }
    n
}

/// What is said of a configuration that was taken.
pub open spec fn taken(word: Seq<char>, c: AppConfigView) -> Seq<char> {
    "{\"status\":\""@ + word + "\",\"sites\":"@ + text::decimal(c.sites.len()) + ",\"routes\":"@
        + text::decimal(route_count(c.sites, 0)) + "}"@
}

/// Says of a configuration that it was taken.
fn write_taken(word: &str, c: &AppConfig) -> (r: Response)
    ensures
        r.deep_view() == json(200, taken(word@, c.deep_view())),
{
    let mut out = "{\"status\":\"".to_owned();
    out.append(word);
    out.append("\",\"sites\":");
    out.append(text::number_text(c.sites.len() as u128).as_str());
    out.append(",\"routes\":");
    out.append(text::number_text(count_routes(c)).as_str());
    out.append("}");
    json_response(200, out.as_str())
}

/// The configuration that a text stands for.
pub open spec fn read_config(body: Seq<char>) -> Result<AppConfigView, ConfigErrorView> {
    match document::kdl_document(body) {
        Ok(doc) => parse::configured(doc),
        Err(e) => Err(ConfigErrorView::Kdl(e)),
    }
}

/// The answer to a test of a configuration.
pub open spec fn tested(c: Result<AppConfigView, ConfigErrorView>) -> ResponseView {
    match c {
        Ok(c) => json(200, taken("valid"@, c)),
        Err(e) => json(400, error_body(error::config_message(e))),
    }
}

/// Tests a configuration and says whether it is one.
pub fn handle_test_config(body: &str) -> (r: Response)
    ensures
        r.deep_view() == tested(read_config(body@)),
{
    match parse_config(body) {
        Ok(c) => write_taken("valid", &c),
        Err(e) => error_answer(400, e.message().as_str()),
    }
}

/// The configuration that is put into effect, or the answer where it is none.
pub open spec fn posted(c: Result<AppConfigView, ConfigErrorView>) -> Result<
    AppConfigView,
    ResponseView,
> {
    match c {
        Ok(c) => Ok(c),
        Err(e) => Err(json(400, error_body("config parse failed: "@ + error::config_message(e)))),
    }
}

/// Reads a configuration that is to be put into effect.
pub fn handle_post_config(body: &str) -> (r: Result<AppConfig, Response>)
    ensures
        crate::data::outcome(r) == posted(read_config(body@)),
{
    match parse_config(body) {
        Ok(c) => Ok(c),
        Err(e) => Err(
            error_answer(400, text::join("config parse failed: ", e.message().as_str()).as_str()),
        ),
    }
}

/// Says what became of a configuration that was to be put into effect.
pub fn finish_post_config(config: &AppConfig, outcome: Result<(), RuntimeStateError>) -> (r:
    Response)
    ensures
        r.deep_view() == (match outcome {
            Ok(()) => json(200, taken("applied"@, config.deep_view())),
            Err(e) => failure(e.deep_view()),
        }),
{
    match outcome {
        Ok(()) => write_taken("applied", config),
        Err(e) => json_runtime_state_error(&e),
    }
}

/// Why the configuration was not loaded again.
#[derive(Debug, PartialEq, Eq)]
pub enum ReloadFailure {
    /// Nobody said where it is kept.
    NoPath,
    /// It could not be read.
    Unreadable(String),
    /// It could not be put into effect.
    Refused(RuntimeStateError),
}

/// Says what became of a configuration that was to be loaded again.
pub fn finish_config_reload(outcome: Result<(), ReloadFailure>) -> (r: Response)
    ensures
        r.deep_view() == (match outcome {
            Ok(()) => json(200, "{\"status\":\"reloaded\"}"@),
            Err(ReloadFailure::NoPath) => json(
                200,
                "{\"status\":\"reload_requested\",\"note\":\"no config path set; reload must be triggered externally\"}"@,
            ),
            Err(ReloadFailure::Unreadable(e)) => json(
                400,
                error_body("config reload failed: "@ + e@),
            ),
            Err(ReloadFailure::Refused(e)) => failure(e.deep_view()),
        }),
{
    match outcome {
        Ok(()) => json_response(200, "{\"status\":\"reloaded\"}"),
        Err(ReloadFailure::NoPath) => json_response(
            200,
            "{\"status\":\"reload_requested\",\"note\":\"no config path set; reload must be triggered externally\"}",
        ),
        Err(ReloadFailure::Unreadable(e)) => error_answer(
            400,
            text::join("config reload failed: ", e.as_str()).as_str(),
        ),
        Err(ReloadFailure::Refused(e)) => json_runtime_state_error(&e),
    }
}

/// The plain values of a [`UpstreamRow`].
#[verifier::ext_equal]
pub struct UpstreamRowView {
    pub site: Seq<char>,
    pub route: Seq<char>,
    pub address: Seq<char>,
    pub weight: u32,
}

/// A configured backend.
#[derive(Debug, PartialEq, Eq)]
pub struct UpstreamRow {
    /// The host of the site.
    pub site: String,
    /// The path of the route.
    pub route: String,
    pub address: String,
    pub weight: u32,
}

impl DeepView for UpstreamRow {
    type V = UpstreamRowView;

    open spec fn deep_view(&self) -> UpstreamRowView {
        UpstreamRowView {
            site: self.site.deep_view(),
            route: self.route.deep_view(),
            address: self.address.deep_view(),
            weight: self.weight.deep_view(),
        }
    }
}

impl Data for UpstreamRow {
    fn duplicate(&self) -> (r: UpstreamRow) {
        UpstreamRow {
            site: self.site.duplicate(),
            route: self.route.duplicate(),
            address: self.address.duplicate(),
            weight: self.weight.duplicate(),
        }
    }

    fn same_as(&self, other: &UpstreamRow) -> (r: bool) {
        self.site.same_as(&other.site)
            && self.route.same_as(&other.route)
            && self.address.same_as(&other.address)
            && self.weight.same_as(&other.weight)
    }
}

impl Clone for UpstreamRow {
    fn clone(&self) -> (r: UpstreamRow)
        ensures
            r.deep_view() == self.deep_view(),
    {
        self.duplicate()
    }
}

/// The backends of a route from `i` on.
pub open spec fn route_upstreams(site: Seq<char>, r: RouteConfigView, i: int) -> Seq<
    UpstreamRowView,
>
    decreases r.handler->Proxy_0.upstreams.len() - i,
{
    match r.handler {
        HandlerConfigView::Proxy(p) => if i < 0 || i >= p.upstreams.len() {
            seq![]
        } else {
            seq![
                UpstreamRowView {
                    site,
                    route: r.path,
                    address: p.upstreams[i].addr,
                    weight: p.upstreams[i].weight,
                },
            ] + route_upstreams(site, r, i + 1)
        },
        _ => seq![],
    }
}

/// The backends of a site from the route at `i` on.
pub open spec fn site_upstreams(s: SiteConfigView, i: int) -> Seq<UpstreamRowView>
    decreases s.routes.len() - i,
{
    if i < 0 || i >= s.routes.len() {
        seq![]
    } else {
        route_upstreams(s.host, s.routes[i], 0) + site_upstreams(s, i + 1)
    }
}

/// The backends of a configuration from the site at `i` on.
pub open spec fn all_upstreams(sites: Seq<SiteConfigView>, i: int) -> Seq<UpstreamRowView>
    decreases sites.len() - i,
{
    if i < 0 || i >= sites.len() {
        seq![]
    } else {
        site_upstreams(sites[i], 0) + all_upstreams(sites, i + 1)
    }
}

/// Appends the backends of a route.
fn add_route_upstreams(out: &mut Vec<UpstreamRow>, site: &str, route: &RouteConfig)
    ensures
        final(out).deep_view() == old(out).deep_view() + route_upstreams(
            site@,
            route.deep_view(),
            0,
        ),
{
    let ghost start = out.deep_view();
    let ghost r = route.deep_view();
    assert(start + Seq::<UpstreamRowView>::empty() =~= start);
    if let HandlerConfig::Proxy(p) = &route.handler {
        for i in 0..p.upstreams.len()
            invariant
                r == route.deep_view(),
                r.handler == HandlerConfigView::Proxy(p.deep_view()),
                out.deep_view() + route_upstreams(site@, r, i as int) == start + route_upstreams(
                    site@,
                    r,
                    0,
                ),
        {
            let u = &p.upstreams[i];
            assert(p.deep_view().upstreams[i as int] == u.deep_view());
            let row = UpstreamRow {
                site: site.to_owned(),
                route: route.path.clone(),
                address: u.addr.clone(),
                weight: u.weight,
            };
            let ghost before = out.deep_view();
            let ghost v = row.deep_view();
            out.push(row);
            assert(out.deep_view() =~= before.push(v));
            assert(out.deep_view() + route_upstreams(site@, r, i + 1) =~= before + (seq![v]
                + route_upstreams(site@, r, i + 1)));
        }
        assert(out.deep_view() + Seq::<UpstreamRowView>::empty() =~= out.deep_view());
    }
}

/// Lists the configured backends, site by site and route by route.
pub fn handle_upstreams(config: &AppConfig) -> (r: Vec<UpstreamRow>)
    ensures
        r.deep_view() == all_upstreams(config.deep_view().sites, 0),
{
    let ghost sites = config.deep_view().sites;
    let mut out: Vec<UpstreamRow> = Vec::new();
    assert(out.deep_view() + all_upstreams(sites, 0) =~= all_upstreams(sites, 0));
    for i in 0..config.sites.len()
        invariant
            sites == config.sites.deep_view(),
            out.deep_view() + all_upstreams(sites, i as int) == all_upstreams(sites, 0),
    {
        let site = &config.sites[i];
        let ghost s = site.deep_view();
        assert(sites[i as int] == s);
        let ghost start = out.deep_view();
        for j in 0..site.routes.len()
            invariant
                s == site.deep_view(),
                out.deep_view() + site_upstreams(s, j as int) == start + site_upstreams(s, 0),
        {
            let ghost before = out.deep_view();
            assert(s.routes[j as int] == site.routes@[j as int].deep_view());
            add_route_upstreams(&mut out, site.host.as_str(), &site.routes[j]);
            assert(out.deep_view() + site_upstreams(s, j + 1) =~= before + (route_upstreams(
                s.host,
                s.routes[j as int],
                0,
            ) + site_upstreams(s, j + 1)));
        }
        assert(out.deep_view() + site_upstreams(s, s.routes.len() as int) =~= out.deep_view());
        assert(out.deep_view() + all_upstreams(sites, i + 1) =~= start + (site_upstreams(s, 0)
            + all_upstreams(sites, i + 1)));
    }
    assert(out.deep_view() + all_upstreams(sites, sites.len() as int) =~= out.deep_view());
    out
}

/// A change expects the revision that the field names, with quotation marks around it or
/// not; without the field it expects none.
pub proof fn lemma_revision_named(h: Fields, n: u64)
    ensures
        message::field_of(h, "if-match"@) == Some(text::decimal(n as nat)) || message::field_of(
            h,
            "if-match"@,
        ) == Some(seq!['"'] + text::decimal(n as nat) + seq!['"']) ==> revision_expected(h) == Some(
            n as nat,
        ),
        message::field_of(h, "if-match"@) is None ==> revision_expected(h) is None,
{
    let d = text::decimal(n as nat);
    text::lemma_decimal_value(n as nat);
    assert(text::is_digit(d[0]) && text::is_digit(d.last()));
    text::lemma_trimmed_quotes(d, '"');
}

/// Who makes a change is whom the field names, if it names anyone.
pub proof fn lemma_actor_named(h: Fields, name: Seq<char>)
    requires
        name.len() > 0,
        !text::is_space(name[0]) && !text::is_space(name.last()),
    ensures
        message::field_of(h, "x-gatel-actor"@) == Some(name) ==> actor(h) == name,
        message::field_of(h, "x-gatel-actor"@) is None ==> actor(h) == "admin_api"@,
{
    text::lemma_trimmed_fixed(name);
}

/// A refusal is answered with its own status and names what went wrong; what failed in
/// keeping or applying a state is answered as a failure of the server.
pub proof fn lemma_failure_told(e: RuntimeServiceErrorView, m: Seq<char>)
    ensures
        failure(RuntimeStateErrorView::Validation(e)).status == messages::refusal_status(e),
        failure(RuntimeStateErrorView::Validation(e)).body == vstd::utf8::encode_utf8(
            error_body(messages::refusal_message(e)),
        ),
        failure(RuntimeStateErrorView::Persist(m)).status == 500,
        failure(RuntimeStateErrorView::Restore(m)).status == 500,
        failure(RuntimeStateErrorView::Apply(m)).status == 500,
        failure(RuntimeStateErrorView::Apply(m)).body == vstd::utf8::encode_utf8(error_body(m)),
        written(200, Ok(m)).status == 200,
        written(200, Err(m)).status == 500,
{
}

/// The routes of all sites are counted.
pub proof fn lemma_routes_counted(sites: Seq<SiteConfigView>, s: SiteConfigView, i: int)
    requires
        0 <= i <= sites.len(),
    ensures
        route_count(sites.push(s), i) == route_count(sites, i) + s.routes.len(),
    decreases sites.len() - i,
{
    let all = sites.push(s);
    if i < sites.len() {
        assert(all[i] == sites[i]);
        lemma_routes_counted(sites, s, i + 1);
    } else {
        assert(route_count(all, i + 1) == 0);
    }
}

/// A configuration that is tested is answered with success exactly where it is one.
pub proof fn lemma_tested(c: Result<AppConfigView, ConfigErrorView>)
    ensures
        tested(c).status == 200 <==> c is Ok,
        c is Err ==> tested(c).status == 400 && (posted(c) matches Err(r) && r.status == 400),
        c matches Ok(x) ==> posted(c) == Ok::<AppConfigView, ResponseView>(x),
{
}

/// Every backend of every route that hands requests on is listed, with its site, its route
/// and its weight.
pub proof fn lemma_backend_listed(
    sites: Seq<SiteConfigView>,
    from: int,
    n: int,
    k: int,
    u: int,
)
    requires
        0 <= from <= n < sites.len(),
        0 <= k < sites[n].routes.len(),
        sites[n].routes[k].handler is Proxy,
        0 <= u < sites[n].routes[k].handler->Proxy_0.upstreams.len(),
    ensures
        all_upstreams(sites, from).contains(
            UpstreamRowView {
                site: sites[n].host,
                route: sites[n].routes[k].path,
                address: sites[n].routes[k].handler->Proxy_0.upstreams[u].addr,
                weight: sites[n].routes[k].handler->Proxy_0.upstreams[u].weight,
            },
        ),
    decreases n - from,
{
    let row = UpstreamRowView {
        site: sites[n].host,
        route: sites[n].routes[k].path,
        address: sites[n].routes[k].handler->Proxy_0.upstreams[u].addr,
        weight: sites[n].routes[k].handler->Proxy_0.upstreams[u].weight,
    };
    let here = site_upstreams(sites[from], 0);
    let rest = all_upstreams(sites, from + 1);
    if from < n {
        lemma_backend_listed(sites, from + 1, n, k, u);
        let j = choose|j: int| 0 <= j < rest.len() && rest[j] == row;
        assert(all_upstreams(sites, from)[here.len() + j] == row);
    } else {
        lemma_in_site(sites[n], 0, k, u);
        let j = choose|j: int| 0 <= j < here.len() && here[j] == row;
        assert(all_upstreams(sites, from)[j] == row);
    }
}

/// A backend of a site is listed.
proof fn lemma_in_site(s: SiteConfigView, from: int, k: int, u: int)
    requires
        0 <= from <= k < s.routes.len(),
        s.routes[k].handler is Proxy,
        0 <= u < s.routes[k].handler->Proxy_0.upstreams.len(),
    ensures
        site_upstreams(s, from).contains(
            UpstreamRowView {
                site: s.host,
                route: s.routes[k].path,
                address: s.routes[k].handler->Proxy_0.upstreams[u].addr,
                weight: s.routes[k].handler->Proxy_0.upstreams[u].weight,
            },
        ),
    decreases k - from,
{
    let row = UpstreamRowView {
        site: s.host,
        route: s.routes[k].path,
        address: s.routes[k].handler->Proxy_0.upstreams[u].addr,
        weight: s.routes[k].handler->Proxy_0.upstreams[u].weight,
    };
    let here = route_upstreams(s.host, s.routes[from], 0);
    let rest = site_upstreams(s, from + 1);
    if from < k {
        lemma_in_site(s, from + 1, k, u);
        let j = choose|j: int| 0 <= j < rest.len() && rest[j] == row;
        assert(site_upstreams(s, from)[here.len() + j] == row);
    } else {
        lemma_in_route(s.host, s.routes[k], 0, u);
        let j = choose|j: int| 0 <= j < here.len() && here[j] == row;
        assert(site_upstreams(s, from)[j] == row);
    }
}

/// A backend of a route is listed.
proof fn lemma_in_route(site: Seq<char>, r: RouteConfigView, from: int, u: int)
    requires
        r.handler is Proxy,
        0 <= from <= u < r.handler->Proxy_0.upstreams.len(),
    ensures
        route_upstreams(site, r, from).contains(
            UpstreamRowView {
                site,
                route: r.path,
                address: r.handler->Proxy_0.upstreams[u].addr,
                weight: r.handler->Proxy_0.upstreams[u].weight,
            },
        ),
    decreases u - from,
{
    let row = UpstreamRowView {
        site,
        route: r.path,
        address: r.handler->Proxy_0.upstreams[u].addr,
        weight: r.handler->Proxy_0.upstreams[u].weight,
    };
    let all = route_upstreams(site, r, from);
    if from == u {
        assert(all[0] == row);
    } else {
        lemma_in_route(site, r, from + 1, u);
        let rest = route_upstreams(site, r, from + 1);
        let j = choose|j: int| 0 <= j < rest.len() && rest[j] == row;
        assert(all[j + 1] == row);
    }
}

} // verus!
