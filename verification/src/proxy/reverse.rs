//! The reverse proxy: which backend a request goes to, what it is sent, and what
//! becomes of its answer.

use vstd::prelude::*;
use crate::config::types::{ProxyConfig, ProxyConfigView};
use crate::data;
use crate::data::Data;
use crate::error;
use crate::error::{ProxyError, ProxyErrorView};
use crate::message;
use crate::message::{
    build_uri, field_name, field_value, parse_uri, ClientAddr, ClientView, Fields, Headers, Request,
    RequestView, Response, ResponseView, Uri, UriView,
};
use crate::pattern;
use crate::proxy::health;
use crate::proxy::health::{PassiveHealthChecker, PassiveView};
use crate::proxy::lb;
use crate::proxy::lb::{Balancer, BalancerView, LbContext, LbContextView, LoadBalancer};
use crate::proxy::upstream;
use crate::proxy::upstream::{ConnGuard, Entries, UpstreamPool, UpstreamPoolView};
use crate::proxy::websocket;
use crate::sorted_map;
use crate::sorted_map::SortedMap;
use crate::text;
use crate::time::Instant;

verus! {

// ---------------------------------------------------------------------------
// Paths
// ---------------------------------------------------------------------------

/// The parts of a path that are left of the first `i` ones after `.` and empty
/// parts are dropped and each `..` has taken the part before it away.
pub open spec fn resolved_parts(p: Seq<Seq<char>>, i: int) -> Seq<Seq<char>>
    decreases i,
{
    if i <= 0 || i > p.len() {
        seq![]
    } else {
        let before = resolved_parts(p, i - 1);
        if p[i - 1].len() == 0 || p[i - 1] == "."@ {
            before
        } else if p[i - 1] == ".."@ {
            if before.len() == 0 {
                before
            } else {
                before.drop_last()
            }
        } else {
            before.push(p[i - 1])
        }
    }
}

/// A path without repeated slashes, `.` and `..`. A `..` never leads above the
/// root.
pub open spec fn clean_path(path: Seq<char>) -> Seq<char> {
    let p = text::pieces(path, '/');
    "/"@ + text::joined(resolved_parts(p, p.len() as int), "/"@)
}

/// A path without repeated slashes, `.` and `..`.
///
/// - `//foo///bar` becomes `/foo/bar`.
/// - `/a/./b` becomes `/a/b`.
/// - `/a/../../b` becomes `/b`.
pub fn sanitize_path(path: &str) -> (r: String)
    ensures
        r@ == clean_path(path@),
{
    let p = text::split(path, '/');
    let ghost ps = p.deep_view();
    let mut parts: Vec<String> = Vec::new();
    assert(parts.deep_view() =~= seq![]);
    for i in 0..p.len()
        invariant
            ps == p.deep_view(),
            parts.deep_view() == resolved_parts(ps, i as int),
    {
        assert(ps[i as int] == p@[i as int]@);
        let s = p[i].as_str();
        let ghost before = parts.deep_view();
        if s.is_empty() || text::same(s, ".") {
        } else if text::same(s, "..") {
            if parts.len() > 0 {
                parts.pop();
                assert(parts.deep_view() =~= before.drop_last());
            }
        } else {
            parts.push(s.to_owned());
            assert(parts.deep_view() =~= before.push(ps[i as int]));
        }
    }
    text::join("/", text::join_all(&parts, "/").as_str())
}

/// No part of a clean path is empty, `.` or `..`, so that it never leads above the
/// root.
pub proof fn lemma_clean_parts(p: Seq<Seq<char>>, i: int)
    ensures
        forall|k: int|
            0 <= k < resolved_parts(p, i).len() ==> (#[trigger] resolved_parts(p, i)[k]).len() > 0
                && resolved_parts(p, i)[k] != "."@ && resolved_parts(p, i)[k] != ".."@,
    decreases i,
{
    if 0 < i <= p.len() {
        lemma_clean_parts(p, i - 1);
        let before = resolved_parts(p, i - 1);
        assert(forall|k: int|
            0 <= k < resolved_parts(p, i).len() && k < before.len() ==> #[trigger] resolved_parts(
                p,
                i,
            )[k] == before[k]);
    }
}

/// Every part that is left is one of those that were there.
proof fn lemma_resolved_from(p: Seq<Seq<char>>, i: int)
    requires
        0 <= i <= p.len(),
    ensures
        forall|k: int|
            0 <= k < resolved_parts(p, i).len() ==> exists|j: int|
                0 <= j < i && #[trigger] resolved_parts(p, i)[k] == #[trigger] p[j],
    decreases i,
{
    if 0 < i {
        lemma_resolved_from(p, i - 1);
        let before = resolved_parts(p, i - 1);
        let now = resolved_parts(p, i);
        assert forall|k: int| 0 <= k < now.len() implies exists|j: int|
            0 <= j < i && #[trigger] now[k] == #[trigger] p[j] by {
            if k < before.len() {
                assert(now[k] == before[k]);
                let j = choose|j: int| 0 <= j < i - 1 && #[trigger] before[k] == #[trigger] p[j];
                assert(now[k] == p[j]);
            } else {
                assert(now[k] == p[i - 1]);
            }
        }
    }
}

/// Parts that need no change stay as they are.
proof fn lemma_clean_parts_stay(p: Seq<Seq<char>>, i: int)
    requires
        0 <= i <= p.len(),
        forall|k: int|
            0 <= k < p.len() ==> (#[trigger] p[k]).len() > 0 && p[k] != "."@ && p[k] != ".."@,
    ensures
        resolved_parts(seq![Seq::<char>::empty()] + p, i + 1) == p.take(i),
    decreases i,
{
    let all = seq![Seq::<char>::empty()] + p;
    assert(all[i] == if i == 0 {
        Seq::<char>::empty()
    } else {
        p[i - 1]
    });
    if i == 0 {
        assert(resolved_parts(all, 0) =~= seq![]);
        assert(p.take(0) =~= seq![]);
    } else {
        lemma_clean_parts_stay(p, i - 1);
        assert(p.take(i) =~= p.take(i - 1).push(p[i - 1]));
    }
}

/// Cleaning a clean path changes nothing.
pub proof fn lemma_clean_path_twice(path: Seq<char>)
    ensures
        clean_path(clean_path(path)) == clean_path(path),
{
    reveal_strlit("/");
    let p = text::pieces(path, '/');
    let parts = resolved_parts(p, p.len() as int);
    text::lemma_pieces(path, '/', 0);
    lemma_clean_parts(p, p.len() as int);
    lemma_resolved_from(p, p.len() as int);
    let sep = seq!['/'];
    assert("/"@ =~= sep);
    let none = Seq::<char>::empty();
    if parts.len() == 0 {
        let two = seq![none, none];
        assert(two.drop_last() =~= seq![none]);
        assert(text::joined(seq![none], sep) == none);
        assert(text::joined(two, sep) =~= sep);
        text::lemma_pieces_of_joined(two, '/');
        assert(clean_path(path) =~= sep);
        assert(resolved_parts(two, 0) =~= seq![]);
        assert(resolved_parts(two, 1) =~= seq![]);
        assert(resolved_parts(two, 2) =~= seq![]);
    } else {
        let all = seq![none] + parts;
        assert forall|i: int| 0 <= i < all.len() implies !(#[trigger] all[i]).contains('/') by {
            if i > 0 {
                assert(all[i] == parts[i - 1]);
                let j = choose|j: int| 0 <= j < p.len() && #[trigger] parts[i - 1] == #[trigger] p[j];
                assert(!p[j].contains('/'));
            }
        }
        text::lemma_joined_front(none, parts, sep);
        assert(none + sep + text::joined(parts, sep) =~= sep + text::joined(parts, sep));
        text::lemma_pieces_of_joined(all, '/');
        lemma_clean_parts_stay(parts, parts.len() as int);
        assert(parts.take(parts.len() as int) =~= parts);
    }
}

/// What is asked for, with a clean path.
pub open spec fn clean_target(target: Seq<char>) -> Seq<char> {
    match text::cut(target, '?') {
        Some((path, query)) => if query.len() > 0 {
            clean_path(path) + "?"@ + query
        } else {
            clean_path(path)
        },
        None => clean_path(target),
    }
}

/// A URI with a clean path, where it is still a URI then.
pub open spec fn clean_uri(u: UriView) -> UriView {
    match message::built_uri(u.scheme, u.authority, clean_target(u.target())) {
        Ok(v) => v,
        Err(_) => u,
    }
}

/// Cleans the path of a URI, where it is still a URI then.
fn sanitize_uri(u: Uri) -> (r: Uri)
    ensures
        r.deep_view() == clean_uri(u.deep_view()),
{
    let raw = u.target();
    let clean = match text::split_once(raw.as_str(), '?') {
        Some((path, query)) => {
            let p = sanitize_path(path.as_str());
            if !query.as_str().is_empty() {
                text::join3(p.as_str(), "?", query.as_str())
            } else {
                p
            }
        },
        None => sanitize_path(raw.as_str()),
    };
    match build_uri(&u.scheme, &u.authority, clean.as_str()) {
        Ok(v) => v,
        Err(_) => u,
    }
}

// ---------------------------------------------------------------------------
// Header fields
// ---------------------------------------------------------------------------

/// Header fields as one rule changes them: `-name` takes a field away, anything
/// else sets one. A name or a value that cannot stand in a message changes nothing.
pub open spec fn field_rule(h: Fields, name: Seq<char>, value: Seq<char>) -> Fields {
    match text::after_prefix(name, "-"@) {
        Some(n) => if message::is_field_name(n) {
            message::fields_without(h, text::lowered(n))
        } else {
            h
        },
        None => if message::is_field_name(name) && message::is_field_value(value) {
            message::fields_with(h, name, vstd::utf8::encode_utf8(value))
        } else {
            h
        },
    }
}

/// Changes header fields as one rule says.
pub fn apply_field_rule(h: &mut Headers, name: &str, value: &str)
    ensures
        final(h).deep_view() == field_rule(old(h).deep_view(), name@, value@),
{
    match text::strip_prefix(name, "-") {
        Some(n) => {
            if field_name(n.as_str()).is_some() {
                h.remove(n.as_str());
            }
        },
        None => {
            if field_name(name).is_some() {
                if let Some(v) = field_value(value) {
                    h.insert(name, v);
                }
            }
        },
    }
}

/// Header fields as the rules from `i` on change them for a client.
pub open spec fn rules_applied(
    h: Fields,
    rules: Seq<(Seq<char>, Seq<char>)>,
    ip: Option<Seq<char>>,
    i: int,
) -> Fields
    decreases rules.len() - i,
{
    if i < 0 || i >= rules.len() {
        h
    } else {
        let value = match ip {
            Some(t) => text::replaced(rules[i].1, "{client_ip}"@, t),
            None => rules[i].1,
        };
        rules_applied(field_rule(h, rules[i].0, value), rules, ip, i + 1)
    }
}

/// Changes header fields as rules say. Where a client is given, `{client_ip}` in a
/// value stands for its address.
pub fn apply_rules(h: &mut Headers, rules: &SortedMap<String, String>, ip: Option<&str>)
    ensures
        final(h).deep_view() == rules_applied(
            old(h).deep_view(),
            rules.deep_view(),
            ip.deep_view(),
            0,
        ),
{
    let ghost rs = rules.deep_view();
    for i in 0..rules.entries.len()
        invariant
            rs == rules.deep_view(),
            rules_applied(h.deep_view(), rs, ip.deep_view(), i as int) == rules_applied(
                old(h).deep_view(),
                rs,
                ip.deep_view(),
                0,
            ),
    {
        let e = &rules.entries[i];
        assert(rs[i as int] == (e.0@, e.1@));
        match ip {
            Some(t) => {
                let value = text::replace(e.1.as_str(), "{client_ip}", t);
                apply_field_rule(h, e.0.as_str(), value.as_str());
            },
            None => apply_field_rule(h, e.0.as_str(), e.1.as_str()),
        }
    }
}

/// Header fields as one rule with an expression changes them: the text of the field
/// is replaced where it has one and the outcome can stand in a message.
pub open spec fn replace_rule(h: Fields, r: (Seq<char>, Seq<char>, Seq<char>)) -> Fields {
    if !message::is_field_name(r.0) || !pattern::regex_accepted(r.1) {
        h
    } else {
        match message::field_of(h, r.0) {
            Some(s) => {
                let t = pattern::regex_replaced_all(r.1, s, r.2);
                if message::is_field_value(t) {
                    message::fields_with(h, r.0, vstd::utf8::encode_utf8(t))
                } else {
                    h
                }
            },
            None => h,
        }
    }
}

/// Header fields as the rules with an expression from `i` on change them.
pub open spec fn replacements_applied(
    h: Fields,
    rules: Seq<(Seq<char>, Seq<char>, Seq<char>)>,
    i: int,
) -> Fields
    decreases rules.len() - i,
{
    if i < 0 || i >= rules.len() {
        h
    } else {
        replacements_applied(replace_rule(h, rules[i]), rules, i + 1)
    }
}

/// Changes header fields as rules with an expression say.
pub fn apply_replacements(h: &mut Headers, rules: &Vec<(String, String, String)>)
    ensures
        final(h).deep_view() == replacements_applied(old(h).deep_view(), rules.deep_view(), 0),
{
    let ghost rs = rules.deep_view();
    for i in 0..rules.len()
        invariant
            rs == rules.deep_view(),
            replacements_applied(h.deep_view(), rs, i as int) == replacements_applied(
                old(h).deep_view(),
                rs,
                0,
            ),
    {
        let r = &rules[i];
        assert(rs[i as int] == (r.0@, r.1@, r.2@));
        if field_name(r.0.as_str()).is_some() {
            if let Some(s) = h.text(r.0.as_str()) {
                if let Some(t) = pattern::replace_all(r.1.as_str(), s.as_str(), r.2.as_str()) {
                    if let Some(v) = field_value(t.as_str()) {
                        h.insert(r.0.as_str(), v);
                    }
                }
            }
        }
    }
}

// ---------------------------------------------------------------------------
// The proxy
// ---------------------------------------------------------------------------

/// The plain values of a [`ReverseProxy`].
#[verifier::ext_equal]
pub struct ReverseProxyView {
    pub pool: UpstreamPoolView,
    pub lb: BalancerView,
    pub passive_health: Option<PassiveView>,
    pub headers_up: Seq<(Seq<char>, Seq<char>)>,
    pub headers_down: Seq<(Seq<char>, Seq<char>)>,
    pub retries: u32,
    pub error_pages: Seq<(u16, Seq<char>)>,
    pub headers_up_replace: Seq<(Seq<char>, Seq<char>, Seq<char>)>,
    pub sanitize_uri: bool,
}

/// Hands requests on to backends, with retries.
///
/// A request goes through [`ReverseProxy::begin`], then through rounds of
/// [`ReverseProxy::next_attempt`], the sending itself, and
/// [`ReverseProxy::on_response`] or [`ReverseProxy::on_failure`], until one of them
/// says how the client is answered.
pub struct ReverseProxy {
    pub pool: UpstreamPool,
    pub lb: Balancer,
    pub passive_health: Option<PassiveHealthChecker>,
    pub headers_up: SortedMap<String, String>,
    pub headers_down: SortedMap<String, String>,
    pub retries: u32,
    pub error_pages: SortedMap<u16, String>,
    /// Rules of a field, an expression and what its matches are replaced by.
    pub headers_up_replace: Vec<(String, String, String)>,
    pub sanitize_uri: bool,
}

impl DeepView for ReverseProxy {
    type V = ReverseProxyView;

    open spec fn deep_view(&self) -> ReverseProxyView {
        ReverseProxyView {
            pool: self.pool.deep_view(),
            lb: self.lb.deep_view(),
            passive_health: self.passive_health.deep_view(),
            headers_up: self.headers_up.deep_view(),
            headers_down: self.headers_down.deep_view(),
            retries: self.retries,
            error_pages: self.error_pages.deep_view(),
            headers_up_replace: self.headers_up_replace.deep_view(),
            sanitize_uri: self.sanitize_uri,
        }
    }
}

/// The rules from `i` on whose expression is one.
pub open spec fn valid_rules(
    rules: Seq<(Seq<char>, Seq<char>, Seq<char>)>,
    i: int,
) -> Seq<(Seq<char>, Seq<char>, Seq<char>)>
    decreases rules.len() - i,
{
    if i < 0 || i >= rules.len() {
        seq![]
    } else if pattern::regex_accepted(rules[i].1) {
        seq![rules[i]] + valid_rules(rules, i + 1)
    } else {
        valid_rules(rules, i + 1)
    }
}

/// The proxy of a configuration at its start.
pub open spec fn new_proxy(c: ProxyConfigView) -> ReverseProxyView {
    ReverseProxyView {
        pool: upstream::new_pool(c),
        lb: lb::balancer_of(c),
        passive_health: match c.passive_health {
            Some(p) => Some(PassiveView { entries: Map::empty(), config: p }),
            None => None,
        },
        headers_up: c.headers_up,
        headers_down: c.headers_down,
        retries: c.retries,
        error_pages: c.error_pages,
        headers_up_replace: valid_rules(c.headers_up_replace, 0),
        sanitize_uri: c.sanitize_uri,
    }
}

/// What is known of a request while it is tried.
#[verifier::ext_equal]
pub struct ProxyRunView {
    /// Attempts that have been made.
    pub attempts: nat,
    /// The backend that the last attempt failed at.
    pub last_failed: Option<int>,
    /// What went wrong at the last attempt.
    pub last_error: Option<ProxyErrorView>,
}

/// What is known of a request while it is tried.
#[derive(Debug)]
pub struct ProxyRun {
    pub attempts: u64,
    pub last_failed: Option<usize>,
    pub last_error: Option<ProxyError>,
}

impl DeepView for ProxyRun {
    type V = ProxyRunView;

    open spec fn deep_view(&self) -> ProxyRunView {
        ProxyRunView {
            attempts: self.attempts as nat,
            last_failed: lb::index(self.last_failed),
            last_error: self.last_error.deep_view(),
        }
    }
}

/// A request of which nothing has been tried.
pub open spec fn fresh_run() -> ProxyRunView {
    ProxyRunView { attempts: 0, last_failed: None, last_error: None }
}

/// How a request begins.
#[derive(Debug)]
pub enum ProxyStart {
    /// It asks for a WebSocket: the connection goes to the backend at the address.
    WebSocket { addr: String, guard: ConnGuard },
    /// It is answered at once.
    Answer(Response),
    /// It cannot be served.
    Fail(ProxyError),
    /// It is tried.
    Try(ProxyRun),
}

/// An attempt that is to be made.
#[derive(Debug)]
pub struct Attempt {
    /// The place of the backend.
    pub index: usize,
    /// The address of the backend.
    pub addr: String,
    /// What the backend is sent, but for the body.
    pub request: Request,
    /// The connection that has been counted for it.
    pub guard: ConnGuard,
}

/// The body of an answer.
#[derive(Debug, PartialEq, Eq)]
pub enum AnswerBody {
    /// What the backend sent.
    Upstream,
    /// A page of the configuration.
    Page(String),
}

/// What becomes of an attempt.
#[derive(Debug)]
pub enum Verdict {
    /// The request is tried again.
    Retry(ProxyRun),
    /// The client is answered.
    Answer { headers: Headers, body: AnswerBody },
    /// The request cannot be served.
    Fail(ProxyError),
}

/// The plain values of an [`AnswerBody`].
#[verifier::ext_equal]
pub enum AnswerBodyView {
    Upstream,
    Page(Seq<char>),
}

/// The plain values of a [`Verdict`].
#[verifier::ext_equal]
pub enum VerdictView {
    Retry(ProxyRunView),
    Answer { headers: Fields, body: AnswerBodyView },
    Fail(ProxyErrorView),
}

impl DeepView for AnswerBody {
    type V = AnswerBodyView;

    open spec fn deep_view(&self) -> AnswerBodyView {
        match self {
            AnswerBody::Upstream => AnswerBodyView::Upstream,
            AnswerBody::Page(s) => AnswerBodyView::Page(s@),
        }
    }
}

impl DeepView for Verdict {
    type V = VerdictView;

    open spec fn deep_view(&self) -> VerdictView {
        match self {
            Verdict::Retry(r) => VerdictView::Retry(r.deep_view()),
            Verdict::Answer { headers, body } => VerdictView::Answer {
                headers: headers.deep_view(),
                body: body.deep_view(),
            },
            Verdict::Fail(e) => VerdictView::Fail(e.deep_view()),
        }
    }
}

/// What a strategy may know of a request.
pub open spec fn lb_context(req: RequestView, client: ClientView) -> LbContextView {
    LbContextView { client, uri: req.uri.target(), headers: req.headers }
}

/// The answer where there are too many connections.
pub open spec fn limit_response() -> ResponseView {
    message::plain_response(503, "Service Unavailable: connection limit exceeded"@)
}

/// Tells whether there are as many connections as there may be.
pub open spec fn at_limit(p: UpstreamPoolView) -> bool {
    match p.max_connections {
        Some(max) => upstream::conns_of(
            upstream::entries(p),
            upstream::entries(p).len() as int,
        ) >= max,
        None => false,
    }
}

/// How a request begins.
pub enum StartView {
    /// It asks for a WebSocket and is given a backend at once.
    Socket,
    /// It is answered at once.
    Answer(ResponseView),
    /// It is tried.
    Try(ProxyRunView),
}

/// How a request with the fields begins.
pub open spec fn start_of(p: ReverseProxyView, h: Fields) -> StartView {
    if websocket::asks_upgrade(h) {
        StartView::Socket
    } else if at_limit(p.pool) {
        StartView::Answer(limit_response())
    } else {
        StartView::Try(fresh_run())
    }
}

/// What a backend is sent: the request with a clean path, for the backend's
/// address, with its fields changed as the rules say.
pub open spec fn upstream_request(
    p: ReverseProxyView,
    req: RequestView,
    addr: Seq<char>,
    ip: Seq<char>,
) -> Result<RequestView, ProxyErrorView> {
    let uri = if p.sanitize_uri {
        clean_uri(req.uri)
    } else {
        req.uri
    };
    let scheme = if text::begins(addr, "https://"@) || text::begins(addr, "http://"@) {
        ""@
    } else {
        "http://"@
    };
    match message::parsed_uri(scheme + addr + uri.target()) {
        Err(e) => Err(ProxyErrorView::Internal("invalid upstream URI: "@ + e)),
        Ok(uri) => {
            let h = if message::is_field_value(addr) {
                message::fields_with(req.headers, "host"@, vstd::utf8::encode_utf8(addr))
            } else {
                req.headers
            };
            let h = rules_applied(h, p.headers_up, Some(ip), 0);
            Ok(
                RequestView {
                    uri,
                    headers: replacements_applied(h, p.headers_up_replace, 0),
                    ..req
                },
            )
        },
    }
}

/// What a request that found no backend fails with.
pub open spec fn no_backend(run: ProxyRunView) -> ProxyErrorView {
    match run.last_error {
        Some(e) => e,
        None => ProxyErrorView::NoUpstream,
    }
}

/// Tells whether the proxy may pick the place and have the strategy `after`
/// afterwards. A place that has just failed is given a second thought where there
/// are others.
pub open spec fn selects(
    before: BalancerView,
    es: Entries,
    ctx: LbContextView,
    last_failed: Option<int>,
    after: BalancerView,
    r: Option<int>,
) -> bool {
    exists|b: BalancerView, first: Option<int>| #[trigger]
        Balancer::picks(before, es, ctx, b, first) && if first is Some && first == last_failed
            && es.len() > 1 {
            Balancer::picks(b, es, ctx, after, r)
        } else {
            after == b && r == first
        }
}

/// The proxy after a request was handed to a backend: the strategy is another, and one
/// more connection to the backend is counted.
pub open spec fn handed_to(
    p: ReverseProxyView,
    lb: BalancerView,
    addr: Seq<char>,
) -> ReverseProxyView {
    ReverseProxyView { lb, pool: upstream::connected(p.pool, addr), ..p }
}

/// The verdict on an attempt that a backend answered with a status and fields.
pub open spec fn answered(
    p: ReverseProxyView,
    run: ProxyRunView,
    index: int,
    addr: Seq<char>,
    status: u16,
    reason: Seq<char>,
    headers: Fields,
) -> VerdictView {
    if 500 <= status < 600 && run.attempts + 1 < 1 + p.retries {
        VerdictView::Retry(
            ProxyRunView {
                attempts: run.attempts + 1,
                last_failed: Some(index),
                last_error: Some(
                    ProxyErrorView::Internal("upstream "@ + addr + " returned "@ + reason),
                ),
            },
        )
    } else {
        VerdictView::Answer {
            headers: rules_applied(headers, p.headers_down, None, 0),
            body: match sorted_map::lookup(p.error_pages, status) {
                Some(s) => AnswerBodyView::Page(s),
                None => AnswerBodyView::Upstream,
            },
        }
    }
}

/// The verdict on an attempt that failed.
pub open spec fn failed(p: ReverseProxyView, run: ProxyRunView, index: int, e: ProxyErrorView)
    -> VerdictView {
    if run.attempts + 1 < 1 + p.retries {
        VerdictView::Retry(
            ProxyRunView {
                attempts: run.attempts + 1,
                last_failed: Some(index),
                last_error: Some(e),
            },
        )
    } else {
        VerdictView::Fail(e)
    }
}

/// The proxy after a failure of a backend has been noted.
pub open spec fn noted(p: ReverseProxyView, addr: Seq<char>, now: Instant) -> ReverseProxyView {
    match p.passive_health {
        Some(h) => ReverseProxyView {
            pool: health::pool_after_failure(p.pool, h, addr, now),
            passive_health: Some(health::failure_noted(h, addr, now)),
            ..p
        },
        None => p,
    }
}

/// The proxy after backends that were taken down may have been let up again.
pub open spec fn checked(p: ReverseProxyView, now: Instant) -> ReverseProxyView {
    match p.passive_health {
        Some(h) => {
            let es = upstream::entries(p.pool);
            ReverseProxyView {
                pool: health::revived(p.pool, h, es, now, 0),
                passive_health: Some(health::recovered(h, es, now)),
                ..p
            }
        },
        None => p,
    }
}

/// The proxy after an answer with a status: one that says that the server failed is
/// noted, and where the client is answered backends may be let up again.
pub open spec fn after_answer(
    p: ReverseProxyView,
    addr: Seq<char>,
    status: u16,
    retried: bool,
    now: Instant,
) -> ReverseProxyView {
    let q = if 500 <= status < 600 {
        noted(p, addr, now)
    } else {
        p
    };
    if retried {
        q
    } else {
        checked(q, now)
    }
}

/// A copy of rules whose expression is one.
fn copy_valid_rules(rules: &Vec<(String, String, String)>) -> (r: Vec<(String, String, String)>)
    ensures
        r.deep_view() == valid_rules(rules.deep_view(), 0),
{
    let ghost rs = rules.deep_view();
    let mut out: Vec<(String, String, String)> = Vec::new();
    assert(out.deep_view() + valid_rules(rs, 0) =~= valid_rules(rs, 0));
    for i in 0..rules.len()
        invariant
            rs == rules.deep_view(),
            out.deep_view() + valid_rules(rs, i as int) == valid_rules(rs, 0),
    {
        let r = &rules[i];
        assert(rs[i as int] == (r.0@, r.1@, r.2@));
        if pattern::is_regex(r.1.as_str()) {
            let ghost before = out.deep_view();
            out.push(r.duplicate());
            assert(out.deep_view() =~= before.push(rs[i as int]));
            assert(out.deep_view() + valid_rules(rs, i + 1) =~= before + (seq![rs[i as int]]
                + valid_rules(rs, i + 1)));
        }
    }
    assert(out.deep_view() =~= out.deep_view() + valid_rules(rs, rs.len() as int));
    out
}

impl ReverseProxy {
    /// The proxy of a configuration. Rules whose expression is none are left out.
    pub fn new(config: &ProxyConfig) -> (p: ReverseProxy)
        ensures
            p.deep_view() == new_proxy(config.deep_view()),
    {
        let passive_health = match &config.passive_health {
            Some(c) => Some(PassiveHealthChecker::new(c)),
            None => None,
        };
        ReverseProxy {
            pool: UpstreamPool::from_config(config),
            lb: Balancer::from_config(config),
            passive_health,
            headers_up: config.headers_up.duplicate(),
            headers_down: config.headers_down.duplicate(),
            retries: config.retries,
            error_pages: config.error_pages.duplicate(),
            headers_up_replace: copy_valid_rules(&config.headers_up_replace),
            sanitize_uri: config.sanitize_uri,
        }
    }

    /// What a strategy may know of a request.
    fn context(request: &Request, client: &ClientAddr) -> (c: LbContext)
        ensures
            c.deep_view() == lb_context(request.deep_view(), client.deep_view()),
    {
        LbContext {
            client: client.clone(),
            uri: request.uri.target(),
            headers: request.headers.clone(),
        }
    }

    /// Begins with a request. One that asks for a WebSocket is given a backend at
    /// once; any other is tried, unless there are too many connections.
    pub fn begin(&mut self, request: &Request, client: &ClientAddr) -> (r: ProxyStart)
        ensures
            ({
                let p = old(self).deep_view();
                let q = final(self).deep_view();
                let req = request.deep_view();
                let es = upstream::entries(p.pool);
                let ctx = lb_context(req, client.deep_view());
                match start_of(p, req.headers) {
                    StartView::Socket => exists|i: Option<int>| #[trigger]
                        Balancer::picks(p.lb, es, ctx, q.lb, i) && match i {
                            Some(i) => {
                                &&& upstream::healthy(es, i)
                                &&& r matches ProxyStart::WebSocket { addr, guard }
                                &&& addr@ == es[i].backend.addr
                                &&& guard.deep_view() == Some(addr@)
                                &&& q == handed_to(p, q.lb, addr@)
                            },
                            None => {
                                &&& r matches ProxyStart::Fail(e)
                                &&& e.deep_view() == ProxyErrorView::NoUpstream
                                &&& q == ReverseProxyView { lb: q.lb, ..p }
                            },
                        },
                    StartView::Answer(x) => q == p && (r matches ProxyStart::Answer(a) && a.deep_view()
                        == x),
                    StartView::Try(x) => q == p && (r matches ProxyStart::Try(run) && run.deep_view()
                        == x),
                }
            }),
    {
        if websocket::is_websocket_upgrade(request) {
            let ctx = ReverseProxy::context(request, client);
            let picked = self.lb.select(&self.pool, &ctx);
            let ghost i = lb::index(picked);
            assert(Balancer::picks(
                old(self).deep_view().lb,
                upstream::entries(old(self).deep_view().pool),
                ctx.deep_view(),
                self.deep_view().lb,
                i,
            ));
            return match picked {
                Some(idx) => {
                    let s = self.pool.snapshot();
                    assert(s.deep_view()[idx as int] == s.entries@[idx as int].deep_view());
                    let addr = s.entries[idx].backend.addr.clone();
                    let guard = self.pool.acquire_conn(idx);
                    ProxyStart::WebSocket { addr, guard }
                },
                None => ProxyStart::Fail(ProxyError::NoUpstream),
            };
        }
        if let Some(max) = self.pool.max_connections() {
            if self.pool.total_active_conns() >= max as u128 {
                return ProxyStart::Answer(
                    Response::plain(503, "Service Unavailable: connection limit exceeded"),
                );
            }
        }
        ProxyStart::Try(ProxyRun { attempts: 0, last_failed: None, last_error: None })
    }

    /// Builds what a backend is sent.
    pub fn build_request(&self, request: &Request, addr: &str, client: &ClientAddr) -> (r: Result<
        Request,
        ProxyError,
    >)
        ensures
            data::outcome(r) == upstream_request(
                self.deep_view(),
                request.deep_view(),
                addr@,
                client.deep_view().ip_text,
            ),
    {
        let uri = if self.sanitize_uri {
            sanitize_uri(request.uri.clone())
        } else {
            request.uri.clone()
        };
        let scheme = if text::starts_with(addr, "https://") || text::starts_with(addr, "http://") {
            ""
        } else {
            "http://"
        };
        let full = text::join3(scheme, addr, uri.target().as_str());
        let uri = match parse_uri(full.as_str()) {
            Ok(u) => u,
            Err(e) => return Err(
                ProxyError::Internal(text::join("invalid upstream URI: ", e.as_str())),
            ),
        };
        let mut headers = request.headers.clone();
        if let Some(v) = field_value(addr) {
            headers.insert("host", v);
        }
        apply_rules(&mut headers, &self.headers_up, Some(client.ip_text.as_str()));
        apply_replacements(&mut headers, &self.headers_up_replace);
        Ok(Request { method: request.method.clone(), uri, version: request.version, headers })
    }

    /// Picks a backend for the next attempt and builds what it is sent. The
    /// connection to it is counted. Where no backend is found the request fails with
    /// what went wrong at the last attempt.
    pub fn next_attempt(&mut self, run: &ProxyRun, request: &Request, client: &ClientAddr) -> (r:
        Result<Attempt, ProxyError>)
        ensures
            ({
                let p = old(self).deep_view();
                let q = final(self).deep_view();
                let req = request.deep_view();
                let es = upstream::entries(p.pool);
                let ctx = lb_context(req, client.deep_view());
                exists|i: Option<int>| #[trigger]
                    selects(p.lb, es, ctx, run.deep_view().last_failed, q.lb, i) && match i {
                        None => {
                            &&& r matches Err(e)
                            &&& e.deep_view() == no_backend(run.deep_view())
                            &&& q == ReverseProxyView { lb: q.lb, ..p }
                        },
                        Some(i) => {
                            let addr = es[i].backend.addr;
                            &&& upstream::healthy(es, i)
                            &&& match upstream_request(
                                p,
                                req,
                                addr,
                                client.deep_view().ip_text,
                            ) {
                                Err(x) => {
                                    &&& r matches Err(e)
                                    &&& e.deep_view() == x
                                    &&& q == ReverseProxyView { lb: q.lb, ..p }
                                },
                                Ok(x) => {
                                    &&& r matches Ok(a)
                                    &&& a.index == i
                                    &&& a.addr@ == addr
                                    &&& a.request.deep_view() == x
                                    &&& a.guard.deep_view() == Some(addr)
                                    &&& q == handed_to(p, q.lb, addr)
                                },
                            }
                        },
                    }
            }),
    {
        let ctx = ReverseProxy::context(request, client);
        let ghost start = self.deep_view();
        let ghost es = upstream::entries(start.pool);
        let first = self.lb.select(&self.pool, &ctx);
        let ghost b = self.lb.deep_view();
        let again = match (first, run.last_failed) {
            (Some(i), Some(j)) => i == j && self.pool.len() > 1,
            _ => false,
        };
        let picked = if again {
            self.lb.select(&self.pool, &ctx)
        } else {
            first
        };
        proof {
            assert(Balancer::picks(start.lb, es, ctx.deep_view(), b, lb::index(first)));
            assert(selects(
                start.lb,
                es,
                ctx.deep_view(),
                run.deep_view().last_failed,
                self.lb.deep_view(),
                lb::index(picked),
            ));
        }
        let idx = match picked {
            Some(i) => i,
            None => return Err(
                match &run.last_error {
                    Some(e) => e.duplicate(),
                    None => ProxyError::NoUpstream,
                },
            ),
        };
        let s = self.pool.snapshot();
        assert(s.deep_view()[idx as int] == s.entries@[idx as int].deep_view());
        let addr = s.entries[idx].backend.addr.clone();
        let request = match self.build_request(request, addr.as_str(), client) {
            Ok(x) => x,
            Err(e) => return Err(e),
        };
        let guard = self.pool.acquire_conn(idx);
        Ok(Attempt { index: idx, addr, request, guard })
    }

    /// Notes a failure of a backend, where failures are watched.
    fn note_failure(&mut self, addr: &str, now: Instant)
        ensures
            final(self).deep_view() == noted(old(self).deep_view(), addr@, now),
    {
        let mut watch: Option<PassiveHealthChecker> = None;
        std::mem::swap(&mut watch, &mut self.passive_health);
        if let Some(mut h) = watch {
            h.record_failure(&mut self.pool, addr, now);
            self.passive_health = Some(h);
        }
    }

    /// Lets backends be tried again that were taken down long enough ago.
    fn check_recovery(&mut self, now: Instant)
        ensures
            final(self).deep_view() == checked(old(self).deep_view(), now),
    {
        let mut watch: Option<PassiveHealthChecker> = None;
        std::mem::swap(&mut watch, &mut self.passive_health);
        if let Some(mut h) = watch {
            h.maybe_recover(&mut self.pool, now);
            self.passive_health = Some(h);
        }
    }

    /// Decides what becomes of an attempt that the backend answered. An answer that
    /// says that the server failed is noted, and tried again while attempts are
    /// left; any other goes to the client, with its fields changed as the rules say
    /// and, for some statuses, with a page in place of its body. `reason` is the
    /// status in words.
    pub fn on_response(
        &mut self,
        run: &ProxyRun,
        attempt: &Attempt,
        status: u16,
        reason: &str,
        headers: Headers,
        now: Instant,
    ) -> (r: Verdict)
        requires
            run.attempts < u64::MAX,
        ensures
            r.deep_view() == answered(
                old(self).deep_view(),
                run.deep_view(),
                attempt.index as int,
                attempt.addr@,
                status,
                reason@,
                headers.deep_view(),
            ),
            final(self).deep_view() == after_answer(
                old(self).deep_view(),
                attempt.addr@,
                status,
                r is Retry,
                now,
            ),
    {
        let server_error = 500 <= status && status < 600;
        if server_error {
            self.note_failure(attempt.addr.as_str(), now);
        }
        if server_error && run.attempts + 1 < 1 + self.retries as u64 {
            let e = text::join(
                text::join3("upstream ", attempt.addr.as_str(), " returned ").as_str(),
                reason,
            );
            return Verdict::Retry(
                ProxyRun {
                    attempts: run.attempts + 1,
                    last_failed: Some(attempt.index),
                    last_error: Some(ProxyError::Internal(e)),
                },
            );
        }
        let mut headers = headers;
        apply_rules(&mut headers, &self.headers_down, None);
        self.check_recovery(now);
        let body = match self.error_pages.get(&status) {
            Some(s) => AnswerBody::Page(s.clone()),
            None => AnswerBody::Upstream,
        };
        Verdict::Answer { headers, body }
    }

    /// Decides what becomes of an attempt that failed: it is noted, and tried again
    /// while attempts are left.
    pub fn on_failure(
        &mut self,
        run: &ProxyRun,
        attempt: &Attempt,
        error: ProxyError,
        now: Instant,
    ) -> (r: Verdict)
        requires
            run.attempts < u64::MAX,
        ensures
            r.deep_view() == failed(
                old(self).deep_view(),
                run.deep_view(),
                attempt.index as int,
                error.deep_view(),
            ),
            final(self).deep_view() == noted(old(self).deep_view(), attempt.addr@, now),
    {
        self.note_failure(attempt.addr.as_str(), now);
        if run.attempts + 1 < 1 + self.retries as u64 {
            Verdict::Retry(
                ProxyRun {
                    attempts: run.attempts + 1,
                    last_failed: Some(attempt.index),
                    last_error: Some(error),
                },
            )
        } else {
            Verdict::Fail(error)
        }
    }
}

// ---------------------------------------------------------------------------
// What holds of every request
// ---------------------------------------------------------------------------

/// A request is tried again only while fewer attempts have been made than the
/// configuration allows, and each attempt counts: after `retries` repetitions there
/// is no other.
pub proof fn lemma_attempts_bounded(
    p: ReverseProxyView,
    run: ProxyRunView,
    index: int,
    addr: Seq<char>,
    status: u16,
    reason: Seq<char>,
    headers: Fields,
    e: ProxyErrorView,
)
    ensures
        answered(p, run, index, addr, status, reason, headers) matches VerdictView::Retry(n)
            ==> n.attempts == run.attempts + 1 && n.attempts <= p.retries,
        failed(p, run, index, e) matches VerdictView::Retry(n) ==> n.attempts == run.attempts + 1
            && n.attempts <= p.retries,
{
}

/// An answer that does not say that the server failed is never tried again, and the
/// last allowed attempt never is.
pub proof fn lemma_answer_is_final(
    p: ReverseProxyView,
    run: ProxyRunView,
    index: int,
    addr: Seq<char>,
    status: u16,
    reason: Seq<char>,
    headers: Fields,
)
    requires
        !(500 <= status < 600) || run.attempts >= p.retries,
    ensures
        answered(p, run, index, addr, status, reason, headers) is Answer,
{
}

/// A failure or an answer leaves the rules of the proxy as they are; only the
/// strategy and what is known of backends change.
pub proof fn lemma_rules_stay(p: ReverseProxyView, addr: Seq<char>, now: Instant)
    ensures
        ({
            let q = checked(noted(p, addr, now), now);
            &&& q.headers_up == p.headers_up
            &&& q.headers_down == p.headers_down
            &&& q.retries == p.retries
            &&& q.error_pages == p.error_pages
            &&& q.headers_up_replace == p.headers_up_replace
            &&& q.sanitize_uri == p.sanitize_uri
            &&& q.lb == p.lb
        }),
{
}

/// Every answer that says that the server failed is tried again while attempts are left,
/// and so is every failure: the next attempt knows which backend failed and why.
pub proof fn lemma_server_error_retried(
    p: ReverseProxyView,
    run: ProxyRunView,
    index: int,
    addr: Seq<char>,
    status: u16,
    reason: Seq<char>,
    headers: Fields,
    e: ProxyErrorView,
)
    requires
        500 <= status <= 599,
        run.attempts < p.retries,
    ensures
        answered(p, run, index, addr, status, reason, headers) matches VerdictView::Retry(n)
            && n.attempts == run.attempts + 1 && n.last_failed == Some(index)
            && n.last_error == Some(
            ProxyErrorView::Internal("upstream "@ + addr + " returned "@ + reason),
        ),
        failed(p, run, index, e) matches VerdictView::Retry(n) && n.attempts == run.attempts + 1
            && n.last_failed == Some(index) && n.last_error == Some(e),
{
}

/// The failure of the last allowed attempt is what the request fails with, and so is
/// what went wrong last where no backend is left to try.
pub proof fn lemma_last_failure_told(
    p: ReverseProxyView,
    run: ProxyRunView,
    index: int,
    e: ProxyErrorView,
)
    requires
        run.attempts >= p.retries,
    ensures
        failed(p, run, index, e) == VerdictView::Fail(e),
        run.last_error == Some(e) ==> no_backend(run) == e,
        run.last_error is None ==> no_backend(run) is NoUpstream,
{
}

/// The verdict on the `n`th attempt in a row that the server failed at, from the first
/// attempt on.
pub open spec fn after_errors(
    p: ReverseProxyView,
    index: int,
    addr: Seq<char>,
    status: u16,
    reason: Seq<char>,
    headers: Fields,
    n: nat,
) -> VerdictView
    decreases n,
{
    if n == 0 {
        VerdictView::Retry(fresh_run())
    } else {
        match after_errors(p, index, addr, status, reason, headers, (n - 1) as nat) {
            VerdictView::Retry(run) => answered(p, run, index, addr, status, reason, headers),
            v => v,
        }
    }
}

/// A request is tried once and then as often again as the configuration says, no more
/// and no less, where the server fails every time.
pub proof fn lemma_number_of_attempts(
    p: ReverseProxyView,
    index: int,
    addr: Seq<char>,
    status: u16,
    reason: Seq<char>,
    headers: Fields,
    n: nat,
)
    requires
        500 <= status <= 599,
    ensures
        n <= p.retries ==> (after_errors(
            p,
            index,
            addr,
            status,
            reason,
            headers,
            n,
        ) matches VerdictView::Retry(run) && run.attempts == n),
        n > p.retries ==> after_errors(p, index, addr, status, reason, headers, n) is Answer,
    decreases n,
{
    if n > 0 {
        lemma_number_of_attempts(p, index, addr, status, reason, headers, (n - 1) as nat);
    }
}

/// A client that is answered gets the page of the configuration for the status, where
/// there is one, and else what the backend sent; every field that no rule names is as
/// the backend sent it.
pub proof fn lemma_answer_of_backend(
    p: ReverseProxyView,
    run: ProxyRunView,
    index: int,
    addr: Seq<char>,
    status: u16,
    reason: Seq<char>,
    headers: Fields,
    q: Seq<char>,
)
    requires
        !(500 <= status < 600) || run.attempts >= p.retries,
        forall|j: int| 0 <= j < p.headers_down.len() ==> !names((#[trigger] p.headers_down[j]).0, q),
    ensures
        answered(p, run, index, addr, status, reason, headers) matches VerdictView::Answer {
            headers: h,
            body,
        } && message::value_of(h, q) == message::value_of(headers, q) && (match body {
            AnswerBodyView::Page(s) => exists|j: int|
                0 <= j < p.error_pages.len() && #[trigger] p.error_pages[j] == (status, s),
            AnswerBodyView::Upstream => forall|j: int|
                0 <= j < p.error_pages.len() ==> (#[trigger] p.error_pages[j]).0 != status,
        }),
{
    lemma_unnamed_fields_stay(headers, p.headers_down, None, 0, q);
    sorted_map::lemma_position(p.error_pages, status, 0);
}

/// A server failure is noted whether or not the request is tried again, and no other
/// answer is; without a watch on failures nothing changes.
pub proof fn lemma_failures_noted(
    p: ReverseProxyView,
    addr: Seq<char>,
    status: u16,
    now: Instant,
)
    ensures
        500 <= status <= 599 ==> after_answer(p, addr, status, true, now) == noted(p, addr, now)
            && after_answer(p, addr, status, false, now) == checked(noted(p, addr, now), now),
        !(500 <= status <= 599) ==> after_answer(p, addr, status, false, now) == checked(p, now),
        p.passive_health is None ==> after_answer(p, addr, status, false, now) == p && noted(
            p,
            addr,
            now,
        ) == p,
        p.passive_health matches Some(h) ==> noted(p, addr, now).passive_health == Some(
            health::failure_noted(h, addr, now),
        ) && noted(p, addr, now).pool == health::pool_after_failure(p.pool, h, addr, now),
{
}

/// The name of a rule stands for a field: it is the name, or a dash and the name,
/// whatever the letter case.
pub open spec fn names(rule: Seq<char>, q: Seq<char>) -> bool {
    text::lowered(rule) == text::lowered(q) || text::lowered(rule) == seq!['-'] + text::lowered(q)
}

/// A rule `-name` takes the field away and a rule with a name sets it; either leaves all
/// other fields as they are.
pub proof fn lemma_field_rule(h: Fields, name: Seq<char>, value: Seq<char>, q: Seq<char>)
    requires
        message::is_field_name(name),
        name.len() > 0,
    ensures
        text::lowered(q) == text::lowered(name) ==> message::value_of(
            field_rule(h, seq!['-'] + name, value),
            q,
        ) is None,
        text::lowered(q) != text::lowered(name) ==> message::value_of(
            field_rule(h, seq!['-'] + name, value),
            q,
        ) == message::value_of(h, q),
        name[0] != '-' && message::is_field_value(value) ==> message::value_of(
            field_rule(h, name, value),
            q,
        ) == if text::lowered(q) == text::lowered(name) {
            Some(vstd::utf8::encode_utf8(value))
        } else {
            message::value_of(h, q)
        },
        name[0] != '-' && !message::is_field_value(value) ==> field_rule(h, name, value) == h,
{
    reveal_strlit("-");
    assert(seq!['-'] =~= "-"@);
    text::lemma_after_prefix("-"@, name);
    message::lemma_fields_without(h, text::lowered(name), text::lowered(q));
    message::lemma_fields_with(h, name, vstd::utf8::encode_utf8(value), q);
    if text::begins(name, "-"@) {
        assert(name.subrange(0, 1)[0] == name[0]);
    }
}

/// Fields that no rule names stay as they are.
pub proof fn lemma_unnamed_fields_stay(
    h: Fields,
    rules: Seq<(Seq<char>, Seq<char>)>,
    ip: Option<Seq<char>>,
    i: int,
    q: Seq<char>,
)
    requires
        0 <= i,
        forall|j: int| i <= j < rules.len() ==> !names((#[trigger] rules[j]).0, q),
    ensures
        message::value_of(rules_applied(h, rules, ip, i), q) == message::value_of(h, q),
    decreases rules.len() - i,
{
    if i < rules.len() {
        let value = match ip {
            Some(t) => text::replaced(rules[i].1, "{client_ip}"@, t),
            None => rules[i].1,
        };
        let name = rules[i].0;
        reveal_strlit("-");
        assert(!names(rules[i].0, q));
        if let Some(n) = text::after_prefix(name, "-"@) {
            assert(name[0] == '-') by {
                assert(name.subrange(0, 1)[0] == name[0]);
            }
            assert(name =~= seq!['-'] + n);
            assert(text::lowered(name) =~= seq!['-'] + text::lowered(n));
            message::lemma_fields_without(h, text::lowered(n), text::lowered(q));
        } else {
            message::lemma_fields_with(h, name, vstd::utf8::encode_utf8(value), q);
        }
        lemma_unnamed_fields_stay(field_rule(h, name, value), rules, ip, i + 1, q);
    }
}

/// The rules take effect one after the other, so that the last one holds; for a client
/// `{client_ip}` in the value stands for its address.
pub proof fn lemma_last_rule_holds(
    h: Fields,
    rules: Seq<(Seq<char>, Seq<char>)>,
    ip: Option<Seq<char>>,
    i: int,
)
    requires
        0 <= i < rules.len(),
    ensures
        rules_applied(h, rules, ip, i) == field_rule(
            rules_applied(h, rules.drop_last(), ip, i),
            rules.last().0,
            match ip {
                Some(t) => text::replaced(rules.last().1, "{client_ip}"@, t),
                None => rules.last().1,
            },
        ),
    decreases rules.len() - i,
{
    let d = rules.drop_last();
    let value = match ip {
        Some(t) => text::replaced(rules[i].1, "{client_ip}"@, t),
        None => rules[i].1,
    };
    let g = field_rule(h, rules[i].0, value);
    if i + 1 < rules.len() {
        assert(d[i] == rules[i]);
        lemma_last_rule_holds(g, rules, ip, i + 1);
    } else {
        assert(rules_applied(g, rules, ip, i + 1) == g);
        assert(rules_applied(h, d, ip, i) == h);
    }
}

/// A field that a rule sets and no later rule names has the value of the rule.
pub proof fn lemma_rule_sets_field(
    h: Fields,
    rules: Seq<(Seq<char>, Seq<char>)>,
    i: int,
    ip: Seq<char>,
)
    requires
        0 <= i < rules.len(),
        message::is_field_name(rules[i].0),
        rules[i].0.len() > 0,
        rules[i].0[0] != '-',
        message::is_field_value(text::replaced(rules[i].1, "{client_ip}"@, ip)),
        forall|j: int| i < j < rules.len() ==> !names((#[trigger] rules[j]).0, rules[i].0),
    ensures
        message::value_of(rules_applied(h, rules, Some(ip), 0), rules[i].0) == Some(
            vstd::utf8::encode_utf8(text::replaced(rules[i].1, "{client_ip}"@, ip)),
        ),
{
    let upto = rules.take(i + 1);
    lemma_rules_in_two(h, rules, Some(ip), i + 1, 0);
    lemma_last_rule_holds(h, upto, Some(ip), 0);
    assert(upto.drop_last() =~= rules.take(i));
    assert(upto.last() == rules[i]);
    let before = rules_applied(h, rules.take(i), Some(ip), 0);
    lemma_field_rule(
        before,
        rules[i].0,
        text::replaced(rules[i].1, "{client_ip}"@, ip),
        rules[i].0,
    );
    lemma_unnamed_fields_stay(
        rules_applied(h, upto, Some(ip), 0),
        rules,
        Some(ip),
        i + 1,
        rules[i].0,
    );
}

/// Rules may be applied in two goes.
proof fn lemma_rules_in_two(
    h: Fields,
    rules: Seq<(Seq<char>, Seq<char>)>,
    ip: Option<Seq<char>>,
    n: int,
    i: int,
)
    requires
        0 <= i <= n <= rules.len(),
    ensures
        rules_applied(h, rules, ip, i) == rules_applied(
            rules_applied(h, rules.take(n), ip, i),
            rules,
            ip,
            n,
        ),
    decreases n - i,
{
    if i < n {
        assert(rules.take(n)[i] == rules[i]);
        let value = match ip {
            Some(t) => text::replaced(rules[i].1, "{client_ip}"@, t),
            None => rules[i].1,
        };
        lemma_rules_in_two(field_rule(h, rules[i].0, value), rules, ip, n, i + 1);
    }
}

/// What a backend is sent has the method and the version of the request, and where no
/// rule says otherwise the address of the backend as its host and all other fields of
/// the request. It goes to the address, by HTTP where the address names no scheme, with
/// the path and the query of the request.
pub proof fn lemma_request_handed_on(
    p: ReverseProxyView,
    req: RequestView,
    addr: Seq<char>,
    ip: Seq<char>,
    q: Seq<char>,
)
    requires
        p.headers_up_replace.len() == 0,
        forall|j: int| 0 <= j < p.headers_up.len() ==> !names((#[trigger] p.headers_up[j]).0, q),
        !p.sanitize_uri,
        message::is_field_value(addr),
    ensures
        upstream_request(p, req, addr, ip) matches Ok(x) ==> x.method == req.method && x.version
            == req.version && message::value_of(x.headers, q) == if text::lowered(q)
            == text::lowered("host"@) {
            Some(vstd::utf8::encode_utf8(addr))
        } else {
            message::value_of(req.headers, q)
        },
        text::begins(addr, "http://"@) || text::begins(addr, "https://"@) ==> (
        match message::parsed_uri(addr + req.uri.target()) {
            Ok(u) => upstream_request(p, req, addr, ip) matches Ok(x) && x.uri == u,
            Err(_) => upstream_request(p, req, addr, ip) is Err,
        }),
        !text::begins(addr, "http://"@) && !text::begins(addr, "https://"@) ==> (
        match message::parsed_uri("http://"@ + addr + req.uri.target()) {
            Ok(u) => upstream_request(p, req, addr, ip) matches Ok(x) && x.uri == u,
            Err(_) => upstream_request(p, req, addr, ip) is Err,
        }),
{
    reveal_strlit("");
    let v = vstd::utf8::encode_utf8(addr);
    let h = message::fields_with(req.headers, "host"@, v);
    message::lemma_fields_with(req.headers, "host"@, v, q);
    lemma_unnamed_fields_stay(h, p.headers_up, Some(ip), 0, q);
    assert(""@ + addr =~= addr);
    let g = rules_applied(h, p.headers_up, Some(ip), 0);
    assert(replacements_applied(g, p.headers_up_replace, 0) == g);
}

/// A request that was just failed by a backend goes to another one next, where the
/// backends take turns and another one is up.
pub proof fn lemma_retry_goes_elsewhere(
    counter: usize,
    es: Entries,
    ctx: LbContextView,
    failed: int,
    other: int,
    after: BalancerView,
    r: Option<int>,
)
    requires
        counter + 2 * es.len() <= usize::MAX,
        selects(BalancerView::RoundRobin(counter), es, ctx, Some(failed), after, r),
        upstream::healthy(es, failed),
        upstream::healthy(es, other),
        failed != other,
    ensures
        r matches Some(i) && i != failed && upstream::healthy(es, i),
{
    let before = BalancerView::RoundRobin(counter);
    let (b, first) = choose|b: BalancerView, first: Option<int>| #[trigger]
        Balancer::picks(before, es, ctx, b, first) && if first is Some && first == Some(failed)
            && es.len() > 1 {
            Balancer::picks(b, es, ctx, after, r)
        } else {
            after == b && r == first
        };
    let c = match b {
        BalancerView::RoundRobin(c) => c,
        _ => 0,
    };
    lb::lemma_picked_is_up(before, es, ctx, b, first, failed);
    lb::lemma_round_robin_next(es, ctx, counter, c, first);
    assert(es.len() > 1);
    if first == Some(failed) {
        let d = match after {
            BalancerView::RoundRobin(d) => d,
            _ => 0,
        };
        lb::lemma_turns_alternate(es, ctx, counter, c, d, first, r, failed, other);
        lb::lemma_picked_is_up(b, es, ctx, after, r, failed);
    }
}

/// A path is clean of `.` and of empty parts, and a `..` takes away the part before it:
/// a path with one more part behind it is clean in the same way, with the part behind it
/// where that is an ordinary one.
pub proof fn lemma_clean_path_part_by_part(path: Seq<char>, part: Seq<char>, x: Seq<char>)
    requires
        !part.contains('/'),
        !x.contains('/'),
        x.len() > 0 && x != "."@ && x != ".."@,
    ensures
        part.len() == 0 || part == "."@ ==> clean_path(path + seq!['/'] + part) == clean_path(path),
        clean_path(path + seq!['/'] + x) == if clean_path(path) == seq!['/'] {
            seq!['/'] + x
        } else {
            clean_path(path) + seq!['/'] + x
        },
        clean_path(path + seq!['/'] + x + seq!['/'] + ".."@) == clean_path(path),
        clean_path(path) == seq!['/'] ==> clean_path(path + seq!['/'] + ".."@) == seq!['/'],
        clean_path(Seq::empty()) == seq!['/'],
{
    reveal_strlit("/");
    reveal_strlit("..");
    reveal_strlit(".");
    assert("/"@ =~= seq!['/']);
    let sep = "/"@;
    let p = text::pieces(path, '/');
    let parts = resolved_parts(p, p.len() as int);
    assert(!".."@.contains('/'));
    text::lemma_pieces_behind(path, part, '/', 0);
    text::lemma_pieces_behind(path, x, '/', 0);
    text::lemma_pieces_behind(path, ".."@, '/', 0);
    text::lemma_pieces_behind(path + seq!['/'] + x, ".."@, '/', 0);
    lemma_resolved_prefix(p, p.push(part), p.len() as int);
    lemma_resolved_prefix(p, p.push(x), p.len() as int);
    lemma_resolved_prefix(p, p.push(".."@), p.len() as int);
    let two = p.push(x).push(".."@);
    lemma_resolved_prefix(p.push(x), two, p.len() as int + 1);
    lemma_clean_parts(p, p.len() as int);
    assert(resolved_parts(p.push(x), p.len() as int + 1) == parts.push(x));
    assert(parts.push(x).drop_last() =~= parts);
    assert(".."@ != "."@) by {
        assert(".."@.len() == 2 && "."@.len() == 1);
    }
    assert(resolved_parts(two, p.len() as int + 2) == parts);
    assert(parts.push(x).drop_last() =~= parts && parts.push(x).last() == x);
    if parts.len() == 0 {
        assert(parts.push(x) =~= seq![x]);
        assert(text::joined(parts, sep) =~= Seq::<char>::empty());
        assert(clean_path(path) =~= seq!['/']);
    } else {
        assert(clean_path(path) != seq!['/']) by {
            lemma_joined_some(parts);
            assert(clean_path(path).len() > 1);
        }
        assert(text::joined(parts.push(x), sep) =~= text::joined(parts, sep) + sep + x);
        assert(clean_path(path + seq!['/'] + x) =~= clean_path(path) + seq!['/'] + x);
    }
    let none = Seq::<char>::empty();
    text::lemma_pieces_of_joined(seq![none], '/');
    assert(text::joined(seq![none], seq!['/']) =~= none);
    assert(resolved_parts(seq![none], 0) =~= seq![]);
    assert(resolved_parts(seq![none], 1) =~= seq![]);
    assert(clean_path(none) =~= seq!['/']);
}

/// What is left of the first parts does not depend on what follows them.
proof fn lemma_resolved_prefix(p: Seq<Seq<char>>, all: Seq<Seq<char>>, i: int)
    requires
        0 <= i <= p.len() <= all.len(),
        forall|k: int| 0 <= k < p.len() ==> p[k] == #[trigger] all[k],
    ensures
        resolved_parts(all, i) == resolved_parts(p, i),
    decreases i,
{
    if i > 0 {
        lemma_resolved_prefix(p, all, i - 1);
        assert(p[i - 1] == all[i - 1]);
    }
}

/// Parts of which one is not empty, joined, are not empty.
proof fn lemma_joined_some(p: Seq<Seq<char>>)
    requires
        p.len() > 0,
        p.last().len() > 0,
    ensures
        text::joined(p, "/"@).len() > 0,
{
    if p.len() > 1 {
        assert(text::joined(p, "/"@) == text::joined(p.drop_last(), "/"@) + "/"@ + p.last());
    }
}

/// A request that asks for a WebSocket is given one whatever the number of connections;
/// any other is refused with 503 where there are as many connections as there may be, and
/// begins with no attempt made where there are fewer or no limit is set.
pub proof fn lemma_start(p: ReverseProxyView, h: Fields)
    ensures
        websocket::asks_upgrade(h) <==> start_of(p, h) is Socket,
        !websocket::asks_upgrade(h) && p.pool.max_connections is None ==> start_of(p, h)
            == StartView::Try(ProxyRunView { attempts: 0, last_failed: None, last_error: None }),
        !websocket::asks_upgrade(h) && (p.pool.max_connections matches Some(n)
            && upstream::conns_of(
            upstream::entries(p.pool),
            upstream::entries(p.pool).len() as int,
        ) < n) ==> start_of(p, h) == StartView::Try(
            ProxyRunView { attempts: 0, last_failed: None, last_error: None },
        ),
        !websocket::asks_upgrade(h) && (p.pool.max_connections matches Some(n)
            && upstream::conns_of(
            upstream::entries(p.pool),
            upstream::entries(p.pool).len() as int,
        ) >= n) ==> (start_of(p, h) matches StartView::Answer(a) && a.status == 503),
{
}

/// A request that is handed to a backend counts as one connection to it and to no other;
/// whether backends are up, the rules and what is known of failures stay.
pub proof fn lemma_connection_counted(
    p: ReverseProxyView,
    lb: BalancerView,
    addr: Seq<char>,
    other: Seq<char>,
)
    requires
        upstream::state_of(p.pool, addr).1 < usize::MAX,
        other != addr,
    ensures
        ({
            let q = handed_to(p, lb, addr);
            let (before, after) = (
                upstream::state_of(p.pool, addr),
                upstream::state_of(q.pool, addr),
            );
            &&& after.1 == before.1 + 1 && after.0 == before.0
            &&& upstream::state_of(q.pool, other) == upstream::state_of(p.pool, other)
            &&& q.retries == p.retries && q.passive_health == p.passive_health && q.headers_up
                == p.headers_up && q.headers_down == p.headers_down && q.error_pages
                == p.error_pages && q.lb == lb
        }),
{
}

} // verus!
