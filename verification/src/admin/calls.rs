//! What a request of the admin interface asks for, and whether it may.

use vstd::prelude::*;
use super::answers;
use super::answers::json_response;
use crate::config::types::{GlobalConfig, GlobalConfigView};
use crate::crypto::constant_time_eq;
use crate::data::Data;
use crate::message;
use crate::message::{Fields, Headers, Request, RequestView, Response, ResponseView};
use crate::text;

verus! {

/// What is done with a resource.
#[derive(Clone, Copy, Debug, PartialEq, Eq, Structural)]
pub enum Action {
    Read,
    Replace,
    Patch,
    Remove,
}

impl DeepView for Action {
    type V = Action;

    open spec fn deep_view(&self) -> Action {
        *self
    }
}

impl Data for Action {
    fn duplicate(&self) -> (r: Action) {
        *self
    }

    fn same_as(&self, other: &Action) -> (r: bool) {
        *self == *other
    }
}

/// The plain values of a [`AdminCall`].
#[verifier::ext_equal]
pub enum AdminCallView {
    GetConfig,
    ReloadConfig,
    PostConfig,
    TestConfig,
    Stop,
    Health,
    Upstreams,
    Metrics,
    Runtime,
    RuntimeState,
    ListServices,
    Service(Action, Seq<char>),
    ListListeners(Seq<char>),
    Listener(Action, Seq<char>, Seq<char>),
    ListRoutes(Seq<char>),
    Route(Action, Seq<char>, Seq<char>),
    ListRouteTargets(Seq<char>, Seq<char>),
    ListTargets(Seq<char>, Seq<char>, Seq<char>),
    Target(Action, Seq<char>, Seq<char>, Seq<char>, Seq<char>),
    NotFound,
}

/// What a request asks for.
#[derive(Debug, PartialEq, Eq)]
pub enum AdminCall {
    /// The configuration.
    GetConfig,
    ReloadConfig,
    PostConfig,
    TestConfig,
    Stop,
    Health,
    Upstreams,
    Metrics,
    Runtime,
    RuntimeState,
    ListServices,
    /// A service by its id.
    Service(Action, String),
    ListListeners(String),
    /// A listener by the ids of its service and its own.
    Listener(Action, String, String),
    ListRoutes(String),
    /// A route by the ids of its service and its own.
    Route(Action, String, String),
    ListRouteTargets(String, String),
    ListTargets(String, String, String),
    /// A target by the ids of its service, route, group and its own.
    Target(Action, String, String, String, String),
    NotFound,
}

impl DeepView for AdminCall {
    type V = AdminCallView;

    open spec fn deep_view(&self) -> AdminCallView {
        match self {
            AdminCall::GetConfig => AdminCallView::GetConfig,
            AdminCall::ReloadConfig => AdminCallView::ReloadConfig,
            AdminCall::PostConfig => AdminCallView::PostConfig,
            AdminCall::TestConfig => AdminCallView::TestConfig,
            AdminCall::Stop => AdminCallView::Stop,
            AdminCall::Health => AdminCallView::Health,
            AdminCall::Upstreams => AdminCallView::Upstreams,
            AdminCall::Metrics => AdminCallView::Metrics,
            AdminCall::Runtime => AdminCallView::Runtime,
            AdminCall::RuntimeState => AdminCallView::RuntimeState,
            AdminCall::ListServices => AdminCallView::ListServices,
            AdminCall::Service(a0, a1) => AdminCallView::Service(a0.deep_view(), a1.deep_view()),
            AdminCall::ListListeners(a) => AdminCallView::ListListeners(a.deep_view()),
            AdminCall::Listener(a0, a1, a2) => {
                AdminCallView::Listener(a0.deep_view(), a1.deep_view(), a2.deep_view())
            },
            AdminCall::ListRoutes(a) => AdminCallView::ListRoutes(a.deep_view()),
            AdminCall::Route(a0, a1, a2) => {
                AdminCallView::Route(a0.deep_view(), a1.deep_view(), a2.deep_view())
            },
            AdminCall::ListRouteTargets(a0, a1) => {
                AdminCallView::ListRouteTargets(a0.deep_view(), a1.deep_view())
            },
            AdminCall::ListTargets(a0, a1, a2) => {
                AdminCallView::ListTargets(a0.deep_view(), a1.deep_view(), a2.deep_view())
            },
            AdminCall::Target(a0, a1, a2, a3, a4) => {
                AdminCallView::Target(
                    a0.deep_view(),
                    a1.deep_view(),
                    a2.deep_view(),
                    a3.deep_view(),
                    a4.deep_view(),
                )
            },
            AdminCall::NotFound => AdminCallView::NotFound,
        }
    }
}

impl Data for AdminCall {
    fn duplicate(&self) -> (r: AdminCall) {
        match self {
            AdminCall::GetConfig => AdminCall::GetConfig,
            AdminCall::ReloadConfig => AdminCall::ReloadConfig,
            AdminCall::PostConfig => AdminCall::PostConfig,
            AdminCall::TestConfig => AdminCall::TestConfig,
            AdminCall::Stop => AdminCall::Stop,
            AdminCall::Health => AdminCall::Health,
            AdminCall::Upstreams => AdminCall::Upstreams,
            AdminCall::Metrics => AdminCall::Metrics,
            AdminCall::Runtime => AdminCall::Runtime,
            AdminCall::RuntimeState => AdminCall::RuntimeState,
            AdminCall::ListServices => AdminCall::ListServices,
            AdminCall::Service(a0, a1) => AdminCall::Service(a0.duplicate(), a1.duplicate()),
            AdminCall::ListListeners(a) => AdminCall::ListListeners(a.duplicate()),
            AdminCall::Listener(a0, a1, a2) => {
                AdminCall::Listener(a0.duplicate(), a1.duplicate(), a2.duplicate())
            },
            AdminCall::ListRoutes(a) => AdminCall::ListRoutes(a.duplicate()),
            AdminCall::Route(a0, a1, a2) => {
                AdminCall::Route(a0.duplicate(), a1.duplicate(), a2.duplicate())
            },
            AdminCall::ListRouteTargets(a0, a1) => {
                AdminCall::ListRouteTargets(a0.duplicate(), a1.duplicate())
            },
            AdminCall::ListTargets(a0, a1, a2) => {
                AdminCall::ListTargets(a0.duplicate(), a1.duplicate(), a2.duplicate())
            },
            AdminCall::Target(a0, a1, a2, a3, a4) => {
                AdminCall::Target(
                    a0.duplicate(),
                    a1.duplicate(),
                    a2.duplicate(),
                    a3.duplicate(),
                    a4.duplicate(),
                )
            },
            AdminCall::NotFound => AdminCall::NotFound,
        }
    }

    fn same_as(&self, other: &AdminCall) -> (r: bool) {
        match (self, other) {
            (AdminCall::GetConfig, AdminCall::GetConfig) => true,
            (AdminCall::ReloadConfig, AdminCall::ReloadConfig) => true,
            (AdminCall::PostConfig, AdminCall::PostConfig) => true,
            (AdminCall::TestConfig, AdminCall::TestConfig) => true,
            (AdminCall::Stop, AdminCall::Stop) => true,
            (AdminCall::Health, AdminCall::Health) => true,
            (AdminCall::Upstreams, AdminCall::Upstreams) => true,
            (AdminCall::Metrics, AdminCall::Metrics) => true,
            (AdminCall::Runtime, AdminCall::Runtime) => true,
            (AdminCall::RuntimeState, AdminCall::RuntimeState) => true,
            (AdminCall::ListServices, AdminCall::ListServices) => true,
            (AdminCall::Service(a0, a1), AdminCall::Service(b_a0, b_a1)) => {
                a0.same_as(b_a0)
                    && a1.same_as(b_a1)
            },
            (AdminCall::ListListeners(a), AdminCall::ListListeners(b_a)) => a.same_as(b_a),
            (AdminCall::Listener(a0, a1, a2), AdminCall::Listener(b_a0, b_a1, b_a2)) => {
                a0.same_as(b_a0)
                    && a1.same_as(b_a1)
                    && a2.same_as(b_a2)
            },
            (AdminCall::ListRoutes(a), AdminCall::ListRoutes(b_a)) => a.same_as(b_a),
            (AdminCall::Route(a0, a1, a2), AdminCall::Route(b_a0, b_a1, b_a2)) => {
                a0.same_as(b_a0)
                    && a1.same_as(b_a1)
                    && a2.same_as(b_a2)
            },
            (AdminCall::ListRouteTargets(a0, a1), AdminCall::ListRouteTargets(b_a0, b_a1)) => {
                a0.same_as(b_a0)
                    && a1.same_as(b_a1)
            },
            (AdminCall::ListTargets(a0, a1, a2), AdminCall::ListTargets(b_a0, b_a1, b_a2)) => {
                a0.same_as(b_a0)
                    && a1.same_as(b_a1)
                    && a2.same_as(b_a2)
            },
            (
                AdminCall::Target(a0, a1, a2, a3, a4),
                AdminCall::Target(b_a0, b_a1, b_a2, b_a3, b_a4),
            ) => {
                a0.same_as(b_a0)
                    && a1.same_as(b_a1)
                    && a2.same_as(b_a2)
                    && a3.same_as(b_a3)
                    && a4.same_as(b_a4)
            },
            (AdminCall::NotFound, AdminCall::NotFound) => true,
            _ => false,
        }
    }
}

impl Clone for AdminCall {
    fn clone(&self) -> (r: AdminCall)
        ensures
            r.deep_view() == self.deep_view(),
    {
        self.duplicate()
    }
}

/// The segments of a path: what stands between the slashes, where that is not empty.
pub open spec fn filled(p: Seq<Seq<char>>, i: int) -> Seq<Seq<char>>
    decreases p.len() - i,
{
    if i < 0 || i >= p.len() {
        seq![]
    } else if p[i].len() > 0 {
        seq![p[i]] + filled(p, i + 1)
    } else {
        filled(p, i + 1)
    }
}

/// The segments of a path.
pub open spec fn segments_of(path: Seq<char>) -> Seq<Seq<char>> {
    filled(text::pieces(path, '/'), 0)
}

/// The segments of a path.
pub fn path_segments(path: &str) -> (r: Vec<String>)
    ensures
        r.deep_view() == segments_of(path@),
{
    let parts = text::split(path, '/');
    let ghost p = parts.deep_view();
    let mut r: Vec<String> = Vec::new();
    assert(r.deep_view() + filled(p, 0) =~= filled(p, 0));
    for i in 0..parts.len()
        invariant
            p == parts.deep_view(),
            r.deep_view() + filled(p, i as int) == filled(p, 0),
    {
        assert(p[i as int] == parts@[i as int]@);
        if !parts[i].as_str().is_empty() {
            let ghost before = r.deep_view();
            r.push(parts[i].clone());
            assert(r.deep_view() =~= before.push(p[i as int]));
            assert(r.deep_view() + filled(p, i + 1) =~= before + (seq![p[i as int]] + filled(
                p,
                i + 1,
            )));
        }
    }
    assert(r.deep_view() =~= r.deep_view() + filled(p, p.len() as int));
    r
}

/// What a method does with a resource.
pub open spec fn action_of(method: Seq<char>) -> Option<Action> {
    if method == "GET"@ {
        Some(Action::Read)
    } else if method == "PUT"@ {
        Some(Action::Replace)
    } else if method == "PATCH"@ {
        Some(Action::Patch)
    } else if method == "DELETE"@ {
        Some(Action::Remove)
    } else {
        None
    }
}

/// What a method does with a resource.
fn read_action(method: &str) -> (r: Option<Action>)
    ensures
        r == action_of(method@),
{
    if text::same(method, "GET") {
        Some(Action::Read)
    } else if text::same(method, "PUT") {
        Some(Action::Replace)
    } else if text::same(method, "PATCH") {
        Some(Action::Patch)
    } else if text::same(method, "DELETE") {
        Some(Action::Remove)
    } else {
        None
    }
}

/// What a request for a path of one or two segments that names no service asks for.
pub open spec fn plain_call(method: Seq<char>, s: Seq<Seq<char>>) -> Option<AdminCallView> {
    if s.len() == 1 {
        if s[0] == "config"@ && method == "GET"@ {
            Some(AdminCallView::GetConfig)
        } else if s[0] == "config"@ && method == "POST"@ {
            Some(AdminCallView::PostConfig)
        } else if s[0] == "stop"@ && method == "POST"@ {
            Some(AdminCallView::Stop)
        } else if s[0] == "health"@ && method == "GET"@ {
            Some(AdminCallView::Health)
        } else if s[0] == "upstreams"@ && method == "GET"@ {
            Some(AdminCallView::Upstreams)
        } else if s[0] == "metrics"@ && method == "GET"@ {
            Some(AdminCallView::Metrics)
        } else if s[0] == "runtime"@ && method == "GET"@ {
            Some(AdminCallView::Runtime)
        } else if s[0] == "services"@ && method == "GET"@ {
            Some(AdminCallView::ListServices)
        } else {
            None
        }
    } else if s.len() == 2 {
        if s[0] == "config"@ && s[1] == "reload"@ && method == "POST"@ {
            Some(AdminCallView::ReloadConfig)
        } else if s[0] == "config"@ && s[1] == "test"@ && method == "POST"@ {
            Some(AdminCallView::TestConfig)
        } else if s[0] == "runtime"@ && s[1] == "state"@ && method == "GET"@ {
            Some(AdminCallView::RuntimeState)
        } else {
            None
        }
    } else {
        None
    }
}

/// What a request for a resource of a service asks for.
pub open spec fn service_call(method: Seq<char>, s: Seq<Seq<char>>) -> Option<AdminCallView> {
    if s.len() < 2 || s[0] != "services"@ {
        None
    } else {
        match action_of(method) {
            Some(a) => if s.len() == 2 {
                Some(AdminCallView::Service(a, s[1]))
            } else if s.len() == 3 && a == Action::Read && s[2] == "listeners"@ {
                Some(AdminCallView::ListListeners(s[1]))
            } else if s.len() == 3 && a == Action::Read && s[2] == "routes"@ {
                Some(AdminCallView::ListRoutes(s[1]))
            } else if s.len() == 4 && s[2] == "listeners"@ {
                Some(AdminCallView::Listener(a, s[1], s[3]))
            } else if s.len() == 4 && s[2] == "routes"@ {
                Some(AdminCallView::Route(a, s[1], s[3]))
            } else if s.len() == 5 && a == Action::Read && s[2] == "routes"@ && s[4]
                == "targets"@ {
                Some(AdminCallView::ListRouteTargets(s[1], s[3]))
            } else if s.len() == 7 && a == Action::Read && s[2] == "routes"@ && s[4]
                == "target-groups"@ && s[6] == "targets"@ {
                Some(AdminCallView::ListTargets(s[1], s[3], s[5]))
            } else if s.len() == 8 && s[2] == "routes"@ && s[4] == "target-groups"@ && s[6]
                == "targets"@ {
                Some(AdminCallView::Target(a, s[1], s[3], s[5], s[7]))
            } else {
                None
            },
            None => None,
        }
    }
}

/// What a request asks for.
pub open spec fn call_of(method: Seq<char>, s: Seq<Seq<char>>) -> AdminCallView {
    match (plain_call(method, s), service_call(method, s)) {
        (Some(c), _) => c,
        (None, Some(c)) => c,
        (None, None) => AdminCallView::NotFound,
    }
}

/// What a request for a path of one or two segments that names no service asks for.
fn read_plain_call(method: &str, s: &Vec<String>) -> (r: Option<AdminCall>)
    ensures
        r.deep_view() == plain_call(method@, s.deep_view()),
{
    if s.len() == 1 {
        let a = s[0].as_str();
        assert(s.deep_view()[0] == a@);
        if text::same(a, "config") && text::same(method, "GET") {
            Some(AdminCall::GetConfig)
        } else if text::same(a, "config") && text::same(method, "POST") {
            Some(AdminCall::PostConfig)
        } else if text::same(a, "stop") && text::same(method, "POST") {
            Some(AdminCall::Stop)
        } else if text::same(a, "health") && text::same(method, "GET") {
            Some(AdminCall::Health)
        } else if text::same(a, "upstreams") && text::same(method, "GET") {
            Some(AdminCall::Upstreams)
        } else if text::same(a, "metrics") && text::same(method, "GET") {
            Some(AdminCall::Metrics)
        } else if text::same(a, "runtime") && text::same(method, "GET") {
            Some(AdminCall::Runtime)
        } else if text::same(a, "services") && text::same(method, "GET") {
            Some(AdminCall::ListServices)
        } else {
            None
        }
    } else if s.len() == 2 {
        let a = s[0].as_str();
        let b = s[1].as_str();
        assert(s.deep_view()[0] == a@);
        assert(s.deep_view()[1] == b@);
        if text::same(a, "config") && text::same(b, "reload") && text::same(method, "POST") {
            Some(AdminCall::ReloadConfig)
        } else if text::same(a, "config") && text::same(b, "test") && text::same(method, "POST") {
            Some(AdminCall::TestConfig)
        } else if text::same(a, "runtime") && text::same(b, "state") && text::same(method, "GET") {
            Some(AdminCall::RuntimeState)
        } else {
            None
        }
    } else {
        None
    }
}

/// What a request for a resource of a service asks for.
fn read_service_call(method: &str, s: &Vec<String>) -> (r: Option<AdminCall>)
    ensures
        r.deep_view() == service_call(method@, s.deep_view()),
{
    assert(forall|i: int| 0 <= i < s@.len() ==> #[trigger] s.deep_view()[i] == s@[i]@);
    let n = s.len();
    if n < 2 || !text::same(s[0].as_str(), "services") {
        return None;
    }
    let a = match read_action(method) {
        Some(a) => a,
        None => return None,
    };
    if n == 2 {
        return Some(AdminCall::Service(a, s[1].clone()));
    }
    let listeners = text::same(s[2].as_str(), "listeners");
    let routes = text::same(s[2].as_str(), "routes");
    if n == 3 {
        if a == Action::Read && listeners {
            Some(AdminCall::ListListeners(s[1].clone()))
        } else if a == Action::Read && routes {
            Some(AdminCall::ListRoutes(s[1].clone()))
        } else {
            None
        }
    } else if n == 4 {
        if listeners {
            Some(AdminCall::Listener(a, s[1].clone(), s[3].clone()))
        } else if routes {
            Some(AdminCall::Route(a, s[1].clone(), s[3].clone()))
        } else {
            None
        }
    } else if !routes {
        None
    } else if n == 5 && text::same(s[4].as_str(), "targets") && a == Action::Read {
        Some(AdminCall::ListRouteTargets(s[1].clone(), s[3].clone()))
    } else if n >= 7 && text::same(s[4].as_str(), "target-groups") && text::same(
        s[6].as_str(),
        "targets",
    ) {
        if n == 7 && a == Action::Read {
            Some(AdminCall::ListTargets(s[1].clone(), s[3].clone(), s[5].clone()))
        } else if n == 8 {
            Some(
                AdminCall::Target(a, s[1].clone(), s[3].clone(), s[5].clone(), s[7].clone()),
            )
        } else {
            None
        }
    } else {
        None
    }
}

/// Reads what a request asks for.
pub fn read_call(method: &str, segments: &Vec<String>) -> (r: AdminCall)
    ensures
        r.deep_view() == call_of(method@, segments.deep_view()),
{
    match read_plain_call(method, segments) {
        Some(c) => c,
        None => match read_service_call(method, segments) {
            Some(c) => c,
            None => AdminCall::NotFound,
        },
    }
}

/// A request changes something unless it reads, asks for options, or has a
/// configuration tested.
pub open spec fn needs_write(method: Seq<char>, s: Seq<Seq<char>>) -> bool {
    !(method == "GET"@ || method == "HEAD"@ || method == "OPTIONS"@ || (method == "POST"@
        && s == seq!["config"@, "test"@]))
}

/// Tells whether a request changes something.
pub fn admin_request_needs_write(method: &str, segments: &Vec<String>) -> (r: bool)
    ensures
        r == needs_write(method@, segments.deep_view()),
{
    let test = segments.len() == 2 && text::same(segments[0].as_str(), "config") && text::same(
        segments[1].as_str(),
        "test",
    );
    proof {
        let s = segments.deep_view();
        assert(test == (s == seq!["config"@, "test"@])) by {
            let c = seq!["config"@, "test"@];
            assert(c[0] == "config"@ && c[1] == "test"@);
            assert(s.len() == segments@.len());
            if segments@.len() == 2 {
                assert(s[0] == segments@[0]@);
                assert(s[1] == segments@[1]@);
                if test {
                    assert(s =~= c);
                }
            }
        }
    }
    !(text::same(method, "GET") || text::same(method, "HEAD") || text::same(method, "OPTIONS") || (
    text::same(method, "POST") && test))
}

/// The request carries the token.
pub open spec fn bears(h: Fields, token: Seq<char>) -> bool {
    message::field_of(h, "authorization"@) == Some("Bearer "@ + token)
}

/// The request carries the token, where there is one.
pub open spec fn bears_some(h: Fields, token: Option<Seq<char>>) -> bool {
    match token {
        Some(t) => bears(h, t),
        None => false,
    }
}

/// Tells whether a request carries the token.
pub fn check_bearer_auth(headers: &Headers, expected_token: &str) -> (r: bool)
    ensures
        r == bears(headers.deep_view(), expected_token@),
{
    match headers.text("authorization") {
        Some(v) => match text::strip_prefix(v.as_str(), "Bearer ") {
            Some(t) => {
                let (a, b) = (message::utf8(t.as_str()), message::utf8(expected_token));
                let r = constant_time_eq(a.as_slice(), b.as_slice());
                proof {
                    vstd::utf8::encode_utf8_decode_utf8(t@);
                    vstd::utf8::encode_utf8_decode_utf8(expected_token@);
                    assert(v@ =~= "Bearer "@ + t@);
                    if v@ == "Bearer "@ + expected_token@ {
                        assert(t@ =~= expected_token@);
                    }
                }
                r
            },
            None => {
                proof {
                    if v@ == "Bearer "@ + expected_token@ {
                        assert(v@.subrange(0, "Bearer "@.len() as int) =~= "Bearer "@);
                    }
                }
                false
            },
        },
        None => false,
    }
}

/// Tells whether a request carries the token, where there is one.
fn check_token(headers: &Headers, token: &Option<String>) -> (r: bool)
    ensures
        r == bears_some(headers.deep_view(), token.deep_view()),
{
    match token {
        Some(t) => check_bearer_auth(headers, t.as_str()),
        None => false,
    }
}

/// Why a request may not have what it asks for. A token for everything decides
/// alone where there is one. Otherwise a reader needs one of the two tokens and a
/// writer the token for writing, as soon as one of the two is set.
pub open spec fn denial(
    h: Fields,
    g: GlobalConfigView,
    method: Seq<char>,
    s: Seq<Seq<char>>,
) -> Option<ResponseView> {
    let unauthorized = answers::json(401, "{\"error\":\"unauthorized\"}"@);
    match g.admin_auth_token {
        Some(t) => if bears(h, t) {
            None
        } else {
            Some(unauthorized)
        },
        None => {
            let open = g.admin_read_token is None && g.admin_write_token is None;
            if open || bears_some(h, g.admin_write_token) {
                None
            } else if needs_write(method, s) {
                Some(answers::json(403, "{\"error\":\"write access required\"}"@))
            } else if bears_some(h, g.admin_read_token) {
                None
            } else {
                Some(unauthorized)
            }
        },
    }
}

/// Decides whether a request may have what it asks for.
pub fn authorize_admin_request(
    headers: &Headers,
    global: &GlobalConfig,
    method: &str,
    segments: &Vec<String>,
) -> (r: Result<(), Response>)
    ensures
        match r {
            Ok(()) => denial(
                headers.deep_view(),
                global.deep_view(),
                method@,
                segments.deep_view(),
            ) is None,
            Err(a) => denial(
                headers.deep_view(),
                global.deep_view(),
                method@,
                segments.deep_view(),
            ) == Some(a.deep_view()),
        },
{
    let needs_write = admin_request_needs_write(method, segments);
    if let Some(token) = &global.admin_auth_token {
        if check_bearer_auth(headers, token.as_str()) {
            return Ok(());
        }
        return Err(json_response(401, "{\"error\":\"unauthorized\"}"));
    }
    let read_allowed = check_token(headers, &global.admin_read_token);
    let write_allowed = check_token(headers, &global.admin_write_token);
    let closed = global.admin_read_token.is_some() || global.admin_write_token.is_some();
    if !closed || write_allowed {
        Ok(())
    } else if needs_write {
        Err(json_response(403, "{\"error\":\"write access required\"}"))
    } else if read_allowed {
        Ok(())
    } else {
        Err(json_response(401, "{\"error\":\"unauthorized\"}"))
    }
}

/// What becomes of a request: what it asks for, or the answer that refuses it.
pub open spec fn admitted(r: RequestView, g: GlobalConfigView) -> Result<
    AdminCallView,
    ResponseView,
> {
    let s = segments_of(r.uri.path());
    match denial(r.headers, g, r.method, s) {
        Some(a) => Err(a),
        None => match call_of(r.method, s) {
            AdminCallView::NotFound => Err(answers::json(404, "{\"error\":\"not found\"}"@)),
            c => Ok(c),
        },
    }
}

/// Takes a request of the admin interface: hands back what it asks for, or answers
/// it where it may not have that or asks for nothing that there is.
pub fn handle_admin_request(request: &Request, global: &GlobalConfig) -> (r: Result<
    AdminCall,
    Response,
>)
    ensures
        crate::data::outcome(r) == admitted(request.deep_view(), global.deep_view()),
{
    let path = request.uri.path();
    let segments = path_segments(path.as_str());
    match authorize_admin_request(&request.headers, global, request.method.as_str(), &segments) {
        Ok(()) => match read_call(request.method.as_str(), &segments) {
            AdminCall::NotFound => Err(json_response(404, "{\"error\":\"not found\"}")),
            c => Ok(c),
        },
        Err(a) => Err(a),
    }
}

/// Where there is a token for writing, nothing but it, or the token for everything
/// that stands in its place, lets a request change anything.
pub proof fn lemma_only_writers_write(r: RequestView, g: GlobalConfigView)
    requires
        g.admin_write_token is Some || g.admin_read_token is Some || g.admin_auth_token is Some,
        needs_write(r.method, segments_of(r.uri.path())),
        admitted(r, g) is Ok,
    ensures
        bears_some(
            r.headers,
            if g.admin_auth_token is Some {
                g.admin_auth_token
            } else {
                g.admin_write_token
            },
        ),
{
}

/// A request that is let in to write is let in to read with the same fields.
pub proof fn lemma_writers_read(
    h: Fields,
    g: GlobalConfigView,
    method: Seq<char>,
    s: Seq<Seq<char>>,
    read: Seq<char>,
    t: Seq<Seq<char>>,
)
    requires
        denial(h, g, method, s) is None,
        needs_write(method, s),
        !needs_write(read, t),
    ensures
        denial(h, g, read, t) is None,
{
}

/// Without any token every request is let in.
pub proof fn lemma_open_without_tokens(
    h: Fields,
    g: GlobalConfigView,
    method: Seq<char>,
    s: Seq<Seq<char>>,
)
    requires
        g.admin_auth_token is None,
        g.admin_read_token is None,
        g.admin_write_token is None,
    ensures
        denial(h, g, method, s) is None,
{
}

/// What replaces, patches or removes a resource, loads a configuration or stops the
/// server changes something.
pub proof fn lemma_changes_need_write(method: Seq<char>, s: Seq<Seq<char>>)
    ensures
        match call_of(method, s) {
            AdminCallView::ReloadConfig | AdminCallView::PostConfig | AdminCallView::Stop =>
                needs_write(method, s),
            AdminCallView::Service(a, _)
            | AdminCallView::Listener(a, _, _)
            | AdminCallView::Route(a, _, _)
            | AdminCallView::Target(a, _, _, _, _) => a != Action::Read ==> needs_write(
                method,
                s,
            ),
            _ => true,
        },
{
    reveal_strlit("GET");
    reveal_strlit("HEAD");
    reveal_strlit("OPTIONS");
    reveal_strlit("POST");
    reveal_strlit("PUT");
    reveal_strlit("PATCH");
    reveal_strlit("DELETE");
    reveal_strlit("config");
    reveal_strlit("reload");
    reveal_strlit("test");
    assert("HEAD"@[0] == 'H');
    assert("PATCH"@[1] == 'A');
    assert("POST"@[1] == 'O');
    assert("PUT"@[1] == 'U');
    assert("DELETE"@.len() == 6);
    if s == seq!["config"@, "test"@] {
        assert(s.len() == 2 && s[0] == "config"@ && s[1] == "test"@);
        assert("reload"@.len() != "test"@.len());
        reveal_strlit("services");
        assert("services"@.len() != "config"@.len());
    }
}

/// The segments of a path are the parts between its slashes; slashes before, behind and in
/// a row make none.
pub proof fn lemma_segments(parts: Seq<Seq<char>>)
    requires
        parts.len() > 0,
        forall|i: int|
            0 <= i < parts.len() ==> (#[trigger] parts[i]).len() > 0 && !parts[i].contains('/'),
    ensures
        segments_of(seq!['/'] + text::joined(parts, seq!['/'])) == parts,
        segments_of(seq!['/'] + text::joined(parts, seq!['/']) + seq!['/']) == parts,
{
    let none = Seq::<char>::empty();
    let sep = seq!['/'];
    let path = sep + text::joined(parts, sep);
    let all = seq![none] + parts;
    assert forall|i: int| 0 <= i < all.len() implies !(#[trigger] all[i]).contains('/') by {
        if i > 0 {
            assert(all[i] == parts[i - 1]);
        }
    }
    text::lemma_joined_front(none, parts, sep);
    assert(text::joined(all, sep) =~= path);
    text::lemma_pieces_of_joined(all, '/');
    lemma_filled(parts, 0, seq![none], seq![]);
    assert(all =~= seq![none] + parts + seq![]);
    let more = all.push(none);
    text::lemma_pieces_behind(path, none, '/', 0);
    assert(path + sep + none =~= path + sep);
    lemma_filled(parts, 0, seq![none], seq![none]);
    assert(more =~= seq![none] + parts + seq![none]);
    assert(parts.skip(0) =~= parts);
    assert(filled(all, 0) == filled(all, 1));
    assert(filled(more, 0) == filled(more, 1));
}

/// Empty parts around the segments do not count.
proof fn lemma_filled(
    parts: Seq<Seq<char>>,
    i: int,
    front: Seq<Seq<char>>,
    back: Seq<Seq<char>>,
)
    requires
        0 <= i <= parts.len(),
        front.len() == 1,
        back.len() <= 1,
        forall|j: int| 0 <= j < back.len() ==> (#[trigger] back[j]).len() == 0,
        forall|j: int| 0 <= j < parts.len() ==> (#[trigger] parts[j]).len() > 0,
    ensures
        filled(front + parts + back, i + 1) == parts.skip(i),
    decreases parts.len() - i,
{
    let all = front + parts + back;
    if i < parts.len() {
        lemma_filled(parts, i + 1, front, back);
        assert(all[i + 1] == parts[i]);
        assert(seq![parts[i]] + parts.skip(i + 1) =~= parts.skip(i));
    } else {
        assert(parts.skip(i) =~= seq![]);
        if back.len() == 1 {
            assert(all[i + 1] == back[0]);
            assert(filled(all, i + 2) =~= seq![]);
        }
        assert(filled(all, i + 1) =~= seq![]);
    }
}

/// A path names a service, or a listener, a route or a target of one, and the method says
/// whether it is read, replaced, patched or removed; any other method asks for nothing.
pub proof fn lemma_resources_named(
    method: Seq<char>,
    a: Option<Action>,
    sid: Seq<char>,
    x: Seq<char>,
    gid: Seq<char>,
    tid: Seq<char>,
)
    requires
        a == Some(Action::Read) <==> method == "GET"@,
        a == Some(Action::Replace) <==> method == "PUT"@,
        a == Some(Action::Patch) <==> method == "PATCH"@,
        a == Some(Action::Remove) <==> method == "DELETE"@,
    ensures
        call_of(method, seq!["services"@, sid]) == (match a {
            Some(a) => AdminCallView::Service(a, sid),
            None => AdminCallView::NotFound,
        }),
        call_of(method, seq!["services"@, sid, "listeners"@, x]) == (match a {
            Some(a) => AdminCallView::Listener(a, sid, x),
            None => AdminCallView::NotFound,
        }),
        call_of(method, seq!["services"@, sid, "routes"@, x]) == (match a {
            Some(a) => AdminCallView::Route(a, sid, x),
            None => AdminCallView::NotFound,
        }),
        call_of(
            method,
            seq!["services"@, sid, "routes"@, x, "target-groups"@, gid, "targets"@, tid],
        ) == (match a {
            Some(a) => AdminCallView::Target(a, sid, x, gid, tid),
            None => AdminCallView::NotFound,
        }),
        call_of(method, seq!["services"@, sid, "routes"@, x, "targets"@]) == (if method == "GET"@ {
            AdminCallView::ListRouteTargets(sid, x)
        } else {
            AdminCallView::NotFound
        }),
        call_of(method, seq!["services"@, sid, "routes"@]) == (if method == "GET"@ {
            AdminCallView::ListRoutes(sid)
        } else {
            AdminCallView::NotFound
        }),
        call_of(method, seq!["services"@, sid, "listeners"@]) == (if method == "GET"@ {
            AdminCallView::ListListeners(sid)
        } else {
            AdminCallView::NotFound
        }),
        call_of(method, seq!["services"@]) == (if method == "GET"@ {
            AdminCallView::ListServices
        } else {
            AdminCallView::NotFound
        }),
{
    lemma_words_differ();
    let one = seq!["services"@];
    let two = seq!["services"@, sid];
    assert(one[0] == "services"@ && two[0] == "services"@ && two[1] == sid);
    let s = seq!["services"@, sid, "listeners"@];
    assert(s[0] == "services"@ && s[1] == sid && s[2] == "listeners"@);
    let s = seq!["services"@, sid, "routes"@];
    assert(s[0] == "services"@ && s[1] == sid && s[2] == "routes"@);
    let s = seq!["services"@, sid, "listeners"@, x];
    assert(s[0] == "services"@ && s[1] == sid && s[2] == "listeners"@ && s[3] == x);
    let s = seq!["services"@, sid, "routes"@, x];
    assert(s[0] == "services"@ && s[1] == sid && s[2] == "routes"@ && s[3] == x);
    let s = seq!["services"@, sid, "routes"@, x, "targets"@];
    assert(s[0] == "services"@ && s[1] == sid && s[2] == "routes"@ && s[3] == x && s[4]
        == "targets"@);
    let s = seq!["services"@, sid, "routes"@, x, "target-groups"@, gid, "targets"@, tid];
    assert(s[0] == "services"@ && s[1] == sid && s[2] == "routes"@ && s[3] == x && s[4]
        == "target-groups"@ && s[5] == gid && s[6] == "targets"@ && s[7] == tid);
}

/// The words of paths and the names of methods differ.
proof fn lemma_words_differ()
    ensures
        "services"@ != "config"@,
        "services"@ != "runtime"@,
        "services"@ != "stop"@,
        "services"@ != "health"@,
        "services"@ != "metrics"@,
        "services"@ != "upstreams"@,
        "listeners"@ != "routes"@,
        "GET"@ != "PUT"@,
        "GET"@ != "POST"@,
        "GET"@ != "PATCH"@,
        "GET"@ != "DELETE"@,
        "PUT"@ != "PATCH"@,
        "PUT"@ != "DELETE"@,
        "PATCH"@ != "DELETE"@,
{
    reveal_strlit("services");
    reveal_strlit("config");
    reveal_strlit("runtime");
    reveal_strlit("stop");
    reveal_strlit("health");
    reveal_strlit("metrics");
    reveal_strlit("upstreams");
    reveal_strlit("listeners");
    reveal_strlit("routes");
    reveal_strlit("GET");
    reveal_strlit("PUT");
    reveal_strlit("POST");
    reveal_strlit("PATCH");
    reveal_strlit("DELETE");
    assert("services"@.len() == 8 && "config"@.len() == 6 && "runtime"@.len() == 7 && "stop"@.len()
        == 4 && "health"@.len() == 6 && "metrics"@.len() == 7 && "upstreams"@.len() == 9);
    assert("listeners"@.len() == 9 && "routes"@.len() == 6);
    assert("GET"@[0] == 'G' && "PUT"@[0] == 'P');
    assert("GET"@.len() == 3 && "POST"@.len() == 4 && "PATCH"@.len() == 5 && "DELETE"@.len() == 6
        && "PUT"@.len() == 3);
}

/// A token for everything decides alone. Without one, the token for writing lets every
/// request in, and the token for reading those that change nothing; what is not let in is
/// told whether it lacks a token or the right to write.
pub proof fn lemma_who_is_let_in(
    h: Fields,
    g: GlobalConfigView,
    method: Seq<char>,
    s: Seq<Seq<char>>,
    t: Seq<char>,
)
    requires
        message::field_of(h, "authorization"@) == Some("Bearer "@ + t),
    ensures
        g.admin_auth_token == Some(t) ==> denial(h, g, method, s) is None,
        (g.admin_auth_token matches Some(a) && a != t) ==> (denial(h, g, method, s) matches Some(r)
            && r.status == 401),
        g.admin_auth_token is None && g.admin_write_token == Some(t) ==> denial(
            h,
            g,
            method,
            s,
        ) is None,
        g.admin_auth_token is None && g.admin_write_token != Some(t) && g.admin_read_token == Some(
            t,
        ) && (method == "GET"@ || method == "HEAD"@ || method == "OPTIONS"@) ==> denial(
            h,
            g,
            method,
            s,
        ) is None,
        g.admin_auth_token is None && g.admin_write_token != Some(t) && g.admin_read_token == Some(
            t,
        ) && (method == "PUT"@ || method == "PATCH"@ || method == "DELETE"@) ==> (
        denial(h, g, method, s) matches Some(r) && r.status == 403),
        g.admin_auth_token is None && (g.admin_write_token is Some || g.admin_read_token is Some)
            && g.admin_write_token != Some(t) && g.admin_read_token != Some(t) ==> (
        denial(h, g, method, s) matches Some(r) && (r.status == 401 || r.status == 403)),
{
    lemma_bears(h, t);
    reveal_strlit("GET");
    reveal_strlit("HEAD");
    reveal_strlit("OPTIONS");
    reveal_strlit("POST");
    reveal_strlit("PUT");
    reveal_strlit("PATCH");
    reveal_strlit("DELETE");
    assert("PUT"@[1] == 'U' && "GET"@[1] == 'E' && "PATCH"@.len() == 5 && "DELETE"@.len() == 6
        && "HEAD"@.len() == 4 && "OPTIONS"@.len() == 7 && "POST"@.len() == 4);
}

/// A request carries one token alone.
proof fn lemma_bears(h: Fields, t: Seq<char>)
    requires
        message::field_of(h, "authorization"@) == Some("Bearer "@ + t),
    ensures
        forall|a: Seq<char>| #[trigger] bears(h, a) <==> a == t,
{
    assert forall|a: Seq<char>| #[trigger] bears(h, a) implies a == t by {
        text::lemma_after_prefix("Bearer "@, a);
        text::lemma_after_prefix("Bearer "@, t);
    }
}

/// A request without a token is let in only where none is asked for.
pub proof fn lemma_no_token(
    h: Fields,
    g: GlobalConfigView,
    method: Seq<char>,
    s: Seq<Seq<char>>,
)
    requires
        message::field_of(h, "authorization"@) is None,
    ensures
        denial(h, g, method, s) is None <==> g.admin_auth_token is None && g.admin_write_token is None
            && g.admin_read_token is None,
{
}

} // verus!
