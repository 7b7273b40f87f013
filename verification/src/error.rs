//! What can go wrong while a request is served.

use vstd::prelude::*;
use crate::config::error;
use crate::config::error::{ConfigError, ConfigErrorView};
use crate::data::Data;
use crate::message;
use crate::message::{Response, ResponseView};
use crate::text;

verus! {

/// The plain values of a [`ProxyError`].
#[verifier::ext_equal]
pub enum ProxyErrorView {
    Hyper(Seq<char>),
    Http(Seq<char>),
    Client(Seq<char>),
    Io(Seq<char>),
    Config(ConfigErrorView),
    NoUpstream,
    BadRequest(Seq<char>),
    Internal(Seq<char>),
}

/// What went wrong while a request was served. Errors of outside parts are kept
/// as their words.
#[derive(Debug, PartialEq, Eq)]
pub enum ProxyError {
    /// The connection failed.
    Hyper(String),
    /// A message could not be put together.
    Http(String),
    /// A request to another server failed.
    Client(String),
    /// Reading or writing failed.
    Io(String),
    /// The configuration is wrong.
    Config(ConfigError),
    /// No backend is up.
    NoUpstream,
    /// The request cannot be served.
    BadRequest(String),
    /// Anything else.
    Internal(String),
}

impl DeepView for ProxyError {
    type V = ProxyErrorView;

    open spec fn deep_view(&self) -> ProxyErrorView {
        match self {
            ProxyError::Hyper(a) => ProxyErrorView::Hyper(a.deep_view()),
            ProxyError::Http(a) => ProxyErrorView::Http(a.deep_view()),
            ProxyError::Client(a) => ProxyErrorView::Client(a.deep_view()),
            ProxyError::Io(a) => ProxyErrorView::Io(a.deep_view()),
            ProxyError::Config(a) => ProxyErrorView::Config(a.deep_view()),
            ProxyError::NoUpstream => ProxyErrorView::NoUpstream,
            ProxyError::BadRequest(a) => ProxyErrorView::BadRequest(a.deep_view()),
            ProxyError::Internal(a) => ProxyErrorView::Internal(a.deep_view()),
        }
    }
}

impl Data for ProxyError {
    fn duplicate(&self) -> (r: ProxyError) {
        match self {
            ProxyError::Hyper(a) => ProxyError::Hyper(a.duplicate()),
            ProxyError::Http(a) => ProxyError::Http(a.duplicate()),
            ProxyError::Client(a) => ProxyError::Client(a.duplicate()),
            ProxyError::Io(a) => ProxyError::Io(a.duplicate()),
            ProxyError::Config(a) => ProxyError::Config(a.duplicate()),
            ProxyError::NoUpstream => ProxyError::NoUpstream,
            ProxyError::BadRequest(a) => ProxyError::BadRequest(a.duplicate()),
            ProxyError::Internal(a) => ProxyError::Internal(a.duplicate()),
        }
    }

    fn same_as(&self, other: &ProxyError) -> (r: bool) {
        match (self, other) {
            (ProxyError::Hyper(a), ProxyError::Hyper(b_a)) => a.same_as(b_a),
            (ProxyError::Http(a), ProxyError::Http(b_a)) => a.same_as(b_a),
            (ProxyError::Client(a), ProxyError::Client(b_a)) => a.same_as(b_a),
            (ProxyError::Io(a), ProxyError::Io(b_a)) => a.same_as(b_a),
            (ProxyError::Config(a), ProxyError::Config(b_a)) => a.same_as(b_a),
            (ProxyError::NoUpstream, ProxyError::NoUpstream) => true,
            (ProxyError::BadRequest(a), ProxyError::BadRequest(b_a)) => a.same_as(b_a),
            (ProxyError::Internal(a), ProxyError::Internal(b_a)) => a.same_as(b_a),
            _ => false,
        }
    }
}

impl Clone for ProxyError {
    fn clone(&self) -> (r: ProxyError)
        ensures
            r.deep_view() == self.deep_view(),
    {
        self.duplicate()
    }
}

/// The words for an error.
pub open spec fn error_message(e: ProxyErrorView) -> Seq<char> {
    match e {
        ProxyErrorView::Hyper(s) => "hyper error: "@ + s,
        ProxyErrorView::Http(s) => "HTTP error: "@ + s,
        ProxyErrorView::Client(s) => "hyper-util client error: "@ + s,
        ProxyErrorView::Io(s) => "IO error: "@ + s,
        ProxyErrorView::Config(c) => "config error: "@ + error::config_message(c),
        ProxyErrorView::NoUpstream => "no upstream available"@,
        ProxyErrorView::BadRequest(s) => "bad request: "@ + s,
        ProxyErrorView::Internal(s) => s,
    }
}

/// The status that an error is answered with.
pub open spec fn error_status(e: ProxyErrorView) -> u16 {
    match e {
        ProxyErrorView::BadRequest(_) => 400,
        ProxyErrorView::NoUpstream => 502,
        _ => 500,
    }
}

/// The response that an error is answered with.
pub open spec fn error_response(e: ProxyErrorView) -> ResponseView {
    message::plain_response(error_status(e), error_message(e))
}

impl ProxyError {
    /// The words for the error.
    pub fn message(&self) -> (r: String)
        ensures
            r@ == error_message(self.deep_view()),
    {
        match self {
            ProxyError::Hyper(s) => text::join("hyper error: ", s.as_str()),
            ProxyError::Http(s) => text::join("HTTP error: ", s.as_str()),
            ProxyError::Client(s) => text::join("hyper-util client error: ", s.as_str()),
            ProxyError::Io(s) => text::join("IO error: ", s.as_str()),
            ProxyError::Config(c) => text::join("config error: ", c.message().as_str()),
            ProxyError::NoUpstream => "no upstream available".to_owned(),
            ProxyError::BadRequest(s) => text::join("bad request: ", s.as_str()),
            ProxyError::Internal(s) => s.clone(),
        }
    }

    /// The status that the error is answered with.
    pub fn status(&self) -> (r: u16)
        ensures
            r == error_status(self.deep_view()),
    {
        match self {
            ProxyError::BadRequest(_) => 400,
            ProxyError::NoUpstream => 502,
            _ => 500,
        }
    }

    /// The response that the error is answered with.
    pub fn into_response(self) -> (r: Response)
        ensures
            r.deep_view() == error_response(self.deep_view()),
    {
        Response::plain(self.status(), self.message().as_str())
    }
}

/// The client is told that it is at fault exactly where its request cannot be served; that no
/// backend is up is told from a failure of the server itself.
pub proof fn lemma_who_is_at_fault(e: ProxyErrorView)
    ensures
        400 <= error_response(e).status < 500 <==> e is BadRequest,
        error_response(e).status == 502 <==> e is NoUpstream,
        400 <= error_response(e).status < 600,
{
}

/// Whatever went wrong, what was said of it stands at the end of the answer.
pub proof fn lemma_reason_told(s: Seq<char>, e: ProxyErrorView, c: ConfigErrorView)
    ensures
        e == ProxyErrorView::Hyper(s) || e == ProxyErrorView::Http(s) || e
            == ProxyErrorView::Client(s) || e == ProxyErrorView::Io(s) || e
            == ProxyErrorView::BadRequest(s) || e == ProxyErrorView::Internal(s) ==> text::ends(
            error_message(e),
            s,
        ),
        error_message(ProxyErrorView::Internal(s)) == s,
        text::ends(error_message(ProxyErrorView::Config(c)), error::config_message(c)),
        error_response(e).body == vstd::utf8::encode_utf8(error_message(e)),
{
    lemma_at_end("hyper error: "@, s);
    lemma_at_end("HTTP error: "@, s);
    lemma_at_end("hyper-util client error: "@, s);
    lemma_at_end("IO error: "@, s);
    lemma_at_end("bad request: "@, s);
    lemma_at_end(""@, s);
    reveal_strlit("");
    assert(""@ + s =~= s);
    lemma_at_end("config error: "@, error::config_message(c));
}

/// What a text is continued with stands at its end.
proof fn lemma_at_end(a: Seq<char>, s: Seq<char>)
    ensures
        text::ends(a + s, s),
{
    assert((a + s).subrange(a.len() as int, (a + s).len() as int) =~= s);
}

} // verus!
