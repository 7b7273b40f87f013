//! Sending a client elsewhere.

use vstd::prelude::*;
use crate::message;
use crate::message::{field_value, Headers, Response, ResponseView, Uri, UriView};
use crate::text;

verus! {

/// Sends a client elsewhere. In the target, `{path}` and `{query}` stand for what
/// was asked for.
pub struct RedirectHandler {
    target_template: String,
    status: u16,
}

/// The plain values of a [`RedirectHandler`].
#[verifier::ext_equal]
pub struct RedirectView {
    pub target_template: Seq<char>,
    pub status: u16,
}

impl DeepView for RedirectHandler {
    type V = RedirectView;

    closed spec fn deep_view(&self) -> RedirectView {
        RedirectView { target_template: self.target_template@, status: self.status }
    }
}

/// Where a client is sent.
pub open spec fn location(template: Seq<char>, u: UriView) -> Seq<char> {
    text::replaced(text::replaced(template, "{path}"@, u.path()), "{query}"@, u.query_text())
}

/// The answer that sends a client elsewhere; without the place where the place
/// cannot stand in a message.
pub open spec fn redirect_response(r: RedirectView, u: UriView) -> ResponseView {
    let l = location(r.target_template, u);
    ResponseView {
        status: r.status,
        headers: if message::is_field_value(l) {
            message::fields_with(seq![], "location"@, vstd::utf8::encode_utf8(l))
        } else {
            seq![]
        },
        body: seq![],
    }
}

/// The statuses that send a client elsewhere.
pub open spec fn is_redirect(status: u16) -> bool {
    status == 301 || status == 302 || status == 307 || status == 308
}

/// The status of the answers: the one that is asked for, where it sends a client elsewhere.
pub open spec fn redirect_status(asked: u16) -> u16 {
    if is_redirect(asked) {
        asked
    } else {
        302
    }
}

impl RedirectHandler {
    /// The handler for a target and a status, which is 301, 302, 307 or 308. Any other
    /// number becomes 302.
    pub fn new(target_template: String, status_code: u16) -> (r: RedirectHandler)
        ensures
            r.deep_view() == (RedirectView {
                target_template: target_template@,
                status: redirect_status(status_code),
            }),
    {
        let status: u16 = if status_code == 301 || status_code == 302 || status_code == 307
            || status_code == 308 {
            status_code
        } else {
            302
        };
        RedirectHandler { target_template, status }
    }

    /// Answers a request.
    pub fn handle(&self, uri: &Uri) -> (r: Response)
        ensures
            r.deep_view() == redirect_response(self.deep_view(), uri.deep_view()),
    {
        let path = text::replace(self.target_template.as_str(), "{path}", uri.path().as_str());
        let to = text::replace(path.as_str(), "{query}", uri.query_text().as_str());
        let mut headers = Headers::new();
        if let Some(v) = field_value(to.as_str()) {
            headers.insert("location", v);
        }
        let body: Vec<u8> = Vec::new();
        assert(body@ =~= seq![]);
        Response { status: self.status, headers, body }
    }
}

/// The statuses 301, 302, 307 and 308 are kept, and any other becomes 302.
pub proof fn lemma_redirect_status(n: u16)
    ensures
        n == 301 || n == 302 || n == 307 || n == 308 ==> redirect_status(n) == n,
        n != 301 && n != 307 && n != 308 ==> redirect_status(n) == 302,
{
}

/// A client is sent to the target, with `{path}` and `{query}` replaced by what was asked
/// for; a target without them is the same for all.
pub proof fn lemma_sent_to_target(r: RedirectView, u: UriView)
    ensures
        ({
            let a = redirect_response(r, u);
            let to = text::replaced(
                text::replaced(r.target_template, "{path}"@, u.path()),
                "{query}"@,
                u.query_text(),
            );
            &&& a.status == r.status && a.body.len() == 0
            &&& message::is_field_value(to) ==> message::value_of(a.headers, "location"@) == Some(
                vstd::utf8::encode_utf8(to),
            )
            &&& !text::contains(r.target_template, "{path}"@) && !text::contains(
                r.target_template,
                "{query}"@,
            ) ==> to == r.target_template
        }),
{
    reveal_strlit("{path}");
    reveal_strlit("{query}");
    let t = r.target_template;
    if !text::contains(t, "{path}"@) && !text::contains(t, "{query}"@) {
        text::lemma_replaced_absent(t, "{path}"@, u.path());
        text::lemma_replaced_absent(t, "{query}"@, u.query_text());
    }
    message::lemma_fields_with(
        seq![],
        "location"@,
        vstd::utf8::encode_utf8(location(t, u)),
        "location"@,
    );
}

} // verus!
