//! Leaving it to another server whether a request is let through.

use vstd::prelude::*;
use crate::message;
use crate::message::{Fields, Headers, Request, RequestView, Response, ResponseView};
use crate::text;

verus! {

/// The fields from `i` on whose values are plain texts.
pub open spec fn plain_fields(h: Fields, i: int) -> Fields
    decreases h.len() - i,
{
    if i < 0 || i >= h.len() {
        seq![]
    } else if message::value_text(h[i].1) is Some {
        seq![(text::lowered(h[i].0), h[i].1)] + plain_fields(h, i + 1)
    } else {
        plain_fields(h, i + 1)
    }
}

/// The fields that the other server is asked with: those of the request, then what it
/// is for and how it was made.
pub open spec fn question(r: RequestView) -> Fields {
    plain_fields(r.headers, 0) + seq![
        (text::lowered("x-forwarded-uri"@), vstd::utf8::encode_utf8(r.uri.target())),
        (text::lowered("x-forwarded-method"@), vstd::utf8::encode_utf8(r.method)),
    ]
}

/// The fields of a request with those that the other server gave, as far as they are to
/// be taken over, from `i` on.
pub open spec fn copied(h: Fields, given: Fields, names: Seq<Seq<char>>, i: int) -> Fields
    decreases names.len() - i,
{
    if i < 0 || i >= names.len() {
        h
    } else {
        let next = match message::value_of(given, names[i]) {
            Some(v) if message::is_field_name(names[i]) => message::fields_with(h, names[i], v),
            _ => h,
        };
        copied(next, given, names, i + 1)
    }
}

/// The fields of an answer, taken over from `i` on, without those on how it was sent.
pub open spec fn passed_on(h: Fields, given: Fields, i: int) -> Fields
    decreases given.len() - i,
{
    if i < 0 || i >= given.len() {
        h
    } else {
        let next = if text::lowered(given[i].0) == text::lowered("transfer-encoding"@) {
            h
        } else {
            message::fields_with(h, given[i].0, given[i].1)
        };
        passed_on(next, given, i + 1)
    }
}

/// Lets a request through where another server does.
pub struct ForwardAuthHoop {
    /// Where the other server is asked.
    pub auth_url: String,
    /// The fields of its answer that the request takes over.
    pub copy_headers: Vec<String>,
}

/// What the other server said of a request: nothing where it lets it through, else what
/// the request is answered.
pub open spec fn verdict(a: ResponseView) -> Option<ResponseView> {
    if 200 <= a.status <= 299 {
        None
    } else {
        Some(
            ResponseView {
                status: if 100 <= a.status <= 999 {
                    a.status
                } else {
                    401
                },
                headers: passed_on(seq![], a.headers, 0),
                body: a.body,
            },
        )
    }
}

/// The fields of a request after the other server answered: those to be taken over are
/// where it lets the request through.
pub open spec fn fields_after(h: Fields, a: ResponseView, names: Seq<Seq<char>>) -> Fields {
    if 200 <= a.status <= 299 {
        copied(h, a.headers, names, 0)
    } else {
        h
    }
}

impl ForwardAuthHoop {
    /// The hoop for a server.
    pub fn new(auth_url: String, copy_headers: Vec<String>) -> (h: ForwardAuthHoop)
        ensures
            h == (ForwardAuthHoop { auth_url, copy_headers }),
    {
        ForwardAuthHoop { auth_url, copy_headers }
    }

    /// The fields that the other server is asked with.
    pub fn question(request: &Request) -> (r: Headers)
        ensures
            r.deep_view() == question(request.deep_view()),
    {
        let ghost h = request.deep_view().headers;
        let mut out = Headers::new();
        assert(out.deep_view() + plain_fields(h, 0) =~= plain_fields(h, 0));
        for i in 0..request.headers.entries.len()
            invariant
                h == request.headers.entries.deep_view(),
                out.deep_view() + plain_fields(h, i as int) == plain_fields(h, 0),
        {
            let e = &request.headers.entries[i];
            assert(h[i as int] == e.deep_view());
            assert(e.1.deep_view() =~= e.1@);
            if message::visible_text(e.1.as_slice()).is_some() {
                let ghost before = out.deep_view();
                out.append(e.0.as_str(), message::bytes_of(e.1.as_slice()));
                assert(out.deep_view() + plain_fields(h, i + 1) =~= before + (seq![
                    (text::lowered(e.0@), e.1@),
                ] + plain_fields(h, i + 1)));
            }
        }
        assert(out.deep_view() + plain_fields(h, h.len() as int) =~= out.deep_view());
        let ghost before = out.deep_view();
        out.append("x-forwarded-uri", message::utf8(request.uri.target().as_str()));
        out.append("x-forwarded-method", message::utf8(request.method.as_str()));
        assert(out.deep_view() =~= question(request.deep_view()));
        out
    }

    /// Goes on with a request that the other server lets through, with the fields that
    /// it takes over, or answers it.
    pub fn on_answer(&self, headers: &mut Headers, answer: &Response) -> (r: Option<Response>)
        ensures
            r.deep_view() == verdict(answer.deep_view()),
            final(headers).deep_view() == fields_after(
                old(headers).deep_view(),
                answer.deep_view(),
                self.copy_headers.deep_view(),
            ),
    {
        if 200 <= answer.status && answer.status <= 299 {
            self.copy(headers, &answer.headers);
            return None;
        }
        let status: u16 = if 100 <= answer.status && answer.status <= 999 {
            answer.status
        } else {
            401
        };
        let fields = pass_on(&answer.headers);
        let body = message::bytes_of(answer.body.as_slice());
        Some(Response { status, headers: fields, body })
    }

    /// Takes over the fields that the other server gave.
    fn copy(&self, headers: &mut Headers, given: &Headers)
        ensures
            final(headers).deep_view() == copied(
                old(headers).deep_view(),
                given.deep_view(),
                self.copy_headers.deep_view(),
                0,
            ),
    {
        let ghost start = headers.deep_view();
        let ghost (g, ns) = (given.deep_view(), self.copy_headers.deep_view());
        for i in 0..self.copy_headers.len()
            invariant
                g == given.deep_view(),
                ns == self.copy_headers.deep_view(),
                copied(headers.deep_view(), g, ns, i as int) == copied(start, g, ns, 0),
        {
            let name = self.copy_headers[i].as_str();
            assert(ns[i as int] == name@);
            if let Some(v) = given.get(name) {
                assert(v.deep_view() =~= v@);
                if message::field_name(name).is_some() {
                    headers.insert(name, v);
                }
            }
        }
    }

    /// The answer where the other server could not be asked.
    pub fn unreachable(error: &str) -> (r: Response)
        ensures
            r.deep_view() == message::plain_response(500, "forward-auth request failed: "@ + error@),
    {
        Response::plain(500, text::join("forward-auth request failed: ", error).as_str())
    }
}

/// Takes over the fields of an answer, without those on how it was sent.
fn pass_on(given: &Headers) -> (r: Headers)
    ensures
        r.deep_view() == passed_on(seq![], given.deep_view(), 0),
{
    let ghost g = given.deep_view();
    let mut out = Headers::new();
    assert(out.deep_view() =~= seq![]);
    for i in 0..given.entries.len()
        invariant
            g == given.entries.deep_view(),
            passed_on(out.deep_view(), g, i as int) == passed_on(seq![], g, 0),
    {
        let e = &given.entries[i];
        assert(g[i as int] == e.deep_view());
        assert(e.1.deep_view() =~= e.1@);
        if !text::same_ignore_case(e.0.as_str(), "transfer-encoding") {
            out.insert(e.0.as_str(), message::bytes_of(e.1.as_slice()));
        }
    }
    out
}

/// A request is let through exactly where the other server answers with success.
pub proof fn lemma_only_success_passes(a: ResponseView)
    ensures
        verdict(a) is None <==> 200 <= a.status <= 299,
{
}

/// A request that is turned away is answered as the other server did: with its status and
/// its body, and with each of its fields but that on how it was sent.
pub proof fn lemma_turned_away(a: ResponseView, q: Seq<char>)
    requires
        100 <= a.status <= 999,
        !(200 <= a.status <= 299),
    ensures
        verdict(a) matches Some(r) && r.status == a.status && r.body == a.body && (text::lowered(q)
            == text::lowered("transfer-encoding"@) ==> message::value_of(r.headers, q) is None) && (
        text::lowered(q) != text::lowered("transfer-encoding"@) ==> (message::value_of(
            r.headers,
            q,
        ) is Some <==> exists|i: int|
            0 <= i < a.headers.len() && text::lowered((#[trigger] a.headers[i]).0) == text::lowered(
                q,
            ))),
{
    lemma_passed_on(seq![], a.headers, 0, q);
}

/// What of the fields from `i` on is taken over.
proof fn lemma_passed_on(h: Fields, given: Fields, i: int, q: Seq<char>)
    requires
        0 <= i,
    ensures
        text::lowered(q) == text::lowered("transfer-encoding"@) ==> message::value_of(
            passed_on(h, given, i),
            q,
        ) == message::value_of(h, q),
        text::lowered(q) != text::lowered("transfer-encoding"@) ==> (message::value_of(
            passed_on(h, given, i),
            q,
        ) is Some <==> message::value_of(h, q) is Some || exists|j: int|
            i <= j < given.len() && text::lowered((#[trigger] given[j]).0) == text::lowered(q)),
    decreases given.len() - i,
{
    if i < given.len() {
        let next = if text::lowered(given[i].0) == text::lowered("transfer-encoding"@) {
            h
        } else {
            message::fields_with(h, given[i].0, given[i].1)
        };
        message::lemma_fields_with(h, given[i].0, given[i].1, q);
        lemma_passed_on(next, given, i + 1, q);
    }
}

/// A field that is to be taken over has the value that the other server gave, where it
/// gave one; every other field of the request is as it was, and all are where the request
/// is turned away.
pub proof fn lemma_fields_taken_over(
    h: Fields,
    a: ResponseView,
    names: Seq<Seq<char>>,
    q: Seq<char>,
)
    requires
        message::is_field_name(q),
        forall|i: int|
            0 <= i < names.len() && text::lowered(#[trigger] names[i]) == text::lowered(q)
                ==> names[i] == q,
    ensures
        message::value_of(fields_after(h, a, names), q) == (if 200 <= a.status <= 299
            && names.contains(q) && message::value_of(a.headers, q) is Some {
            message::value_of(a.headers, q)
        } else {
            message::value_of(h, q)
        }),
{
    lemma_copied(h, a.headers, names, 0, q);
    if names.contains(q) {
        let i = choose|i: int| 0 <= i < names.len() && names[i] == q;
        assert(text::lowered(names[i]) == text::lowered(q));
    }
}

/// What of the names from `i` on is taken over.
proof fn lemma_copied(h: Fields, given: Fields, names: Seq<Seq<char>>, i: int, q: Seq<char>)
    requires
        0 <= i,
        message::is_field_name(q),
        forall|j: int|
            0 <= j < names.len() && text::lowered(#[trigger] names[j]) == text::lowered(q)
                ==> names[j] == q,
    ensures
        message::value_of(copied(h, given, names, i), q) == (if message::value_of(given, q) is Some
            && exists|j: int| i <= j < names.len() && #[trigger] names[j] == q {
            message::value_of(given, q)
        } else {
            message::value_of(h, q)
        }),
    decreases names.len() - i,
{
    if i < names.len() {
        let next = match message::value_of(given, names[i]) {
            Some(v) if message::is_field_name(names[i]) => message::fields_with(h, names[i], v),
            _ => h,
        };
        if let Some(v) = message::value_of(given, names[i]) {
            message::lemma_fields_with(h, names[i], v, q);
        }
        lemma_copied(next, given, names, i + 1, q);
    }
}

/// The other server is asked with what the request is for and how it was made, and with
/// every field of the request that is plain text.
pub proof fn lemma_question(r: RequestView, i: int)
    requires
        0 <= i < r.headers.len(),
        message::value_text(r.headers[i].1) is Some,
    ensures
        question(r).contains((text::lowered(r.headers[i].0), r.headers[i].1)),
        question(r).contains(
            (text::lowered("x-forwarded-uri"@), vstd::utf8::encode_utf8(r.uri.target())),
        ),
        question(r).contains(
            (text::lowered("x-forwarded-method"@), vstd::utf8::encode_utf8(r.method)),
        ),
{
    lemma_plain_fields(r.headers, 0, i);
    let p = plain_fields(r.headers, 0);
    let k = choose|k: int|
        0 <= k < p.len() && p[k] == (text::lowered(r.headers[i].0), r.headers[i].1);
    let all = question(r);
    assert(all[k] == p[k]);
    assert(all[p.len() as int] == (
        text::lowered("x-forwarded-uri"@),
        vstd::utf8::encode_utf8(r.uri.target()),
    ));
    assert(all[p.len() as int + 1] == (
        text::lowered("x-forwarded-method"@),
        vstd::utf8::encode_utf8(r.method),
    ));
}

/// A field that is plain text is among those that are.
proof fn lemma_plain_fields(h: Fields, from: int, i: int)
    requires
        0 <= from <= i < h.len(),
        message::value_text(h[i].1) is Some,
    ensures
        plain_fields(h, from).contains((text::lowered(h[i].0), h[i].1)),
    decreases i - from,
{
    let all = plain_fields(h, from);
    let x = (text::lowered(h[i].0), h[i].1);
    if from == i {
        assert(all[0] == x);
    } else {
        lemma_plain_fields(h, from + 1, i);
        let rest = plain_fields(h, from + 1);
        let k = choose|k: int| 0 <= k < rest.len() && rest[k] == x;
        if message::value_text(h[from].1) is Some {
            assert(all[k + 1] == x);
        } else {
            assert(all[k] == x);
        }
    }
}

} // verus!
