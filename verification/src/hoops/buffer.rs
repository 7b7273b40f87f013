//! Limits for the length of bodies.

use vstd::prelude::*;
use super::replace;
use super::replace::set_length;
use crate::bytes;
use crate::message;
use crate::message::{Fields, Headers, Response, ResponseView};
use crate::text;

verus! {

/// Why a body was not collected.
#[derive(Clone, Copy, Debug, PartialEq, Eq, Structural)]
pub enum BodyLimitError {
    /// It is longer than the limit.
    TooLarge,
    /// It could not be read.
    Read,
}

/// The bytes of the parts from `i` on.
pub open spec fn joined(parts: Seq<Seq<u8>>, i: int) -> Seq<u8>
    decreases parts.len() - i,
{
    if i < 0 || i >= parts.len() {
        seq![]
    } else {
        parts[i] + joined(parts, i + 1)
    }
}

/// A body that is collected part by part, up to a limit.
#[derive(Debug, PartialEq, Eq)]
pub struct LimitedBody {
    pub collected: Vec<u8>,
    pub max_size: usize,
}

impl LimitedBody {
    /// Nothing was collected.
    pub fn new(max_size: usize) -> (b: LimitedBody)
        ensures
            b.collected@ == Seq::<u8>::empty(),
            b.max_size == max_size,
    {
        LimitedBody { collected: Vec::new(), max_size }
    }

    /// No more was collected than the limit allows.
    pub open spec fn wf(&self) -> bool {
        self.collected@.len() <= self.max_size
    }

    /// Takes in the next part, unless the body becomes longer than the limit.
    pub fn push(&mut self, part: &[u8]) -> (r: Result<(), BodyLimitError>)
        requires
            old(self).wf(),
        ensures
            final(self).wf(),
            final(self).max_size == old(self).max_size,
            match r {
                Ok(()) => final(self).collected@ == old(self).collected@ + part@,
                Err(e) => e == BodyLimitError::TooLarge && old(self).collected@.len() + part@.len()
                    > old(self).max_size && final(self).collected@ == old(self).collected@,
            },
    {
        if part.len() > self.max_size - self.collected.len() {
            return Err(BodyLimitError::TooLarge);
        }
        bytes::append(&mut self.collected, part);
        Ok(())
    }
}

/// Collects a body from its parts, unless it is longer than the limit.
pub fn collect_res_body_limited(parts: &Vec<Vec<u8>>, max_size: usize) -> (r: Result<
    Vec<u8>,
    BodyLimitError,
>)
    ensures
        match r {
            Ok(b) => b@ == joined(parts.deep_view(), 0) && b@.len() <= max_size,
            Err(e) => e == BodyLimitError::TooLarge && joined(parts.deep_view(), 0).len()
                > max_size,
        },
{
    let ghost ps = parts.deep_view();
    let mut body = LimitedBody::new(max_size);
    assert(body.collected@ + joined(ps, 0) =~= joined(ps, 0));
    for i in 0..parts.len()
        invariant
            ps == parts.deep_view(),
            body.wf(),
            body.max_size == max_size,
            body.collected@ + joined(ps, i as int) == joined(ps, 0),
    {
        let ghost before = body.collected@;
        let p = &parts[i];
        assert(ps[i as int] == p.deep_view());
        assert(p.deep_view() =~= p@);
        match body.push(p.as_slice()) {
            Ok(()) => {
                assert(body.collected@ + joined(ps, i + 1) =~= before + (p@ + joined(ps, i + 1)));
            },
            Err(e) => {
                assert(joined(ps, 0).len() == before.len() + p@.len() + joined(ps, i + 1).len());
                return Err(e);
            },
        }
    }
    assert(body.collected@ + joined(ps, ps.len() as int) =~= body.collected@);
    Ok(body.collected)
}

/// Keeps the bodies of requests and answers within limits.
#[derive(Clone, Copy, Debug, PartialEq, Eq)]
pub struct BufferLimitHoop {
    pub max_request_body: Option<usize>,
    pub max_response_body: Option<usize>,
}

/// The answer to a request whose body was not collected.
pub open spec fn refused_request(e: BodyLimitError) -> ResponseView {
    match e {
        BodyLimitError::TooLarge => message::plain_response(413, "Payload Too Large"@),
        BodyLimitError::Read => message::plain_response(400, "Bad Request"@),
    }
}

/// The words that stand in the place of a body that was not collected.
pub open spec fn refused_answer(e: BodyLimitError) -> Seq<char> {
    match e {
        BodyLimitError::TooLarge => "Bad Gateway: response body too large"@,
        BodyLimitError::Read => "Bad Gateway: failed to read response body"@,
    }
}

/// The bytes of a body that was collected, or why it was not.
pub open spec fn collected(body: Result<Vec<u8>, BodyLimitError>) -> Result<
    Seq<u8>,
    BodyLimitError,
> {
    match body {
        Ok(b) => Ok(b@),
        Err(e) => Err(e),
    }
}

/// The fields of a request after its body was collected, and the answer where it was not.
pub open spec fn buffered_request(h: Fields, body: Result<Seq<u8>, BodyLimitError>) -> (
    Fields,
    Option<ResponseView>,
) {
    match body {
        Ok(b) => (replace::with_length(h, b.len()), None),
        Err(e) => (h, Some(refused_request(e))),
    }
}

/// An answer after its body was collected or was not.
pub open spec fn buffered_answer(
    a: ResponseView,
    body: Result<Seq<u8>, BodyLimitError>,
) -> ResponseView {
    match body {
        Ok(b) => ResponseView { headers: replace::with_length(a.headers, b.len()), body: b, ..a },
        Err(e) => ResponseView {
            status: 502,
            body: vstd::utf8::encode_utf8(refused_answer(e)),
            ..a
        },
    }
}

impl BufferLimitHoop {
    /// The hoop with the limits.
    pub fn new(max_request_body: Option<usize>, max_response_body: Option<usize>) -> (h:
        BufferLimitHoop)
        ensures
            h == (BufferLimitHoop { max_request_body, max_response_body }),
    {
        BufferLimitHoop { max_request_body, max_response_body }
    }

    /// Goes on with a request whose body was collected, or answers it.
    pub fn on_request(headers: &mut Headers, body: &Result<Vec<u8>, BodyLimitError>) -> (r: Option<
        Response,
    >)
        ensures
            (final(headers).deep_view(), r.deep_view()) == buffered_request(
                old(headers).deep_view(),
                collected(*body),
            ),
    {
        match body {
            Ok(b) => {
                set_length(headers, b.len());
                None
            },
            Err(BodyLimitError::TooLarge) => Some(Response::plain(413, "Payload Too Large")),
            Err(BodyLimitError::Read) => Some(Response::plain(400, "Bad Request")),
        }
    }

    /// Sets the body of an answer that was collected, or says why it was not.
    pub fn on_response(answer: &mut Response, body: Result<Vec<u8>, BodyLimitError>)
        ensures
            final(answer).deep_view() == buffered_answer(
                old(answer).deep_view(),
                collected(body),
            ),
    {
        match body {
            Ok(b) => {
                set_length(&mut answer.headers, b.len());
                answer.body = b;
            },
            Err(BodyLimitError::TooLarge) => {
                answer.status = 502;
                answer.body = message::utf8("Bad Gateway: response body too large");
            },
            Err(BodyLimitError::Read) => {
                answer.status = 502;
                answer.body = message::utf8("Bad Gateway: failed to read response body");
            },
        }
    }
}

/// A request whose body was collected goes on and says how long the body is; one whose
/// body is too long is refused as such, and one whose body cannot be read as a bad one.
pub proof fn lemma_buffered_request(h: Fields, b: Seq<u8>)
    ensures
        buffered_request(h, Ok(b)).1 is None,
        message::value_of(buffered_request(h, Ok(b)).0, "content-length"@) == Some(
            vstd::utf8::encode_utf8(text::decimal(b.len())),
        ),
        buffered_request(h, Err(BodyLimitError::TooLarge)).1 matches Some(r) && r.status == 413,
        buffered_request(h, Err(BodyLimitError::Read)).1 matches Some(r) && r.status == 400,
{
    replace::lemma_with_length(h, b.len(), "content-length"@);
}

/// An answer whose body was collected keeps its status and has the body, with its length;
/// one whose body was not is that of a bad gateway.
pub proof fn lemma_buffered_answer(a: ResponseView, b: Seq<u8>, e: BodyLimitError)
    ensures
        buffered_answer(a, Ok(b)).status == a.status,
        buffered_answer(a, Ok(b)).body == b,
        message::value_of(buffered_answer(a, Ok(b)).headers, "content-length"@) == Some(
            vstd::utf8::encode_utf8(text::decimal(b.len())),
        ),
        buffered_answer(a, Err(e)).status == 502,
{
    replace::lemma_with_length(a.headers, b.len(), "content-length"@);
}

/// The parts of a body stand one after the other.
pub proof fn lemma_parts_in_order(parts: Seq<Seq<u8>>, last: Seq<u8>, i: int)
    requires
        0 <= i <= parts.len(),
    ensures
        joined(parts.push(last), i) == joined(parts, i) + last,
    decreases parts.len() - i,
{
    let all = parts.push(last);
    if i < parts.len() {
        lemma_parts_in_order(parts, last, i + 1);
        assert(all[i] == parts[i]);
        assert(parts[i] + (joined(parts, i + 1) + last) =~= parts[i] + joined(parts, i + 1) + last);
    } else {
        assert(joined(all, i + 1) =~= seq![]);
        assert(last + joined(all, i + 1) =~= last);
        assert(joined(parts, i) + last =~= last);
    }
}

} // verus!
