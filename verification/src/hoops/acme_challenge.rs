//! Answers to the challenges of a certificate authority.

use vstd::prelude::*;
use crate::message;
use crate::message::{Headers, Response, ResponseView};
use crate::text;

verus! {

/// The answer to a challenge, as plain text. A number that is no status stands for an
/// error of the server.
pub open spec fn challenge_answer(status: u16, body: Seq<char>) -> ResponseView {
    ResponseView {
        status: if 100 <= status < 1000 {
            status
        } else {
            500
        },
        headers: seq![("content-type"@, vstd::utf8::encode_utf8("text/plain"@))],
        body: vstd::utf8::encode_utf8(body),
    }
}

/// Answers a challenge with what was found for it.
pub fn answer_challenge(status: u16, body: &str) -> (r: Response)
    ensures
        r.deep_view() == challenge_answer(status, body@),
{
    let mut headers = Headers::new();
    headers.append("content-type", message::utf8("text/plain"));
    proof {
        reveal_strlit("content-type");
        assert(text::lowered("content-type"@) =~= "content-type"@);
        assert(headers.deep_view() =~= challenge_answer(status, body@).headers);
    }
    let status: u16 = if 100 <= status && status < 1000 {
        status
    } else {
        500
    };
    Response { status, headers, body: message::utf8(body) }
}

/// A challenge is answered with what was found for it: its words always, and its status where
/// it is one; every answer has a status of three digits.
pub proof fn lemma_challenge_answered(status: u16, body: Seq<char>)
    ensures
        100 <= status <= 999 ==> challenge_answer(status, body).status == status,
        100 <= challenge_answer(status, body).status <= 999,
        !(100 <= status <= 999) ==> challenge_answer(status, body).status >= 500,
        challenge_answer(status, body).body == vstd::utf8::encode_utf8(body),
{
}

} // verus!
