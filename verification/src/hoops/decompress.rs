//! Decompressing the bodies of requests.

use vstd::prelude::*;
use super::replace;
use super::replace::set_length;
use crate::bytes;
use crate::message;
use crate::message::{Fields, Headers, Response, ResponseView};
use crate::salvo_service::Algorithm;
use crate::text;

verus! {

/// The way in which a body is compressed, as its fields say.
pub open spec fn coding(h: Fields) -> Option<Algorithm> {
    match message::field_of(h, "content-encoding"@) {
        Some(t) => {
            let c = text::lowered(t);
            if c == "gzip"@ {
                Some(Algorithm::Gzip)
            } else if c == "br"@ {
                Some(Algorithm::Brotli)
            } else if c == "zstd"@ {
                Some(Algorithm::Zstd)
            } else if c == "deflate"@ {
                Some(Algorithm::Deflate)
            } else {
                None
            }
        },
        None => None,
    }
}

/// The way in which a body is decompressed, if it is. An empty body is not.
pub open spec fn way_of(h: Fields, body: Seq<u8>) -> Option<Algorithm> {
    if body.len() == 0 {
        None
    } else {
        coding(h)
    }
}

/// The fields for a body that was decompressed: they do not say that it is compressed, and
/// say how long it is.
pub open spec fn plain_fields(h: Fields, n: nat) -> Fields {
    replace::with_length(
        message::fields_without(h, text::lowered("content-encoding"@)),
        n,
    )
}

/// What is said of a body that is too long.
pub open spec fn too_long(max: usize) -> Seq<char> {
    "decompressed body exceeds limit ("@ + text::decimal(max as nat) + " bytes)"@
}

/// Decompresses the bodies of requests.
#[derive(Clone, Copy, Debug, PartialEq, Eq)]
pub struct DecompressHoop {
    /// The longest body that is made.
    pub max_size: usize,
}

impl DecompressHoop {
    /// The hoop with a limit, or with one of 64 MiB.
    pub fn new(max_size: Option<usize>) -> (h: DecompressHoop)
        ensures
            h.max_size == (match max_size {
                Some(n) => n,
                None => 67_108_864,
            }),
    {
        DecompressHoop {
            max_size: match max_size {
                Some(n) => n,
                None => 67_108_864,
            },
        }
    }

    /// The way in which a body is decompressed, if it is. An empty body is not.
    pub fn plan(headers: &Headers, body: &[u8]) -> (r: Option<Algorithm>)
        ensures
            r == way_of(headers.deep_view(), body@),
    {
        if body.len() == 0 {
            return None;
        }
        match headers.text("content-encoding") {
            Some(t) => {
                let c = text::to_lower(t.as_str());
                if text::same(c.as_str(), "gzip") {
                    Some(Algorithm::Gzip)
                } else if text::same(c.as_str(), "br") {
                    Some(Algorithm::Brotli)
                } else if text::same(c.as_str(), "zstd") {
                    Some(Algorithm::Zstd)
                } else if text::same(c.as_str(), "deflate") {
                    Some(Algorithm::Deflate)
                } else {
                    None
                }
            },
            None => None,
        }
    }

    /// Takes in a part of the body, unless it becomes longer than the limit.
    pub fn read_limited(&self, output: &mut Vec<u8>, part: &[u8]) -> (r: Result<(), String>)
        ensures
            match r {
                Ok(()) => old(output)@.len() + part@.len() <= self.max_size && final(output)@
                    == old(output)@ + part@,
                Err(e) => old(output)@.len() + part@.len() > self.max_size && final(output)@ == old(output)@ && e@ == too_long(self.max_size),
            },
    {
        if output.len() as u128 + part.len() as u128 > self.max_size as u128 {
            return Err(
                text::join3(
                    "decompressed body exceeds limit (",
                    text::number_text(self.max_size as u128).as_str(),
                    " bytes)",
                ),
            );
        }
        bytes::append(output, part);
        Ok(())
    }

    /// Sets the fields for a body that was decompressed.
    pub fn finish(headers: &mut Headers, length: usize)
        ensures
            final(headers).deep_view() == plain_fields(old(headers).deep_view(), length as nat),
    {
        headers.remove("content-encoding");
        set_length(headers, length);
    }

    /// The answer to a request whose body cannot be decompressed.
    pub fn refuse() -> (r: Response)
        ensures
            r.deep_view() == message::plain_response(400, "decompression failed"@),
    {
        Response::plain(400, "decompression failed")
    }
}

/// A body is decompressed in the way that its fields name, whatever the letter case; one
/// that is empty, or of which the fields name no known way, is not.
pub proof fn lemma_way_named(h: Fields, body: Seq<u8>, t: Seq<char>)
    requires
        message::field_of(h, "content-encoding"@) == Some(t),
    ensures
        body.len() > 0 && text::lowered(t) == "gzip"@ ==> way_of(h, body) == Some(Algorithm::Gzip),
        body.len() > 0 && text::lowered(t) == "br"@ ==> way_of(h, body) == Some(Algorithm::Brotli),
        body.len() > 0 && text::lowered(t) == "zstd"@ ==> way_of(h, body) == Some(Algorithm::Zstd),
        body.len() > 0 && text::lowered(t) == "deflate"@ ==> way_of(h, body) == Some(
            Algorithm::Deflate,
        ),
        way_of(h, body) is Some ==> body.len() > 0 && (text::lowered(t) == "gzip"@ || text::lowered(
            t,
        ) == "br"@ || text::lowered(t) == "zstd"@ || text::lowered(t) == "deflate"@),
{
    reveal_strlit("gzip");
    reveal_strlit("br");
    reveal_strlit("zstd");
    reveal_strlit("deflate");
    assert("gzip"@[0] == 'g' && "br"@[0] == 'b' && "zstd"@[0] == 'z' && "deflate"@[0] == 'd');
}

/// Once it is decompressed a body is not decompressed again, and its fields say how long
/// it is.
pub proof fn lemma_decompressed_once(h: Fields, body: Seq<u8>)
    ensures
        way_of(plain_fields(h, body.len()), body) is None,
        message::value_of(plain_fields(h, body.len()), "content-length"@) == Some(
            vstd::utf8::encode_utf8(text::decimal(body.len())),
        ),
{
    reveal_strlit("content-encoding");
    reveal_strlit("content-length");
    let g = message::fields_without(h, text::lowered("content-encoding"@));
    message::lemma_fields_without(
        h,
        text::lowered("content-encoding"@),
        text::lowered("content-encoding"@),
    );
    replace::lemma_with_length(g, body.len(), "content-encoding"@);
    replace::lemma_with_length(g, body.len(), "content-length"@);
    assert(text::lowered("content-encoding"@).len() != text::lowered("content-length"@).len());
}

} // verus!
