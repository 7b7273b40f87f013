//! Compressing the bodies of answers.

use vstd::prelude::*;
use super::replace;
use super::replace::set_length;
use crate::message;
use crate::message::{Fields, Headers, Response, ResponseView};
use crate::salvo_service;
use crate::salvo_service::{read_algorithms, Algorithm};
use crate::text;

verus! {

/// The shortest body that is worth compressing.
pub const MIN_COMPRESS_SIZE: usize = 256;

/// The name of a way of compressing, as messages have it.
pub open spec fn coding_name(a: Algorithm) -> Seq<char> {
    match a {
        Algorithm::Zstd => "zstd"@,
        Algorithm::Brotli => "br"@,
        Algorithm::Gzip => "gzip"@,
        Algorithm::Deflate => "deflate"@,
    }
}

/// The name of a way of compressing, as messages have it.
pub fn coding_text(a: Algorithm) -> (r: &'static str)
    ensures
        r@ == coding_name(a),
{
    match a {
        Algorithm::Zstd => "zstd",
        Algorithm::Brotli => "br",
        Algorithm::Gzip => "gzip",
        Algorithm::Deflate => "deflate",
    }
}

/// The ways of compressing that are enabled: those named, or all.
pub open spec fn enabled(names: Seq<Seq<char>>) -> Seq<Algorithm> {
    let named = salvo_service::algorithms(names, 0);
    if named.len() > 0 {
        named
    } else {
        seq![Algorithm::Zstd, Algorithm::Brotli, Algorithm::Gzip, Algorithm::Deflate]
    }
}

/// The first of the ways from `i` on that the client takes.
pub open spec fn acceptable(accept: Seq<char>, v: Seq<Algorithm>, i: int) -> Option<Algorithm>
    decreases v.len() - i,
{
    if i < 0 || i >= v.len() {
        None
    } else if text::contains(accept, coding_name(v[i])) || text::contains(accept, "*"@) {
        Some(v[i])
    } else {
        acceptable(accept, v, i + 1)
    }
}

/// The way of compressing for a request.
pub open spec fn chosen(h: Fields, v: Seq<Algorithm>) -> Option<Algorithm> {
    match message::field_of(h, "accept-encoding"@) {
        Some(t) => acceptable(t, v, 0),
        None => None,
    }
}

/// Chooses the first way of compressing that the client takes.
pub fn choose_encoding(headers: &Headers, enabled: &Vec<Algorithm>) -> (r: Option<Algorithm>)
    ensures
        r == chosen(headers.deep_view(), enabled@),
{
    let accept = match headers.text("accept-encoding") {
        Some(t) => t,
        None => return None,
    };
    for i in 0..enabled.len()
        invariant
            message::field_of(headers.deep_view(), "accept-encoding"@) == Some(accept@),
            acceptable(accept@, enabled@, 0) == acceptable(accept@, enabled@, i as int),
    {
        if text::has(accept.as_str(), coding_text(enabled[i])) || text::has(accept.as_str(), "*") {
            return Some(enabled[i]);
        }
    }
    None
}

/// Contents of the type are worth compressing: texts of any kind.
pub open spec fn compressible(t: Seq<char>) -> bool {
    ||| text::begins(t, "text/"@)
    ||| text::begins(t, "application/json"@)
    ||| text::begins(t, "application/javascript"@)
    ||| text::begins(t, "application/xml"@)
    ||| text::begins(t, "application/xhtml+xml"@)
    ||| text::begins(t, "application/rss+xml"@)
    ||| text::begins(t, "application/atom+xml"@)
    ||| text::begins(t, "application/wasm"@)
    ||| text::begins(t, "application/manifest+json"@)
    ||| text::begins(t, "application/ld+json"@)
    ||| text::begins(t, "application/graphql+json"@)
    ||| text::begins(t, "application/geo+json"@)
    ||| text::begins(t, "application/vnd.api+json"@)
    ||| text::begins(t, "image/svg+xml"@)
}

/// The fields announce contents that are worth compressing.
pub open spec fn compressible_fields(h: Fields) -> bool {
    match message::field_of(h, "content-type"@) {
        Some(t) => compressible(text::lowered(t)),
        None => false,
    }
}

/// Tells whether the fields announce contents that are worth compressing.
pub fn is_compressible_content_type(headers: &Headers) -> (r: bool)
    ensures
        r == compressible_fields(headers.deep_view()),
{
    match headers.text("content-type") {
        Some(t) => {
            let ct = text::to_lower(t.as_str());
            let t = ct.as_str();
            text::starts_with(t, "text/")
                || text::starts_with(t, "application/json")
                || text::starts_with(t, "application/javascript")
                || text::starts_with(t, "application/xml")
                || text::starts_with(t, "application/xhtml+xml")
                || text::starts_with(t, "application/rss+xml")
                || text::starts_with(t, "application/atom+xml")
                || text::starts_with(t, "application/wasm")
                || text::starts_with(t, "application/manifest+json")
                || text::starts_with(t, "application/ld+json")
                || text::starts_with(t, "application/graphql+json")
                || text::starts_with(t, "application/geo+json")
                || text::starts_with(t, "application/vnd.api+json")
                || text::starts_with(t, "image/svg+xml")
        },
        None => false,
    }
}

/// The body of an answer is compressed: it is not yet, is worth it, and not too short.
pub open spec fn to_compress(a: ResponseView) -> bool {
    &&& message::value_of(a.headers, "content-encoding"@) is None
    &&& compressible_fields(a.headers)
    &&& a.body.len() >= MIN_COMPRESS_SIZE
}

/// The way in which the body of an answer is compressed, if it is.
pub open spec fn way_for(h: Fields, a: ResponseView, v: Seq<Algorithm>) -> Option<Algorithm> {
    if to_compress(a) {
        chosen(h, v)
    } else {
        None
    }
}

/// An answer with its body compressed.
pub open spec fn compressed(a: ResponseView, way: Algorithm, body: Seq<u8>) -> ResponseView {
    ResponseView {
        headers: replace::with_length(
            message::fields_with(
                a.headers,
                "content-encoding"@,
                vstd::utf8::encode_utf8(coding_name(way)),
            ),
            body.len(),
        ),
        body,
        ..a
    }
}

/// Compresses the bodies of answers.
pub struct CompressHoop {
    /// The ways of compressing, the preferred first.
    pub enabled: Vec<Algorithm>,
    pub level: Option<u32>,
}

impl CompressHoop {
    /// The hoop with the ways of compressing that are named, or with all where none is.
    pub fn new(encodings: &Vec<String>, level: Option<u32>) -> (h: CompressHoop)
        ensures
            h.enabled@ == enabled(encodings.deep_view()),
            h.level == level,
    {
        let mut list = read_algorithms(encodings);
        if list.len() == 0 {
            list = Vec::new();
            list.push(Algorithm::Zstd);
            list.push(Algorithm::Brotli);
            list.push(Algorithm::Gzip);
            list.push(Algorithm::Deflate);
            assert(list@ =~= seq![
                Algorithm::Zstd,
                Algorithm::Brotli,
                Algorithm::Gzip,
                Algorithm::Deflate,
            ]);
        }
        CompressHoop { enabled: list, level }
    }

    /// The way in which the body of an answer to a request is compressed, if it is.
    pub fn plan(&self, request: &Headers, answer: &Response) -> (r: Option<Algorithm>)
        ensures
            r == way_for(request.deep_view(), answer.deep_view(), self.enabled@),
    {
        if answer.headers.contains_key("content-encoding") || !is_compressible_content_type(
            &answer.headers,
        ) || answer.body.len() < MIN_COMPRESS_SIZE {
            return None;
        }
        choose_encoding(request, &self.enabled)
    }

    /// Puts the compressed body in its place.
    pub fn finish(answer: &mut Response, way: Algorithm, body: Vec<u8>)
        ensures
            final(answer).deep_view() == compressed(old(answer).deep_view(), way, body@),
    {
        answer.headers.insert("content-encoding", message::utf8(coding_text(way)));
        set_length(&mut answer.headers, body.len());
        answer.body = body;
    }
}

/// A client is sent what it said that it takes, and nothing that is not enabled.
pub proof fn lemma_chosen(accept: Seq<char>, v: Seq<Algorithm>, i: int)
    requires
        0 <= i,
    ensures
        acceptable(accept, v, i) matches Some(a) ==> v.contains(a) && (text::contains(
            accept,
            coding_name(a),
        ) || text::contains(accept, "*"@)),
    decreases v.len() - i,
{
    if i < v.len() {
        lemma_chosen(accept, v, i + 1);
    }
}

/// An answer that was compressed is not compressed again.
pub proof fn lemma_compressed_once(a: ResponseView, way: Algorithm, body: Seq<u8>)
    ensures
        !to_compress(compressed(a, way, body)),
{
    reveal_strlit("content-encoding");
    reveal_strlit("content-length");
    let h = message::fields_with(
        a.headers,
        "content-encoding"@,
        vstd::utf8::encode_utf8(coding_name(way)),
    );
    message::lemma_fields_with(
        a.headers,
        "content-encoding"@,
        vstd::utf8::encode_utf8(coding_name(way)),
        "content-encoding"@,
    );
    message::lemma_fields_with(
        h,
        "content-length"@,
        vstd::utf8::encode_utf8(text::decimal(body.len())),
        "content-encoding"@,
    );
    assert(text::lowered("content-encoding"@).len() != text::lowered("content-length"@).len());
}

/// The way that is chosen is the first of the enabled ones that the client takes, and one
/// is chosen wherever the client takes one of them.
pub proof fn lemma_preferred_way(accept: Seq<char>, v: Seq<Algorithm>, i: int)
    requires
        0 <= i,
    ensures
        match acceptable(accept, v, i) {
            Some(a) => exists|n: int|
                i <= n < v.len() && #[trigger] v[n] == a && takes(accept, a) && forall|j: int|
                    i <= j < n ==> !takes(accept, #[trigger] v[j]),
            None => forall|j: int| i <= j < v.len() ==> !takes(accept, #[trigger] v[j]),
        },
    decreases v.len() - i,
{
    if i < v.len() {
        lemma_preferred_way(accept, v, i + 1);
        if !takes(accept, v[i]) {
            if let Some(a) = acceptable(accept, v, i + 1) {
                let n = choose|n: int|
                    i + 1 <= n < v.len() && #[trigger] v[n] == a && takes(accept, a) && forall|
                        j: int,
                    |
                        i + 1 <= j < n ==> !takes(accept, #[trigger] v[j]);
                assert(v[n] == a);
            }
        } else {
            assert(v[i] == v[i]);
        }
    }
}

/// The client names the way of compressing as messages do, or takes anything.
pub open spec fn takes(accept: Seq<char>, a: Algorithm) -> bool {
    text::contains(accept, "*"@) || match a {
        Algorithm::Gzip => text::contains(accept, "gzip"@),
        Algorithm::Brotli => text::contains(accept, "br"@),
        Algorithm::Zstd => text::contains(accept, "zstd"@),
        Algorithm::Deflate => text::contains(accept, "deflate"@),
    }
}

/// A body is compressed only where it is not yet, has a type that is worth it and at least
/// 256 bytes; one that is gets the way that was chosen and its new length, and the status
/// stays.
pub proof fn lemma_what_is_compressed(
    h: Fields,
    a: ResponseView,
    v: Seq<Algorithm>,
    way: Algorithm,
    body: Seq<u8>,
)
    ensures
        message::value_of(a.headers, "content-encoding"@) is Some ==> way_for(h, a, v) is None,
        a.body.len() < 256 ==> way_for(h, a, v) is None,
        message::field_of(a.headers, "content-type"@) is None ==> way_for(h, a, v) is None,
        message::field_of(h, "accept-encoding"@) is None ==> way_for(h, a, v) is None,
        message::value_of(a.headers, "content-encoding"@) is None && a.body.len() >= 256 && (
        message::field_of(a.headers, "content-type"@) matches Some(t) && compressible(
            text::lowered(t),
        )) && (message::field_of(h, "accept-encoding"@) matches Some(t) && text::contains(t, "*"@))
            && v.len() > 0 ==> way_for(h, a, v) == Some(v[0]),
        compressed(a, way, body).status == a.status,
        compressed(a, way, body).body == body,
        message::value_of(compressed(a, way, body).headers, "content-length"@) == Some(
            vstd::utf8::encode_utf8(text::decimal(body.len())),
        ),
        message::value_of(compressed(a, way, body).headers, "content-encoding"@) == Some(
            vstd::utf8::encode_utf8(coding_name(way)),
        ),
{
    reveal_strlit("content-encoding");
    reveal_strlit("content-length");
    let name = vstd::utf8::encode_utf8(coding_name(way));
    let g = message::fields_with(a.headers, "content-encoding"@, name);
    message::lemma_fields_with(a.headers, "content-encoding"@, name, "content-encoding"@);
    replace::lemma_with_length(g, body.len(), "content-encoding"@);
    replace::lemma_with_length(g, body.len(), "content-length"@);
    assert(text::lowered("content-encoding"@).len() != text::lowered("content-length"@).len());
}

/// Texts are worth compressing whatever they are texts of; pictures, sounds, films and
/// fonts are not, but for the pictures that are texts.
pub proof fn lemma_texts_are_compressed(t: Seq<char>)
    ensures
        compressible("text/"@ + t),
        compressible("application/json"@ + t),
        compressible("application/javascript"@ + t),
        compressible("application/xml"@ + t),
        compressible("image/svg+xml"@ + t),
        compressible("application/wasm"@ + t),
        !compressible("video/"@ + t),
        !compressible("audio/"@ + t),
        !compressible("font/"@ + t),
        compressible("image/"@ + t) ==> text::begins(t, "svg+xml"@),
        !compressible("application/octet-stream"@ + t),
{
    text::lemma_after_prefix("text/"@, t);
    text::lemma_after_prefix("application/json"@, t);
    text::lemma_after_prefix("application/javascript"@, t);
    text::lemma_after_prefix("application/xml"@, t);
    text::lemma_after_prefix("image/svg+xml"@, t);
    text::lemma_after_prefix("application/wasm"@, t);
    reveal_strlit("video/");
    reveal_strlit("audio/");
    reveal_strlit("font/");
    reveal_strlit("image/");
    reveal_strlit("svg+xml");
    reveal_strlit("application/octet-stream");
    lemma_beginnings("video/"@ + t);
    lemma_beginnings("audio/"@ + t);
    lemma_beginnings("font/"@ + t);
    lemma_beginnings("image/"@ + t);
    lemma_beginnings("application/octet-stream"@ + t);
    let s = "image/"@ + t;
    if compressible(s) {
        reveal_strlit("image/svg+xml");
        assert(s.subrange(0, 13) =~= "image/svg+xml"@);
        assert forall|i: int| 0 <= i < 7 implies t.subrange(0, 7)[i] == "svg+xml"@[i] by {
            assert(t[i] == s[i + 6]);
            assert(s[i + 6] == s.subrange(0, 13)[i + 6]);
        }
        assert(t.subrange(0, 7) =~= "svg+xml"@);
    }
}

/// What the types that are worth compressing begin with.
proof fn lemma_beginnings(s: Seq<char>)
    ensures
        compressible(s) ==> s[0] == 't' || s[0] == 'a' || s[0] == 'i',
        compressible(s) && s[0] == 'a' ==> s[1] == 'p' && s[12] != 'o',
        compressible(s) && s[0] == 'i' ==> text::begins(s, "image/svg+xml"@),
{
    reveal_strlit("text/");
    reveal_strlit("application/json");
    reveal_strlit("application/javascript");
    reveal_strlit("application/xml");
    reveal_strlit("application/xhtml+xml");
    reveal_strlit("application/rss+xml");
    reveal_strlit("application/atom+xml");
    reveal_strlit("application/wasm");
    reveal_strlit("application/manifest+json");
    reveal_strlit("application/ld+json");
    reveal_strlit("application/graphql+json");
    reveal_strlit("application/geo+json");
    reveal_strlit("application/vnd.api+json");
    reveal_strlit("image/svg+xml");
    lemma_begins_with(s, "text/"@, 0);
    lemma_begins_with(s, "application/json"@, 12);
    lemma_begins_with(s, "application/javascript"@, 12);
    lemma_begins_with(s, "application/xml"@, 12);
    lemma_begins_with(s, "application/xhtml+xml"@, 12);
    lemma_begins_with(s, "application/rss+xml"@, 12);
    lemma_begins_with(s, "application/atom+xml"@, 12);
    lemma_begins_with(s, "application/wasm"@, 12);
    lemma_begins_with(s, "application/manifest+json"@, 12);
    lemma_begins_with(s, "application/ld+json"@, 12);
    lemma_begins_with(s, "application/graphql+json"@, 12);
    lemma_begins_with(s, "application/geo+json"@, 12);
    lemma_begins_with(s, "application/vnd.api+json"@, 12);
    lemma_begins_with(s, "image/svg+xml"@, 12);
}

/// The characters of a beginning.
proof fn lemma_begins_with(s: Seq<char>, p: Seq<char>, i: int)
    requires
        p.len() > 1,
        0 <= i < p.len(),
    ensures
        text::begins(s, p) ==> s.len() >= p.len() && s[0] == p[0] && s[1] == p[1] && s[i] == p[i],
{
    if text::begins(s, p) {
        let t = s.subrange(0, p.len() as int);
        assert(t[0] == s[0] && t[1] == s[1] && t[i] == s[i]);
    }
}

/// Where none of the configured names is known, every way may be used; otherwise those that
/// are named, and no others.
pub proof fn lemma_ways_enabled(names: Seq<Seq<char>>, a: Algorithm)
    ensures
        salvo_service::algorithms(names, 0).len() == 0 ==> enabled(names).contains(a),
        salvo_service::algorithms(names, 0).len() > 0 ==> (enabled(names).contains(a)
            <==> salvo_service::algorithms(names, 0).contains(a)),
        enabled(names).len() > 0,
{
    let all = seq![Algorithm::Zstd, Algorithm::Brotli, Algorithm::Gzip, Algorithm::Deflate];
    assert(all[0] == Algorithm::Zstd && all[1] == Algorithm::Brotli && all[2] == Algorithm::Gzip
        && all[3] == Algorithm::Deflate);
}

} // verus!
