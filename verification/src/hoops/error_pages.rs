//! Pages for answers with certain statuses.

use vstd::prelude::*;
use super::replace;
use super::replace::set_length;
use crate::message;
use crate::message::{Fields, Headers, Response, ResponseView};
use crate::sorted_map;
use crate::sorted_map::SortedMap;
use crate::text;

verus! {

/// The kind of a page: HTML where it begins with a tag, else plain text.
pub open spec fn page_type(body: Seq<char>) -> Seq<char> {
    if text::begins(text::trimmed_start(body, |c: char| text::is_space(c)), "<"@) {
        "text/html; charset=utf-8"@
    } else {
        "text/plain; charset=utf-8"@
    }
}

/// An answer with the page for its status in place of its body, if there is one.
pub open spec fn with_page(pages: Seq<(u16, Seq<char>)>, a: ResponseView) -> ResponseView {
    match sorted_map::lookup(pages, a.status) {
        Some(body) => {
            let b = vstd::utf8::encode_utf8(body);
            ResponseView {
                status: a.status,
                headers: replace::with_length(
                    message::fields_with(
                        a.headers,
                        "content-type"@,
                        vstd::utf8::encode_utf8(page_type(body)),
                    ),
                    b.len(),
                ),
                body: b,
            }
        },
        None => a,
    }
}

/// Puts pages in the place of the bodies of answers with certain statuses.
pub struct ErrorPagesHoop {
    pub pages: SortedMap<u16, String>,
}

impl ErrorPagesHoop {
    /// The hoop with the pages.
    pub fn new(pages: SortedMap<u16, String>) -> (h: ErrorPagesHoop)
        ensures
            h == (ErrorPagesHoop { pages }),
    {
        ErrorPagesHoop { pages }
    }

    /// Puts the page for the status of an answer in the place of its body.
    pub fn apply(&self, answer: &mut Response)
        ensures
            final(answer).deep_view() == with_page(self.pages.deep_view(), old(answer).deep_view()),
    {
        let status: u16 = answer.status;
        if let Some(page) = self.pages.get(&status) {
            let kind = if text::starts_with(text::trim_start(page.as_str()).as_str(), "<") {
                "text/html; charset=utf-8"
            } else {
                "text/plain; charset=utf-8"
            };
            let body = message::utf8(page.as_str());
            answer.headers.insert("content-type", message::utf8(kind));
            set_length(&mut answer.headers, body.len());
            answer.body = body;
        }
    }
}

/// An answer without a page for its status stays as it is, and the status stays in any
/// case.
pub proof fn lemma_other_statuses(pages: Seq<(u16, Seq<char>)>, a: ResponseView)
    ensures
        with_page(pages, a).status == a.status,
        sorted_map::lookup(pages, a.status) is None ==> with_page(pages, a) == a,
{
}

/// An answer with a status that has a page has the page as its body, with its length and
/// its kind: HTML where the page begins with a tag, after white space if any, else plain
/// text. All other fields stay.
pub proof fn lemma_page_put(
    pages: Seq<(u16, Seq<char>)>,
    a: ResponseView,
    i: int,
    q: Seq<char>,
)
    requires
        0 <= i < pages.len(),
        pages[i].0 == a.status,
        forall|j: int| 0 <= j < i ==> (#[trigger] pages[j]).0 != a.status,
        text::lowered(q) != text::lowered("content-type"@),
        text::lowered(q) != text::lowered("content-length"@),
    ensures
        ({
            let r = with_page(pages, a);
            &&& r.status == a.status
            &&& r.body == vstd::utf8::encode_utf8(pages[i].1)
            &&& message::value_of(r.headers, "content-length"@) == Some(
                vstd::utf8::encode_utf8(text::decimal(r.body.len())),
            )
            &&& message::value_of(r.headers, "content-type"@) == Some(
                vstd::utf8::encode_utf8(page_type(pages[i].1)),
            )
            &&& message::value_of(r.headers, q) == message::value_of(a.headers, q)
        }),
{
    sorted_map::lemma_position(pages, a.status, 0);
    reveal_strlit("content-type");
    reveal_strlit("content-length");
    let kind = vstd::utf8::encode_utf8(page_type(pages[i].1));
    let g = message::fields_with(a.headers, "content-type"@, kind);
    let n = vstd::utf8::encode_utf8(pages[i].1).len();
    message::lemma_fields_with(a.headers, "content-type"@, kind, "content-type"@);
    message::lemma_fields_with(a.headers, "content-type"@, kind, q);
    replace::lemma_with_length(g, n, "content-type"@);
    replace::lemma_with_length(g, n, "content-length"@);
    replace::lemma_with_length(g, n, q);
    assert(text::lowered("content-type"@).len() != text::lowered("content-length"@).len());
}

/// A page that begins with a tag is HTML; one that begins with anything else but white
/// space is plain text.
pub proof fn lemma_page_type(body: Seq<char>)
    ensures
        body.len() > 0 && body[0] == '<' ==> page_type(body) == "text/html; charset=utf-8"@,
        body.len() == 0 || (body[0] != '<' && !text::is_space(body[0])) ==> page_type(body)
            == "text/plain; charset=utf-8"@,
{
    reveal_strlit("<");
    let p = |c: char| text::is_space(c);
    if body.len() == 0 || !text::is_space(body[0]) {
        assert(text::lead(body, p, 0) == 0);
        assert(body.skip(0) =~= body);
    }
    if body.len() > 0 && body[0] == '<' {
        assert(!text::is_space('<'));
        assert(body.subrange(0, 1) =~= "<"@);
    }
    if text::begins(body, "<"@) {
        assert(body.subrange(0, 1)[0] == body[0]);
    }
}

} // verus!
