//! Replacing bytes in the body of an answer.

use vstd::prelude::*;
use crate::bytes;
use crate::hoops::replace;
use crate::hoops::replace::set_length;
use crate::message;
use crate::message::{Fields, Headers, Response, ResponseView};
use crate::text;

verus! {

/// Replaces bytes in the bodies of answers that are text.
pub struct StreamReplaceHoop {
    pub rules: Vec<(Vec<u8>, Vec<u8>)>,
    pub once: bool,
}

/// Rules of bytes to find and bytes to put in their place.
pub type ByteRules = Seq<(Seq<u8>, Seq<u8>)>;

/// The bytes of the rules.
pub open spec fn byte_rules(rules: Seq<(Seq<char>, Seq<char>)>) -> ByteRules {
    Seq::new(
        rules.len(),
        |i: int|
            (vstd::utf8::encode_utf8(rules[i].0), vstd::utf8::encode_utf8(rules[i].1)),
    )
}

/// Tells whether fields say that the body is text.
pub open spec fn is_text(h: Fields) -> bool {
    match message::field_of(h, "content-type"@) {
        Some(ct) => text::contains(ct, "text/"@) || text::contains(ct, "application/json"@)
            || text::contains(ct, "application/xml"@) || text::contains(
            ct,
            "application/javascript"@,
        ),
        None => false,
    }
}

/// Bytes from `i` on with every occurrence of `p`, from left to right, replaced.
pub open spec fn replaced_from(s: Seq<u8>, p: Seq<u8>, by: Seq<u8>, i: int) -> Seq<u8>
    decreases s.len() - i,
{
    if i < 0 || i >= s.len() {
        seq![]
    } else if p.len() > 0 && text::occurs_at(s, p, i) {
        by + replaced_from(s, p, by, i + p.len())
    } else {
        seq![s[i]] + replaced_from(s, p, by, i + 1)
    }
}

/// Bytes with every occurrence of `p` replaced.
pub open spec fn all_replaced(s: Seq<u8>, p: Seq<u8>, by: Seq<u8>) -> Seq<u8> {
    if p.len() == 0 {
        s
    } else {
        replaced_from(s, p, by, 0)
    }
}

/// Bytes with the first occurrence of `p` replaced.
pub open spec fn first_replaced(s: Seq<u8>, p: Seq<u8>, by: Seq<u8>) -> Seq<u8> {
    if p.len() == 0 {
        s
    } else {
        match text::first_at(s, p, 0) {
            Some(i) => s.take(i) + by + s.skip(i + p.len()),
            None => s,
        }
    }
}

/// Replaces every occurrence of `needle`, from left to right.
pub fn replace_all(haystack: &[u8], needle: &[u8], replacement: &[u8]) -> (r: Vec<u8>)
    ensures
        r@ == all_replaced(haystack@, needle@, replacement@),
{
    if needle.len() == 0 {
        return message::bytes_of(haystack);
    }
    let ghost (s, p, by) = (haystack@, needle@, replacement@);
    let mut out: Vec<u8> = Vec::new();
    let mut i: usize = 0;
    assert(out@ + replaced_from(s, p, by, 0) =~= replaced_from(s, p, by, 0));
    while i < haystack.len()
        invariant
            i <= haystack.len(),
            needle.len() > 0,
            s == haystack@,
            p == needle@,
            by == replacement@,
            out@ + replaced_from(s, p, by, i as int) == replaced_from(s, p, by, 0),
        decreases haystack.len() - i,
    {
        let ghost before = out@;
        if bytes::matches_at(haystack, needle, i) {
            bytes::append(&mut out, replacement);
            assert(out@ + replaced_from(s, p, by, i + p.len()) =~= before + (by + replaced_from(
                s,
                p,
                by,
                i + p.len(),
            )));
            i = i + needle.len();
        } else {
            out.push(haystack[i]);
            assert(out@ + replaced_from(s, p, by, i + 1) =~= before + (seq![s[i as int]]
                + replaced_from(s, p, by, i + 1)));
            i = i + 1;
        }
    }
    assert(out@ =~= out@ + replaced_from(s, p, by, s.len() as int));
    out
}

/// Replaces the first occurrence of `needle`.
pub fn replace_first(haystack: &[u8], needle: &[u8], replacement: &[u8]) -> (r: Vec<u8>)
    ensures
        r@ == first_replaced(haystack@, needle@, replacement@),
{
    if needle.len() == 0 {
        return message::bytes_of(haystack);
    }
    match bytes::find(haystack, needle, 0) {
        Some(i) => {
            proof {
                text::lemma_first_at(haystack@, needle@, 0);
            }
            let mut out = bytes::part(haystack, 0, i);
            assert(out@ =~= haystack@.take(i as int));
            bytes::append(&mut out, replacement);
            assert(i + needle.len() <= haystack.len());
            let rest = bytes::part(haystack, i + needle.len(), haystack.len());
            assert(rest@ =~= haystack@.skip(i + needle@.len()));
            bytes::append(&mut out, rest.as_slice());
            out
        },
        None => message::bytes_of(haystack),
    }
}

/// Bytes as the rules from `i` on change them.
pub open spec fn rules_applied(s: Seq<u8>, rules: ByteRules, once: bool, i: int) -> Seq<u8>
    decreases rules.len() - i,
{
    if i < 0 || i >= rules.len() {
        s
    } else {
        let t = if once {
            first_replaced(s, rules[i].0, rules[i].1)
        } else {
            all_replaced(s, rules[i].0, rules[i].1)
        };
        rules_applied(t, rules, once, i + 1)
    }
}

/// What an answer becomes.
pub open spec fn replaced_answer(a: ResponseView, rules: ByteRules, once: bool) -> ResponseView {
    if !is_text(a.headers) || a.body.len() == 0 {
        a
    } else {
        let body = rules_applied(a.body, rules, once, 0);
        ResponseView { headers: replace::with_length(a.headers, body.len()), body, ..a }
    }
}

impl StreamReplaceHoop {
    /// The rules as bytes.
    pub open spec fn byte_rules(&self) -> ByteRules {
        self.rules.deep_view()
    }

    /// The hoop with the rules.
    pub fn new(rules: Vec<(String, String)>, once: bool) -> (h: StreamReplaceHoop)
        ensures
            h.byte_rules() == byte_rules(rules.deep_view()),
            h.once == once,
    {
        let mut out: Vec<(Vec<u8>, Vec<u8>)> = Vec::new();
        for i in 0..rules.len()
            invariant
                out@.len() == i,
                forall|k: int|
                    0 <= k < i ==> (#[trigger] out@[k]).deep_view() == byte_rules(
                        rules.deep_view(),
                    )[k],
        {
            assert(rules.deep_view()[i as int] == (rules@[i as int].0@, rules@[i as int].1@));
            let a = message::utf8(rules[i].0.as_str());
            let b = message::utf8(rules[i].1.as_str());
            assert(a.deep_view() =~= a@);
            assert(b.deep_view() =~= b@);
            out.push((a, b));
        }
        assert(out.deep_view() =~= byte_rules(rules.deep_view()));
        StreamReplaceHoop { rules: out, once }
    }

    /// Tells whether fields say that the body is text.
    pub fn is_text_content(&self, headers: &Headers) -> (r: bool)
        ensures
            r == is_text(headers.deep_view()),
    {
        match headers.text("content-type") {
            Some(ct) => text::has(ct.as_str(), "text/") || text::has(
                ct.as_str(),
                "application/json",
            ) || text::has(ct.as_str(), "application/xml") || text::has(
                ct.as_str(),
                "application/javascript",
            ),
            None => false,
        }
    }

    /// Changes an answer.
    pub fn apply(&self, response: Response) -> (r: Response)
        ensures
            r.deep_view() == replaced_answer(
                response.deep_view(),
                self.byte_rules(),
                self.once,
            ),
    {
        if !self.is_text_content(&response.headers) || response.body.len() == 0 {
            return response;
        }
        let ghost first = response.body@;
        let ghost rs = self.byte_rules();
        let mut out = message::bytes_of(response.body.as_slice());
        for i in 0..self.rules.len()
            invariant
                rs == self.byte_rules(),
                rules_applied(out@, rs, self.once, i as int) == rules_applied(
                    first,
                    rs,
                    self.once,
                    0,
                ),
        {
            let rule = &self.rules[i];
            assert(rule.0.deep_view() =~= rule.0@);
            assert(rule.1.deep_view() =~= rule.1@);
            assert(rs[i as int] == (rule.0@, rule.1@));
            out = if self.once {
                replace_first(out.as_slice(), rule.0.as_slice(), rule.1.as_slice())
            } else {
                replace_all(out.as_slice(), rule.0.as_slice(), rule.1.as_slice())
            };
        }
        let mut headers = response.headers;
        set_length(&mut headers, out.len());
        Response { status: response.status, headers, body: out }
    }
}

/// Bytes in which `p` does not occur are not changed.
pub proof fn lemma_absent_bytes_stay(s: Seq<u8>, p: Seq<u8>, by: Seq<u8>, i: int)
    requires
        0 <= i <= s.len(),
        p.len() > 0,
        forall|k: int| i <= k < s.len() ==> !#[trigger] text::occurs_at(s, p, k),
    ensures
        replaced_from(s, p, by, i) == s.skip(i),
    decreases s.len() - i,
{
    if i < s.len() {
        lemma_absent_bytes_stay(s, p, by, i + 1);
        assert(seq![s[i]] + s.skip(i + 1) =~= s.skip(i));
    } else {
        assert(s.skip(i) =~= seq![]);
    }
}

/// Bytes before the first occurrence stay, and it is replaced.
proof fn lemma_up_to_first(s: Seq<u8>, p: Seq<u8>, by: Seq<u8>, i: int, j: int)
    requires
        p.len() > 0,
        0 <= i <= j < s.len(),
        text::occurs_at(s, p, j),
        forall|k: int| i <= k < j ==> !#[trigger] text::occurs_at(s, p, k),
    ensures
        replaced_from(s, p, by, i) == s.subrange(i, j) + (by + replaced_from(
            s,
            p,
            by,
            j + p.len(),
        )),
    decreases j - i,
{
    let rest = by + replaced_from(s, p, by, j + p.len());
    if i < j {
        lemma_up_to_first(s, p, by, i + 1, j);
        assert(s.subrange(i, j) =~= seq![s[i]] + s.subrange(i + 1, j));
        assert(seq![s[i]] + (s.subrange(i + 1, j) + rest) =~= s.subrange(i, j) + rest);
    } else {
        assert(s.subrange(i, j) + rest =~= rest);
    }
}

/// Replacing from a place on is replacing in what stands there.
proof fn lemma_replaced_behind(s: Seq<u8>, p: Seq<u8>, by: Seq<u8>, from: int, i: int)
    requires
        p.len() > 0,
        0 <= from <= i,
        from <= s.len(),
    ensures
        replaced_from(s, p, by, i) == replaced_from(s.skip(from), p, by, i - from),
    decreases s.len() - i,
{
    let t = s.skip(from);
    if i < s.len() {
        assert(t[i - from] == s[i]);
        if i + p.len() <= s.len() {
            assert(s.subrange(i, i + p.len()) =~= t.subrange(i - from, i - from + p.len()));
        }
        if text::occurs_at(s, p, i) {
            lemma_replaced_behind(s, p, by, from, i + p.len());
        } else {
            lemma_replaced_behind(s, p, by, from, i + 1);
        }
    }
}

/// The first occurrence is replaced, and then every one in what follows it; where only the
/// first is to be replaced, what follows stays as it is. Bytes without an occurrence stay.
pub proof fn lemma_first_occurrence(s: Seq<u8>, p: Seq<u8>, by: Seq<u8>, j: int)
    requires
        p.len() > 0,
        0 <= j,
        j + p.len() <= s.len(),
        s.subrange(j, j + p.len()) == p,
        forall|k: int| 0 <= k < j ==> #[trigger] s.subrange(k, k + p.len()) != p,
    ensures
        all_replaced(s, p, by) == s.take(j) + by + all_replaced(s.skip(j + p.len()), p, by),
        first_replaced(s, p, by) == s.take(j) + by + s.skip(j + p.len()),
{
    assert(text::occurs_at(s, p, j));
    assert forall|k: int| 0 <= k < j implies !#[trigger] text::occurs_at(s, p, k) by {
        assert(s.subrange(k, k + p.len()) != p);
    }
    lemma_up_to_first(s, p, by, 0, j);
    lemma_replaced_behind(s, p, by, j + p.len(), j + p.len());
    assert(s.subrange(0, j) =~= s.take(j));
    assert(s.take(j) + (by + all_replaced(s.skip(j + p.len()), p, by)) =~= s.take(j) + by
        + all_replaced(s.skip(j + p.len()), p, by));
    text::lemma_first_at(s, p, 0);
    if let Some(m) = text::first_at(s, p, 0) {
        assert(text::occurs_at(s, p, m));
    }
}

/// Bytes without an occurrence stay as they are, and so do all where nothing is to be
/// found.
pub proof fn lemma_no_occurrence(s: Seq<u8>, p: Seq<u8>, by: Seq<u8>)
    requires
        forall|k: int| 0 <= k < s.len() ==> !#[trigger] text::occurs_at(s, p, k) || p.len() == 0,
    ensures
        all_replaced(s, p, by) == s,
        first_replaced(s, p, by) == s,
{
    if p.len() > 0 {
        lemma_absent_bytes_stay(s, p, by, 0);
        assert(s.skip(0) =~= s);
        text::lemma_first_at(s, p, 0);
        if let Some(m) = text::first_at(s, p, 0) {
            assert(text::occurs_at(s, p, m));
        }
    }
}

/// An answer is changed only where it is text; its status stays, and the length in its
/// fields is that of its new body.
pub proof fn lemma_only_text_changes(a: ResponseView, rules: ByteRules, once: bool, t: Seq<char>)
    ensures
        ({
            let r = replaced_answer(a, rules, once);
            &&& r.status == a.status
            &&& message::field_of(a.headers, "content-type"@) is None ==> r == a
            &&& message::field_of(a.headers, "content-type"@) == Some("text/"@ + t) && a.body.len()
                > 0 ==> r.body == rules_applied(a.body, rules, once, 0) && message::value_of(
                r.headers,
                "content-length"@,
            ) == Some(vstd::utf8::encode_utf8(text::decimal(r.body.len())))
        }),
{
    let ct = "text/"@ + t;
    text::lemma_after_prefix("text/"@, t);
    text::lemma_first_at(ct, "text/"@, 0);
    assert(text::occurs_at(ct, "text/"@, 0));
    replace::lemma_with_length(
        a.headers,
        rules_applied(a.body, rules, once, 0).len(),
        "content-length"@,
    );
}

/// Texts are what the replacement is for: whatever is under `text/`, and JSON, XML and
/// scripts; contents without a type, or with one that has no slash, are not.
pub proof fn lemma_texts_replaced(h: Fields, a: Seq<char>, b: Seq<char>)
    ensures
        ({
            let ct = message::field_of(h, "content-type"@);
            &&& ct == Some(a + "text/"@ + b) ==> is_text(h)
            &&& ct == Some(a + "application/json"@ + b) ==> is_text(h)
            &&& ct == Some(a + "application/xml"@ + b) ==> is_text(h)
            &&& ct == Some(a + "application/javascript"@ + b) ==> is_text(h)
            &&& ct is None ==> !is_text(h)
            &&& ct is Some && !ct->0.contains('/') ==> !is_text(h)
        }),
{
    text::lemma_contains_put(a, "text/"@, b);
    text::lemma_contains_put(a, "application/json"@, b);
    text::lemma_contains_put(a, "application/xml"@, b);
    text::lemma_contains_put(a, "application/javascript"@, b);
    reveal_strlit("text/");
    reveal_strlit("application/json");
    reveal_strlit("application/xml");
    reveal_strlit("application/javascript");
    if let Some(t) = message::field_of(h, "content-type"@) {
        if !t.contains('/') {
            lemma_without_part(t, "text/"@, 4);
            lemma_without_part(t, "application/json"@, 11);
            lemma_without_part(t, "application/xml"@, 11);
            lemma_without_part(t, "application/javascript"@, 11);
        }
    }
}

/// A text without a character holds no text with it.
proof fn lemma_without_part(t: Seq<char>, p: Seq<char>, i: int)
    requires
        0 <= i < p.len(),
        !t.contains(p[i]),
    ensures
        !text::contains(t, p),
{
    text::lemma_first_at(t, p, 0);
    if let Some(n) = text::first_at(t, p, 0) {
        assert(t.subrange(n, n + p.len())[i] == t[n + i]);
    }
}

} // verus!
