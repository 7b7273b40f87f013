//! Replacing texts in the body of an answer.

use vstd::prelude::*;
use crate::bytes;
use crate::data::Data;
use crate::message;
use crate::message::{Fields, Headers, Response, ResponseView};
use crate::text;

verus! {

/// Replaces texts in the bodies of answers.
///
/// The rules are applied one after the other to the whole body, where it is text in
/// UTF-8 of one of the content types, and the `Content-Length` field is set to the
/// new length.
pub struct ReplaceHoop {
    pub rules: Vec<(String, String)>,
    pub once: bool,
    pub content_types: Vec<String>,
}

/// Tells whether one of the content types from `i` on occurs in a text.
pub open spec fn type_matches(types: Seq<Seq<char>>, ct: Seq<char>, i: int) -> bool
    decreases types.len() - i,
{
    0 <= i < types.len() && (text::contains(ct, types[i]) || type_matches(types, ct, i + 1))
}

/// A text as the rules from `i` on change it.
pub open spec fn rules_applied(
    s: Seq<char>,
    rules: Seq<(Seq<char>, Seq<char>)>,
    once: bool,
    i: int,
) -> Seq<char>
    decreases rules.len() - i,
{
    if i < 0 || i >= rules.len() {
        s
    } else {
        let t = if once {
            text::replaced_once(s, rules[i].0, rules[i].1)
        } else {
            text::replaced(s, rules[i].0, rules[i].1)
        };
        rules_applied(t, rules, once, i + 1)
    }
}

/// Fields with the length of a body.
pub open spec fn with_length(h: Fields, n: nat) -> Fields {
    message::fields_with(h, "content-length"@, vstd::utf8::encode_utf8(text::decimal(n)))
}

/// What an answer becomes.
pub open spec fn replaced_answer(
    a: ResponseView,
    types: Seq<Seq<char>>,
    rules: Seq<(Seq<char>, Seq<char>)>,
    once: bool,
) -> ResponseView {
    if !type_matches(types, message::field_or(a.headers, "content-type"@, ""@), 0)
        || !vstd::utf8::valid_utf8(a.body) {
        a
    } else {
        let body = vstd::utf8::encode_utf8(
            rules_applied(vstd::utf8::decode_utf8(a.body), rules, once, 0),
        );
        ResponseView { headers: with_length(a.headers, body.len()), body, ..a }
    }
}

/// Sets the `Content-Length` field.
pub fn set_length(h: &mut Headers, n: usize)
    ensures
        final(h).deep_view() == with_length(old(h).deep_view(), n as nat),
{
    h.insert("content-length", message::utf8(text::number_text(n as u128).as_str()));
}

impl ReplaceHoop {
    /// The hoop with the rules, for HTML.
    pub fn new(rules: Vec<(String, String)>, once: bool) -> (h: ReplaceHoop)
        ensures
            h.rules.deep_view() == rules.deep_view(),
            h.once == once,
            h.content_types.deep_view() == seq!["text/html"@],
    {
        let mut content_types: Vec<String> = Vec::new();
        content_types.push("text/html".to_owned());
        assert(content_types.deep_view() =~= seq!["text/html"@]);
        ReplaceHoop { rules, once, content_types }
    }

    /// Tells whether an answer with the fields is of one of the content types.
    pub fn content_type_matches(&self, headers: &Headers) -> (r: bool)
        ensures
            r == type_matches(
                self.content_types.deep_view(),
                message::field_or(headers.deep_view(), "content-type"@, ""@),
                0,
            ),
    {
        let ct = headers.text_or("content-type", "");
        let ghost ts = self.content_types.deep_view();
        for i in 0..self.content_types.len()
            invariant
                ts == self.content_types.deep_view(),
                ct@ == message::field_or(headers.deep_view(), "content-type"@, ""@),
                type_matches(ts, ct@, 0) == type_matches(ts, ct@, i as int),
        {
            assert(ts[i as int] == self.content_types@[i as int]@);
            if text::has(ct.as_str(), self.content_types[i].as_str()) {
                return true;
            }
        }
        false
    }

    /// Applies the rules to a text.
    fn replace_text(&self, s: String) -> (r: String)
        ensures
            r@ == rules_applied(s@, self.rules.deep_view(), self.once, 0),
    {
        let ghost first = s@;
        let ghost rs = self.rules.deep_view();
        let mut out = s;
        for i in 0..self.rules.len()
            invariant
                rs == self.rules.deep_view(),
                rules_applied(out@, rs, self.once, i as int) == rules_applied(
                    first,
                    rs,
                    self.once,
                    0,
                ),
        {
            let rule = &self.rules[i];
            assert(rs[i as int] == (rule.0@, rule.1@));
            out = if self.once {
                text::replace_first(out.as_str(), rule.0.as_str(), rule.1.as_str())
            } else {
                text::replace(out.as_str(), rule.0.as_str(), rule.1.as_str())
            };
        }
        out
    }

    /// Changes an answer.
    pub fn apply(&self, response: Response) -> (r: Response)
        ensures
            r.deep_view() == replaced_answer(
                response.deep_view(),
                self.content_types.deep_view(),
                self.rules.deep_view(),
                self.once,
            ),
    {
        if !self.content_type_matches(&response.headers) {
            return response;
        }
        let s = match bytes::utf8_text(response.body.as_slice()) {
            Some(s) => s,
            None => return response,
        };
        let body = message::utf8(self.replace_text(s).as_str());
        let mut headers = response.headers;
        set_length(&mut headers, body.len());
        Response { status: response.status, headers, body }
    }
}

/// A text in which nothing of the rules occurs is not changed.
pub proof fn lemma_absent_rules_change_nothing(
    s: Seq<char>,
    rules: Seq<(Seq<char>, Seq<char>)>,
    once: bool,
    i: int,
)
    requires
        0 <= i,
        forall|k: int|
            i <= k < rules.len() ==> (#[trigger] rules[k]).0.len() > 0 && !text::contains(
                s,
                rules[k].0,
            ),
    ensures
        rules_applied(s, rules, once, i) == s,
    decreases rules.len() - i,
{
    if i < rules.len() {
        text::lemma_replaced_absent(s, rules[i].0, rules[i].1);
        assert(text::replaced_once(s, rules[i].0, rules[i].1) == s);
        lemma_absent_rules_change_nothing(s, rules, once, i + 1);
    }
}

/// The field with the length has it, and the other fields are as they were.
pub proof fn lemma_with_length(h: Fields, n: nat, q: Seq<char>)
    ensures
        message::value_of(with_length(h, n), q) == if text::lowered(q) == text::lowered(
            "content-length"@,
        ) {
            Some(vstd::utf8::encode_utf8(text::decimal(n)))
        } else {
            message::value_of(h, q)
        },
{
    message::lemma_fields_with(
        h,
        "content-length"@,
        vstd::utf8::encode_utf8(text::decimal(n)),
        q,
    );
}

/// The rules take effect one after the other, each on what the one before it left.
pub proof fn lemma_last_rule(
    s: Seq<char>,
    rules: Seq<(Seq<char>, Seq<char>)>,
    once: bool,
    i: int,
)
    requires
        0 <= i < rules.len(),
    ensures
        rules_applied(s, rules, once, i) == (if once {
            text::replaced_once(
                rules_applied(s, rules.drop_last(), once, i),
                rules.last().0,
                rules.last().1,
            )
        } else {
            text::replaced(
                rules_applied(s, rules.drop_last(), once, i),
                rules.last().0,
                rules.last().1,
            )
        }),
    decreases rules.len() - i,
{
    let d = rules.drop_last();
    let t = if once {
        text::replaced_once(s, rules[i].0, rules[i].1)
    } else {
        text::replaced(s, rules[i].0, rules[i].1)
    };
    if i + 1 < rules.len() {
        assert(d[i] == rules[i]);
        lemma_last_rule(t, rules, once, i + 1);
    } else {
        assert(rules_applied(t, rules, once, i + 1) == t);
        assert(rules_applied(s, d, once, i) == s);
    }
}

/// The first occurrence in a text is replaced; the others are where not only the first is
/// to be.
pub proof fn lemma_occurrences_replaced(
    a: Seq<char>,
    c: char,
    b: Seq<char>,
    by: Seq<char>,
)
    requires
        !a.contains(c),
    ensures
        rules_applied(a + seq![c] + b, seq![(seq![c], by)], true, 0) == a + by + b,
        rules_applied(a + seq![c] + b, seq![(seq![c], by)], false, 0) == a + by + text::replaced(
            b,
            seq![c],
            by,
        ),
        !b.contains(c) ==> rules_applied(a + seq![c] + b, seq![(seq![c], by)], false, 0) == a + by
            + b,
{
    let s = a + seq![c] + b;
    let rules = seq![(seq![c], by)];
    text::lemma_first_single(a, c, b);
    text::lemma_replaced_step(s, seq![c], by, a.len() as int);
    assert(s.take(a.len() as int) =~= a);
    assert(s.skip(a.len() as int + 1) =~= b);
    assert(rules[0].0 == seq![c] && rules[0].1 == by);
    let (x, y) = (text::replaced_once(s, seq![c], by), text::replaced(s, seq![c], by));
    assert(rules_applied(x, rules, true, 1) == x);
    assert(rules_applied(y, rules, false, 1) == y);
    if !b.contains(c) {
        text::lemma_first_single(b, c, seq![]);
        text::lemma_replaced_absent(b, seq![c], by);
    }
}

/// An answer is changed only where it is text of one of the content types; its status
/// stays, and the length in its fields is that of its new body.
pub proof fn lemma_only_named_types_change(
    a: ResponseView,
    types: Seq<Seq<char>>,
    rules: Seq<(Seq<char>, Seq<char>)>,
    once: bool,
)
    ensures
        ({
            let r = replaced_answer(a, types, rules, once);
            let ct = message::field_or(a.headers, "content-type"@, ""@);
            let named = exists|i: int|
                0 <= i < types.len() && text::contains(ct, #[trigger] types[i]);
            &&& r.status == a.status
            &&& !named || !vstd::utf8::valid_utf8(a.body) ==> r == a
            &&& named && vstd::utf8::valid_utf8(a.body) ==> r.body == vstd::utf8::encode_utf8(
                rules_applied(vstd::utf8::decode_utf8(a.body), rules, once, 0),
            ) && message::value_of(r.headers, "content-length"@) == Some(
                vstd::utf8::encode_utf8(text::decimal(r.body.len())),
            )
        }),
{
    lemma_type_named(types, message::field_or(a.headers, "content-type"@, ""@), 0);
    let body = vstd::utf8::encode_utf8(
        rules_applied(vstd::utf8::decode_utf8(a.body), rules, once, 0),
    );
    lemma_with_length(a.headers, body.len(), "content-length"@);
}

/// One of the content types from `i` on occurs.
proof fn lemma_type_named(types: Seq<Seq<char>>, ct: Seq<char>, i: int)
    requires
        0 <= i,
    ensures
        type_matches(types, ct, i) <==> exists|j: int|
            i <= j < types.len() && text::contains(ct, #[trigger] types[j]),
    decreases types.len() - i,
{
    if i < types.len() {
        lemma_type_named(types, ct, i + 1);
    }
}

} // verus!
