//! The JSON form of request matchers, by which routes are ranked.

use vstd::prelude::*;
use crate::data::Data;
use crate::ranking;
use crate::router::matcher::{MatcherView, RequestMatcher};
use crate::text;

verus! {

/// A character of a JSON string. The quote, the backslash and the control characters
/// below the space are escaped, and no other.
pub open spec fn json_char(c: char) -> Seq<char> {
    if c == '"' {
        seq!['\\', '"']
    } else if c == '\\' {
        seq!['\\', '\\']
    } else if c as u32 == 8 {
        seq!['\\', 'b']
    } else if c == '\t' {
        seq!['\\', 't']
    } else if c == '\n' {
        seq!['\\', 'n']
    } else if c as u32 == 12 {
        seq!['\\', 'f']
    } else if c == '\r' {
        seq!['\\', 'r']
    } else if ' ' > c {
        seq!['\\', 'u', '0', '0', text::hex_digit(c as u32 as nat / 16), text::hex_digit(
            c as u32 as nat % 16,
        )]
    } else {
        seq![c]
    }
}

/// The characters of a JSON string.
pub open spec fn json_chars(s: Seq<char>) -> Seq<char>
    decreases s.len(),
{
    if s.len() == 0 {
        seq![]
    } else {
        json_chars(s.drop_last()) + json_char(s.last())
    }
}

/// A text as a JSON string.
pub open spec fn json_string(s: Seq<char>) -> Seq<char> {
    seq!['"'] + json_chars(s) + seq!['"']
}

/// `serde_json::Value::from` and its `Display`: a text as a JSON string, between
/// quotes, with the quote, the backslash and the control characters below the space
/// escaped and every other character as it is.
#[verifier::external_body]
pub(crate) fn json_text(s: &str) -> (r: String)
    ensures
        r@ == json_string(s@),
{
    serde_json::Value::from(s).to_string()
}

/// JSON strings between commas.
pub open spec fn json_texts(v: Seq<Seq<char>>) -> Seq<char>
    decreases v.len(),
{
    if v.len() == 0 {
        ""@
    } else if v.len() == 1 {
        json_string(v[0])
    } else {
        json_texts(v.drop_last()) + ","@ + json_string(v.last())
    }
}

/// An optional text as JSON.
pub open spec fn json_option(v: Option<Seq<char>>) -> Seq<char> {
    match v {
        Some(s) => json_string(s),
        None => "null"@,
    }
}

/// The JSON form of a matcher: its kind, and under it what it tests.
pub open spec fn signature(m: MatcherView) -> Seq<char>
    decreases m,
{
    match m {
        MatcherView::Path(p) => "{\"Path\":"@ + json_string(p) + "}"@,
        MatcherView::Method(v) => "{\"Method\":["@ + json_texts(v) + "]}"@,
        MatcherView::Header { name, pattern } => "{\"Header\":{\"name\":"@ + json_string(name)
            + ",\"pattern\":"@ + json_string(pattern) + "}}"@,
        MatcherView::HeaderRegex { name, regex } => "{\"HeaderRegex\":{\"name\":"@ + json_string(
            name,
        ) + ",\"regex\":"@ + json_string(regex) + "}}"@,
        MatcherView::Cookie { name, pattern } => "{\"Cookie\":{\"name\":"@ + json_string(name)
            + ",\"pattern\":"@ + json_string(pattern) + "}}"@,
        MatcherView::Query { key, value } => "{\"Query\":{\"key\":"@ + json_string(key)
            + ",\"value\":"@ + json_option(value) + "}}"@,
        MatcherView::RemoteIp(v) => "{\"RemoteIp\":["@ + json_texts(v) + "]}"@,
        MatcherView::Protocol(p) => "{\"Protocol\":"@ + json_string(p) + "}"@,
        MatcherView::Expression(p) => "{\"Expression\":"@ + json_string(p) + "}"@,
        MatcherView::Not(p) => "{\"Not\":"@ + signature(*p) + "}"@,
        MatcherView::And(v) => "{\"And\":["@ + signature_list(v) + "]}"@,
        MatcherView::Or(v) => "{\"Or\":["@ + signature_list(v) + "]}"@,
        MatcherView::Language(v) => "{\"Language\":["@ + json_texts(v) + "]}"@,
    }
}

/// The JSON forms of matchers between commas.
pub open spec fn signature_list(v: Seq<MatcherView>) -> Seq<char>
    decreases v,
{
    if v.len() == 0 {
        ""@
    } else if v.len() == 1 {
        signature(v[0])
    } else {
        signature_list(v.drop_last()) + ","@ + signature(v.last())
    }
}

/// The JSON forms of the matchers, in order.
pub open spec fn signatures(ms: Seq<MatcherView>) -> Seq<Seq<char>> {
    ranking::sorted::<String>(ms.map_values(|m: MatcherView| signature(m)))
}

/// JSON strings between commas.
fn write_texts(v: &Vec<String>) -> (r: String)
    ensures
        r@ == json_texts(v.deep_view()),
{
    let ghost s = v.deep_view();
    let mut r = "".to_owned();
    for i in 0..v.len()
        invariant
            s == v.deep_view(),
            r@ == json_texts(s.take(i as int)),
    {
        proof {
            assert(s.take(i + 1).drop_last() =~= s.take(i as int));
            assert(s.take(i + 1).last() == v@[i as int]@);
            reveal_strlit("");
        }
        if i > 0 {
            r.append(",");
        }
        let ghost before = r@;
        r.append(json_text(v[i].as_str()).as_str());
        if i == 0 {
            assert(r@ =~= json_string(s[0]));
        }
    }
    assert(s.take(s.len() as int) =~= s);
    r
}

/// A named pair of JSON strings inside an object.
fn write_pair(head: &str, a: &str, mid: &str, b: &str) -> (r: String)
    ensures
        r@ == head@ + json_string(a@) + mid@ + json_string(b@) + "}}"@,
{
    let mut r = head.to_owned();
    r.append(json_text(a).as_str());
    r.append(mid);
    r.append(json_text(b).as_str());
    r.append("}}");
    r
}

/// A text between two others.
fn write_between(head: &str, middle: &str, end: &str) -> (r: String)
    ensures
        r@ == head@ + middle@ + end@,
{
    crate::text::join3(head, middle, end)
}

/// The JSON form of a matcher.
pub fn write_signature(m: &RequestMatcher) -> (r: String)
    ensures
        r@ == signature(m.deep_view()),
    decreases m,
{
    match m {
        RequestMatcher::Path(p) => write_between("{\"Path\":", json_text(p.as_str()).as_str(), "}"),
        RequestMatcher::Method(v) => write_between("{\"Method\":[", write_texts(v).as_str(), "]}"),
        RequestMatcher::Header { name, pattern } => write_pair(
            "{\"Header\":{\"name\":",
            name.as_str(),
            ",\"pattern\":",
            pattern.as_str(),
        ),
        RequestMatcher::HeaderRegex { name, regex } => write_pair(
            "{\"HeaderRegex\":{\"name\":",
            name.as_str(),
            ",\"regex\":",
            regex.as_str(),
        ),
        RequestMatcher::Cookie { name, pattern } => write_pair(
            "{\"Cookie\":{\"name\":",
            name.as_str(),
            ",\"pattern\":",
            pattern.as_str(),
        ),
        RequestMatcher::Query { key, value } => {
            let mut r = "{\"Query\":{\"key\":".to_owned();
            r.append(json_text(key.as_str()).as_str());
            r.append(",\"value\":");
            match value {
                Some(v) => {
                    r.append(json_text(v.as_str()).as_str());
                },
                None => {
                    r.append("null");
                },
            }
            r.append("}}");
            r
        },
        RequestMatcher::RemoteIp(v) => write_between("{\"RemoteIp\":[", write_texts(v).as_str(), "]}"),
        RequestMatcher::Protocol(p) => write_between(
            "{\"Protocol\":",
            json_text(p.as_str()).as_str(),
            "}",
        ),
        RequestMatcher::Expression(p) => write_between(
            "{\"Expression\":",
            json_text(p.as_str()).as_str(),
            "}",
        ),
        RequestMatcher::Not(p) => write_between("{\"Not\":", write_signature(p).as_str(), "}"),
        RequestMatcher::And(v) => {
            assert(m.deep_view()->And_0 =~= v.deep_view());
            write_between("{\"And\":[", write_list(v).as_str(), "]}")
        },
        RequestMatcher::Or(v) => {
            assert(m.deep_view()->Or_0 =~= v.deep_view());
            write_between("{\"Or\":[", write_list(v).as_str(), "]}")
        },
        RequestMatcher::Language(v) => write_between("{\"Language\":[", write_texts(v).as_str(), "]}"),
    }
}

/// The JSON forms of matchers between commas.
fn write_list(v: &Vec<RequestMatcher>) -> (r: String)
    ensures
        r@ == signature_list(v.deep_view()),
    decreases v,
{
    let ghost s = v.deep_view();
    let mut r = "".to_owned();
    for i in 0..v.len()
        invariant
            s == v.deep_view(),
            r@ == signature_list(s.take(i as int)),
    {
        proof {
            assert(s.take(i + 1).drop_last() =~= s.take(i as int));
            assert(s.take(i + 1).last() == v@[i as int].deep_view());
            reveal_strlit("");
        }
        if i > 0 {
            r.append(",");
        }
        r.append(write_signature(&v[i]).as_str());
        if i == 0 {
            assert(r@ =~= signature(s[0]));
        }
    }
    assert(s.take(s.len() as int) =~= s);
    r
}

/// The JSON forms of the matchers, in order.
pub fn matcher_signatures(matchers: &Vec<RequestMatcher>) -> (r: Vec<String>)
    ensures
        r.deep_view() == signatures(matchers.deep_view()),
{
    let mut v: Vec<String> = Vec::new();
    for i in 0..matchers.len()
        invariant
            v@.len() == i,
            forall|j: int|
                0 <= j < i ==> (#[trigger] v@[j])@ == signature(matchers@[j].deep_view()),
    {
        v.push(write_signature(&matchers[i]));
    }
    assert(v.deep_view() =~= matchers.deep_view().map_values(|m: MatcherView| signature(m)));
    ranking::sort(&v)
}

} // verus!
