//! Fields that are set and removed on the way.

use vstd::prelude::*;
use crate::config::types::{HeadersConfig, HeadersConfigView};
use crate::message;
use crate::message::{
    ClientAddr, ClientView, Fields, Headers, Request, RequestView, Response, ResponseView,
};
use crate::placeholder;
use crate::placeholder::expand_placeholders;
use crate::sorted_map::SortedMap;
use crate::text;

verus! {

/// Texts under keys.
pub type Texts = Seq<(Seq<char>, Seq<char>)>;

/// What the placeholders stand for in a request.
pub open spec fn placeholders(r: RequestView, c: ClientView) -> Texts {
    seq![
        ("client_ip"@, c.ip_text),
        ("host"@, message::field_or(r.headers, "host"@, ""@)),
        ("method"@, r.method),
        ("path"@, r.uri.path()),
        ("scheme"@, r.uri.scheme_text()),
    ]
}

/// Notes what the placeholders stand for in a request.
pub fn build_placeholders(request: &Request, client: &ClientAddr) -> (m: SortedMap<String, String>)
    ensures
        m.deep_view() == placeholders(request.deep_view(), client.deep_view()),
{
    let mut entries: Vec<(String, String)> = Vec::new();
    entries.push(("client_ip".to_owned(), client.ip_text.clone()));
    entries.push(("host".to_owned(), request.headers.text_or("host", "")));
    entries.push(("method".to_owned(), request.method.clone()));
    entries.push(("path".to_owned(), request.uri.path()));
    entries.push(("scheme".to_owned(), request.uri.scheme_text()));
    let m = SortedMap { entries };
    assert(m.deep_view() =~= placeholders(request.deep_view(), client.deep_view()));
    m
}

/// The fields with those from `i` on set to their values, with the placeholders
/// replaced. What cannot stand as a field is passed over.
pub open spec fn fields_set(h: Fields, rules: Texts, values: Texts, i: int) -> Fields
    decreases rules.len() - i,
{
    if i < 0 || i >= rules.len() {
        h
    } else {
        let v = placeholder::expanded(rules[i].1, values, 0);
        let next = if message::is_field_name(rules[i].0) && message::is_field_value(v) {
            message::fields_with(h, rules[i].0, vstd::utf8::encode_utf8(v))
        } else {
            h
        };
        fields_set(next, rules, values, i + 1)
    }
}

/// The fields without those from `i` on.
pub open spec fn fields_removed(h: Fields, names: Seq<Seq<char>>, i: int) -> Fields
    decreases names.len() - i,
{
    if i < 0 || i >= names.len() {
        h
    } else {
        let next = if message::is_field_name(names[i]) {
            message::fields_without(h, text::lowered(names[i]))
        } else {
            h
        };
        fields_removed(next, names, i + 1)
    }
}

/// Sets fields.
fn set_fields(
    headers: &mut Headers,
    rules: &SortedMap<String, String>,
    values: &SortedMap<String, String>,
)
    ensures
        final(headers).deep_view() == fields_set(
            old(headers).deep_view(),
            rules.deep_view(),
            values.deep_view(),
            0,
        ),
{
    let ghost start = headers.deep_view();
    let ghost (rs, vs) = (rules.deep_view(), values.deep_view());
    for i in 0..rules.entries.len()
        invariant
            rs == rules.entries.deep_view(),
            vs == values.deep_view(),
            fields_set(headers.deep_view(), rs, vs, i as int) == fields_set(start, rs, vs, 0),
    {
        assert(rs[i as int] == rules.entries@[i as int].deep_view());
        let name = rules.entries[i].0.as_str();
        let value = expand_placeholders(rules.entries[i].1.as_str(), values);
        if let (Some(_), Some(v)) = (message::field_name(name), message::field_value(value.as_str()))
        {
            headers.insert(name, v);
        }
    }
}

/// Removes fields.
fn remove_fields(headers: &mut Headers, names: &Vec<String>)
    ensures
        final(headers).deep_view() == fields_removed(
            old(headers).deep_view(),
            names.deep_view(),
            0,
        ),
{
    let ghost start = headers.deep_view();
    let ghost ns = names.deep_view();
    for i in 0..names.len()
        invariant
            ns == names.deep_view(),
            fields_removed(headers.deep_view(), ns, i as int) == fields_removed(start, ns, 0),
    {
        assert(ns[i as int] == names@[i as int]@);
        if message::field_name(names[i].as_str()).is_some() {
            headers.remove(names[i].as_str());
        }
    }
}

/// The fields of an answer: some are removed, and then some are set.
pub open spec fn answer_fields(h: Fields, c: HeadersConfigView, values: Texts) -> Fields {
    fields_set(fields_removed(h, c.response_remove, 0), c.response_set, values, 0)
}

/// Sets and removes fields of requests and answers.
pub struct HeadersHoop {
    pub config: HeadersConfig,
}

impl HeadersHoop {
    /// The hoop for a configuration.
    pub fn new(config: HeadersConfig) -> (h: HeadersHoop)
        ensures
            h == (HeadersHoop { config }),
    {
        HeadersHoop { config }
    }

    /// Sets the fields of a request, and notes what the placeholders stand for in it.
    pub fn on_request(&self, request: &mut Request, client: &ClientAddr) -> (m: SortedMap<
        String,
        String,
    >)
        ensures
            m.deep_view() == placeholders(old(request).deep_view(), client.deep_view()),
            final(request).deep_view() == (RequestView {
                headers: fields_set(
                    old(request).deep_view().headers,
                    self.config.deep_view().request_set,
                    placeholders(old(request).deep_view(), client.deep_view()),
                    0,
                ),
                ..old(request).deep_view()
            }),
    {
        let m = build_placeholders(request, client);
        set_fields(&mut request.headers, &self.config.request_set, &m);
        m
    }

    /// Removes and then sets the fields of an answer.
    pub fn on_response(&self, headers: &mut Headers, values: &SortedMap<String, String>)
        ensures
            final(headers).deep_view() == answer_fields(
                old(headers).deep_view(),
                self.config.deep_view(),
                values.deep_view(),
            ),
    {
        remove_fields(headers, &self.config.response_remove);
        set_fields(headers, &self.config.response_set, values);
    }
}

/// Fields that are not among those to be set stay as they are.
pub proof fn lemma_other_fields_stay(h: Fields, rules: Texts, values: Texts, i: int, q: Seq<char>)
    requires
        0 <= i,
        forall|j: int|
            i <= j < rules.len() ==> text::lowered((#[trigger] rules[j]).0) != text::lowered(q),
    ensures
        message::value_of(fields_set(h, rules, values, i), q) == message::value_of(h, q),
    decreases rules.len() - i,
{
    if i < rules.len() {
        let v = placeholder::expanded(rules[i].1, values, 0);
        assert(text::lowered(rules[i].0) != text::lowered(q));
        message::lemma_fields_with(h, rules[i].0, vstd::utf8::encode_utf8(v), q);
        let next = if message::is_field_name(rules[i].0) && message::is_field_value(v) {
            message::fields_with(h, rules[i].0, vstd::utf8::encode_utf8(v))
        } else {
            h
        };
        lemma_other_fields_stay(next, rules, values, i + 1, q);
    }
}

/// A field that is to be set has its value afterwards, with the placeholders replaced,
/// whatever it was before.
pub proof fn lemma_field_is_set(
    h: Fields,
    rules: Texts,
    values: Texts,
    i: int,
    n: int,
)
    requires
        0 <= i <= n < rules.len(),
        message::is_field_name(rules[n].0),
        message::is_field_value(placeholder::expanded(rules[n].1, values, 0)),
        forall|j: int|
            n < j < rules.len() ==> text::lowered((#[trigger] rules[j]).0) != text::lowered(
                rules[n].0,
            ),
    ensures
        message::value_of(fields_set(h, rules, values, i), rules[n].0) == Some(
            vstd::utf8::encode_utf8(placeholder::expanded(rules[n].1, values, 0)),
        ),
    decreases n - i,
{
    let v = placeholder::expanded(rules[i].1, values, 0);
    let next = if message::is_field_name(rules[i].0) && message::is_field_value(v) {
        message::fields_with(h, rules[i].0, vstd::utf8::encode_utf8(v))
    } else {
        h
    };
    if i < n {
        lemma_field_is_set(next, rules, values, i + 1, n);
    } else {
        message::lemma_fields_with(h, rules[n].0, vstd::utf8::encode_utf8(v), rules[n].0);
        lemma_other_fields_stay(next, rules, values, i + 1, rules[n].0);
    }
}

/// A field is gone afterwards exactly where it is among those to be removed, whatever the
/// letter case, or was not there; the others stay as they are.
pub proof fn lemma_fields_removed(h: Fields, names: Seq<Seq<char>>, i: int, q: Seq<char>)
    requires
        0 <= i,
        forall|j: int| 0 <= j < names.len() ==> message::is_field_name(#[trigger] names[j]),
    ensures
        message::value_of(fields_removed(h, names, i), q) == (if exists|j: int|
            i <= j < names.len() && text::lowered(#[trigger] names[j]) == text::lowered(q) {
            None
        } else {
            message::value_of(h, q)
        }),
    decreases names.len() - i,
{
    if i < names.len() {
        let next = message::fields_without(h, text::lowered(names[i]));
        assert(message::is_field_name(names[i]));
        message::lemma_fields_without(h, text::lowered(names[i]), text::lowered(q));
        lemma_fields_removed(next, names, i + 1, q);
    }
}

/// A field of an answer that is to be set has its value, though it is to be removed as
/// well; one that is to be removed and not to be set is gone; any other is as it was.
pub proof fn lemma_answer_fields(
    h: Fields,
    c: HeadersConfigView,
    values: Texts,
    q: Seq<char>,
    n: int,
)
    requires
        forall|j: int|
            0 <= j < c.response_remove.len() ==> message::is_field_name(
                #[trigger] c.response_remove[j],
            ),
    ensures
        0 <= n < c.response_set.len() && message::is_field_name(c.response_set[n].0)
            && message::is_field_value(placeholder::expanded(c.response_set[n].1, values, 0)) && (
        forall|j: int|
            n < j < c.response_set.len() ==> text::lowered((#[trigger] c.response_set[j]).0)
                != text::lowered(c.response_set[n].0)) ==> message::value_of(
            answer_fields(h, c, values),
            c.response_set[n].0,
        ) == Some(
            vstd::utf8::encode_utf8(placeholder::expanded(c.response_set[n].1, values, 0)),
        ),
        (forall|j: int|
            0 <= j < c.response_set.len() ==> text::lowered((#[trigger] c.response_set[j]).0)
                != text::lowered(q)) ==> message::value_of(answer_fields(h, c, values), q) == (
        if exists|j: int|
            0 <= j < c.response_remove.len() && text::lowered(#[trigger] c.response_remove[j])
                == text::lowered(q) {
            None
        } else {
            message::value_of(h, q)
        }),
{
    let g = fields_removed(h, c.response_remove, 0);
    lemma_fields_removed(h, c.response_remove, 0, q);
    if forall|j: int|
        0 <= j < c.response_set.len() ==> text::lowered((#[trigger] c.response_set[j]).0)
            != text::lowered(q) {
        lemma_other_fields_stay(g, c.response_set, values, 0, q);
    }
    if 0 <= n < c.response_set.len() && message::is_field_name(c.response_set[n].0)
        && message::is_field_value(placeholder::expanded(c.response_set[n].1, values, 0)) && (
    forall|j: int|
        n < j < c.response_set.len() ==> text::lowered((#[trigger] c.response_set[j]).0)
            != text::lowered(c.response_set[n].0)) {
        lemma_field_is_set(g, c.response_set, values, 0, n);
    }
}

} // verus!
