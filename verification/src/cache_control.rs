//! What messages say of caching.

use vstd::prelude::*;
use crate::data::Data;
use crate::message;
use crate::message::{Fields, Headers};
use crate::ranking;
use crate::text;
use crate::time::Duration;

verus! {

/// The plain values of a [`CacheControlDirectives`].
#[verifier::ext_equal]
pub struct CacheControlDirectivesView {
    pub no_store: bool,
    pub no_cache: bool,
    pub max_age: Option<nat>,
    pub s_maxage: Option<nat>,
}

/// What a `Cache-Control` field says.
#[derive(Debug, PartialEq, Eq)]
pub struct CacheControlDirectives {
    pub no_store: bool,
    pub no_cache: bool,
    pub max_age: Option<Duration>,
    pub s_maxage: Option<Duration>,
}

impl DeepView for CacheControlDirectives {
    type V = CacheControlDirectivesView;

    open spec fn deep_view(&self) -> CacheControlDirectivesView {
        CacheControlDirectivesView {
            no_store: self.no_store.deep_view(),
            no_cache: self.no_cache.deep_view(),
            max_age: self.max_age.deep_view(),
            s_maxage: self.s_maxage.deep_view(),
        }
    }
}

impl Data for CacheControlDirectives {
    fn duplicate(&self) -> (r: CacheControlDirectives) {
        CacheControlDirectives {
            no_store: self.no_store.duplicate(),
            no_cache: self.no_cache.duplicate(),
            max_age: self.max_age.duplicate(),
            s_maxage: self.s_maxage.duplicate(),
        }
    }

    fn same_as(&self, other: &CacheControlDirectives) -> (r: bool) {
        self.no_store.same_as(&other.no_store) && self.no_cache.same_as(&other.no_cache) && self.max_age.same_as(&other.max_age) && self.s_maxage.same_as(&other.s_maxage)
    }
}

impl Clone for CacheControlDirectives {
    fn clone(&self) -> (r: CacheControlDirectives)
        ensures
            r.deep_view() == self.deep_view(),
    {
        self.duplicate()
    }
}

/// Nothing is said.
pub open spec fn nothing_said() -> CacheControlDirectivesView {
    CacheControlDirectivesView { no_store: false, no_cache: false, max_age: None, s_maxage: None }
}

impl Default for CacheControlDirectives {
    fn default() -> (d: CacheControlDirectives)
        ensures
            d.deep_view() == nothing_said(),
    {
        CacheControlDirectives { no_store: false, no_cache: false, max_age: None, s_maxage: None }
    }
}

/// The span of so many seconds as a text says, where it does.
pub open spec fn seconds(s: Seq<char>) -> Option<nat> {
    match text::number(text::trimmed(s), u64::MAX as nat) {
        Some(n) => Some(n * 1_000_000_000),
        None => None,
    }
}

/// What is said with one more directive.
pub open spec fn with_directive(d: CacheControlDirectivesView, part: Seq<char>)
    -> CacheControlDirectivesView {
    let p = text::lowered(text::trimmed(part));
    if p == "no-store"@ {
        CacheControlDirectivesView { no_store: true, ..d }
    } else if p == "no-cache"@ {
        CacheControlDirectivesView { no_cache: true, ..d }
    } else if let Some(v) = text::after_prefix(p, "max-age="@) {
        match seconds(v) {
            Some(n) => CacheControlDirectivesView { max_age: Some(n), ..d },
            None => d,
        }
    } else if let Some(v) = text::after_prefix(p, "s-maxage="@) {
        match seconds(v) {
            Some(n) => CacheControlDirectivesView { s_maxage: Some(n), ..d },
            None => d,
        }
    } else {
        d
    }
}

/// What is said with the directives from `i` on.
pub open spec fn directives_from(
    d: CacheControlDirectivesView,
    parts: Seq<Seq<char>>,
    i: int,
) -> CacheControlDirectivesView
    decreases parts.len() - i,
{
    if i < 0 || i >= parts.len() {
        d
    } else {
        directives_from(with_directive(d, parts[i]), parts, i + 1)
    }
}

/// What a `Cache-Control` field says.
pub open spec fn cache_control(value: Seq<char>) -> CacheControlDirectivesView {
    directives_from(nothing_said(), text::pieces(value, ','), 0)
}

/// The span of so many seconds as a text says, where it does.
fn read_seconds(s: &str) -> (r: Option<Duration>)
    ensures
        r.deep_view() == seconds(s@),
{
    match text::parse_number(text::trim(s).as_str(), u64::MAX) {
        Some(n) => Some(Duration::from_secs(n)),
        None => None,
    }
}

/// Reads a `Cache-Control` field.
pub fn parse_cache_control(value: &str) -> (d: CacheControlDirectives)
    ensures
        d.deep_view() == cache_control(value@),
{
    let mut d = CacheControlDirectives::default();
    let parts = text::split(value, ',');
    let ghost ps = parts.deep_view();
    for i in 0..parts.len()
        invariant
            ps == parts.deep_view(),
            ps == text::pieces(value@, ','),
            directives_from(d.deep_view(), ps, i as int) == cache_control(value@),
    {
        assert(ps[i as int] == parts@[i as int]@);
        let part = text::to_lower(text::trim(parts[i].as_str()).as_str());
        let p = part.as_str();
        if text::same(p, "no-store") {
            d.no_store = true;
        } else if text::same(p, "no-cache") {
            d.no_cache = true;
        } else if let Some(v) = text::strip_prefix(p, "max-age=") {
            if let Some(n) = read_seconds(v.as_str()) {
                d.max_age = Some(n);
            }
        } else if let Some(v) = text::strip_prefix(p, "s-maxage=") {
            if let Some(n) = read_seconds(v.as_str()) {
                d.s_maxage = Some(n);
            }
        }
    }
    d
}

// ---------------------------------------------------------------------------
// Fields that a response depends on
// ---------------------------------------------------------------------------

/// A field of the request that the response depends on, with its value.
pub open spec fn vary_part(part: Seq<char>, req: Fields) -> Seq<char> {
    let name = text::lowered(text::trimmed(part));
    name + "="@ + message::field_or(req, name, ""@)
}

/// The fields of the request that the parts name, with their values.
pub open spec fn vary_parts(parts: Seq<Seq<char>>, req: Fields) -> Seq<Seq<char>> {
    Seq::new(parts.len(), |i: int| vary_part(parts[i], req))
}

/// What tells apart the requests that a response stands for: the values of the
/// fields that its `Vary` field names.
pub open spec fn vary_key(resp: Fields, req: Fields) -> Seq<char> {
    match message::field_of(resp, "vary"@) {
        Some(v) => if v == "*"@ {
            "*"@
        } else {
            text::joined(
                ranking::sorted::<String>(vary_parts(text::pieces(v, ','), req)),
                "&"@,
            )
        },
        None => ""@,
    }
}

/// What tells apart the requests that a response stands for.
pub fn build_vary_key(response_headers: &Headers, request_headers: &Headers) -> (r: String)
    ensures
        r@ == vary_key(response_headers.deep_view(), request_headers.deep_view()),
{
    let vary = match response_headers.text("vary") {
        Some(v) => v,
        None => return "".to_owned(),
    };
    if text::same(vary.as_str(), "*") {
        return "*".to_owned();
    }
    let names = text::split(vary.as_str(), ',');
    let mut parts: Vec<String> = Vec::new();
    let ghost req = request_headers.deep_view();
    for i in 0..names.len()
        invariant
            req == request_headers.deep_view(),
            parts@.len() == i,
            forall|k: int|
                0 <= k < i ==> (#[trigger] parts@[k])@ == vary_parts(names.deep_view(), req)[k],
    {
        assert(names.deep_view()[i as int] == names@[i as int]@);
        let name = text::to_lower(text::trim(names[i].as_str()).as_str());
        let value = request_headers.text_or(name.as_str(), "");
        parts.push(text::join3(name.as_str(), "=", value.as_str()));
    }
    assert(parts.deep_view() =~= vary_parts(names.deep_view(), req));
    text::join_all(&ranking::sort(&parts), "&")
}

/// Only a response without a `Vary` field stands for all requests.
pub proof fn lemma_empty_vary_key(resp: Fields, req: Fields)
    requires
        vary_key(resp, req) == ""@,
    ensures
        message::field_of(resp, "vary"@) is None,
{
    reveal_strlit("");
    reveal_strlit("*");
    reveal_strlit("&");
    reveal_strlit("=");
    if let Some(v) = message::field_of(resp, "vary"@) {
        if v != "*"@ {
            let parts = vary_parts(text::pieces(v, ','), req);
            let sorted = ranking::sorted::<String>(parts);
            text::lemma_pieces(v, ',', 0);
            ranking::lemma_sorted_keeps::<String>(parts);
            ranking::lemma_sorted_member::<String>(parts, 0);
            let i = choose|i: int| 0 <= i < parts.len() && parts[i] == sorted[0];
            assert(sorted[0].len() > 0);
            assert(text::joined(sorted, "&"@).len() > 0);
        }
    }
}

/// Where a response depends on one field, requests with other values of it are told
/// apart.
pub proof fn lemma_one_vary_field(resp: Fields, a: Fields, b: Fields)
    requires
        message::field_of(resp, "vary"@) matches Some(v) && v != "*"@ && !v.contains(','),
        ({
            let name = text::lowered(text::trimmed(message::field_of(resp, "vary"@)->0));
            message::field_or(a, name, ""@) != message::field_or(b, name, ""@)
        }),
    ensures
        vary_key(resp, a) != vary_key(resp, b),
{
    let v = message::field_of(resp, "vary"@)->0;
    text::lemma_char_at(v, ',', 0);
    assert(forall|i: int| 0 <= i < v.len() ==> v.contains(#[trigger] v[i]));
    assert(text::char_at(v, ',', 0) is None);
    assert(v.skip(0) =~= v);
    assert(text::pieces(v, ',') =~= seq![v]);
    lemma_one_vary_part(v, a);
    lemma_one_vary_part(v, b);
    let head = text::lowered(text::trimmed(v)) + "="@;
    let (x, y) = (vary_part(v, a), vary_part(v, b));
    if x == y {
        assert(x.skip(head.len() as int) =~= y.skip(head.len() as int));
        assert(x.skip(head.len() as int) =~= message::field_or(
            a,
            text::lowered(text::trimmed(v)),
            ""@,
        ));
        assert(y.skip(head.len() as int) =~= message::field_or(
            b,
            text::lowered(text::trimmed(v)),
            ""@,
        ));
    }
}

proof fn lemma_one_vary_part(v: Seq<char>, req: Fields)
    ensures
        text::joined(ranking::sorted::<String>(vary_parts(seq![v], req)), "&"@) == vary_part(
            v,
            req,
        ),
{
    let parts = vary_parts(seq![v], req);
    let none = Seq::<Seq<char>>::empty();
    assert(parts =~= seq![vary_part(v, req)]);
    assert(parts.drop_last() =~= none);
    assert(ranking::sorted::<String>(none) =~= none);
    ranking::lemma_place::<String>(none, parts.last(), 0);
    assert(ranking::sorted::<String>(parts) =~= seq![vary_part(v, req)]);
}

/// Directives are told apart by commas, whatever their letter case and the white space
/// around them: `no-store` and `no-cache` say so wherever they stand, and `max-age` and
/// `s-maxage` give so many seconds.
pub proof fn lemma_directives(parts: Seq<Seq<char>>, n: nat)
    requires
        parts.len() > 0,
        forall|i: int| 0 <= i < parts.len() ==> !(#[trigger] parts[i]).contains(','),
        n <= u64::MAX,
    ensures
        ({
            let d = cache_control(text::joined(parts, seq![',']));
            &&& d.no_store <==> exists|i: int|
                0 <= i < parts.len() && text::lowered(text::trimmed(#[trigger] parts[i]))
                    == "no-store"@
            &&& d.no_cache <==> exists|i: int|
                0 <= i < parts.len() && text::lowered(text::trimmed(#[trigger] parts[i]))
                    == "no-cache"@
            &&& text::lowered(text::trimmed(parts.last())) == "max-age="@ + text::decimal(n)
                ==> d.max_age == Some((n * 1_000_000_000) as nat)
            &&& text::lowered(text::trimmed(parts.last())) == "s-maxage="@ + text::decimal(n)
                ==> d.s_maxage == Some((n * 1_000_000_000) as nat)
        }),
{
    text::lemma_pieces_of_joined(parts, ',');
    lemma_directives_from(nothing_said(), parts, 0);
    lemma_last_directive(nothing_said(), parts, 0, n);
}

/// What the directives from `i` on add to what was said before.
proof fn lemma_directives_from(d: CacheControlDirectivesView, parts: Seq<Seq<char>>, i: int)
    requires
        0 <= i <= parts.len(),
    ensures
        directives_from(d, parts, i).no_store <==> d.no_store || exists|j: int|
            i <= j < parts.len() && text::lowered(text::trimmed(#[trigger] parts[j]))
                == "no-store"@,
        directives_from(d, parts, i).no_cache <==> d.no_cache || exists|j: int|
            i <= j < parts.len() && text::lowered(text::trimmed(#[trigger] parts[j]))
                == "no-cache"@,
    decreases parts.len() - i,
{
    if i < parts.len() {
        lemma_directives_from(with_directive(d, parts[i]), parts, i + 1);
        reveal_strlit("no-store");
        reveal_strlit("no-cache");
        assert("no-store"@[3] != "no-cache"@[3]);
        assert(text::lowered(text::trimmed(parts[i])) == text::lowered(text::trimmed(parts[i])));
    }
}

/// The last directive holds.
proof fn lemma_last_directive(
    d: CacheControlDirectivesView,
    parts: Seq<Seq<char>>,
    i: int,
    n: nat,
)
    requires
        0 <= i < parts.len(),
        n <= u64::MAX,
    ensures
        ({
            let r = directives_from(d, parts, i);
            let p = text::lowered(text::trimmed(parts.last()));
            &&& p == "max-age="@ + text::decimal(n) ==> r.max_age == Some(
                (n * 1_000_000_000) as nat,
            )
            &&& p == "s-maxage="@ + text::decimal(n) ==> r.s_maxage == Some(
                (n * 1_000_000_000) as nat,
            )
        }),
    decreases parts.len() - i,
{
    if i + 1 < parts.len() {
        lemma_last_directive(with_directive(d, parts[i]), parts, i + 1, n);
    } else {
        reveal_strlit("max-age=");
        reveal_strlit("s-maxage=");
        reveal_strlit("no-store");
        reveal_strlit("no-cache");
        let p = text::lowered(text::trimmed(parts[i]));
        let v = text::decimal(n);
        text::lemma_decimal_value(n);
        text::lemma_trimmed_fixed(v);
        if p == "max-age="@ + v {
            assert(p[0] == 'm');
            assert(p.subrange(0, 8) =~= "max-age="@);
            assert(p.skip(8) =~= v);
            assert(text::after_prefix(p, "max-age="@) == Some(v));
        }
        if p == "s-maxage="@ + v {
            assert(p[0] == 's');
            assert(p.subrange(0, 8)[0] == 's');
            assert(p.subrange(0, 9) =~= "s-maxage="@);
            assert(p.skip(9) =~= v);
            assert(text::after_prefix(p, "s-maxage="@) == Some(v));
        }
        assert(directives_from(d, parts, i) == with_directive(d, parts[i])) by {
            assert(directives_from(with_directive(d, parts[i]), parts, i + 1) == with_directive(
                d,
                parts[i],
            ));
        }
    }
}

/// Requests with the same values of all the fields that an answer names depend on it in
/// the same way.
pub proof fn lemma_same_vary_fields(resp: Fields, a: Fields, b: Fields, names: Seq<Seq<char>>)
    requires
        names.len() > 0,
        forall|i: int| 0 <= i < names.len() ==> !(#[trigger] names[i]).contains(','),
        message::field_of(resp, "vary"@) == Some(text::joined(names, seq![','])),
        forall|i: int|
            0 <= i < names.len() ==> message::field_or(
                a,
                text::lowered(text::trimmed(#[trigger] names[i])),
                ""@,
            ) == message::field_or(b, text::lowered(text::trimmed(names[i])), ""@),
    ensures
        vary_key(resp, a) == vary_key(resp, b),
{
    text::lemma_pieces_of_joined(names, ',');
    assert(vary_parts(names, a) =~= vary_parts(names, b));
}

} // verus!
