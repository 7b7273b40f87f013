//! HTTP messages as plain values: header fields, URIs, requests and responses.

use vstd::prelude::*;
use crate::net::IpAddr;
use crate::text;

verus! {

// ---------------------------------------------------------------------------
// Field names and values
// ---------------------------------------------------------------------------

/// A character that a header field name may hold.
pub open spec fn token_char(c: char) -> bool {
    ||| '0' <= c <= '9'
    ||| 'A' <= c <= 'Z'
    ||| 'a' <= c <= 'z'
    ||| c == '!'
    ||| c == '#'
    ||| c == '$'
    ||| c == '%'
    ||| c == '&'
    ||| c == '\''
    ||| c == '*'
    ||| c == '+'
    ||| c == '-'
    ||| c == '.'
    ||| c == '^'
    ||| c == '_'
    ||| c == '`'
    ||| c == '|'
    ||| c == '~'
}

/// `s` is a header field name.
pub open spec fn is_field_name(s: Seq<char>) -> bool {
    0 < s.len() <= 65535 && forall|i: int| 0 <= i < s.len() ==> token_char(#[trigger] s[i])
}

/// `s` can stand as a header field value.
pub open spec fn is_field_value(s: Seq<char>) -> bool {
    forall|i: int|
        0 <= i < s.len() ==> (#[trigger] s[i] == '\t' || (s[i] >= ' ' && s[i] as u32 != 127))
}

/// A byte that a header field value may show as text.
pub open spec fn visible(b: u8) -> bool {
    (32 <= b < 127) || b == 9
}

/// Every byte can be shown as text.
pub open spec fn all_visible(v: Seq<u8>) -> bool {
    forall|i: int| 0 <= i < v.len() ==> visible(#[trigger] v[i])
}

/// `s` is the name of a method.
pub open spec fn is_method_name(s: Seq<char>) -> bool {
    s.len() > 0 && forall|i: int| 0 <= i < s.len() ==> token_char(#[trigger] s[i])
}

/// `http::Method::from_bytes`: a name of token characters is taken, any other text is
/// refused.
#[verifier::external_body]
pub(crate) fn is_method(s: &str) -> (r: bool)
    ensures
        r == is_method_name(s@),
{
    http::Method::from_bytes(s.as_bytes()).is_ok()
}

/// The text of a header field value, where every byte can be shown.
pub open spec fn value_text(v: Seq<u8>) -> Option<Seq<char>> {
    if all_visible(v) {
        Some(v.map_values(|b: u8| b as char))
    } else {
        None
    }
}

/// `http::HeaderName::from_bytes`: a name of at most 65535 token characters is
/// taken over with its letters in lower case; any other text is refused.
#[verifier::external_body]
pub(crate) fn field_name(name: &str) -> (r: Option<String>)
    ensures
        match r {
            Some(n) => is_field_name(name@) && n@ == text::lowered(name@),
            None => !is_field_name(name@),
        },
{
    http::HeaderName::from_bytes(name.as_bytes()).ok().map(|n| n.as_str().to_string())
}

/// `http::HeaderValue::from_str`: a text without control characters other than
/// the tab is taken over as its bytes; any other text is refused.
#[verifier::external_body]
pub(crate) fn field_value(value: &str) -> (r: Option<Vec<u8>>)
    ensures
        match r {
            Some(v) => is_field_value(value@) && v@ == vstd::utf8::encode_utf8(value@),
            None => !is_field_value(value@),
        },
{
    http::HeaderValue::from_str(value).ok().map(|v| v.as_bytes().to_vec())
}

/// The text of a header field value, where every byte can be shown.
pub fn visible_text(v: &[u8]) -> (r: Option<String>)
    ensures
        r.deep_view() == value_text(v@),
{
    let mut s = String::new();
    for i in 0..v.len()
        invariant
            all_visible(v@.take(i as int)),
            s@ == v@.take(i as int).map_values(|b: u8| b as char),
    {
        let b: u8 = v[i];
        if !((32 <= b && b < 127) || b == 9) {
            assert(!visible(v@[i as int]));
            return None;
        }
        s.push(b as char);
        proof {
            assert(v@.take(i + 1) =~= v@.take(i as int).push(b));
            assert forall|j: int| 0 <= j < i + 1 implies visible(#[trigger] v@.take(i + 1)[j]) by {
                if j < i {
                    assert(visible(v@.take(i as int)[j]));
                }
            }
            assert(s@ =~= v@.take(i + 1).map_values(|b: u8| b as char));
        }
    }
    assert(v@.take(v@.len() as int) =~= v@);
    Some(s)
}

// ---------------------------------------------------------------------------
// Header fields
// ---------------------------------------------------------------------------

/// Header fields as names in lower case and values.
pub type Fields = Seq<(Seq<char>, Seq<u8>)>;

/// The value of the first field from `i` on with the name `n`.
pub open spec fn value_from(h: Fields, n: Seq<char>, i: int) -> Option<Seq<u8>>
    decreases h.len() - i,
{
    if i < 0 || i >= h.len() {
        None
    } else if h[i].0 == n {
        Some(h[i].1)
    } else {
        value_from(h, n, i + 1)
    }
}

/// The value of the first field with the name `n`, whatever its letter case.
pub open spec fn value_of(h: Fields, n: Seq<char>) -> Option<Seq<u8>> {
    value_from(h, text::lowered(n), 0)
}

/// The text of the first field with the name `n`.
pub open spec fn field_of(h: Fields, n: Seq<char>) -> Option<Seq<char>> {
    match value_of(h, n) {
        Some(v) => value_text(v),
        None => None,
    }
}

/// The text of the first field with the name `n`, or `other`.
pub open spec fn field_or(h: Fields, n: Seq<char>, other: Seq<char>) -> Seq<char> {
    match field_of(h, n) {
        Some(t) => t,
        None => other,
    }
}

/// The fields without those of the (lower-case) name `n`.
pub open spec fn fields_without(h: Fields, n: Seq<char>) -> Fields
    decreases h.len(),
{
    if h.len() == 0 {
        h
    } else if h.last().0 == n {
        fields_without(h.drop_last(), n)
    } else {
        fields_without(h.drop_last(), n).push(h.last())
    }
}

/// The fields with `v` as the only value of the name `n`.
pub open spec fn fields_with(h: Fields, n: Seq<char>, v: Seq<u8>) -> Fields {
    fields_without(h, text::lowered(n)).push((text::lowered(n), v))
}

/// The values of all fields with the (lower-case) name `n`.
pub open spec fn values_of(h: Fields, n: Seq<char>) -> Seq<Seq<u8>>
    decreases h.len(),
{
    if h.len() == 0 {
        seq![]
    } else if h.last().0 == n {
        values_of(h.drop_last(), n).push(h.last().1)
    } else {
        values_of(h.drop_last(), n)
    }
}

/// The value of a name starts at the first field that has it.
proof fn lemma_value_from(h: Fields, n: Seq<char>, i: int)
    requires
        0 <= i,
    ensures
        match value_from(h, n, i) {
            Some(v) => exists|j: int| i <= j < h.len() && #[trigger] h[j] == (n, v) && forall|k: int|
                i <= k < j ==> (#[trigger] h[k]).0 != n,
            None => forall|k: int| i <= k < h.len() ==> (#[trigger] h[k]).0 != n,
        },
    decreases h.len() - i,
{
    if i < h.len() && h[i].0 != n {
        lemma_value_from(h, n, i + 1);
        if let Some(v) = value_from(h, n, i) {
            let j = choose|j: int|
                i + 1 <= j < h.len() && #[trigger] h[j] == (n, v) && forall|k: int|
                    i + 1 <= k < j ==> (#[trigger] h[k]).0 != n;
            assert(h[j] == (n, v));
        }
    } else if i < h.len() {
        assert(h[i] == (n, h[i].1));
    }
}

/// What appending a field does to the value of a name.
proof fn lemma_value_push(h: Fields, f: (Seq<char>, Seq<u8>), n: Seq<char>, i: int)
    requires
        0 <= i <= h.len(),
    ensures
        value_from(h.push(f), n, i) == (match value_from(h, n, i) {
            Some(v) => Some(v),
            None => if f.0 == n {
                Some(f.1)
            } else {
                None
            },
        }),
    decreases h.len() - i,
{
    let g = h.push(f);
    if i < h.len() {
        assert(g[i] == h[i]);
        lemma_value_push(h, f, n, i + 1);
    } else {
        assert(g[i] == f);
        assert(value_from(g, n, i + 1) is None);
    }
}

/// Removing a name leaves no field with it and keeps the values of the others.
pub proof fn lemma_fields_without(h: Fields, n: Seq<char>, q: Seq<char>)
    ensures
        value_from(fields_without(h, n), q, 0) == (if q == n {
            None
        } else {
            value_from(h, q, 0)
        }),
    decreases h.len(),
{
    if h.len() > 0 {
        let d = h.drop_last();
        lemma_fields_without(d, n, q);
        lemma_value_push(d, h.last(), q, 0);
        assert(d.push(h.last()) =~= h);
        if h.last().0 != n {
            lemma_value_push(fields_without(d, n), h.last(), q, 0);
        }
    }
}

/// A field that was set is found with its value; the fields of other names are
/// as they were.
pub proof fn lemma_fields_with(h: Fields, n: Seq<char>, v: Seq<u8>, q: Seq<char>)
    ensures
        value_of(fields_with(h, n, v), q) == (if text::lowered(q) == text::lowered(n) {
            Some(v)
        } else {
            value_of(h, q)
        }),
{
    let (ln, lq) = (text::lowered(n), text::lowered(q));
    lemma_fields_without(h, ln, lq);
    lemma_value_push(fields_without(h, ln), (ln, v), lq, 0);
}

/// The header fields of a message; names are in lower case.
#[derive(Debug)]
pub struct Headers {
    pub entries: Vec<(String, Vec<u8>)>,
}

impl DeepView for Headers {
    type V = Fields;

    open spec fn deep_view(&self) -> Fields {
        self.entries.deep_view()
    }
}

impl Clone for Headers {
    fn clone(&self) -> (h: Headers)
        ensures
            h.deep_view() == self.deep_view(),
    {
        let mut entries: Vec<(String, Vec<u8>)> = Vec::new();
        for i in 0..self.entries.len()
            invariant
                entries.deep_view() == self.deep_view().take(i as int),
        {
            let name = self.entries[i].0.clone();
            let value = bytes_of(&self.entries[i].1);
            let ghost before = entries.deep_view();
            entries.push((name, value));
            proof {
                assert(value.deep_view() =~= self.entries@[i as int].1.deep_view());
                assert(entries.deep_view() =~= before.push(self.deep_view()[i as int]));
                assert(self.deep_view().take(i + 1) =~= before.push(self.deep_view()[i as int]));
            }
        }
        assert(self.deep_view().take(self.deep_view().len() as int) =~= self.deep_view());
        Headers { entries }
    }
}

impl Headers {
    /// No fields.
    pub fn new() -> (h: Headers)
        ensures
            h.deep_view() == Seq::<(Seq<char>, Seq<u8>)>::empty(),
    {
        let h = Headers { entries: Vec::new() };
        assert(h.deep_view() =~= Seq::empty());
        h
    }

    /// The value of the first field with the name.
    pub fn get(&self, name: &str) -> (r: Option<Vec<u8>>)
        ensures
            r.deep_view() == value_of(self.deep_view(), name@),
    {
        let n = text::to_lower(name);
        for i in 0..self.entries.len()
            invariant
                n@ == text::lowered(name@),
                value_of(self.deep_view(), name@) == value_from(self.deep_view(), n@, i as int),
        {
            assert(self.deep_view()[i as int].0 == self.entries@[i as int].0@);
            if self.entries[i].0 == n {
                let v = bytes_of(&self.entries[i].1);
                assert(v.deep_view() =~= self.deep_view()[i as int].1);
                return Some(v);
            }
        }
        None
    }

    /// The text of the first field with the name.
    pub fn text(&self, name: &str) -> (r: Option<String>)
        ensures
            r.deep_view() == field_of(self.deep_view(), name@),
    {
        match self.get(name) {
            Some(v) => {
                assert(v.deep_view() =~= v@);
                visible_text(&v)
            },
            None => None,
        }
    }

    /// The text of the first field with the name, or `other`.
    pub fn text_or(&self, name: &str, other: &str) -> (r: String)
        ensures
            r@ == field_or(self.deep_view(), name@, other@),
    {
        match self.text(name) {
            Some(t) => t,
            None => other.to_owned(),
        }
    }

    /// Tells whether there is a field with the name.
    pub fn contains_key(&self, name: &str) -> (r: bool)
        ensures
            r == (value_of(self.deep_view(), name@) is Some),
    {
        self.get(name).is_some()
    }

    /// Adds a field after the others.
    pub fn append(&mut self, name: &str, value: Vec<u8>)
        ensures
            final(self).deep_view() == old(self).deep_view().push((text::lowered(name@), value@)),
    {
        let ghost before = self.deep_view();
        self.entries.push((text::to_lower(name), value));
        assert(value.deep_view() =~= value@);
        assert(self.deep_view() =~= before.push((text::lowered(name@), value@)));
    }

    /// Removes the fields with the name.
    pub fn remove(&mut self, name: &str)
        ensures
            final(self).deep_view() == fields_without(old(self).deep_view(), text::lowered(name@)),
    {
        let n = text::to_lower(name);
        let ghost all = self.deep_view();
        let mut kept: Vec<(String, Vec<u8>)> = Vec::new();
        for i in 0..self.entries.len()
            invariant
                *self == *old(self),
                all == self.deep_view(),
                kept.deep_view() == fields_without(all.take(i as int), n@),
        {
            proof {
                assert(all.take(i + 1).drop_last() =~= all.take(i as int));
                assert(all.take(i + 1).last() == all[i as int]);
            }
            if self.entries[i].0 != n {
                let entry_name = self.entries[i].0.clone();
                let value = bytes_of(&self.entries[i].1);
                let ghost before = kept.deep_view();
                kept.push((entry_name, value));
                proof {
                    assert(value.deep_view() =~= all[i as int].1);
                    assert(kept.deep_view() =~= before.push(all[i as int]));
                }
            }
        }
        assert(all.take(all.len() as int) =~= all);
        self.entries = kept;
    }

    /// Sets the only value of the name.
    pub fn insert(&mut self, name: &str, value: Vec<u8>)
        ensures
            final(self).deep_view() == fields_with(old(self).deep_view(), name@, value@),
    {
        self.remove(name);
        self.append(name, value);
    }
}

/// The same bytes in a vector of their own.
pub fn bytes_of(v: &[u8]) -> (r: Vec<u8>)
    ensures
        r@ == v@,
{
    let mut r: Vec<u8> = Vec::new();
    for i in 0..v.len()
        invariant
            r@ == v@.take(i as int),
    {
        r.push(v[i]);
    }
    assert(v@.take(v@.len() as int) =~= v@);
    r
}

/// The UTF-8 form of a text.
pub fn utf8(s: &str) -> (r: Vec<u8>)
    ensures
        r@ == vstd::utf8::encode_utf8(s@),
{
    bytes_of(s.as_bytes())
}

// ---------------------------------------------------------------------------
// URIs
// ---------------------------------------------------------------------------

/// The parts of a URI.
#[verifier::ext_equal]
pub struct UriView {
    pub scheme: Option<Seq<char>>,
    pub authority: Option<Seq<char>>,
    pub path_and_query: Option<Seq<char>>,
}

/// A URI as its parts.
#[derive(Debug)]
pub struct Uri {
    pub scheme: Option<String>,
    pub authority: Option<String>,
    pub path_and_query: Option<String>,
}

impl DeepView for Uri {
    type V = UriView;

    open spec fn deep_view(&self) -> UriView {
        UriView {
            scheme: self.scheme.deep_view(),
            authority: self.authority.deep_view(),
            path_and_query: self.path_and_query.deep_view(),
        }
    }
}

impl UriView {
    /// The path and query, or `/`.
    pub open spec fn target(self) -> Seq<char> {
        match self.path_and_query {
            Some(p) => p,
            None => seq!['/'],
        }
    }

    /// The path: what stands before the question mark, or `/` where nothing does.
    pub open spec fn path(self) -> Seq<char> {
        match self.path_and_query {
            Some(p) => if text::before(p, '?').len() == 0 {
                seq!['/']
            } else {
                text::before(p, '?')
            },
            None => seq![],
        }
    }

    /// The query: what stands after the question mark.
    pub open spec fn query(self) -> Option<Seq<char>> {
        match self.path_and_query {
            Some(p) => match text::cut(p, '?') {
                Some((_, q)) => Some(q),
                None => None,
            },
            None => None,
        }
    }

    /// The query, or nothing.
    pub open spec fn query_text(self) -> Seq<char> {
        match self.query() {
            Some(q) => q,
            None => seq![],
        }
    }

    /// The whole URI.
    pub open spec fn full_text(self) -> Seq<char> {
        let scheme = match self.scheme {
            Some(s) => s + "://"@,
            None => seq![],
        };
        let authority = match self.authority {
            Some(a) => a,
            None => seq![],
        };
        let query = match self.query() {
            Some(q) => "?"@ + q,
            None => seq![],
        };
        scheme + authority + self.path() + query
    }

    /// The scheme, or `http`.
    pub open spec fn scheme_text(self) -> Seq<char> {
        match self.scheme {
            Some(s) => s,
            None => "http"@,
        }
    }
}

/// The same text, where there is one.
pub fn copy_text(s: &Option<String>) -> (r: Option<String>)
    ensures
        r.deep_view() == s.deep_view(),
{
    match s {
        Some(t) => Some(t.clone()),
        None => None,
    }
}

/// The text `/`.
pub fn slash() -> (s: String)
    ensures
        s@ == seq!['/'],
{
    let mut s = String::new();
    s.push('/');
    assert(s@ =~= seq!['/']);
    s
}

impl Clone for Uri {
    fn clone(&self) -> (u: Uri)
        ensures
            u.deep_view() == self.deep_view(),
    {
        Uri {
            scheme: copy_text(&self.scheme),
            authority: copy_text(&self.authority),
            path_and_query: copy_text(&self.path_and_query),
        }
    }
}

impl Uri {
    /// The path and query, or `/`.
    pub fn target(&self) -> (r: String)
        ensures
            r@ == self.deep_view().target(),
    {
        match &self.path_and_query {
            Some(p) => p.clone(),
            None => slash(),
        }
    }

    /// The path.
    pub fn path(&self) -> (r: String)
        ensures
            r@ == self.deep_view().path(),
    {
        match &self.path_and_query {
            Some(p) => {
                let s = text::before_char(p.as_str(), '?');
                if s.as_str().is_empty() {
                    slash()
                } else {
                    s
                }
            },
            None => {
                let s = String::new();
                assert(s@ =~= seq![]);
                s
            },
        }
    }

    /// The query.
    pub fn query(&self) -> (r: Option<String>)
        ensures
            r.deep_view() == self.deep_view().query(),
    {
        match &self.path_and_query {
            Some(p) => match text::split_once(p.as_str(), '?') {
                Some((_, q)) => Some(q),
                None => None,
            },
            None => None,
        }
    }

    /// The query, or nothing.
    pub fn query_text(&self) -> (r: String)
        ensures
            r@ == self.deep_view().query_text(),
    {
        match self.query() {
            Some(q) => q,
            None => {
                let s = String::new();
                assert(s@ =~= seq![]);
                s
            },
        }
    }

    /// The scheme, or `http`.
    pub fn scheme_text(&self) -> (r: String)
        ensures
            r@ == self.deep_view().scheme_text(),
    {
        match &self.scheme {
            Some(s) => s.clone(),
            None => "http".to_owned(),
        }
    }

    /// The whole URI.
    pub fn full_text(&self) -> (r: String)
        ensures
            r@ == self.deep_view().full_text(),
    {
        let mut out = String::new();
        assert(out@ =~= seq![]);
        if let Some(s) = &self.scheme {
            out = text::join(s.as_str(), "://");
        }
        let ghost scheme = out@;
        if let Some(a) = &self.authority {
            out.append(a.as_str());
        } else {
            assert(out@ =~= scheme + seq![]);
        }
        out.append(self.path().as_str());
        let ghost shown = out@;
        if let Some(q) = self.query() {
            out.append(text::join("?", q.as_str()).as_str());
        } else {
            assert(out@ =~= shown + seq![]);
        }
        out
    }
}

/// What `http::Uri::from_str` makes of a text: the parts of the URI, or the
/// text of the error.
pub uninterp spec fn parsed_uri(s: Seq<char>) -> Result<UriView, Seq<char>>;

/// The view of a URI, or of the error text in its place.
pub open spec fn uri_result(r: Result<Uri, String>) -> Result<UriView, Seq<char>> {
    match r {
        Ok(u) => Ok(u.deep_view()),
        Err(e) => Err(e@),
    }
}

/// `http::Uri::from_str`, taken apart into plain texts. What it accepts is left
/// to the outside parser; the same text always gives the same outcome.
#[verifier::external_body]
pub(crate) fn parse_uri(s: &str) -> (r: Result<Uri, String>)
    ensures
        uri_result(r) == parsed_uri(s@),
{
    let u = s.parse::<http::Uri>().map_err(|e| e.to_string())?;
    Ok(Uri {
        scheme: u.scheme_str().map(|t| t.to_string()),
        authority: u.authority().map(|t| t.as_str().to_string()),
        path_and_query: u.path_and_query().map(|t| t.as_str().to_string()),
    })
}

/// What `http::uri::Builder::build` makes of the parts: the parts of the URI,
/// or the text of the error.
pub uninterp spec fn built_uri(
    scheme: Option<Seq<char>>,
    authority: Option<Seq<char>>,
    path_and_query: Seq<char>,
) -> Result<UriView, Seq<char>>;

/// `http::uri::Builder::build` with the given parts. Which parts go together is
/// left to the outside builder; the same parts always give the same outcome.
#[verifier::external_body]
pub(crate) fn build_uri(scheme: &Option<String>, authority: &Option<String>, pq: &str) -> (r: Result<Uri, String>)
    ensures
        uri_result(r) == built_uri(scheme.deep_view(), authority.deep_view(), pq@),
{
    let b = http::Uri::builder();
    let b = match scheme { Some(s) => b.scheme(s.as_str()), None => b };
    let b = match authority { Some(a) => b.authority(a.as_str()), None => b };
    let u = b.path_and_query(pq).build().map_err(|e| e.to_string())?;
    Ok(Uri {
        scheme: u.scheme_str().map(|t| t.to_string()),
        authority: u.authority().map(|t| t.as_str().to_string()),
        path_and_query: u.path_and_query().map(|t| t.as_str().to_string()),
    })
}

// ---------------------------------------------------------------------------
// Requests and responses
// ---------------------------------------------------------------------------

/// The version of HTTP that a message is written in.
#[derive(Clone, Copy, Debug, PartialEq, Eq, Structural)]
pub enum Version {
    Http09,
    Http10,
    Http11,
    Http2,
    Http3,
}

/// The head of a request.
#[verifier::ext_equal]
pub struct RequestView {
    pub method: Seq<char>,
    pub uri: UriView,
    pub version: Version,
    pub headers: Fields,
}

/// The head of a request.
#[derive(Debug)]
pub struct Request {
    pub method: String,
    pub uri: Uri,
    pub version: Version,
    pub headers: Headers,
}

impl DeepView for Request {
    type V = RequestView;

    open spec fn deep_view(&self) -> RequestView {
        RequestView {
            method: self.method@,
            uri: self.uri.deep_view(),
            version: self.version,
            headers: self.headers.deep_view(),
        }
    }
}

impl Clone for Request {
    fn clone(&self) -> (r: Request)
        ensures
            r.deep_view() == self.deep_view(),
    {
        Request {
            method: self.method.clone(),
            uri: self.uri.clone(),
            version: self.version,
            headers: self.headers.clone(),
        }
    }
}

/// The address of a client: its IP address, that address as text, and its port.
#[verifier::ext_equal]
pub struct ClientView {
    pub ip: IpAddr,
    pub ip_text: Seq<char>,
    pub port: u16,
}

/// The address of a client: its IP address, that address as text, and its port.
#[derive(Debug)]
pub struct ClientAddr {
    pub ip: IpAddr,
    pub ip_text: String,
    pub port: u16,
}

impl DeepView for ClientAddr {
    type V = ClientView;

    open spec fn deep_view(&self) -> ClientView {
        ClientView { ip: self.ip, ip_text: self.ip_text@, port: self.port }
    }
}

impl Clone for ClientAddr {
    fn clone(&self) -> (r: ClientAddr)
        ensures
            r.deep_view() == self.deep_view(),
    {
        ClientAddr { ip: self.ip, ip_text: self.ip_text.clone(), port: self.port }
    }
}

/// A response with its whole body.
#[verifier::ext_equal]
pub struct ResponseView {
    pub status: u16,
    pub headers: Fields,
    pub body: Seq<u8>,
}

/// A response with its whole body.
#[derive(Debug)]
pub struct Response {
    pub status: u16,
    pub headers: Headers,
    pub body: Vec<u8>,
}

impl DeepView for Response {
    type V = ResponseView;

    open spec fn deep_view(&self) -> ResponseView {
        ResponseView { status: self.status, headers: self.headers.deep_view(), body: self.body@ }
    }
}

impl Clone for Response {
    fn clone(&self) -> (r: Response)
        ensures
            r.deep_view() == self.deep_view(),
    {
        Response { status: self.status, headers: self.headers.clone(), body: bytes_of(&self.body) }
    }
}

/// A response without header fields whose body is a text.
pub open spec fn plain_response(status: u16, body: Seq<char>) -> ResponseView {
    ResponseView { status, headers: seq![], body: vstd::utf8::encode_utf8(body) }
}

impl Response {
    /// A response without header fields whose body is a text.
    pub fn plain(status: u16, body: &str) -> (r: Response)
        ensures
            r.deep_view() == plain_response(status, body@),
    {
        let r = Response { status, headers: Headers::new(), body: utf8(body) };
        assert(r.deep_view() =~= plain_response(status, body@));
        r
    }
}

/// A URI has the path before the question mark and the query behind it; an empty path is
/// that of the root.
pub proof fn lemma_path_and_query(u: UriView, path: Seq<char>, query: Seq<char>)
    requires
        !path.contains('?'),
    ensures
        u.path_and_query == Some(path + seq!['?'] + query) ==> u.query() == Some(query)
            && u.query_text() == query && u.path() == (if path.len() == 0 {
            seq!['/']
        } else {
            path
        }) && u.target() == path + seq!['?'] + query,
        u.path_and_query == Some(path) ==> u.query() is None && u.query_text().len() == 0
            && u.path() == (if path.len() == 0 {
            seq!['/']
        } else {
            path
        }) && u.target() == path,
{
    text::lemma_cut_at(path, '?', query);
}

/// A field value holds no line end and no other control character but the tab, and every
/// text without such can stand as one.
pub proof fn lemma_field_values(s: Seq<char>)
    ensures
        is_field_value(s) ==> !s.contains('\r') && !s.contains('\n') && !s.contains('\0'),
        (forall|i: int| 0 <= i < s.len() ==> ' ' <= #[trigger] s[i] <= '~') ==> is_field_value(s),
{
    if is_field_value(s) {
        assert forall|c: char| s.contains(c) implies c != '\r' && c != '\n' && c != '\0' by {
            let i = choose|i: int| 0 <= i < s.len() && s[i] == c;
            assert(s[i] == c);
        }
    }
}

/// The name of a field is made of letters, digits, dashes and a few signs; it holds no
/// space, no colon and no line end.
pub proof fn lemma_field_names(s: Seq<char>)
    ensures
        is_field_name(s) ==> s.len() > 0 && !s.contains(' ') && !s.contains(':') && !s.contains(
            '\n',
        ) && !s.contains('/'),
        0 < s.len() <= 65535 && (forall|i: int|
            0 <= i < s.len() ==> ('a' <= #[trigger] s[i] <= 'z' || 'A' <= s[i] <= 'Z' || '0'
                <= s[i] <= '9' || s[i] == '-')) ==> is_field_name(s),
{
    if is_field_name(s) {
        assert forall|c: char| s.contains(c) implies c != ' ' && c != ':' && c != '\n' && c
            != '/' by {
            let i = choose|i: int| 0 <= i < s.len() && s[i] == c;
            assert(token_char(s[i]));
        }
    }
}

/// A field that is set as visible text is read as that text.
pub proof fn lemma_text_read_back(h: Fields, n: Seq<char>, v: Seq<char>)
    requires
        forall|i: int| 0 <= i < v.len() ==> ' ' <= #[trigger] v[i] <= '~',
    ensures
        field_of(fields_with(h, n, vstd::utf8::encode_utf8(v)), n) == Some(v),
{
    lemma_fields_with(h, n, vstd::utf8::encode_utf8(v), n);
    assert(vstd::utf8::is_ascii_chars(v)) by {
        assert forall|i: int| 0 <= i < v.len() implies 0 <= #[trigger] v[i] as u32 <= 127 by {}
    }
    vstd::utf8::is_ascii_chars_encode_utf8(v);
    let b = vstd::utf8::encode_utf8(v);
    assert forall|i: int| 0 <= i < b.len() implies visible(#[trigger] b[i]) && b[i] as char == v[i] by {
        assert(b[i] == v[i] as u8);
    }
    assert(b.map_values(|x: u8| x as char) =~= v);
}

/// The names of fields are made of the visible characters of ASCII but for quotes, commas,
/// colons and semicolons, slashes, brackets and the signs of mails and queries.
pub proof fn lemma_name_characters(c: char)
    ensures
        token_char(c) <==> '!' <= c <= '~' && !(c == '"' || c == '(' || c == ')' || c == ',' || c
            == '/' || c == ':' || c == ';' || c == '<' || c == '=' || c == '>' || c == '?' || c
            == '@' || c == '[' || c == '\\' || c == ']' || c == '{' || c == '}'),
{
}

} // verus!
