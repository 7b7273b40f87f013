//! Templates in HTML answers.

use vstd::prelude::*;
use super::replace;
use super::replace::set_length;
use crate::bytes;
use crate::data::Data;
use crate::message;
use crate::message::{
    ClientAddr, ClientView, Fields, Headers, Request, RequestView, Response, ResponseView,
};
use crate::text;

verus! {

/// The longest body in which tags are replaced.
pub const MAX_TEMPLATE_SIZE: usize = 1_048_576;

/// The longest file that is taken in.
pub const MAX_INCLUDE_SIZE: u64 = 65_536;

/// What templates may do.
#[derive(Debug, PartialEq, Eq)]
pub struct TemplatesHoop {
    /// The directory of the files that may be taken in.
    pub root: Option<String>,
    /// Whether variables of the environment may be shown.
    pub allow_env: bool,
    /// Whether files may be taken in.
    pub allow_include: bool,
}

/// The plain values of a [`TemplateVars`].
#[verifier::ext_equal]
pub struct TemplateVarsView {
    pub host: Seq<char>,
    pub path: Seq<char>,
    pub method: Seq<char>,
    pub scheme: Seq<char>,
    pub client_ip: Seq<char>,
    pub query: Seq<char>,
    pub uri: Seq<char>,
    pub remote_addr: Seq<char>,
    pub server_name: Seq<char>,
}

/// What is known of the request.
#[derive(Debug, PartialEq, Eq)]
pub struct TemplateVars {
    pub host: String,
    pub path: String,
    pub method: String,
    pub scheme: String,
    pub client_ip: String,
    pub query: String,
    pub uri: String,
    pub remote_addr: String,
    pub server_name: String,
}

impl DeepView for TemplateVars {
    type V = TemplateVarsView;

    open spec fn deep_view(&self) -> TemplateVarsView {
        TemplateVarsView {
            host: self.host.deep_view(),
            path: self.path.deep_view(),
            method: self.method.deep_view(),
            scheme: self.scheme.deep_view(),
            client_ip: self.client_ip.deep_view(),
            query: self.query.deep_view(),
            uri: self.uri.deep_view(),
            remote_addr: self.remote_addr.deep_view(),
            server_name: self.server_name.deep_view(),
        }
    }
}

impl Data for TemplateVars {
    fn duplicate(&self) -> (r: TemplateVars) {
        TemplateVars {
            host: self.host.duplicate(),
            path: self.path.duplicate(),
            method: self.method.duplicate(),
            scheme: self.scheme.duplicate(),
            client_ip: self.client_ip.duplicate(),
            query: self.query.duplicate(),
            uri: self.uri.duplicate(),
            remote_addr: self.remote_addr.duplicate(),
            server_name: self.server_name.duplicate(),
        }
    }

    fn same_as(&self, other: &TemplateVars) -> (r: bool) {
        self.host.same_as(&other.host) && self.path.same_as(&other.path) && self.method.same_as(&other.method) && self.scheme.same_as(&other.scheme) && self.client_ip.same_as(&other.client_ip) && self.query.same_as(&other.query) && self.uri.same_as(&other.uri) && self.remote_addr.same_as(&other.remote_addr) && self.server_name.same_as(&other.server_name)
    }
}

impl Clone for TemplateVars {
    fn clone(&self) -> (r: TemplateVars)
        ensures
            r.deep_view() == self.deep_view(),
    {
        self.duplicate()
    }
}

/// The plain values of a [`TemplatePart`].
#[verifier::ext_equal]
pub enum TemplatePartView {
    Text(Seq<char>),
    Env(Seq<char>),
    File(Seq<char>),
}

/// A part of a page.
#[derive(Debug, PartialEq, Eq)]
pub enum TemplatePart {
    /// A text as it stands.
    Text(String),
    /// The value of a variable of the environment.
    Env(String),
    /// The contents of a file, by its path under the root.
    File(String),
}

impl DeepView for TemplatePart {
    type V = TemplatePartView;

    open spec fn deep_view(&self) -> TemplatePartView {
        match self {
            TemplatePart::Text(a) => TemplatePartView::Text(a.deep_view()),
            TemplatePart::Env(a) => TemplatePartView::Env(a.deep_view()),
            TemplatePart::File(a) => TemplatePartView::File(a.deep_view()),
        }
    }
}

impl Data for TemplatePart {
    fn duplicate(&self) -> (r: TemplatePart) {
        match self {
            TemplatePart::Text(a) => TemplatePart::Text(a.duplicate()),
            TemplatePart::Env(a) => TemplatePart::Env(a.duplicate()),
            TemplatePart::File(a) => TemplatePart::File(a.duplicate()),
        }
    }

    fn same_as(&self, other: &TemplatePart) -> (r: bool) {
        match (self, other) {
            (TemplatePart::Text(a), TemplatePart::Text(b_a)) => a.same_as(b_a),
            (TemplatePart::Env(a), TemplatePart::Env(b_a)) => a.same_as(b_a),
            (TemplatePart::File(a), TemplatePart::File(b_a)) => a.same_as(b_a),
            _ => false,
        }
    }
}

impl Clone for TemplatePart {
    fn clone(&self) -> (r: TemplatePart)
        ensures
            r.deep_view() == self.deep_view(),
    {
        self.duplicate()
    }
}

/// The address of a client with its port.
pub open spec fn socket_text(c: ClientView) -> Seq<char> {
    match c.ip {
        crate::net::IpAddr::V4(_) => c.ip_text + ":"@ + text::decimal(c.port as nat),
        crate::net::IpAddr::V6(_) => "["@ + c.ip_text + "]:"@ + text::decimal(c.port as nat),
    }
}

/// What is known of a request.
pub open spec fn vars_of(r: RequestView, c: ClientView) -> TemplateVarsView {
    let host = message::field_or(r.headers, "host"@, ""@);
    TemplateVarsView {
        host,
        path: r.uri.path(),
        method: r.method,
        scheme: r.uri.scheme_text(),
        client_ip: c.ip_text,
        query: r.uri.query_text(),
        uri: r.uri.full_text(),
        remote_addr: socket_text(c),
        server_name: text::before(host, ':'),
    }
}

impl TemplateVars {
    /// Notes what is known of a request.
    pub fn of(request: &Request, client: &ClientAddr) -> (v: TemplateVars)
        ensures
            v.deep_view() == vars_of(request.deep_view(), client.deep_view()),
    {
        let host = request.headers.text_or("host", "");
        let server_name = text::before_char(host.as_str(), ':');
        let port = text::number_text(client.port as u128);
        let remote_addr = match client.ip {
            crate::net::IpAddr::V4(_) => text::join3(
                client.ip_text.as_str(),
                ":",
                port.as_str(),
            ),
            crate::net::IpAddr::V6(_) => {
                let mut out = "[".to_owned();
                out.append(client.ip_text.as_str());
                out.append("]:");
                out.append(port.as_str());
                out
            },
        };
        TemplateVars {
            host,
            path: request.uri.path(),
            method: request.method.clone(),
            scheme: request.uri.scheme_text(),
            client_ip: client.ip_text.clone(),
            query: request.uri.query_text(),
            uri: request.uri.full_text(),
            remote_addr,
            server_name,
        }
    }
}

/// What a tag stands for where it names something that is known of the request.
pub open spec fn variable(tag: Seq<char>, v: TemplateVarsView) -> Option<Seq<char>> {
    if tag == "host"@ {
        Some(v.host)
    } else if tag == "path"@ {
        Some(v.path)
    } else if tag == "method"@ {
        Some(v.method)
    } else if tag == "scheme"@ {
        Some(v.scheme)
    } else if tag == "client_ip"@ {
        Some(v.client_ip)
    } else if tag == "query"@ {
        Some(v.query)
    } else if tag == "uri"@ {
        Some(v.uri)
    } else if tag == "remote_addr"@ {
        Some(v.remote_addr)
    } else if tag == "server_name"@ {
        Some(v.server_name)
    } else {
        None
    }
}

/// What a tag stands for where it names something that is known of the request.
fn read_variable(tag: &str, v: &TemplateVars) -> (r: Option<String>)
    ensures
        r.deep_view() == variable(tag@, v.deep_view()),
{
    if text::same(tag, "host") {
        Some(v.host.clone())
    } else if text::same(tag, "path") {
        Some(v.path.clone())
    } else if text::same(tag, "method") {
        Some(v.method.clone())
    } else if text::same(tag, "scheme") {
        Some(v.scheme.clone())
    } else if text::same(tag, "client_ip") {
        Some(v.client_ip.clone())
    } else if text::same(tag, "query") {
        Some(v.query.clone())
    } else if text::same(tag, "uri") {
        Some(v.uri.clone())
    } else if text::same(tag, "remote_addr") {
        Some(v.remote_addr.clone())
    } else if text::same(tag, "server_name") {
        Some(v.server_name.clone())
    } else {
        None
    }
}

/// The segments of a relative path from `i` on, without those that stay where they
/// are; nothing where one leads upwards.
pub open spec fn safe_segments(p: Seq<Seq<char>>, i: int) -> Option<Seq<Seq<char>>>
    decreases p.len() - i,
{
    if i < 0 || i >= p.len() {
        Some(seq![])
    } else {
        match safe_segments(p, i + 1) {
            Some(rest) => if p[i] == ".."@ {
                None
            } else if p[i].len() == 0 || p[i] == "."@ {
                Some(rest)
            } else {
                Some(seq![p[i]] + rest)
            },
            None => None,
        }
    }
}

/// A path below the root: nothing where the given one is absolute, holds a zero
/// byte, or leads upwards.
pub open spec fn relative(path: Seq<char>) -> Option<Seq<char>> {
    if path.contains('\0') || text::begins(path, "/"@) {
        None
    } else {
        match safe_segments(text::pieces(path, '/'), 0) {
            Some(p) => Some(text::joined(p, "/"@)),
            None => None,
        }
    }
}

/// Makes a path that stays below the root.
pub fn safe_relative_path(path: &str) -> (r: Option<String>)
    ensures
        r.deep_view() == relative(path@),
{
    if text::has_char(path, '\0') || text::starts_with(path, "/") {
        return None;
    }
    let parts = text::split(path, '/');
    let ghost p = parts.deep_view();
    let mut kept: Vec<String> = Vec::new();
    assert(kept.deep_view() =~= seq![]);
    proof {
        if let Some(all) = safe_segments(p, 0) {
            assert(kept.deep_view() + all =~= all);
        }
    }
    for i in 0..parts.len()
        invariant
            p == parts.deep_view(),
            relative(path@) == (match safe_segments(p, 0) {
                Some(s) => Some(text::joined(s, "/"@)),
                None => None,
            }),
            match (safe_segments(p, 0), safe_segments(p, i as int)) {
                (Some(all), Some(rest)) => all == kept.deep_view() + rest,
                (None, None) => true,
                _ => false,
            },
    {
        let s = parts[i].as_str();
        assert(p[i as int] == s@);
        if text::same(s, "..") {
            return None;
        }
        if !s.is_empty() && !text::same(s, ".") {
            let ghost before = kept.deep_view();
            kept.push(parts[i].clone());
            assert(kept.deep_view() =~= before.push(s@));
            proof {
                if let Some(rest) = safe_segments(p, i + 1) {
                    assert(kept.deep_view() + rest =~= before + (seq![s@] + rest));
                }
            }
        }
    }
    assert(kept.deep_view() + Seq::<Seq<char>>::empty() =~= kept.deep_view());
    Some(text::join_all(&kept, "/"))
}

/// The word with which a tag asks for a file.
pub open spec fn file_word() -> Seq<char> {
    "include "@
}

/// A tag as it was written.
pub open spec fn tag_text(tag: Seq<char>) -> Seq<char> {
    "{{"@ + tag + "}}"@
}

/// What a tag stands for. One that is not known, or not allowed, stands for itself.
pub open spec fn resolved(
    tag: Seq<char>,
    v: TemplateVarsView,
    root: Option<Seq<char>>,
    allow_env: bool,
    allow_include: bool,
) -> TemplatePartView {
    match variable(tag, v) {
        Some(t) => TemplatePartView::Text(t),
        None => match text::after_prefix(tag, ".Env."@) {
            Some(name) => if allow_env {
                TemplatePartView::Env(text::trimmed(name))
            } else {
                TemplatePartView::Text(tag_text(tag))
            },
            None => match text::after_prefix(tag, file_word()) {
                Some(rest) => if !allow_include {
                    TemplatePartView::Text(tag_text(tag))
                } else {
                    let path = text::trimmed_of(
                        text::trimmed_of(text::trimmed(rest), '"'),
                        '\'',
                    );
                    match (root, relative(path)) {
                        (Some(_), Some(p)) => TemplatePartView::File(p),
                        _ => TemplatePartView::Text(""@),
                    }
                },
                None => TemplatePartView::Text(tag_text(tag)),
            },
        },
    }
}

impl TemplatesHoop {
    /// What templates may do.
    pub fn new(root: Option<String>, allow_env: bool, allow_include: bool) -> (h: TemplatesHoop)
        ensures
            h == (TemplatesHoop { root, allow_env, allow_include }),
    {
        TemplatesHoop { root, allow_env, allow_include }
    }

    /// What a tag stands for.
    pub open spec fn means(&self, tag: Seq<char>, v: TemplateVarsView) -> TemplatePartView {
        resolved(tag, v, self.root.deep_view(), self.allow_env, self.allow_include)
    }
}

/// Finds out what a tag stands for.
pub fn resolve_tag(tag: &str, vars: &TemplateVars, hoop: &TemplatesHoop) -> (r: TemplatePart)
    ensures
        r.deep_view() == hoop.means(tag@, vars.deep_view()),
{
    if let Some(t) = read_variable(tag, vars) {
        return TemplatePart::Text(t);
    }
    if let Some(name) = text::strip_prefix(tag, ".Env.") {
        if !hoop.allow_env {
            return TemplatePart::Text(text::join3("{{", tag, "}}"));
        }
        return TemplatePart::Env(text::trim(name.as_str()));
    }
    if let Some(rest) = text::strip_prefix(tag, "include ") {
        if !hoop.allow_include {
            return TemplatePart::Text(text::join3("{{", tag, "}}"));
        }
        let rest = text::trim(rest.as_str());
        let path = text::trim_char(text::trim_char(rest.as_str(), '"').as_str(), '\'');
        return match (&hoop.root, safe_relative_path(path.as_str())) {
            (Some(_), Some(p)) => TemplatePart::File(p),
            _ => TemplatePart::Text("".to_owned()),
        };
    }
    TemplatePart::Text(text::join3("{{", tag, "}}"))
}

/// Where the tag that begins at `i` ends, if one does.
pub open spec fn tag_end(s: Seq<char>, i: int) -> Option<int> {
    if text::occurs_at(s, seq!['{', '{'], i) {
        text::first_at(s, seq!['}', '}'], i + 2)
    } else {
        None
    }
}

/// The parts of a template from `i` on, behind a text that was read before.
pub open spec fn parts_from(
    s: Seq<char>,
    v: TemplateVarsView,
    hoop: TemplatesHoop,
    i: int,
    text: Seq<char>,
) -> Seq<TemplatePartView>
    decreases s.len() - i,
{
    if i < 0 || i >= s.len() {
        seq![TemplatePartView::Text(text)]
    } else {
        match tag_end(s, i) {
            Some(j) => if j < i + 2 || j + 2 > s.len() {
                seq![]
            } else {
                match hoop.means(text::trimmed(s.subrange(i + 2, j)), v) {
                    TemplatePartView::Text(t) => parts_from(s, v, hoop, j + 2, text + t),
                    part => seq![TemplatePartView::Text(text), part] + parts_from(
                        s,
                        v,
                        hoop,
                        j + 2,
                        seq![],
                    ),
                }
            },
            None => parts_from(s, v, hoop, i + 1, text.push(s[i])),
        }
    }
}

/// Finds the tags of a template and what they stand for. What the environment or a
/// file holds is left to be looked up.
pub fn process_template(input: &str, vars: &TemplateVars, hoop: &TemplatesHoop) -> (r: Vec<
    TemplatePart,
>)
    ensures
        r.deep_view() == parts_from(input@, vars.deep_view(), *hoop, 0, seq![]),
{
    let s = text::chars(input);
    let ghost v = vars.deep_view();
    let ghost all = parts_from(input@, v, *hoop, 0, seq![]);
    let closing = two('}');
    let opening = two('{');
    let mut out: Vec<TemplatePart> = Vec::new();
    let mut t = String::new();
    assert(t@ =~= seq![]);
    assert(out.deep_view() + all =~= all);
    let mut i: usize = 0;
    while i < s.len()
        invariant
            s@ == input@,
            v == vars.deep_view(),
            closing@ == seq!['}', '}'],
            opening@ == seq!['{', '{'],
            all == parts_from(input@, v, *hoop, 0, seq![]),
            i <= s.len(),
            out.deep_view() + parts_from(s@, v, *hoop, i as int, t@) == all,
        decreases s.len() - i,
    {
        let end: Option<usize> = if text::match_at(s.as_slice(), opening.as_slice(), i) {
            text::find_in(s.as_slice(), closing.as_slice(), i + 2)
        } else {
            None
        };
        match end {
            Some(j) => {
                proof {
                    text::lemma_first_at(s@, seq!['}', '}'], i + 2);
                }
                let tag = text::trim(text::string_of(s.as_slice(), i + 2, j).as_str());
                match resolve_tag(tag.as_str(), vars, hoop) {
                    TemplatePart::Text(r) => {
                        t.append(r.as_str());
                    },
                    part => {
                        let ghost before = out.deep_view();
                        let ghost (a, b) = (TemplatePartView::Text(t@), part.deep_view());
                        out.push(TemplatePart::Text(t));
                        out.push(part);
                        assert(out.deep_view() =~= before.push(a).push(b));
                        assert(out.deep_view() + parts_from(s@, v, *hoop, j + 2, seq![]) =~= before
                            + (seq![a, b] + parts_from(s@, v, *hoop, j + 2, seq![])));
                        t = String::new();
                        assert(t@ =~= seq![]);
                    },
                }
                i = j + 2;
            },
            None => {
                t.push(s[i]);
                i = i + 1;
            },
        }
    }
    let ghost before = out.deep_view();
    let ghost a = TemplatePartView::Text(t@);
    out.push(TemplatePart::Text(t));
    assert(out.deep_view() =~= before.push(a));
    assert(before.push(a) =~= before + seq![a]);
    out
}

/// A character twice.
fn two(c: char) -> (r: Vec<char>)
    ensures
        r@ == seq![c, c],
{
    let mut r: Vec<char> = Vec::new();
    r.push(c);
    r.push(c);
    assert(r@ =~= seq![c, c]);
    r
}

/// The number of parts from `i` on that are looked up.
pub open spec fn lookups(p: Seq<TemplatePartView>, i: int) -> nat
    decreases p.len() - i,
{
    if i < 0 || i >= p.len() {
        0
    } else {
        (if p[i] is Text {
            0nat
        } else {
            1
        }) + lookups(p, i + 1)
    }
}

/// The page from the part at `i` on, where what was looked up is used from `k` on.
pub open spec fn page(
    p: Seq<TemplatePartView>,
    found: Seq<Seq<char>>,
    i: int,
    k: int,
) -> Seq<char>
    decreases p.len() - i,
{
    if i < 0 || i >= p.len() {
        seq![]
    } else {
        match p[i] {
            TemplatePartView::Text(t) => t + page(p, found, i + 1, k),
            _ => found[k] + page(p, found, i + 1, k + 1),
        }
    }
}

/// Puts a page together from its parts and from what was looked up, in order.
pub fn assemble(parts: &Vec<TemplatePart>, found: &Vec<String>) -> (r: String)
    requires
        found@.len() == lookups(parts.deep_view(), 0),
    ensures
        r@ == page(parts.deep_view(), found.deep_view(), 0, 0),
{
    let ghost (p, f) = (parts.deep_view(), found.deep_view());
    let mut out = String::new();
    let mut k: usize = 0;
    assert(out@ + page(p, f, 0, 0) =~= page(p, f, 0, 0));
    for i in 0..parts.len()
        invariant
            p == parts.deep_view(),
            f == found.deep_view(),
            k + lookups(p, i as int) == found.len(),
            out@ + page(p, f, i as int, k as int) == page(p, f, 0, 0),
    {
        let ghost before = out@;
        assert(p[i as int] == parts@[i as int].deep_view());
        match &parts[i] {
            TemplatePart::Text(t) => {
                out.append(t.as_str());
                assert(out@ + page(p, f, i + 1, k as int) =~= before + (t@ + page(
                    p,
                    f,
                    i + 1,
                    k as int,
                )));
            },
            _ => {
                assert(f[k as int] == found@[k as int]@);
                out.append(found[k].as_str());
                assert(out@ + page(p, f, i + 1, k + 1) =~= before + (f[k as int] + page(
                    p,
                    f,
                    i + 1,
                    k + 1,
                )));
                k = k + 1;
            },
        }
    }
    assert(out@ + page(p, f, p.len() as int, k as int) =~= out@);
    out
}

/// A file may be taken in where it is one and not too long.
pub fn may_take_in(is_file: bool, len: u64) -> (r: bool)
    ensures
        r == (is_file && len <= MAX_INCLUDE_SIZE),
{
    is_file && len <= MAX_INCLUDE_SIZE
}

/// The answer is a page in which tags are replaced: HTML in UTF-8 that is not too
/// long.
pub open spec fn is_template(a: ResponseView) -> bool {
    &&& match message::field_of(a.headers, "content-type"@) {
        Some(t) => text::contains(text::lowered(t), "text/html"@),
        None => false,
    }
    &&& a.body.len() <= MAX_TEMPLATE_SIZE
    &&& vstd::utf8::valid_utf8(a.body)
}

/// The template that an answer is, if it is one.
pub fn template_of(answer: &Response) -> (r: Option<String>)
    ensures
        match r {
            Some(t) => is_template(answer.deep_view()) && t@ == vstd::utf8::decode_utf8(
                answer.deep_view().body,
            ),
            None => !is_template(answer.deep_view()),
        },
{
    let html = match answer.headers.text("content-type") {
        Some(t) => text::has(text::to_lower(t.as_str()).as_str(), "text/html"),
        None => false,
    };
    if !html || answer.body.len() > MAX_TEMPLATE_SIZE {
        return None;
    }
    bytes::utf8_text(answer.body.as_slice())
}

/// Puts a page in the place of the template that it was made from.
pub fn set_page(answer: &mut Response, page: &str)
    ensures
        final(answer).deep_view() == (ResponseView {
            headers: replace::with_length(
                old(answer).deep_view().headers,
                vstd::utf8::encode_utf8(page@).len(),
            ),
            body: vstd::utf8::encode_utf8(page@),
            ..old(answer).deep_view()
        }),
{
    let body = message::utf8(page);
    set_length(&mut answer.headers, body.len());
    answer.body = body;
}

/// Nothing is looked up in the environment and no file is taken in unless that is
/// allowed.
pub proof fn lemma_nothing_looked_up(
    s: Seq<char>,
    v: TemplateVarsView,
    hoop: TemplatesHoop,
    i: int,
    text: Seq<char>,
    k: int,
)
    requires
        0 <= i,
        0 <= k < parts_from(s, v, hoop, i, text).len(),
    ensures
        match parts_from(s, v, hoop, i, text)[k] {
            TemplatePartView::Text(_) => true,
            TemplatePartView::Env(_) => hoop.allow_env,
            TemplatePartView::File(_) => hoop.allow_include && hoop.root is Some,
        },
    decreases s.len() - i,
{
    if i < s.len() {
        match tag_end(s, i) {
            Some(j) => if i + 2 <= j <= s.len() - 2 {
                match hoop.means(text::trimmed(s.subrange(i + 2, j)), v) {
                    TemplatePartView::Text(t) => {
                        lemma_nothing_looked_up(s, v, hoop, j + 2, text + t, k);
                    },
                    part => {
                        if k >= 2 {
                            lemma_nothing_looked_up(s, v, hoop, j + 2, seq![], k - 2);
                        }
                    },
                }
            },
            None => {
                lemma_nothing_looked_up(s, v, hoop, i + 1, text.push(s[i]), k);
            },
        }
    }
}

/// The segments of a safe path go downwards.
pub proof fn lemma_safe_segments(p: Seq<Seq<char>>, i: int)
    requires
        0 <= i,
    ensures
        safe_segments(p, i) matches Some(s) ==> forall|k: int|
            0 <= k < s.len() ==> (#[trigger] s[k]).len() > 0 && s[k] != "."@ && s[k] != ".."@,
    decreases p.len() - i,
{
    if i < p.len() {
        lemma_safe_segments(p, i + 1);
    }
}

/// A template without tags is the page.
pub proof fn lemma_plain_page(
    s: Seq<char>,
    v: TemplateVarsView,
    hoop: TemplatesHoop,
    i: int,
    text: Seq<char>,
)
    requires
        0 <= i <= s.len(),
        forall|j: int| 0 <= j < s.len() ==> #[trigger] s[j] != '{',
    ensures
        parts_from(s, v, hoop, i, text) == seq![TemplatePartView::Text(text + s.skip(i))],
    decreases s.len() - i,
{
    if i < s.len() {
        assert(tag_end(s, i) is None) by {
            if text::occurs_at(s, seq!['{', '{'], i) {
                assert(s.subrange(i, i + 2)[0] == seq!['{', '{'][0]);
            }
        }
        lemma_plain_page(s, v, hoop, i + 1, text.push(s[i]));
        assert(text.push(s[i]) + s.skip(i + 1) =~= text + s.skip(i));
    } else {
        assert(text + s.skip(i) =~= text);
    }
}

/// A tag in a template is replaced by what it stands for, and what stands before and behind
/// it stays: where the tag names something of the request, by that.
pub proof fn lemma_tag_replaced(
    s: Seq<char>,
    v: TemplateVarsView,
    hoop: TemplatesHoop,
    i: int,
    text: Seq<char>,
    tag: Seq<char>,
    rest: Seq<char>,
    value: Seq<char>,
)
    requires
        0 <= i <= s.len(),
        s.skip(i) == seq!['{', '{'] + tag + seq!['}', '}'] + rest,
        !tag.contains('}'),
        hoop.means(text::trimmed(tag), v) == TemplatePartView::Text(value),
    ensures
        parts_from(s, v, hoop, i, text) == parts_from(
            s,
            v,
            hoop,
            i + tag.len() + 4,
            text + value,
        ),
{
    let t = s.skip(i);
    let n = tag.len() as int;
    assert(t.len() == n + 4 + rest.len());
    assert(text::occurs_at(s, seq!['{', '{'], i)) by {
        assert(s.subrange(i, i + 2) =~= seq!['{', '{']) by {
            assert(s[i] == t[0] && s[i + 1] == t[1]);
        }
    }
    let end = seq!['}', '}'];
    text::lemma_first_at(s, end, i + 2);
    assert(text::occurs_at(s, end, i + 2 + n)) by {
        assert(s.subrange(i + 2 + n, i + 4 + n) =~= end) by {
            assert(s[i + 2 + n] == t[2 + n] && s[i + 3 + n] == t[3 + n]);
        }
    }
    assert forall|j: int| i + 2 <= j < i + 2 + n implies !text::occurs_at(s, end, j) by {
        if text::occurs_at(s, end, j) {
            assert(s.subrange(j, j + 2)[0] == s[j]);
            assert(s[j] == t[j - i] && t[j - i] == tag[j - i - 2]);
            assert(tag.contains(tag[j - i - 2]));
        }
    }
    assert(text::first_at(s, end, i + 2) == Some(i + 2 + n));
    assert(s.subrange(i + 2, i + 2 + n) =~= tag) by {
        assert forall|k: int| 0 <= k < n implies s[i + 2 + k] == tag[k] by {
            assert(s[i + 2 + k] == t[2 + k]);
        }
    }
}

/// A character that begins no tag stays.
pub proof fn lemma_character_stays(
    s: Seq<char>,
    v: TemplateVarsView,
    hoop: TemplatesHoop,
    i: int,
    text: Seq<char>,
)
    requires
        0 <= i < s.len(),
        s[i] != '{',
    ensures
        parts_from(s, v, hoop, i, text) == parts_from(s, v, hoop, i + 1, text.push(s[i])),
{
    assert(tag_end(s, i) is None) by {
        if text::occurs_at(s, seq!['{', '{'], i) {
            assert(s.subrange(i, i + 2)[0] == seq!['{', '{'][0]);
        }
    }
}

/// The tags that name something of the request stand for it; any other tag that asks
/// neither for the environment nor for a file stands for itself.
pub proof fn lemma_tags_of_request(v: TemplateVarsView, hoop: TemplatesHoop, tag: Seq<char>)
    ensures
        hoop.means("host"@, v) == TemplatePartView::Text(v.host),
        hoop.means("path"@, v) == TemplatePartView::Text(v.path),
        hoop.means("method"@, v) == TemplatePartView::Text(v.method),
        hoop.means("scheme"@, v) == TemplatePartView::Text(v.scheme),
        hoop.means("client_ip"@, v) == TemplatePartView::Text(v.client_ip),
        hoop.means("query"@, v) == TemplatePartView::Text(v.query),
        hoop.means("uri"@, v) == TemplatePartView::Text(v.uri),
        hoop.means("remote_addr"@, v) == TemplatePartView::Text(v.remote_addr),
        hoop.means("server_name"@, v) == TemplatePartView::Text(v.server_name),
        variable(tag, v) is None && !text::begins(tag, ".Env."@) && !text::begins(tag, file_word())
            ==> hoop.means(tag, v) == TemplatePartView::Text(
            seq!['{', '{'] + tag + seq!['}', '}'],
        ),
{
    reveal_strlit("host");
    reveal_strlit("path");
    reveal_strlit("method");
    reveal_strlit("scheme");
    reveal_strlit("client_ip");
    reveal_strlit("query");
    reveal_strlit("uri");
    reveal_strlit("remote_addr");
    reveal_strlit("server_name");
    reveal_strlit("{{");
    reveal_strlit("}}");
    assert("{{"@ =~= seq!['{', '{'] && "}}"@ =~= seq!['}', '}']);
    assert("host"@[0] == 'h' && "path"@[0] == 'p' && "method"@[0] == 'm' && "scheme"@[0] == 's'
        && "client_ip"@[0] == 'c' && "query"@[0] == 'q' && "uri"@[0] == 'u' && "remote_addr"@[0]
        == 'r' && "server_name"@[1] == 'e' && "scheme"@[1] == 'c');
}

/// What is known of a request is what the request and its client say; the name of the
/// server is its host without the port.
pub proof fn lemma_known_of_request(
    r: RequestView,
    c: ClientView,
    host: Seq<char>,
    port: Seq<char>,
)
    requires
        !host.contains(':'),
    ensures
        ({
            let v = vars_of(r, c);
            &&& v.path == r.uri.path() && v.method == r.method && v.query == r.uri.query_text()
            &&& v.client_ip == c.ip_text && v.scheme == r.uri.scheme_text()
            &&& message::field_of(r.headers, "host"@) == Some(host + seq![':'] + port)
                ==> v.server_name == host && v.host == host + seq![':'] + port
            &&& message::field_of(r.headers, "host"@) == Some(host) ==> v.server_name == host
                && v.host == host
        }),
{
    text::lemma_cut_at(host, ':', port);
}

/// A path below the root is taken as it is; one that is absolute or has a part `..` is not
/// taken at all.
pub proof fn lemma_paths_below(parts: Seq<Seq<char>>)
    requires
        parts.len() > 0,
        forall|i: int|
            0 <= i < parts.len() ==> !(#[trigger] parts[i]).contains('/') && !parts[i].contains(
                '\0',
            ) && parts[i].len() > 0 && parts[i] != "."@,
    ensures
        relative(text::joined(parts, seq!['/'])) == (if parts.contains(".."@) {
            None
        } else {
            Some(text::joined(parts, seq!['/']))
        }),
        relative(seq!['/'] + text::joined(parts, seq!['/'])) is None,
{
    reveal_strlit("/");
    assert("/"@ =~= seq!['/']);
    let p = text::joined(parts, seq!['/']);
    text::lemma_pieces_of_joined(parts, '/');
    lemma_parts_below(parts, 0);
    assert(parts.skip(0) =~= parts);
    lemma_no_zero(parts);
    lemma_first_of_joined(parts);
    if text::begins(p, "/"@) {
        assert(p.subrange(0, 1)[0] == p[0]);
        assert(parts[0].contains(parts[0][0]));
    }
    text::lemma_after_prefix("/"@, p);
    if parts.contains(".."@) {
        let k = choose|k: int| 0 <= k < parts.len() && parts[k] == ".."@;
        assert(parts[k] == ".."@);
    }
}

/// Which parts go below.
proof fn lemma_parts_below(parts: Seq<Seq<char>>, i: int)
    requires
        0 <= i <= parts.len(),
        forall|j: int| 0 <= j < parts.len() ==> (#[trigger] parts[j]).len() > 0 && parts[j] != "."@,
    ensures
        safe_segments(parts, i) == (if exists|j: int|
            i <= j < parts.len() && #[trigger] parts[j] == ".."@ {
            None
        } else {
            Some(parts.skip(i))
        }),
    decreases parts.len() - i,
{
    if i < parts.len() {
        lemma_parts_below(parts, i + 1);
        assert(seq![parts[i]] + parts.skip(i + 1) =~= parts.skip(i));
    } else {
        assert(parts.skip(i) =~= seq![]);
    }
}

/// Joined parts hold no zero byte where none of them does.
proof fn lemma_no_zero(parts: Seq<Seq<char>>)
    requires
        forall|i: int| 0 <= i < parts.len() ==> !(#[trigger] parts[i]).contains('\0'),
    ensures
        !text::joined(parts, seq!['/']).contains('\0'),
    decreases parts.len(),
{
    if parts.len() > 1 {
        let d = parts.drop_last();
        assert forall|i: int| 0 <= i < d.len() implies !(#[trigger] d[i]).contains('\0') by {
            assert(d[i] == parts[i]);
        }
        lemma_no_zero(d);
        let (a, b) = (text::joined(d, seq!['/']), parts.last());
        let all = a + seq!['/'] + b;
        assert(!parts[parts.len() - 1].contains('\0'));
        if all.contains('\0') {
            let i = choose|i: int| 0 <= i < all.len() && all[i] == '\0';
            if i < a.len() {
                assert(a.contains(a[i]));
            } else if i > a.len() {
                assert(b.contains(b[i - a.len() - 1]));
            }
        }
    }
}

/// Joined parts begin as the first of them does.
proof fn lemma_first_of_joined(parts: Seq<Seq<char>>)
    requires
        parts.len() > 0,
        parts[0].len() > 0,
    ensures
        text::joined(parts, seq!['/']).len() > 0,
        text::joined(parts, seq!['/'])[0] == parts[0][0],
    decreases parts.len(),
{
    if parts.len() > 1 {
        let d = parts.drop_last();
        lemma_first_of_joined(d);
        assert(d[0] == parts[0]);
    }
}

/// A page is made of its parts in their order: a text as it is, and anything else as what
/// was found for it, in the order in which it was looked up.
pub proof fn lemma_page_in_order(
    p: Seq<TemplatePartView>,
    found: Seq<Seq<char>>,
    t: TemplatePartView,
    x: Seq<char>,
    i: int,
    k: int,
)
    requires
        0 <= i <= p.len(),
        0 <= k,
        k + lookups(p, i) == found.len(),
    ensures
        t is Text ==> page(p.push(t), found, i, k) == page(p, found, i, k) + t->Text_0,
        !(t is Text) ==> page(p.push(t), found.push(x), i, k) == page(p, found, i, k) + x,
    decreases p.len() - i,
{
    let all = p.push(t);
    if i < p.len() {
        assert(all[i] == p[i]);
        match p[i] {
            TemplatePartView::Text(s) => {
                lemma_page_in_order(p, found, t, x, i + 1, k);
                let rest = page(p, found, i + 1, k);
                assert(s + (rest + x) =~= s + rest + x);
                if t is Text {
                    assert(s + (rest + t->Text_0) =~= s + rest + t->Text_0);
                }
            },
            _ => {
                lemma_page_in_order(p, found, t, x, i + 1, k + 1);
                let rest = page(p, found, i + 1, k + 1);
                assert(found.push(x)[k] == found[k]);
                assert(found[k] + (rest + x) =~= found[k] + rest + x);
                if t is Text {
                    assert(found[k] + (rest + t->Text_0) =~= found[k] + rest + t->Text_0);
                }
            },
        }
    } else {
        assert(all[i] == t);
        let f = found.push(x);
        assert(page(all, found, i + 1, k) =~= seq![]);
        assert(page(all, f, i + 1, k + 1) =~= seq![]);
        assert(page(p, found, i, k) =~= seq![]);
        if t is Text {
            assert(t->Text_0 + Seq::<char>::empty() =~= Seq::<char>::empty() + t->Text_0);
        } else {
            assert(f[k] == x);
            assert(x + Seq::<char>::empty() =~= Seq::<char>::empty() + x);
        }
    }
}

} // verus!
