//! Scripts that are run for a request: what they are told, and what they answer.

use vstd::prelude::*;
use crate::bytes;
use crate::data::Data;
use crate::hoops::rewrite;
use crate::message;
use crate::message::{
    ClientAddr, ClientView, Fields, Headers, Request, RequestView, Response, ResponseView, Version,
};
use crate::sorted_map::SortedMap;
use crate::text;

verus! {

/// Variables with their values, in order.
pub type Variables = Seq<(Seq<char>, Seq<char>)>;

/// The name of a version of HTTP.
pub open spec fn version_name(v: Version) -> Seq<char> {
    match v {
        Version::Http09 => "HTTP/0.9"@,
        Version::Http10 => "HTTP/1.0"@,
        Version::Http11 => "HTTP/1.1"@,
        Version::Http2 => "HTTP/2.0"@,
        Version::Http3 => "HTTP/3.0"@,
    }
}

/// The name of a version of HTTP.
pub fn version_text(v: Version) -> (r: &'static str)
    ensures
        r@ == version_name(v),
{
    match v {
        Version::Http09 => "HTTP/0.9",
        Version::Http10 => "HTTP/1.0",
        Version::Http11 => "HTTP/1.1",
        Version::Http2 => "HTTP/2.0",
        Version::Http3 => "HTTP/3.0",
    }
}

/// The variable that a field becomes.
pub open spec fn field_variable(name: Seq<char>) -> Seq<char> {
    "HTTP_"@ + text::replaced(text::upper_case(name), "-"@, "_"@)
}

/// The variables that the fields from `i` on become. A field whose value is no plain
/// text becomes none.
pub open spec fn field_variables(h: Fields, i: int) -> Variables
    decreases h.len() - i,
{
    if i < 0 || i >= h.len() {
        seq![]
    } else {
        match message::value_text(h[i].1) {
            Some(v) => seq![(field_variable(h[i].0), v)] + field_variables(h, i + 1),
            None => field_variables(h, i + 1),
        }
    }
}

/// Appends a variable.
pub fn set_variable(out: &mut Vec<(String, String)>, name: &str, value: &str)
    ensures
        final(out).deep_view() == old(out).deep_view().push((name@, value@)),
{
    let ghost before = out.deep_view();
    let pair = (name.to_owned(), value.to_owned());
    let ghost p = pair.deep_view();
    out.push(pair);
    assert(out.deep_view() =~= before.push(p));
}

/// Appends the variables that the fields become.
pub fn add_field_variables(out: &mut Vec<(String, String)>, headers: &Headers)
    ensures
        final(out).deep_view() == old(out).deep_view() + field_variables(headers.deep_view(), 0),
{
    let ghost h = headers.deep_view();
    let ghost start = out.deep_view();
    for i in 0..headers.entries.len()
        invariant
            h == headers.entries.deep_view(),
            out.deep_view() + field_variables(h, i as int) == start + field_variables(h, 0),
    {
        let ghost before = out.deep_view();
        assert(h[i as int] == headers.entries@[i as int].deep_view());
        assert(headers.entries@[i as int].1.deep_view() =~= headers.entries@[i as int].1@);
        if let Some(v) = message::visible_text(headers.entries[i].1.as_slice()) {
            let upper = text::to_uppercase(headers.entries[i].0.as_str());
            let name = text::join("HTTP_", text::replace(upper.as_str(), "-", "_").as_str());
            set_variable(out, name.as_str(), v.as_str());
            assert(out.deep_view() + field_variables(h, i + 1) =~= before + (seq![(name@, v@)]
                + field_variables(h, i + 1)));
        }
    }
    assert(out.deep_view() + field_variables(h, h.len() as int) =~= out.deep_view());
}

/// Appends the variables of the configuration.
pub fn add_all_variables(out: &mut Vec<(String, String)>, env: &SortedMap<String, String>)
    ensures
        final(out).deep_view() == old(out).deep_view() + env.deep_view(),
{
    let ghost e = env.deep_view();
    let ghost start = out.deep_view();
    assert(start + e.take(0) =~= start);
    for i in 0..env.entries.len()
        invariant
            e == env.entries.deep_view(),
            out.deep_view() == start + e.take(i as int),
    {
        assert(e[i as int] == env.entries@[i as int].deep_view());
        set_variable(out, env.entries[i].0.as_str(), env.entries[i].1.as_str());
        assert(start + e.take(i + 1) =~= (start + e.take(i as int)).push(e[i as int]));
    }
    assert(e.take(e.len() as int) =~= e);
}

/// The name and the port of the server, as far as the fields say them.
pub open spec fn host_variables(h: Fields) -> Variables {
    match message::field_of(h, "host"@) {
        None => seq![],
        Some(t) => {
            let p = text::pieces(t, ':');
            if p.len() >= 2 {
                seq![("SERVER_NAME"@, p[0]), ("SERVER_PORT"@, p[1])]
            } else {
                seq![("SERVER_NAME"@, p[0])]
            }
        },
    }
}

/// Appends the name and the port of the server, as far as the fields say them.
pub fn add_host_variables(out: &mut Vec<(String, String)>, headers: &Headers)
    ensures
        final(out).deep_view() == old(out).deep_view() + host_variables(headers.deep_view()),
{
    let ghost start = out.deep_view();
    let ghost want = start + host_variables(headers.deep_view());
    if let Some(t) = headers.text("host") {
        let p = text::split(t.as_str(), ':');
        assert(p.deep_view()[0] == p@[0]@);
        set_variable(out, "SERVER_NAME", p[0].as_str());
        if p.len() >= 2 {
            assert(p.deep_view()[1] == p@[1]@);
            set_variable(out, "SERVER_PORT", p[1].as_str());
        }
    }
    assert(out.deep_view() =~= want);
}

/// What a line of the head of an answer does to what was read before: the status and
/// the fields.
pub open spec fn head_line(line: Seq<char>, before: (u16, Fields)) -> (u16, Fields) {
    match text::cut(line, ':') {
        None => before,
        Some((n, v)) => {
            let (name, value) = (text::trimmed(n), text::trimmed(v));
            if text::lowered(name) == text::lowered("status"@) {
                (status_of(value, before.0), before.1)
            } else if message::is_field_name(name) && message::is_field_value(value) {
                (
                    before.0,
                    before.1.push((text::lowered(name), vstd::utf8::encode_utf8(value))),
                )
            } else {
                before
            }
        },
    }
}

/// The status that a text such as `404 Not Found` names. A text without words names
/// success, and so does a number that is no status; a word that is no number names
/// nothing.
pub open spec fn status_of(value: Seq<char>, before: u16) -> u16 {
    let w = text::words(value);
    let word = if w.len() > 0 {
        w[0]
    } else {
        "200"@
    };
    match text::number(word, u16::MAX as nat) {
        Some(n) => if 100 <= n <= 999 {
            n as u16
        } else {
            200
        },
        None => before,
    }
}

/// What the lines from `i` on do to what was read before.
pub open spec fn head_lines(
    lines: Seq<Seq<char>>,
    before: (u16, Fields),
    i: int,
) -> (u16, Fields)
    decreases lines.len() - i,
{
    if i < 0 || i >= lines.len() {
        before
    } else {
        head_lines(lines, head_line(lines[i], before), i + 1)
    }
}

/// The answer that the lines of a head and a body make up.
pub open spec fn answer_of(lines: Seq<Seq<char>>, body: Seq<u8>) -> ResponseView {
    let (status, headers) = head_lines(lines, (200, seq![]), 0);
    ResponseView { status, headers, body }
}

/// Reads the status that a text names.
fn read_status(value: &str, before: u16) -> (r: u16)
    ensures
        r == status_of(value@, before),
{
    let w = text::split_whitespace(value);
    let word = if w.len() > 0 {
        assert(w.deep_view()[0] == w@[0]@);
        w[0].clone()
    } else {
        "200".to_owned()
    };
    match text::parse_number(word.as_str(), u16::MAX as u64) {
        Some(n) => if 100 <= n && n <= 999 {
            n as u16
        } else {
            200
        },
        None => before,
    }
}

/// Makes an answer of the lines of a head and a body.
pub fn read_answer(lines: &Vec<String>, body: Vec<u8>) -> (r: Response)
    ensures
        r.deep_view() == answer_of(lines.deep_view(), body@),
{
    let ghost ls = lines.deep_view();
    let mut status: u16 = 200;
    let mut headers = Headers::new();
    for i in 0..lines.len()
        invariant
            ls == lines.deep_view(),
            head_lines(ls, (status, headers.deep_view()), i as int) == head_lines(
                ls,
                (200, seq![]),
                0,
            ),
    {
        assert(ls[i as int] == lines@[i as int]@);
        if let Some((n, v)) = text::split_once(lines[i].as_str(), ':') {
            let name = text::trim(n.as_str());
            let value = text::trim(v.as_str());
            if text::same_ignore_case(name.as_str(), "status") {
                status = read_status(value.as_str(), status);
            } else if let (Some(hn), Some(hv)) = (
                message::field_name(name.as_str()),
                message::field_value(value.as_str()),
            ) {
                headers.append(name.as_str(), hv);
            }
        }
    }
    Response { status, headers, body }
}

/// Where the head of an answer ends and its body begins: behind the first empty
/// line. Lines that end with a return and a line feed go before such with a line feed
/// alone.
pub open spec fn head_end(b: Seq<u8>) -> Option<(int, int)> {
    match text::first_at(b, seq![13u8, 10, 13, 10], 0) {
        Some(i) => Some((i, i + 4)),
        None => match text::first_at(b, seq![10u8, 10], 0) {
            Some(i) => Some((i, i + 2)),
            None => None,
        },
    }
}

/// The answer that the output of a script stands for. Output without an empty line is
/// all body.
pub open spec fn script_answer(b: Seq<u8>) -> ResponseView {
    match head_end(b) {
        Some((i, j)) => answer_of(text::lines(bytes::lossy(b.take(i))), b.skip(j)),
        None => answer_of(text::lines(bytes::lossy(seq![])), b),
    }
}

/// Return, line feed, return, line feed.
pub fn two_line_ends() -> (r: Vec<u8>)
    ensures
        r@ == seq![13u8, 10, 13, 10],
{
    let mut r: Vec<u8> = Vec::new();
    r.push(13);
    r.push(10);
    r.push(13);
    r.push(10);
    assert(r@ =~= seq![13u8, 10, 13, 10]);
    r
}

/// Finds where the head of an answer ends and its body begins.
fn find_head_end(b: &[u8]) -> (r: Option<(usize, usize)>)
    ensures
        match r {
            Some((i, j)) => head_end(b@) == Some((i as int, j as int)) && i <= j <= b@.len(),
            None => head_end(b@) is None,
        },
{
    let n = b.len();
    let long = two_line_ends();
    proof {
        text::lemma_first_at(b@, long@, 0);
    }
    if let Some(i) = bytes::find(b, long.as_slice(), 0) {
        assert(i + 4 <= n);
        return Some((i, i + 4));
    }
    let mut short: Vec<u8> = Vec::new();
    short.push(10);
    short.push(10);
    assert(short@ =~= seq![10u8, 10]);
    proof {
        text::lemma_first_at(b@, short@, 0);
    }
    match bytes::find(b, short.as_slice(), 0) {
        Some(i) => {
            assert(i + 2 <= n);
            Some((i, i + 2))
        },
        None => None,
    }
}

/// Makes an answer of the output of a script: lines with fields, an empty line, and
/// the body. The field `Status` sets the status.
pub fn parse_cgi_response(output: &[u8]) -> (r: Response)
    ensures
        r.deep_view() == script_answer(output@),
{
    let (i, j): (usize, usize) = match find_head_end(output) {
        Some(p) => p,
        None => (0, 0),
    };
    let head = bytes::part(output, 0, i);
    let body = bytes::part(output, j, output.len());
    proof {
        assert(head@ =~= output@.take(i as int));
        assert(body@ =~= output@.skip(j as int));
        if head_end(output@) is None {
            assert(head@ =~= seq![]);
            assert(body@ =~= output@);
        }
    }
    let lines = text::split_lines(bytes::lossy_text(head.as_slice()).as_str());
    read_answer(&lines, body)
}

/// The path below the directory of the scripts.
pub open spec fn script_name(path: Seq<char>) -> Seq<char> {
    text::trimmed_start(path, text::only('/'))
}

/// The file of the script for a path; none where a part of the path is `..`.
pub open spec fn script_file(root: Seq<char>, path: Seq<char>) -> Option<Seq<char>> {
    if text::pieces(script_name(path), '/').contains(".."@) {
        None
    } else {
        Some(rewrite::under(root, script_name(path)))
    }
}

/// A script lies below the directory: its path begins with that of the directory, and
/// no part of the rest is `..`.
pub proof fn lemma_script_confined(root: Seq<char>, path: Seq<char>)
    ensures
        script_file(root, path) matches Some(p) ==> text::begins(p, root) && text::ends(
            p,
            script_name(path),
        ) && !text::pieces(script_name(path), '/').contains(".."@),
{
    if let Some(p) = script_file(root, path) {
        let rel = script_name(path);
        reveal_strlit("/");
        let n = p.len() - rel.len();
        assert(p.take(root.len() as int) =~= root);
        assert(p.skip(n) =~= rel);
        assert(p.subrange(0, root.len() as int) =~= root);
        assert(p.subrange(n, p.len() as int) =~= rel);
    }
}

/// What a script in a file is told of a request.
pub open spec fn script_variables(
    file: Seq<char>,
    r: RequestView,
    c: ClientView,
    length: nat,
    env: Variables,
) -> Variables {
    let path = r.uri.path();
    seq![
        ("REQUEST_METHOD"@, r.method),
        ("QUERY_STRING"@, r.uri.query_text()),
        ("CONTENT_LENGTH"@, text::decimal(length)),
        ("CONTENT_TYPE"@, message::field_or(r.headers, "content-type"@, ""@)),
        ("SERVER_PROTOCOL"@, version_name(r.version)),
        ("SERVER_SOFTWARE"@, "gatel"@),
        ("GATEWAY_INTERFACE"@, "CGI/1.1"@),
        ("SCRIPT_NAME"@, path),
        ("SCRIPT_FILENAME"@, file),
        ("REQUEST_URI"@, r.uri.full_text()),
        ("PATH_INFO"@, path),
        ("REMOTE_ADDR"@, c.ip_text),
        ("REMOTE_PORT"@, text::decimal(c.port as nat)),
    ] + host_variables(r.headers) + field_variables(r.headers, 0) + env
}

/// Runs scripts below a directory.
pub struct CgiHandler {
    pub root: String,
    /// Variables that every script is told besides.
    pub env: SortedMap<String, String>,
}

impl CgiHandler {
    /// Runs scripts below a directory.
    pub fn new(root: String, env: SortedMap<String, String>) -> (h: CgiHandler)
        ensures
            h == (CgiHandler { root, env }),
    {
        CgiHandler { root, env }
    }

    /// The file of the script for a request; none where the path would lead out of the
    /// directory.
    pub fn script_path(&self, path: &str) -> (r: Option<String>)
        ensures
            r.deep_view() == script_file(self.root@, path@),
    {
        let rel = text::trim_start_char(path, '/');
        let parts = text::split(rel.as_str(), '/');
        let ghost ps = parts.deep_view();
        for i in 0..parts.len()
            invariant
                ps == parts.deep_view(),
                ps == text::pieces(script_name(path@), '/'),
                forall|k: int| 0 <= k < i ==> ps[k] != ".."@,
        {
            assert(ps[i as int] == parts@[i as int]@);
            if text::same(parts[i].as_str(), "..") {
                return None;
            }
        }
        Some(rewrite::join_path(self.root.as_str(), rel.as_str()))
    }

    /// The answer where there is no such script.
    pub fn not_found() -> (r: Response)
        ensures
            r.deep_view() == message::plain_response(404, "Not Found"@),
    {
        Response::plain(404, "Not Found")
    }

    /// What the script in a file is told of a request, in the order in which it is set:
    /// what comes later overrides what came before.
    pub fn variables(
        &self,
        script: &str,
        request: &Request,
        client: &ClientAddr,
        length: usize,
    ) -> (r: Vec<(String, String)>)
        ensures
            r.deep_view() == script_variables(
                script@,
                request.deep_view(),
                client.deep_view(),
                length as nat,
                self.env.deep_view(),
            ),
    {
        let path = request.uri.path();
        let mut out: Vec<(String, String)> = Vec::new();
        let length = text::number_text(length as u128);
        let port = text::number_text(client.port as u128);
        set_variable(&mut out, "REQUEST_METHOD", request.method.as_str());
        set_variable(&mut out, "QUERY_STRING", request.uri.query_text().as_str());
        set_variable(&mut out, "CONTENT_LENGTH", length.as_str());
        let kind = request.headers.text_or("content-type", "");
        set_variable(&mut out, "CONTENT_TYPE", kind.as_str());
        set_variable(&mut out, "SERVER_PROTOCOL", version_text(request.version));
        set_variable(&mut out, "SERVER_SOFTWARE", "gatel");
        set_variable(&mut out, "GATEWAY_INTERFACE", "CGI/1.1");
        set_variable(&mut out, "SCRIPT_NAME", path.as_str());
        set_variable(&mut out, "SCRIPT_FILENAME", script);
        set_variable(&mut out, "REQUEST_URI", request.uri.full_text().as_str());
        set_variable(&mut out, "PATH_INFO", path.as_str());
        set_variable(&mut out, "REMOTE_ADDR", client.ip_text.as_str());
        set_variable(&mut out, "REMOTE_PORT", port.as_str());
        assert(out.deep_view() =~= seq![
            ("REQUEST_METHOD"@, request.method@),
            ("QUERY_STRING"@, request.deep_view().uri.query_text()),
            ("CONTENT_LENGTH"@, length@),
            ("CONTENT_TYPE"@, kind@),
            ("SERVER_PROTOCOL"@, version_name(request.version)),
            ("SERVER_SOFTWARE"@, "gatel"@),
            ("GATEWAY_INTERFACE"@, "CGI/1.1"@),
            ("SCRIPT_NAME"@, path@),
            ("SCRIPT_FILENAME"@, script@),
            ("REQUEST_URI"@, request.deep_view().uri.full_text()),
            ("PATH_INFO"@, path@),
            ("REMOTE_ADDR"@, client.ip_text@),
            ("REMOTE_PORT"@, port@),
        ]);
        add_host_variables(&mut out, &request.headers);
        add_field_variables(&mut out, &request.headers);
        add_all_variables(&mut out, &self.env);
        out
    }
}

/// A line with a name and a value adds the field, without the space around them; the field
/// `Status` sets the status instead, and a line without a colon does nothing.
pub proof fn lemma_head_line(n: Seq<char>, v: Seq<char>, before: (u16, Fields))
    requires
        !n.contains(':'),
    ensures
        head_line(n, before) == before,
        text::lowered(text::trimmed(n)) != text::lowered("status"@) && message::is_field_name(
            text::trimmed(n),
        ) && message::is_field_value(text::trimmed(v)) ==> head_line(n + seq![':'] + v, before) == (
            before.0,
            before.1.push(
                (
                    text::lowered(text::trimmed(n)),
                    vstd::utf8::encode_utf8(text::trimmed(v)),
                ),
            ),
        ),
        text::lowered(text::trimmed(n)) == text::lowered("status"@) ==> head_line(
            n + seq![':'] + v,
            before,
        ).1 == before.1,
{
    text::lemma_cut_at(n, ':', v);
}

/// A status is the number that stands first, whatever words follow it.
pub proof fn lemma_status_named(n: u16, words: Seq<Seq<char>>, before: u16)
    requires
        100 <= n <= 999,
        forall|i: int|
            0 <= i < words.len() ==> (#[trigger] words[i]).len() > 0 && text::spaceless(words[i]),
    ensures
        status_of(text::joined(seq![text::decimal(n as nat)] + words, seq![' ']), before) == n,
        status_of(Seq::empty(), before) == 200,
{
    let d = text::decimal(n as nat);
    let all = seq![d] + words;
    text::lemma_decimal_value(n as nat);
    assert(text::spaceless(d)) by {
        assert forall|i: int| 0 <= i < d.len() implies !text::is_space(#[trigger] d[i]) by {
            assert(text::is_digit(d[i]));
        }
    }
    assert forall|i: int| 0 <= i < all.len() implies (#[trigger] all[i]).len() > 0
        && text::spaceless(all[i]) by {
        if i > 0 {
            assert(all[i] == words[i - 1]);
        }
    }
    text::lemma_words_of_joined(all);
    let none = Seq::<Seq<char>>::empty();
    text::lemma_words_of_joined(none);
    assert(text::joined(none, seq![' ']) =~= Seq::<char>::empty());
    reveal_strlit("200");
    lemma_two_hundred();
}

/// The number two hundred.
proof fn lemma_two_hundred()
    ensures
        text::number("200"@, u16::MAX as nat) == Some(200nat),
{
    reveal_strlit("200");
    reveal_with_fuel(text::decimal, 4);
    assert(text::decimal(200) =~= "200"@);
    text::lemma_decimal_value(200);
}

/// The output of a script is parted at the first empty line into its head and its body;
/// without one it is all body, and a success.
pub proof fn lemma_output_parted(head: Seq<u8>, body: Seq<u8>, all: Seq<u8>)
    requires
        text::first_at(head + seq![13u8, 10, 13, 10] + body, seq![13u8, 10, 13, 10], 0) == Some(
            head.len() as int,
        ),
        !text::contains(all, seq![13u8, 10, 13, 10]),
        !text::contains(all, seq![10u8, 10]),
    ensures
        script_answer(head + seq![13u8, 10, 13, 10] + body).body == body,
        script_answer(head + seq![13u8, 10, 13, 10] + body) == answer_of(
            text::lines(bytes::lossy(head)),
            body,
        ),
        script_answer(all).body == all,
{
    let b = head + seq![13u8, 10, 13, 10] + body;
    let n = head.len() as int;
    assert(b.take(n) =~= head);
    assert(b.skip(n + 4) =~= body);
}

/// A script is told what the request is: its method, path, query and kind, the length of
/// its body, the client, every field that is plain text, and last what the configuration
/// says.
pub proof fn lemma_told_of_request(
    file: Seq<char>,
    r: RequestView,
    c: ClientView,
    length: nat,
    env: Variables,
    i: int,
)
    ensures
        ({
            let v = script_variables(file, r, c, length, env);
            &&& v.contains(("REQUEST_METHOD"@, r.method))
            &&& v.contains(("QUERY_STRING"@, r.uri.query_text()))
            &&& v.contains(("CONTENT_LENGTH"@, text::decimal(length)))
            &&& v.contains(("SCRIPT_FILENAME"@, file))
            &&& v.contains(("SCRIPT_NAME"@, r.uri.path()))
            &&& v.contains(("PATH_INFO"@, r.uri.path()))
            &&& v.contains(("REMOTE_ADDR"@, c.ip_text))
            &&& v.contains(("REMOTE_PORT"@, text::decimal(c.port as nat)))
            &&& v.skip(v.len() - env.len()) == env
            &&& 0 <= i < r.headers.len() && message::value_text(r.headers[i].1) is Some
                ==> v.contains(
                (field_variable(r.headers[i].0), message::value_text(r.headers[i].1)->0),
            )
        }),
{
    let v = script_variables(file, r, c, length, env);
    assert(v[0] == ("REQUEST_METHOD"@, r.method));
    assert(v[1] == ("QUERY_STRING"@, r.uri.query_text()));
    assert(v[2] == ("CONTENT_LENGTH"@, text::decimal(length)));
    assert(v[7] == ("SCRIPT_NAME"@, r.uri.path()));
    assert(v[8] == ("SCRIPT_FILENAME"@, file));
    assert(v[10] == ("PATH_INFO"@, r.uri.path()));
    assert(v[11] == ("REMOTE_ADDR"@, c.ip_text));
    assert(v[12] == ("REMOTE_PORT"@, text::decimal(c.port as nat)));
    assert(v.skip(v.len() - env.len()) =~= env);
    if 0 <= i < r.headers.len() && message::value_text(r.headers[i].1) is Some {
        lemma_field_told(r.headers, 0, i);
        let f = field_variables(r.headers, 0);
        let x = (field_variable(r.headers[i].0), message::value_text(r.headers[i].1)->0);
        let k = choose|k: int| 0 <= k < f.len() && f[k] == x;
        assert(v[13 + host_variables(r.headers).len() + k] == x);
    }
}

/// A field that is plain text becomes a variable.
pub proof fn lemma_field_told(h: Fields, from: int, i: int)
    requires
        0 <= from <= i < h.len(),
        message::value_text(h[i].1) is Some,
    ensures
        field_variables(h, from).contains(
            (field_variable(h[i].0), message::value_text(h[i].1)->0),
        ),
    decreases i - from,
{
    let x = (field_variable(h[i].0), message::value_text(h[i].1)->0);
    let all = field_variables(h, from);
    if from == i {
        assert(all[0] == x);
    } else {
        lemma_field_told(h, from + 1, i);
        let rest = field_variables(h, from + 1);
        let k = choose|k: int| 0 <= k < rest.len() && rest[k] == x;
        if message::value_text(h[from].1) is Some {
            assert(all[k + 1] == x);
        } else {
            assert(all[k] == x);
        }
    }
}

/// The variable of a field is its name in capitals, with lines below in place of dashes,
/// behind `HTTP_`.
pub proof fn lemma_variable_name(name: Seq<char>, parts: Seq<Seq<char>>)
    requires
        parts.len() > 0,
        forall|i: int| 0 <= i < parts.len() ==> !(#[trigger] parts[i]).contains('-'),
        text::upper_case(name) == text::joined(parts, seq!['-']),
    ensures
        field_variable(name) == "HTTP_"@ + text::joined(parts, seq!['_']),
{
    reveal_strlit("-");
    reveal_strlit("_");
    assert("-"@ =~= seq!['-']);
    assert("_"@ =~= seq!['_']);
    text::lemma_replaced_separators(parts, '-', seq!['_']);
}

/// The name of the server is what stands before the colon of the host, and its port what
/// stands behind it.
pub proof fn lemma_server_named(h: Fields, host: Seq<char>, port: Seq<char>)
    requires
        !host.contains(':'),
        !port.contains(':'),
    ensures
        message::field_of(h, "host"@) == Some(host + seq![':'] + port) ==> host_variables(h)
            == seq![("SERVER_NAME"@, host), ("SERVER_PORT"@, port)],
        message::field_of(h, "host"@) == Some(host) ==> host_variables(h) == seq![
            ("SERVER_NAME"@, host),
        ],
        message::field_of(h, "host"@) is None ==> host_variables(h).len() == 0,
{
    let two = seq![host, port];
    let one = seq![host];
    text::lemma_pieces_of_joined(one, ':');
    text::lemma_pieces_of_joined(two, ':');
    assert(two.drop_last() =~= one);
    assert(text::joined(one, seq![':']) == host);
    assert(text::joined(two, seq![':']) =~= host + seq![':'] + port);
}

/// The path below the directory is that of the request without the slashes before it.
pub proof fn lemma_script_named(root: Seq<char>, p: Seq<char>)
    requires
        p.len() > 0 && p[0] != '/',
        !text::pieces(p, '/').contains(".."@),
    ensures
        script_file(root, seq!['/'] + p) == Some(rewrite::under(root, p)),
        script_file(root, p) == Some(rewrite::under(root, p)),
{
    let s = seq!['/'] + p;
    reveal_with_fuel(text::lead, 3);
    assert(s[0] == '/' && s[1] == p[0]);
    assert(text::lead(s, text::only('/'), 0) == 1);
    assert(s.skip(1) =~= p);
    assert(text::lead(p, text::only('/'), 0) == 0);
    assert(p.skip(0) =~= p);
}

/// The versions of HTTP have names of their own, each with its numbers behind the slash.
pub proof fn lemma_version_names(a: Version, b: Version)
    ensures
        version_name(a) == version_name(b) ==> a == b,
        version_name(a).len() == 8 && version_name(a)[6] == '.',
        version_name(a)[5] == (match a {
            Version::Http09 => '0',
            Version::Http10 => '1',
            Version::Http11 => '1',
            Version::Http2 => '2',
            Version::Http3 => '3',
        }),
        version_name(a)[7] == '1' <==> a == Version::Http11,
        version_name(a)[7] == '9' <==> a == Version::Http09,
{
    reveal_strlit("HTTP/0.9");
    reveal_strlit("HTTP/1.0");
    reveal_strlit("HTTP/1.1");
    reveal_strlit("HTTP/2.0");
    reveal_strlit("HTTP/3.0");
    let (x, y) = (version_name(a), version_name(b));
    assert(x == y ==> x[5] == y[5] && x[7] == y[7]);
}

} // verus!
