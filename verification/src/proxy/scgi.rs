//! The protocol of SCGI servers.

use vstd::prelude::*;
use super::cgi;
use super::cgi::{
    add_all_variables, add_field_variables, add_host_variables, set_variable, version_text,
    Variables,
};
use crate::bytes;
use crate::message;
use crate::message::{ClientAddr, ClientView, Request, RequestView};
use crate::sorted_map::SortedMap;
use crate::text;

verus! {

/// A name and a value, each with a zero byte behind it.
pub open spec fn pair_bytes(name: Seq<char>, value: Seq<char>) -> Seq<u8> {
    vstd::utf8::encode_utf8(name) + seq![0u8] + vstd::utf8::encode_utf8(value) + seq![0u8]
}

/// Appends a name and a value, each with a zero byte behind it.
pub fn push_scgi_header(buf: &mut Vec<u8>, name: &str, value: &str)
    ensures
        final(buf)@ == old(buf)@ + pair_bytes(name@, value@),
{
    let ghost start = buf@;
    bytes::append(buf, message::utf8(name).as_slice());
    buf.push(0);
    bytes::append(buf, message::utf8(value).as_slice());
    buf.push(0);
    assert(buf@ =~= start + pair_bytes(name@, value@));
}

/// The variables from `i` on.
pub open spec fn pairs_bytes(p: Variables, i: int) -> Seq<u8>
    decreases p.len() - i,
{
    if i < 0 || i >= p.len() {
        seq![]
    } else {
        pair_bytes(p[i].0, p[i].1) + pairs_bytes(p, i + 1)
    }
}

/// The kind of the body, where the fields say it.
pub open spec fn kind_variables(r: RequestView) -> Variables {
    match message::field_of(r.headers, "content-type"@) {
        Some(t) => seq![("CONTENT_TYPE"@, t)],
        None => seq![],
    }
}

/// What a server is told of a request. The length of the body comes first.
pub open spec fn scgi_variables(r: RequestView, c: ClientView, length: nat, env: Variables)
    -> Variables {
    let path = r.uri.path();
    let document = match r.uri.path_and_query {
        Some(p) => p,
        None => path,
    };
    seq![
        ("CONTENT_LENGTH"@, text::decimal(length)),
        ("SCGI"@, "1"@),
        ("REQUEST_METHOD"@, r.method),
        ("REQUEST_URI"@, r.uri.full_text()),
        ("QUERY_STRING"@, r.uri.query_text()),
        ("SERVER_PROTOCOL"@, cgi::version_name(r.version)),
        ("REMOTE_ADDR"@, c.ip_text),
        ("REMOTE_PORT"@, text::decimal(c.port as nat)),
        ("SERVER_SOFTWARE"@, "gatel"@),
        ("GATEWAY_INTERFACE"@, "CGI/1.1"@),
        ("SCRIPT_NAME"@, path),
        ("PATH_INFO"@, path),
        ("DOCUMENT_URI"@, document),
    ] + kind_variables(r) + cgi::host_variables(r.headers) + cgi::field_variables(r.headers, 0)
        + env
}

/// The bytes that are sent: the length of the variables, a colon, the variables, a
/// comma, and the body.
pub open spec fn payload(variables: Seq<u8>, body: Seq<u8>) -> Seq<u8> {
    vstd::utf8::encode_utf8(text::decimal(variables.len()) + ":"@) + variables + seq![44u8] + body
}

/// Hands requests on to an SCGI server.
pub struct ScgiHandler {
    /// The address of the server.
    pub addr: String,
    /// Variables that are told besides.
    pub env: SortedMap<String, String>,
}

impl ScgiHandler {
    /// Hands requests on to an SCGI server.
    pub fn new(addr: String, env: SortedMap<String, String>) -> (h: ScgiHandler)
        ensures
            h == (ScgiHandler { addr, env }),
    {
        ScgiHandler { addr, env }
    }

    /// What the server is told of a request.
    pub fn variables(&self, request: &Request, client: &ClientAddr, length: usize) -> (r: Vec<
        (String, String),
    >)
        ensures
            r.deep_view() == scgi_variables(
                request.deep_view(),
                client.deep_view(),
                length as nat,
                self.env.deep_view(),
            ),
    {
        let path = request.uri.path();
        let document = match &request.uri.path_and_query {
            Some(p) => p.clone(),
            None => path.clone(),
        };
        let length = text::number_text(length as u128);
        let port = text::number_text(client.port as u128);
        let uri = request.uri.full_text();
        let query = request.uri.query_text();
        let mut out: Vec<(String, String)> = Vec::new();
        set_variable(&mut out, "CONTENT_LENGTH", length.as_str());
        set_variable(&mut out, "SCGI", "1");
        set_variable(&mut out, "REQUEST_METHOD", request.method.as_str());
        set_variable(&mut out, "REQUEST_URI", uri.as_str());
        set_variable(&mut out, "QUERY_STRING", query.as_str());
        set_variable(&mut out, "SERVER_PROTOCOL", version_text(request.version));
        set_variable(&mut out, "REMOTE_ADDR", client.ip_text.as_str());
        set_variable(&mut out, "REMOTE_PORT", port.as_str());
        set_variable(&mut out, "SERVER_SOFTWARE", "gatel");
        set_variable(&mut out, "GATEWAY_INTERFACE", "CGI/1.1");
        set_variable(&mut out, "SCRIPT_NAME", path.as_str());
        set_variable(&mut out, "PATH_INFO", path.as_str());
        set_variable(&mut out, "DOCUMENT_URI", document.as_str());
        let ghost first = out.deep_view();
        assert(first =~= seq![
            ("CONTENT_LENGTH"@, length@),
            ("SCGI"@, "1"@),
            ("REQUEST_METHOD"@, request.method@),
            ("REQUEST_URI"@, uri@),
            ("QUERY_STRING"@, query@),
            ("SERVER_PROTOCOL"@, cgi::version_name(request.version)),
            ("REMOTE_ADDR"@, client.ip_text@),
            ("REMOTE_PORT"@, port@),
            ("SERVER_SOFTWARE"@, "gatel"@),
            ("GATEWAY_INTERFACE"@, "CGI/1.1"@),
            ("SCRIPT_NAME"@, path@),
            ("PATH_INFO"@, path@),
            ("DOCUMENT_URI"@, document@),
        ]);
        if let Some(t) = request.headers.text("content-type") {
            set_variable(&mut out, "CONTENT_TYPE", t.as_str());
        }
        assert(out.deep_view() =~= first + kind_variables(request.deep_view()));
        add_host_variables(&mut out, &request.headers);
        add_field_variables(&mut out, &request.headers);
        add_all_variables(&mut out, &self.env);
        out
    }

    /// The bytes that are sent for a request.
    pub fn payload(&self, request: &Request, client: &ClientAddr, body: &[u8]) -> (r: Vec<u8>)
        ensures
            r@ == payload(
                pairs_bytes(
                    scgi_variables(
                        request.deep_view(),
                        client.deep_view(),
                        body@.len(),
                        self.env.deep_view(),
                    ),
                    0,
                ),
                body@,
            ),
    {
        let vars = self.variables(request, client, body.len());
        let ghost p = vars.deep_view();
        let mut headers: Vec<u8> = Vec::new();
        assert(headers@ + pairs_bytes(p, 0) =~= pairs_bytes(p, 0));
        for i in 0..vars.len()
            invariant
                p == vars.deep_view(),
                headers@ + pairs_bytes(p, i as int) == pairs_bytes(p, 0),
        {
            assert(p[i as int] == vars@[i as int].deep_view());
            let ghost before = headers@;
            push_scgi_header(&mut headers, vars[i].0.as_str(), vars[i].1.as_str());
            assert(headers@ + pairs_bytes(p, i + 1) =~= before + (pair_bytes(
                p[i as int].0,
                p[i as int].1,
            ) + pairs_bytes(p, i + 1)));
        }
        assert(headers@ + pairs_bytes(p, p.len() as int) =~= headers@);
        let prefix = text::join(text::number_text(headers.len() as u128).as_str(), ":");
        let mut out = message::utf8(prefix.as_str());
        bytes::append(&mut out, headers.as_slice());
        let ghost before = out@;
        out.push(44);
        assert(out@ =~= before + seq![44u8]);
        bytes::append(&mut out, body);
        out
    }
}

/// The place of the first zero byte from `i` on.
pub open spec fn zero_at(b: Seq<u8>, i: int) -> Option<int>
    decreases b.len() - i,
{
    if i < 0 || i >= b.len() {
        None
    } else if b[i] == 0 {
        Some(i)
    } else {
        zero_at(b, i + 1)
    }
}

/// The pairs that bytes hold, where each name and each value ends with a zero byte.
pub open spec fn pairs_in(b: Seq<u8>) -> Option<Seq<(Seq<u8>, Seq<u8>)>>
    decreases b.len(),
{
    if b.len() == 0 {
        Some(seq![])
    } else {
        match zero_at(b, 0) {
            None => None,
            Some(i) => match zero_at(b, i + 1) {
                None => None,
                Some(j) => if i < 0 || j <= i || j >= b.len() {
                    None
                } else {
                    match pairs_in(b.skip(j + 1)) {
                        None => None,
                        Some(rest) => Some(seq![(b.take(i), b.subrange(i + 1, j))] + rest),
                    }
                },
            },
        }
    }
}

/// The first zero byte is behind the bytes that are none.
proof fn lemma_zero_at(b: Seq<u8>, i: int, k: int)
    requires
        0 <= i <= k < b.len(),
        b[k] == 0,
        forall|m: int| i <= m < k ==> b[m] != 0,
    ensures
        zero_at(b, i) == Some(k),
    decreases k - i,
{
    if i < k {
        assert(b[i] != 0);
        lemma_zero_at(b, i + 1, k);
    }
}

/// A text without zero bytes.
pub open spec fn zero_free(s: Seq<char>) -> bool {
    let b = vstd::utf8::encode_utf8(s);
    forall|i: int| 0 <= i < b.len() ==> #[trigger] b[i] != 0
}

/// The variables as bytes.
pub open spec fn byte_pairs(p: Variables, i: int) -> Seq<(Seq<u8>, Seq<u8>)>
    decreases p.len() - i,
{
    if i < 0 || i >= p.len() {
        seq![]
    } else {
        seq![(vstd::utf8::encode_utf8(p[i].0), vstd::utf8::encode_utf8(p[i].1))] + byte_pairs(
            p,
            i + 1,
        )
    }
}

/// The variables that were written are read back, where none holds a zero byte.
pub proof fn lemma_pairs_read_back(p: Variables, i: int)
    requires
        0 <= i,
        forall|k: int| 0 <= k < p.len() ==> zero_free((#[trigger] p[k]).0) && zero_free(p[k].1),
    ensures
        pairs_in(pairs_bytes(p, i)) == Some(byte_pairs(p, i)),
    decreases p.len() - i,
{
    if i < p.len() {
        lemma_pairs_read_back(p, i + 1);
        let (n, v) = (vstd::utf8::encode_utf8(p[i].0), vstd::utf8::encode_utf8(p[i].1));
        let rest = pairs_bytes(p, i + 1);
        let all = n + seq![0u8] + v + seq![0u8] + rest;
        assert(all == pairs_bytes(p, i));
        let (a, b) = (n.len() as int, n.len() + 1 + v.len() as int);
        assert(zero_free(p[i].0) && zero_free(p[i].1));
        assert(all[a] == 0 && all[b] == 0);
        assert forall|m: int| 0 <= m < a implies all[m] != 0 by {
            assert(all[m] == n[m]);
        }
        assert forall|m: int| a + 1 <= m < b implies all[m] != 0 by {
            assert(all[m] == v[m - a - 1]);
        }
        lemma_zero_at(all, 0, a);
        lemma_zero_at(all, a + 1, b);
        assert(all.take(a) =~= n);
        assert(all.subrange(a + 1, b) =~= v);
        assert(all.skip(b + 1) =~= rest);
    }
}

/// A server is told what the request is: the length of its body first, then its method,
/// path, query and client, every field that is plain text, and last what the
/// configuration says.
pub proof fn lemma_told_of_request(
    r: RequestView,
    c: ClientView,
    length: nat,
    env: Variables,
    i: int,
)
    ensures
        ({
            let v = scgi_variables(r, c, length, env);
            &&& v[0] == ("CONTENT_LENGTH"@, text::decimal(length))
            &&& v[1] == ("SCGI"@, "1"@)
            &&& v.contains(("REQUEST_METHOD"@, r.method))
            &&& v.contains(("QUERY_STRING"@, r.uri.query_text()))
            &&& v.contains(("SCRIPT_NAME"@, r.uri.path()))
            &&& v.contains(("REMOTE_ADDR"@, c.ip_text))
            &&& v.contains(("REMOTE_PORT"@, text::decimal(c.port as nat)))
            &&& r.uri.path_and_query is Some ==> v.contains(
                ("DOCUMENT_URI"@, r.uri.path_and_query->0),
            )
            &&& v.skip(v.len() - env.len()) == env
            &&& 0 <= i < r.headers.len() && message::value_text(r.headers[i].1) is Some
                ==> v.contains(
                (cgi::field_variable(r.headers[i].0), message::value_text(r.headers[i].1)->0),
            )
        }),
{
    let v = scgi_variables(r, c, length, env);
    assert(v[2] == ("REQUEST_METHOD"@, r.method));
    assert(v[4] == ("QUERY_STRING"@, r.uri.query_text()));
    assert(v[6] == ("REMOTE_ADDR"@, c.ip_text));
    assert(v[7] == ("REMOTE_PORT"@, text::decimal(c.port as nat)));
    assert(v[10] == ("SCRIPT_NAME"@, r.uri.path()));
    if r.uri.path_and_query is Some {
        assert(v[12] == ("DOCUMENT_URI"@, r.uri.path_and_query->0));
    }
    assert(v.skip(v.len() - env.len()) =~= env);
    if 0 <= i < r.headers.len() && message::value_text(r.headers[i].1) is Some {
        cgi::lemma_field_told(r.headers, 0, i);
        let f = cgi::field_variables(r.headers, 0);
        let x = (cgi::field_variable(r.headers[i].0), message::value_text(r.headers[i].1)->0);
        let k = choose|k: int| 0 <= k < f.len() && f[k] == x;
        assert(v[13 + kind_variables(r).len() + cgi::host_variables(r.headers).len() + k] == x);
    }
}

/// What is sent is the length of the variables in decimal and a colon, the variables, a
/// comma and the body.
pub proof fn lemma_payload(variables: Seq<u8>, body: Seq<u8>)
    ensures
        ({
            let p = payload(variables, body);
            let head = vstd::utf8::encode_utf8(text::decimal(variables.len()) + seq![':']);
            let n = head.len() as int;
            let m = n + variables.len();
            &&& p.take(n) == head
            &&& p.subrange(n, m) == variables
            &&& p[m] == 44
            &&& p.skip(m + 1) == body
        }),
{
    reveal_strlit(":");
    assert(":"@ =~= seq![':']);
    let p = payload(variables, body);
    let head = vstd::utf8::encode_utf8(text::decimal(variables.len()) + seq![':']);
    let n = head.len() as int;
    let m = n + variables.len();
    assert(p.take(n) =~= head);
    assert(p.subrange(n, m) =~= variables);
    assert(p.skip(m + 1) =~= body);
}

} // verus!
