//! The protocol of FastCGI servers.

use vstd::prelude::*;
use super::cgi;
use super::cgi::{
    add_all_variables, add_field_variables, read_answer, set_variable, two_line_ends, version_text,
    Variables,
};
use crate::bytes;
use crate::data::Data;
use crate::message;
use crate::message::{Fields, Headers, Request, RequestView, Response, ResponseView};
use crate::sorted_map::SortedMap;
use crate::text;

verus! {

/// The version of the protocol.
pub const FCGI_VERSION_1: u8 = 1;

/// A record that begins a request.
pub const FCGI_BEGIN_REQUEST: u8 = 1;

/// A record that ends a request.
pub const FCGI_END_REQUEST: u8 = 3;

/// A record with variables.
pub const FCGI_PARAMS: u8 = 4;

/// A record with a part of the body of the request.
pub const FCGI_STDIN: u8 = 5;

/// A record with a part of the answer.
pub const FCGI_STDOUT: u8 = 6;

/// A record with a part of what went wrong.
pub const FCGI_STDERR: u8 = 7;

/// The server is to answer the request.
pub const FCGI_RESPONDER: u16 = 1;

/// The length of the head of a record.
pub const FCGI_HEADER_LEN: usize = 8;

/// The number of the one request on a connection.
pub const FCGI_REQUEST_ID: u16 = 1;

/// The longest content of a record.
pub const FCGI_MAX_CONTENT_LEN: usize = 65535;

/// The number of bytes that fill up a content to a multiple of eight.
pub open spec fn padding(n: nat) -> nat {
    ((8 - n % 8) % 8) as nat
}

/// Counts the bytes that fill up a content to a multiple of eight.
pub fn padding_for(content_len: usize) -> (r: u8)
    ensures
        r == padding(content_len as nat),
{
    let remainder: usize = content_len % 8;
    if remainder == 0 {
        0
    } else {
        (8 - remainder) as u8
    }
}

/// A number of two bytes, the higher first.
pub open spec fn two_bytes(n: nat) -> Seq<u8> {
    seq![(n / 256 % 256) as u8, (n % 256) as u8]
}

/// A record: its head, its content, and what fills it up.
pub open spec fn record(record_type: u8, id: u16, content: Seq<u8>) -> Seq<u8> {
    seq![FCGI_VERSION_1, record_type] + two_bytes(id as nat) + two_bytes(content.len()) + seq![
        padding(content.len()) as u8,
        0u8,
    ] + content + Seq::new(padding(content.len()), |i: int| 0u8)
}

/// Writes a record.
pub fn build_record(record_type: u8, request_id: u16, content: &[u8]) -> (r: Vec<u8>)
    ensures
        r@ == record(record_type, request_id, content@),
{
    let n = content.len();
    let fill = padding_for(n);
    let mut buf: Vec<u8> = Vec::new();
    buf.push(FCGI_VERSION_1);
    buf.push(record_type);
    buf.push((request_id / 256 % 256) as u8);
    buf.push((request_id % 256) as u8);
    buf.push((n / 256 % 256) as u8);
    buf.push((n % 256) as u8);
    buf.push(fill);
    buf.push(0);
    let ghost head = seq![FCGI_VERSION_1, record_type] + two_bytes(request_id as nat) + two_bytes(
        content@.len(),
    ) + seq![padding(content@.len()) as u8, 0u8];
    assert(buf@ =~= head);
    bytes::append(&mut buf, content);
    let ghost filled = buf@;
    for i in 0..fill
        invariant
            buf@ == filled + Seq::new(i as nat, |i: int| 0u8),
    {
        buf.push(0);
        assert(buf@ =~= filled + Seq::new((i + 1) as nat, |i: int| 0u8));
    }
    assert(buf@ =~= record(record_type, request_id, content@));
    buf
}

/// The content of a record that begins a request.
pub open spec fn begin_content(role: u16, flags: u8) -> Seq<u8> {
    two_bytes(role as nat) + seq![flags, 0u8, 0, 0, 0, 0]
}

/// Writes the content of a record that begins a request.
pub fn build_begin_request_body(role: u16, flags: u8) -> (r: Vec<u8>)
    ensures
        r@ == begin_content(role, flags),
        r@.len() == 8,
{
    let mut body: Vec<u8> = Vec::new();
    body.push((role / 256 % 256) as u8);
    body.push((role % 256) as u8);
    body.push(flags);
    body.push(0);
    body.push(0);
    body.push(0);
    body.push(0);
    body.push(0);
    assert(body@ =~= begin_content(role, flags));
    body
}

/// A length: one byte below 128, else four bytes, the first with its highest bit set.
pub open spec fn length_bytes(n: nat) -> Seq<u8> {
    if n < 128 {
        seq![n as u8]
    } else {
        seq![
            (128 + n / 0x100_0000 % 128) as u8,
            (n / 0x1_0000 % 256) as u8,
            (n / 256 % 256) as u8,
            (n % 256) as u8,
        ]
    }
}

/// Appends a length.
pub fn encode_length(buf: &mut Vec<u8>, len: usize)
    ensures
        final(buf)@ == old(buf)@ + length_bytes(len as nat),
{
    let ghost start = buf@;
    if len < 128 {
        buf.push(len as u8);
    } else {
        let n: u64 = len as u64;
        buf.push((128 + n / 0x100_0000 % 128) as u8);
        buf.push((n / 0x1_0000 % 256) as u8);
        buf.push((n / 256 % 256) as u8);
        buf.push((n % 256) as u8);
    }
    assert(buf@ =~= start + length_bytes(len as nat));
}

/// A name and a value: their lengths, then they.
pub open spec fn pair_bytes(name: Seq<u8>, value: Seq<u8>) -> Seq<u8> {
    length_bytes(name.len()) + length_bytes(value.len()) + name + value
}

/// The variables from `i` on.
pub open spec fn params_bytes(p: Variables, i: int) -> Seq<u8>
    decreases p.len() - i,
{
    if i < 0 || i >= p.len() {
        seq![]
    } else {
        pair_bytes(vstd::utf8::encode_utf8(p[i].0), vstd::utf8::encode_utf8(p[i].1)) + params_bytes(
            p,
            i + 1,
        )
    }
}

/// Writes variables.
pub fn encode_params(params: &Vec<(String, String)>) -> (r: Vec<u8>)
    ensures
        r@ == params_bytes(params.deep_view(), 0),
{
    let ghost p = params.deep_view();
    let mut buf: Vec<u8> = Vec::new();
    assert(buf@ + params_bytes(p, 0) =~= params_bytes(p, 0));
    for i in 0..params.len()
        invariant
            p == params.deep_view(),
            buf@ + params_bytes(p, i as int) == params_bytes(p, 0),
    {
        assert(p[i as int] == params@[i as int].deep_view());
        let ghost before = buf@;
        let name = message::utf8(params[i].0.as_str());
        let value = message::utf8(params[i].1.as_str());
        encode_length(&mut buf, name.len());
        encode_length(&mut buf, value.len());
        bytes::append(&mut buf, name.as_slice());
        bytes::append(&mut buf, value.as_slice());
        assert(buf@ =~= before + pair_bytes(name@, value@));
        assert(buf@ + params_bytes(p, i + 1) =~= before + (pair_bytes(name@, value@) + params_bytes(
            p,
            i + 1,
        )));
    }
    assert(buf@ + params_bytes(p, p.len() as int) =~= buf@);
    buf
}

/// Data from `from` on, in records of which each holds as much as it can.
pub open spec fn stream_records(record_type: u8, id: u16, data: Seq<u8>, from: int) -> Seq<u8>
    decreases data.len() - from,
{
    if from < 0 || from >= data.len() {
        seq![]
    } else {
        let to = if data.len() - from > FCGI_MAX_CONTENT_LEN {
            from + FCGI_MAX_CONTENT_LEN
        } else {
            data.len() as int
        };
        record(record_type, id, data.subrange(from, to)) + stream_records(record_type, id, data, to)
    }
}

/// Appends data in records.
pub fn send_stream_records(out: &mut Vec<u8>, record_type: u8, request_id: u16, data: &[u8])
    ensures
        final(out)@ == old(out)@ + stream_records(record_type, request_id, data@, 0),
{
    let ghost start = out@;
    let n = data.len();
    let mut offset: usize = 0;
    while offset < n
        invariant
            n == data@.len(),
            offset <= n,
            out@ + stream_records(record_type, request_id, data@, offset as int) == start
                + stream_records(record_type, request_id, data@, 0),
        decreases n - offset,
    {
        let ghost before = out@;
        let end: usize = if n - offset > FCGI_MAX_CONTENT_LEN {
            offset + FCGI_MAX_CONTENT_LEN
        } else {
            n
        };
        let chunk = bytes::part(data, offset, end);
        let rec = build_record(record_type, request_id, chunk.as_slice());
        bytes::append(out, rec.as_slice());
        assert(out@ + stream_records(record_type, request_id, data@, end as int) =~= before + (rec@
            + stream_records(record_type, request_id, data@, end as int)));
        offset = end;
    }
    assert(out@ + stream_records(record_type, request_id, data@, n as int) =~= out@);
}

/// The head of a record.
#[derive(Clone, Copy, Debug, PartialEq, Eq, Structural)]
pub struct RecordHeader {
    pub version: u8,
    pub record_type: u8,
    pub request_id: u16,
    pub content_length: u16,
    pub padding_length: u8,
}

/// The head of a record that the bytes begin with.
pub open spec fn header_in(b: Seq<u8>) -> RecordHeader {
    RecordHeader {
        version: b[0],
        record_type: b[1],
        request_id: (b[2] * 256 + b[3]) as u16,
        content_length: (b[4] * 256 + b[5]) as u16,
        padding_length: b[6],
    }
}

/// Reads the head of a record.
pub fn read_record_header(b: &[u8]) -> (h: RecordHeader)
    requires
        b@.len() >= FCGI_HEADER_LEN,
    ensures
        h == header_in(b@),
{
    RecordHeader {
        version: b[0],
        record_type: b[1],
        request_id: b[2] as u16 * 256 + b[3] as u16,
        content_length: b[4] as u16 * 256 + b[5] as u16,
        padding_length: b[6],
    }
}

/// The head and the content of an answer are parted by an empty line. Output without
/// one is all body.
pub open spec fn answer_in(b: Seq<u8>) -> ResponseView {
    match text::first_at(b, seq![13u8, 10, 13, 10], 0) {
        Some(i) => cgi::answer_of(text::parts(bytes::lossy(b.take(i)), "\r\n"@), b.skip(i + 4)),
        None => cgi::answer_of(text::parts(bytes::lossy(seq![]), "\r\n"@), b),
    }
}

/// Makes an answer of the output of a FastCGI server.
pub fn parse_cgi_response(data: &[u8]) -> (r: Response)
    ensures
        r.deep_view() == answer_in(data@),
{
    let n = data.len();
    let end = two_line_ends();
    proof {
        text::lemma_first_at(data@, end@, 0);
        reveal_strlit("\r\n");
    }
    let (head, body) = match bytes::find(data, end.as_slice(), 0) {
        Some(i) => {
            assert(i + 4 <= n);
            let (h, b) = (bytes::part(data, 0, i), bytes::part(data, i + 4, n));
            assert(h@ =~= data@.take(i as int));
            assert(b@ =~= data@.skip(i + 4));
            (h, b)
        },
        None => {
            let (h, b) = (bytes::part(data, 0, 0), bytes::part(data, 0, n));
            assert(h@ =~= seq![]);
            assert(b@ =~= data@);
            (h, b)
        },
    };
    let lines = text::split_str(bytes::lossy_text(head.as_slice()).as_str(), "\r\n");
    read_answer(&lines, body)
}

/// A path in two: up to the end of the first marker, and the rest. A path without the
/// marker is whole.
pub open spec fn script_parts(path: Seq<char>, split: Seq<char>) -> (Seq<char>, Seq<char>) {
    match text::first_at(path, split, 0) {
        Some(i) => (path.take(i + split.len()), path.skip(i + split.len())),
        None => (path, ""@),
    }
}

/// Splits a path behind the first marker, such as `.php`.
pub fn split_script_path(path: &str, split: &str) -> (r: (String, String))
    ensures
        r.deep_view() == script_parts(path@, split@),
{
    let v = text::chars(path);
    let p = text::chars(split);
    proof {
        text::lemma_first_at(path@, split@, 0);
    }
    match text::find_in(v.as_slice(), p.as_slice(), 0) {
        Some(i) => {
            let n = v.len();
            assert(i + p.len() <= n);
            let k: usize = i + p.len();
            let a = text::string_of(v.as_slice(), 0, k);
            let b = text::string_of(v.as_slice(), k, n);
            assert(a@ =~= path@.take(i + split@.len()));
            assert(b@ =~= path@.skip(i + split@.len()));
            (a, b)
        },
        None => (path.to_owned(), "".to_owned()),
    }
}

/// The script and the rest of a path. A directory stands for its index file.
pub open spec fn script_of(
    path: Seq<char>,
    split: Option<Seq<char>>,
    index: Seq<Seq<char>>,
) -> (Seq<char>, Seq<char>) {
    let (name, info) = match split {
        Some(m) => script_parts(path, m),
        None => (path, ""@),
    };
    let file = if index.len() > 0 {
        index[0]
    } else {
        "index.php"@
    };
    if text::ends(name, "/"@) {
        (text::trimmed_end(name, text::only('/')) + "/"@ + file, info)
    } else {
        (name, info)
    }
}

/// What a server is told of a request.
pub open spec fn params_of(
    root: Seq<char>,
    index: Seq<Seq<char>>,
    split: Option<Seq<char>>,
    env: Variables,
    r: RequestView,
    length: nat,
) -> Variables {
    let (script, info) = script_of(r.uri.path(), split, index);
    let base = text::trimmed_end(root, text::only('/'));
    let host = message::field_of(r.headers, "host"@);
    let server_name = match host {
        Some(t) => text::before(t, ':'),
        None => "localhost"@,
    };
    let server_port = match host {
        Some(t) => if text::pieces(t, ':').len() >= 2 {
            text::pieces(t, ':')[1]
        } else {
            "80"@
        },
        None => "80"@,
    };
    let uri = match r.uri.path_and_query {
        Some(p) => p,
        None => r.uri.path(),
    };
    let translated = if info.len() == 0 {
        ""@
    } else {
        base + info
    };
    seq![
        ("SCRIPT_FILENAME"@, base + script),
        ("SCRIPT_NAME"@, script),
        ("DOCUMENT_ROOT"@, root),
        ("QUERY_STRING"@, r.uri.query_text()),
        ("REQUEST_METHOD"@, r.method),
        ("CONTENT_TYPE"@, message::field_or(r.headers, "content-type"@, ""@)),
        ("CONTENT_LENGTH"@, text::decimal(length)),
        ("SERVER_NAME"@, server_name),
        ("SERVER_PORT"@, server_port),
        ("SERVER_PROTOCOL"@, cgi::version_name(r.version)),
        ("REQUEST_URI"@, uri),
        ("PATH_INFO"@, info),
        ("PATH_TRANSLATED"@, translated),
        ("GATEWAY_INTERFACE"@, "CGI/1.1"@),
        ("SERVER_SOFTWARE"@, "gatel"@),
    ] + cgi::field_variables(r.headers, 0) + env
}

/// Hands requests on to a FastCGI server.
pub struct FastCgiTransport {
    /// The address of the server.
    pub addr: String,
    /// The directory of the scripts on the server.
    pub script_root: String,
    /// The files that stand for a directory.
    pub index: Vec<String>,
    /// The marker behind which the rest of a path begins.
    pub split_path: Option<String>,
    /// Variables that are told besides.
    pub env: SortedMap<String, String>,
}

/// The bytes that are sent for a request.
pub open spec fn request_records(params: Variables, body: Seq<u8>) -> Seq<u8> {
    let id = FCGI_REQUEST_ID;
    record(FCGI_BEGIN_REQUEST, id, begin_content(FCGI_RESPONDER, 0)) + stream_records(
        FCGI_PARAMS,
        id,
        params_bytes(params, 0),
        0,
    ) + record(FCGI_PARAMS, id, seq![]) + stream_records(FCGI_STDIN, id, body, 0) + record(
        FCGI_STDIN,
        id,
        seq![],
    )
}

impl FastCgiTransport {
    /// Hands requests on to a FastCGI server.
    pub fn new(
        addr: String,
        script_root: String,
        index: Vec<String>,
        split_path: Option<String>,
        env: SortedMap<String, String>,
    ) -> (t: FastCgiTransport)
        ensures
            t == (FastCgiTransport { addr, script_root, index, split_path, env }),
    {
        FastCgiTransport { addr, script_root, index, split_path, env }
    }

    /// The script and the rest of a path.
    pub fn script(&self, path: &str) -> (r: (String, String))
        ensures
            r.deep_view() == script_of(
                path@,
                self.split_path.deep_view(),
                self.index.deep_view(),
            ),
    {
        let (name, info) = match &self.split_path {
            Some(m) => split_script_path(path, m.as_str()),
            None => (path.to_owned(), "".to_owned()),
        };
        if text::ends_with(name.as_str(), "/") {
            let file = if self.index.len() > 0 {
                assert(self.index.deep_view()[0] == self.index@[0]@);
                self.index[0].clone()
            } else {
                "index.php".to_owned()
            };
            let stem = text::trim_end_char(name.as_str(), '/');
            (text::join3(stem.as_str(), "/", file.as_str()), info)
        } else {
            (name, info)
        }
    }

    /// What the server is told of a request.
    pub fn build_params(&self, request: &Request, content_length: usize) -> (r: Vec<
        (String, String),
    >)
        ensures
            r.deep_view() == params_of(
                self.script_root@,
                self.index.deep_view(),
                self.split_path.deep_view(),
                self.env.deep_view(),
                request.deep_view(),
                content_length as nat,
            ),
    {
        let path = request.uri.path();
        let (script, info) = self.script(path.as_str());
        let base = text::trim_end_char(self.script_root.as_str(), '/');
        let filename = text::join(base.as_str(), script.as_str());
        let translated = if info.as_str().is_empty() {
            "".to_owned()
        } else {
            text::join(base.as_str(), info.as_str())
        };
        let (server_name, server_port) = match request.headers.text("host") {
            Some(t) => {
                let p = text::split(t.as_str(), ':');
                let port = if p.len() >= 2 {
                    assert(p.deep_view()[1] == p@[1]@);
                    p[1].clone()
                } else {
                    "80".to_owned()
                };
                (text::before_char(t.as_str(), ':'), port)
            },
            None => ("localhost".to_owned(), "80".to_owned()),
        };
        let kind = request.headers.text_or("content-type", "");
        let uri = match &request.uri.path_and_query {
            Some(p) => p.clone(),
            None => path.clone(),
        };
        let length = text::number_text(content_length as u128);
        let query = request.uri.query_text();
        let mut out: Vec<(String, String)> = Vec::new();
        set_variable(&mut out, "SCRIPT_FILENAME", filename.as_str());
        set_variable(&mut out, "SCRIPT_NAME", script.as_str());
        set_variable(&mut out, "DOCUMENT_ROOT", self.script_root.as_str());
        set_variable(&mut out, "QUERY_STRING", query.as_str());
        set_variable(&mut out, "REQUEST_METHOD", request.method.as_str());
        set_variable(&mut out, "CONTENT_TYPE", kind.as_str());
        set_variable(&mut out, "CONTENT_LENGTH", length.as_str());
        set_variable(&mut out, "SERVER_NAME", server_name.as_str());
        set_variable(&mut out, "SERVER_PORT", server_port.as_str());
        set_variable(&mut out, "SERVER_PROTOCOL", version_text(request.version));
        set_variable(&mut out, "REQUEST_URI", uri.as_str());
        set_variable(&mut out, "PATH_INFO", info.as_str());
        set_variable(&mut out, "PATH_TRANSLATED", translated.as_str());
        set_variable(&mut out, "GATEWAY_INTERFACE", "CGI/1.1");
        set_variable(&mut out, "SERVER_SOFTWARE", "gatel");
        assert(out.deep_view() =~= seq![
            ("SCRIPT_FILENAME"@, filename@),
            ("SCRIPT_NAME"@, script@),
            ("DOCUMENT_ROOT"@, self.script_root@),
            ("QUERY_STRING"@, query@),
            ("REQUEST_METHOD"@, request.method@),
            ("CONTENT_TYPE"@, kind@),
            ("CONTENT_LENGTH"@, length@),
            ("SERVER_NAME"@, server_name@),
            ("SERVER_PORT"@, server_port@),
            ("SERVER_PROTOCOL"@, cgi::version_name(request.version)),
            ("REQUEST_URI"@, uri@),
            ("PATH_INFO"@, info@),
            ("PATH_TRANSLATED"@, translated@),
            ("GATEWAY_INTERFACE"@, "CGI/1.1"@),
            ("SERVER_SOFTWARE"@, "gatel"@),
        ]);
        add_field_variables(&mut out, &request.headers);
        add_all_variables(&mut out, &self.env);
        out
    }

    /// The bytes that are sent for a request: its beginning, what the server is told,
    /// and its body.
    pub fn send_request(&self, request: &Request, body: &[u8]) -> (r: Vec<u8>)
        ensures
            r@ == request_records(
                params_of(
                    self.script_root@,
                    self.index.deep_view(),
                    self.split_path.deep_view(),
                    self.env.deep_view(),
                    request.deep_view(),
                    body@.len(),
                ),
                body@,
            ),
    {
        let begin = build_begin_request_body(FCGI_RESPONDER, 0);
        let none: Vec<u8> = Vec::new();
        assert(none@ =~= seq![]);
        let mut out = build_record(FCGI_BEGIN_REQUEST, FCGI_REQUEST_ID, begin.as_slice());
        let params = encode_params(&self.build_params(request, body.len()));
        send_stream_records(&mut out, FCGI_PARAMS, FCGI_REQUEST_ID, params.as_slice());
        let end = build_record(FCGI_PARAMS, FCGI_REQUEST_ID, none.as_slice());
        bytes::append(&mut out, end.as_slice());
        send_stream_records(&mut out, FCGI_STDIN, FCGI_REQUEST_ID, body);
        let end = build_record(FCGI_STDIN, FCGI_REQUEST_ID, none.as_slice());
        bytes::append(&mut out, end.as_slice());
        out
    }
}

/// What was received of the answer so far.
#[derive(Debug, PartialEq, Eq)]
pub struct FastCgiReply {
    pub stdout: Vec<u8>,
    pub stderr: Vec<u8>,
}

impl FastCgiReply {
    /// Nothing was received.
    pub fn new() -> (r: FastCgiReply)
        ensures
            r.stdout@ == Seq::<u8>::empty(),
            r.stderr@ == Seq::<u8>::empty(),
    {
        FastCgiReply { stdout: Vec::new(), stderr: Vec::new() }
    }

    /// Takes in a record. Tells whether it was the last. A record of another type is
    /// passed over.
    pub fn absorb(&mut self, record_type: u8, content: &[u8]) -> (done: bool)
        ensures
            done == (record_type == FCGI_END_REQUEST),
            final(self).stdout@ == (if record_type == FCGI_STDOUT {
                old(self).stdout@ + content@
            } else {
                old(self).stdout@
            }),
            final(self).stderr@ == (if record_type == FCGI_STDERR {
                old(self).stderr@ + content@
            } else {
                old(self).stderr@
            }),
    {
        if record_type == FCGI_STDOUT {
            bytes::append(&mut self.stdout, content);
        } else if record_type == FCGI_STDERR {
            bytes::append(&mut self.stderr, content);
        }
        record_type == FCGI_END_REQUEST
    }

    /// The answer that was received.
    pub fn answer(&self) -> (r: Response)
        ensures
            r.deep_view() == answer_in(self.stdout@),
    {
        parse_cgi_response(self.stdout.as_slice())
    }
}

/// A record is a multiple of eight bytes long, its head says what it holds, and its
/// content stands behind its head.
pub proof fn lemma_record(record_type: u8, id: u16, content: Seq<u8>)
    requires
        content.len() <= FCGI_MAX_CONTENT_LEN,
    ensures
        ({
            let r = record(record_type, id, content);
            let n = content.len() as int;
            &&& r.len() % 8 == 0
            &&& r.len() == 8 + n + padding(content.len())
            &&& header_in(r) == (RecordHeader {
                version: 1,
                record_type,
                request_id: id,
                content_length: content.len() as u16,
                padding_length: padding(content.len()) as u8,
            })
            &&& r.subrange(8, 8 + n) == content
        }),
{
    let r = record(record_type, id, content);
    let n = content.len() as int;
    assert(r[2] == (id as nat / 256 % 256) as u8);
    assert(r[3] == (id as nat % 256) as u8);
    assert(r[4] == (content.len() / 256 % 256) as u8);
    assert(r[5] == (content.len() % 256) as u8);
    assert(r[6] == padding(content.len()) as u8);
    assert(id as nat / 256 < 256);
    assert(content.len() / 256 < 256);
    assert(r.subrange(8, 8 + n) =~= content);
}

/// The data of the records from `from` on, where each is of the type.
pub open spec fn stream_in(b: Seq<u8>, record_type: u8, from: int) -> Option<Seq<u8>>
    decreases b.len() - from,
{
    if from < 0 || from >= b.len() {
        Some(seq![])
    } else {
        let h = header_in(b.skip(from));
        let end = from + 8 + h.content_length;
        if end + h.padding_length > b.len() || h.record_type != record_type {
            None
        } else {
            match stream_in(b, record_type, end + h.padding_length) {
                Some(rest) => Some(b.subrange(from + 8, end) + rest),
                None => None,
            }
        }
    }
}

/// The records behind others are read as they are alone.
proof fn lemma_stream_behind(a: Seq<u8>, b: Seq<u8>, record_type: u8, from: int)
    requires
        0 <= from <= b.len(),
    ensures
        stream_in(a + b, record_type, a.len() + from) == stream_in(b, record_type, from),
    decreases b.len() - from,
{
    if from < b.len() {
        assert((a + b).skip(a.len() + from) =~= b.skip(from));
        let h = header_in(b.skip(from));
        let end = from + 8 + h.content_length;
        if end + h.padding_length <= b.len() {
            assert((a + b).subrange(a.len() + from + 8, a.len() + end) =~= b.subrange(
                from + 8,
                end,
            ));
            lemma_stream_behind(a, b, record_type, end + h.padding_length);
        }
    }
}

/// What was sent in records is read back from them, however long it is.
pub proof fn lemma_stream_read_back(record_type: u8, id: u16, data: Seq<u8>, from: int)
    requires
        0 <= from <= data.len(),
    ensures
        stream_in(stream_records(record_type, id, data, from), record_type, 0) == Some(
            data.skip(from),
        ),
    decreases data.len() - from,
{
    if from < data.len() {
        let to = if data.len() - from > FCGI_MAX_CONTENT_LEN {
            from + FCGI_MAX_CONTENT_LEN
        } else {
            data.len() as int
        };
        let c = data.subrange(from, to);
        let r = record(record_type, id, c);
        let rest = stream_records(record_type, id, data, to);
        let all = r + rest;
        lemma_record(record_type, id, c);
        lemma_stream_read_back(record_type, id, data, to);
        lemma_stream_behind(r, rest, record_type, 0);
        assert(all.skip(0) =~= all);
        assert(header_in(all) == header_in(r)) by {
            assert(all[0] == r[0] && all[1] == r[1] && all[2] == r[2] && all[3] == r[3]);
            assert(all[4] == r[4] && all[5] == r[5] && all[6] == r[6]);
        }
        assert(all.subrange(8, 8 + c.len() as int) =~= c) by {
            assert(all.subrange(8, 8 + c.len() as int) =~= r.subrange(8, 8 + c.len() as int));
        }
        assert(c + data.skip(to) =~= data.skip(from));
    } else {
        assert(data.skip(from) =~= seq![]);
    }
}

/// The length that the bytes begin with, and how many bytes it takes.
pub open spec fn length_in(b: Seq<u8>) -> Option<(nat, int)> {
    if b.len() == 0 {
        None
    } else if b[0] < 128 {
        Some((b[0] as nat, 1))
    } else if b.len() < 4 {
        None
    } else {
        Some(
            (
                ((b[0] - 128) * 0x100_0000 + b[1] * 0x1_0000 + b[2] * 256 + b[3]) as nat,
                4,
            ),
        )
    }
}

/// The pairs that bytes hold.
pub open spec fn pairs_in(b: Seq<u8>) -> Option<Seq<(Seq<u8>, Seq<u8>)>>
    decreases b.len(),
{
    if b.len() == 0 {
        Some(seq![])
    } else {
        match length_in(b) {
            None => None,
            Some((n, i)) => match length_in(b.skip(i)) {
                None => None,
                Some((v, j)) => {
                    let k = i + j;
                    if k <= 0 || k + n + v > b.len() {
                        None
                    } else {
                        match pairs_in(b.skip(k + n + v)) {
                            None => None,
                            Some(rest) => Some(
                                seq![(b.subrange(k, k + n), b.subrange(k + n, k + n + v))] + rest,
                            ),
                        }
                    }
                },
            },
        }
    }
}

/// A number is what its four digits in the system of 256 make up.
proof fn lemma_four_digits(n: nat)
    requires
        n < 0x8000_0000,
    ensures
        n / 0x100_0000 < 128,
        n == n / 0x100_0000 * 0x100_0000 + n / 0x1_0000 % 256 * 0x1_0000 + n / 256 % 256 * 256 + n
            % 256,
{
    let a = n / 256;
    let b = a / 256;
    assert(n == a * 256 + n % 256);
    assert(b == n / 0x1_0000);
    assert(a == b * 256 + a % 256);
    assert(b / 256 == n / 0x100_0000);
    assert(b == b / 256 * 256 + b % 256);
}

/// A length is read back.
proof fn lemma_length_read_back(n: nat, rest: Seq<u8>)
    requires
        n < 0x8000_0000,
    ensures
        length_in(length_bytes(n) + rest) == Some((n, length_bytes(n).len() as int)),
{
    let b = length_bytes(n) + rest;
    if n < 128 {
        assert(b[0] == n as u8);
    } else {
        assert(b[0] == (128 + n / 0x100_0000 % 128) as u8);
        assert(b[1] == (n / 0x1_0000 % 256) as u8);
        assert(b[2] == (n / 256 % 256) as u8);
        assert(b[3] == (n % 256) as u8);
        lemma_four_digits(n);
    }
}

/// The variables as bytes.
pub open spec fn byte_pairs(p: Variables, i: int) -> Seq<(Seq<u8>, Seq<u8>)>
    decreases p.len() - i,
{
    if i < 0 || i >= p.len() {
        seq![]
    } else {
        seq![(vstd::utf8::encode_utf8(p[i].0), vstd::utf8::encode_utf8(p[i].1))] + byte_pairs(
            p,
            i + 1,
        )
    }
}

/// The lengths of names and values fit into the four bytes that there are for them.
pub open spec fn lengths_fit(p: Variables) -> bool {
    forall|i: int|
        0 <= i < p.len() ==> vstd::utf8::encode_utf8((#[trigger] p[i]).0).len() < 0x8000_0000
            && vstd::utf8::encode_utf8(p[i].1).len() < 0x8000_0000
}

/// What stands where in five parts behind each other.
proof fn lemma_five_parts(a: Seq<u8>, b: Seq<u8>, n: Seq<u8>, v: Seq<u8>, rest: Seq<u8>)
    ensures
        ({
            let all = a + b + n + v + rest;
            let k = a.len() + b.len() as int;
            &&& all.len() == k + n.len() + v.len() + rest.len()
            &&& all == a + (b + n + v + rest)
            &&& all.skip(a.len() as int) == b + (n + v + rest)
            &&& all.subrange(k, k + n.len()) == n
            &&& all.subrange(k + n.len(), k + n.len() + v.len()) == v
            &&& all.skip(k + n.len() + v.len()) == rest
        }),
{
    let all = a + b + n + v + rest;
    let k = a.len() + b.len() as int;
    assert(all =~= a + (b + n + v + rest));
    assert(all.skip(a.len() as int) =~= b + (n + v + rest));
    assert(all.subrange(k, k + n.len()) =~= n);
    assert(all.subrange(k + n.len(), k + n.len() + v.len()) =~= v);
    assert(all.skip(k + n.len() + v.len()) =~= rest);
}

/// The variables that were written are read back.
pub proof fn lemma_params_read_back(p: Variables, i: int)
    requires
        0 <= i,
        lengths_fit(p),
    ensures
        pairs_in(params_bytes(p, i)) == Some(byte_pairs(p, i)),
    decreases p.len() - i,
{
    if i < p.len() {
        let (n, v) = (vstd::utf8::encode_utf8(p[i].0), vstd::utf8::encode_utf8(p[i].1));
        let rest = params_bytes(p, i + 1);
        lemma_params_read_back(p, i + 1);
        let (a, b) = (length_bytes(n.len()), length_bytes(v.len()));
        let all = pair_bytes(n, v) + rest;
        lemma_five_parts(a, b, n, v, rest);
        lemma_length_read_back(n.len(), b + n + v + rest);
        lemma_length_read_back(v.len(), n + v + rest);
        assert(all == params_bytes(p, i));
    }
}

/// A path is parted behind the first marker; the parts make up the path, and a path without
/// the marker is whole.
pub proof fn lemma_script_parts(path: Seq<char>, split: Seq<char>)
    ensures
        script_parts(path, split).0 + script_parts(path, split).1 == path,
        text::contains(path, split) ==> text::ends(script_parts(path, split).0, split),
        !text::contains(path, split) ==> script_parts(path, split).0 == path,
{
    reveal_strlit("");
    text::lemma_first_at(path, split, 0);
    match text::first_at(path, split, 0) {
        Some(i) => {
            let n = i + split.len();
            assert(path.take(n) + path.skip(n) =~= path);
            assert(path.take(n).subrange(i, n) =~= path.subrange(i, n));
        },
        None => {
            assert(path + ""@ =~= path);
        },
    }
}

/// A directory stands for its index file, `index.php` where none is named; any other path
/// without a marker is the script itself.
pub proof fn lemma_script_of(path: Seq<char>, dir: Seq<char>, index: Seq<Seq<char>>)
    requires
        dir.len() == 0 || dir.last() != '/',
        path.len() == 0 || path.last() != '/',
    ensures
        index.len() > 0 ==> script_of(dir.push('/'), None, index).0 == dir + seq!['/'] + index[0],
        index.len() == 0 ==> script_of(dir.push('/'), None, index).0 == dir + seq!['/']
            + "index.php"@,
        script_of(path, None, index).0 == path,
        script_of(path, None, index).1.len() == 0,
{
    reveal_strlit("/");
    reveal_strlit("");
    assert("/"@ =~= seq!['/']);
    reveal_with_fuel(text::tail, 3);
    let d = dir.push('/');
    assert(d.subrange(d.len() - 1, d.len() as int) =~= "/"@);
    assert(d.last() == '/');
    if dir.len() > 0 {
        assert(d[d.len() - 2] == dir.last());
    }
    assert(text::tail(d, text::only('/'), d.len() as int) == dir.len());
    assert(d.take(dir.len() as int) =~= dir);
    if text::ends(path, "/"@) {
        assert(path.subrange(path.len() - 1, path.len() as int)[0] == path.last());
    }
}

/// A server is told what the request is: the script and its file, the rest of the path,
/// the method, the query, the length of the body and what was asked for, every field that
/// is plain text, and last what the configuration says.
pub proof fn lemma_told_of_request(
    root: Seq<char>,
    index: Seq<Seq<char>>,
    split: Option<Seq<char>>,
    env: Variables,
    r: RequestView,
    length: nat,
    i: int,
)
    requires
        root.len() > 0 && root.last() != '/',
    ensures
        ({
            let v = params_of(root, index, split, env, r, length);
            let (script, info) = script_of(r.uri.path(), split, index);
            &&& v.contains(("SCRIPT_FILENAME"@, root + script))
            &&& v.contains(("SCRIPT_NAME"@, script))
            &&& v.contains(("PATH_INFO"@, info))
            &&& v.contains(("REQUEST_METHOD"@, r.method))
            &&& v.contains(("QUERY_STRING"@, r.uri.query_text()))
            &&& v.contains(("CONTENT_LENGTH"@, text::decimal(length)))
            &&& r.uri.path_and_query is Some ==> v.contains(
                ("REQUEST_URI"@, r.uri.path_and_query->0),
            )
            &&& v.skip(v.len() - env.len()) == env
            &&& 0 <= i < r.headers.len() && message::value_text(r.headers[i].1) is Some
                ==> v.contains(
                (cgi::field_variable(r.headers[i].0), message::value_text(r.headers[i].1)->0),
            )
        }),
{
    let v = params_of(root, index, split, env, r, length);
    let (script, info) = script_of(r.uri.path(), split, index);
    assert(text::tail(root, text::only('/'), root.len() as int) == root.len());
    assert(root.take(root.len() as int) =~= root);
    assert(v[0] == ("SCRIPT_FILENAME"@, root + script));
    assert(v[1] == ("SCRIPT_NAME"@, script));
    assert(v[3] == ("QUERY_STRING"@, r.uri.query_text()));
    assert(v[4] == ("REQUEST_METHOD"@, r.method));
    assert(v[6] == ("CONTENT_LENGTH"@, text::decimal(length)));
    assert(v[11] == ("PATH_INFO"@, info));
    if r.uri.path_and_query is Some {
        assert(v[10] == ("REQUEST_URI"@, r.uri.path_and_query->0));
    }
    assert(v.skip(v.len() - env.len()) =~= env);
    if 0 <= i < r.headers.len() && message::value_text(r.headers[i].1) is Some {
        cgi::lemma_field_told(r.headers, 0, i);
        let f = cgi::field_variables(r.headers, 0);
        let x = (cgi::field_variable(r.headers[i].0), message::value_text(r.headers[i].1)->0);
        let k = choose|k: int| 0 <= k < f.len() && f[k] == x;
        assert(v[15 + k] == x);
    }
}

/// The output of a server is parted at the first empty line into its head and its body;
/// without one it is all body.
pub proof fn lemma_output_parted(head: Seq<u8>, body: Seq<u8>, all: Seq<u8>)
    requires
        text::first_at(head + seq![13u8, 10, 13, 10] + body, seq![13u8, 10, 13, 10], 0) == Some(
            head.len() as int,
        ),
        !text::contains(all, seq![13u8, 10, 13, 10]),
    ensures
        answer_in(head + seq![13u8, 10, 13, 10] + body).body == body,
        answer_in(all).body == all,
{
    let b = head + seq![13u8, 10, 13, 10] + body;
    let n = head.len() as int;
    assert(b.take(n) =~= head);
    assert(b.skip(n + 4) =~= body);
}

} // verus!
