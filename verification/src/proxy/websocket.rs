//! Requests that turn a connection into a WebSocket.

use vstd::prelude::*;
use crate::bytes;
use crate::data;
use crate::error::{ProxyError, ProxyErrorView};
use crate::message;
use crate::message::{
    field_value, visible_text, Fields, Headers, Request, RequestView, Response, ResponseView,
};
use crate::text;

verus! {

// ---------------------------------------------------------------------------
// Which fields stay with a connection
// ---------------------------------------------------------------------------

/// The names that the `Connection` fields from `i` on hold, in lower case.
pub open spec fn connection_names(h: Fields, i: int) -> Seq<Seq<char>>
    decreases h.len() - i,
{
    if i < 0 || i >= h.len() {
        seq![]
    } else {
        let here = if h[i].0 == "connection"@ {
            match message::value_text(h[i].1) {
                Some(t) => text::listed(text::lowered(t)),
                None => seq![],
            }
        } else {
            seq![]
        };
        here + connection_names(h, i + 1)
    }
}

/// Fields that are meant for one connection only.
pub open spec fn hop_by_hop(name: Seq<char>) -> bool {
    ||| name == "connection"@
    ||| name == "keep-alive"@
    ||| name == "proxy-authenticate"@
    ||| name == "proxy-authorization"@
    ||| name == "proxy-connection"@
    ||| name == "te"@
    ||| name == "trailer"@
    ||| name == "transfer-encoding"@
    ||| name == "upgrade"@
}

/// The names that the `Connection` fields hold, in lower case.
pub fn connection_header_names(h: &Headers) -> (r: Vec<String>)
    ensures
        r.deep_view() == connection_names(h.deep_view(), 0),
{
    let ghost hs = h.deep_view();
    let mut out: Vec<String> = Vec::new();
    assert(out.deep_view() + connection_names(hs, 0) =~= connection_names(hs, 0));
    for i in 0..h.entries.len()
        invariant
            hs == h.deep_view(),
            out.deep_view() + connection_names(hs, i as int) == connection_names(hs, 0),
    {
        assert(hs[i as int].0 == h.entries@[i as int].0@);
        assert(hs[i as int].1 =~= h.entries@[i as int].1@);
        let ghost before = out.deep_view();
        let ghost rest = connection_names(hs, i + 1);
        let mut here: Vec<String> = Vec::new();
        assert(here.deep_view() =~= seq![]);
        if text::same(h.entries[i].0.as_str(), "connection") {
            if let Some(t) = visible_text(&h.entries[i].1) {
                here = text::comma_list(text::to_lower(t.as_str()).as_str());
            }
        }
        let ghost names = here.deep_view();
        text::extend(&mut out, here);
        assert(out.deep_view() + rest =~= before + (names + rest));
    }
    assert(out.deep_view() =~= out.deep_view() + connection_names(hs, hs.len() as int));
    out
}

/// Tells whether a field, with its name in lower case, is meant for one connection
/// only.
pub fn is_hop_by_hop_header(name: &str) -> (r: bool)
    ensures
        r == hop_by_hop(name@),
{
    text::same(name, "connection") || text::same(name, "keep-alive") || text::same(
        name,
        "proxy-authenticate",
    ) || text::same(name, "proxy-authorization") || text::same(name, "proxy-connection")
        || text::same(name, "te") || text::same(name, "trailer") || text::same(
        name,
        "transfer-encoding",
    ) || text::same(name, "upgrade")
}

/// Tells whether a list of texts holds a text.
fn holds(v: &Vec<String>, x: &str) -> (r: bool)
    ensures
        r == v.deep_view().contains(x@),
{
    for i in 0..v.len()
        invariant
            forall|k: int| 0 <= k < i ==> v.deep_view()[k] != x@,
    {
        assert(v.deep_view()[i as int] == v@[i as int]@);
        if text::same(v[i].as_str(), x) {
            return true;
        }
    }
    false
}

// ---------------------------------------------------------------------------
// The request
// ---------------------------------------------------------------------------

/// Tells whether fields ask for a WebSocket.
pub open spec fn asks_upgrade(h: Fields) -> bool {
    &&& connection_names(h, 0).contains("upgrade"@)
    &&& match message::field_of(h, "upgrade"@) {
        Some(t) => text::lowered(t) == text::lowered("websocket"@),
        None => false,
    }
}

/// Tells whether a request asks for a WebSocket.
pub fn is_websocket_upgrade(req: &Request) -> (r: bool)
    ensures
        r == asks_upgrade(req.deep_view().headers),
{
    let names = connection_header_names(&req.headers);
    if !holds(&names, "upgrade") {
        return false;
    }
    match req.headers.text("upgrade") {
        Some(t) => text::same_ignore_case(t.as_str(), "websocket"),
        None => false,
    }
}

/// Tells whether a field of the request goes on to the backend as it is.
pub open spec fn forwarded(name: Seq<char>, names: Seq<Seq<char>>) -> bool {
    name != "host"@ && name != "connection"@ && name != "upgrade"@ && !hop_by_hop(name)
        && !names.contains(name)
}

/// The lines of the fields from `i` on that go on to the backend.
pub open spec fn field_lines(h: Fields, names: Seq<Seq<char>>, i: int) -> Seq<char>
    decreases h.len() - i,
{
    if i < 0 || i >= h.len() {
        seq![]
    } else {
        let here = match message::value_text(h[i].1) {
            Some(v) if forwarded(h[i].0, names) => h[i].0 + ": "@ + v + "\r\n"@,
            _ => seq![],
        };
        here + field_lines(h, names, i + 1)
    }
}

/// The text of the request that asks a backend for a WebSocket.
pub open spec fn raw_request(req: RequestView, addr: Seq<char>) -> Seq<char> {
    req.method + " "@ + req.uri.target() + " HTTP/1.1\r\nHost: "@ + addr
        + "\r\nConnection: Upgrade\r\nUpgrade: websocket\r\n"@ + field_lines(
        req.headers,
        connection_names(req.headers, 0),
        0,
    ) + "\r\n"@
}

/// Tells whether a field of the request goes on to the backend as it is.
pub fn should_forward_raw_upgrade_header(name: &str, names: &Vec<String>) -> (r: bool)
    ensures
        r == forwarded(name@, names.deep_view()),
{
    !text::same(name, "host") && !text::same(name, "connection") && !text::same(name, "upgrade")
        && !is_hop_by_hop_header(name) && !holds(names, name)
}

/// Writes the request that asks a backend for a WebSocket.
pub fn build_raw_upgrade_request(req: &Request, upstream_addr: &str) -> (r: String)
    ensures
        r@ == raw_request(req.deep_view(), upstream_addr@),
{
    let names = connection_header_names(&req.headers);
    let ghost h = req.headers.deep_view();
    let mut fields = String::new();
    assert(fields@ + field_lines(h, names.deep_view(), 0) =~= field_lines(
        h,
        names.deep_view(),
        0,
    ));
    for i in 0..req.headers.entries.len()
        invariant
            h == req.headers.deep_view(),
            fields@ + field_lines(h, names.deep_view(), i as int) == field_lines(
                h,
                names.deep_view(),
                0,
            ),
    {
        let e = &req.headers.entries[i];
        assert(h[i as int].0 == e.0@);
        assert(h[i as int].1 =~= e.1@);
        let ghost before = fields@;
        let ghost rest = field_lines(h, names.deep_view(), i + 1);
        if should_forward_raw_upgrade_header(e.0.as_str(), &names) {
            if let Some(v) = visible_text(&e.1) {
                let line = text::join(
                    text::join3(e.0.as_str(), ": ", v.as_str()).as_str(),
                    "\r\n",
                );
                fields = text::join(fields.as_str(), line.as_str());
                assert(fields@ + rest =~= before + (line@ + rest));
            } else {
                assert(before + (seq![] + rest) =~= before + rest);
            }
        } else {
            assert(before + (seq![] + rest) =~= before + rest);
        }
    }
    assert(fields@ =~= fields@ + field_lines(h, names.deep_view(), h.len() as int));
    let line = text::join3(req.method.as_str(), " ", req.uri.target().as_str());
    let head = text::join3(line.as_str(), " HTTP/1.1\r\nHost: ", upstream_addr);
    let head = text::join(head.as_str(), "\r\nConnection: Upgrade\r\nUpgrade: websocket\r\n");
    text::join3(head.as_str(), fields.as_str(), "\r\n")
}

/// No field that is meant for one connection only, or that a `Connection` field
/// names, goes on to the backend.
pub proof fn lemma_connection_fields_stay(h: Fields, i: int)
    requires
        0 <= i < h.len(),
        hop_by_hop(h[i].0) || connection_names(h, 0).contains(h[i].0) || h[i].0 == "host"@,
    ensures
        field_lines(h, connection_names(h, 0), i) == field_lines(
            h,
            connection_names(h, 0),
            i + 1,
        ),
{
    let rest = field_lines(h, connection_names(h, 0), i + 1);
    assert(seq![] + rest =~= rest);
}

// ---------------------------------------------------------------------------
// The response
// ---------------------------------------------------------------------------

/// The most bytes of a response that are read before its head is complete.
pub const MAX_UPGRADE_RESPONSE: usize = 16_384;

/// The bytes that end the head of a message.
pub open spec fn head_end() -> Seq<u8> {
    seq![13u8, 10u8, 13u8, 10u8]
}

/// What becomes of a response with more bytes: whether its head is complete.
pub open spec fn absorbed(buf: Seq<u8>, chunk: Seq<u8>) -> Result<bool, ProxyErrorView> {
    if chunk.len() == 0 {
        Err(
            ProxyErrorView::Internal(
                "upstream closed connection before completing WebSocket handshake"@,
            ),
        )
    } else if (buf + chunk).len() > MAX_UPGRADE_RESPONSE {
        Err(ProxyErrorView::Internal("upstream upgrade response too large"@))
    } else {
        Ok(text::contains(buf + chunk, head_end()))
    }
}

/// Takes over bytes that a backend sent; no bytes mean that it closed the
/// connection. Tells whether the head of its response is complete.
pub fn absorb(buf: &mut Vec<u8>, chunk: &[u8]) -> (r: Result<bool, ProxyError>)
    ensures
        final(buf)@ == old(buf)@ + chunk@,
        data::outcome(r) == absorbed(old(buf)@, chunk@),
{
    if chunk.len() == 0 {
        assert(buf@ + chunk@ =~= buf@);
        return Err(
            ProxyError::Internal(
                "upstream closed connection before completing WebSocket handshake".to_owned(),
            ),
        );
    }
    bytes::append(buf, chunk);
    if buf.len() > MAX_UPGRADE_RESPONSE {
        return Err(ProxyError::Internal("upstream upgrade response too large".to_owned()));
    }
    let end: [u8; 4] = [13, 10, 13, 10];
    assert(end@ =~= head_end());
    Ok(bytes::has(buf.as_slice(), end.as_slice()))
}

/// The first line of a text.
pub open spec fn first_line(s: Seq<char>) -> Seq<char> {
    if text::lines(s).len() > 0 {
        text::lines(s)[0]
    } else {
        "<empty>"@
    }
}

/// Fields of the backend's response that go on to the client.
pub open spec fn socket_field(name: Seq<char>) -> bool {
    ||| name == "sec-websocket-accept"@
    ||| name == "sec-websocket-protocol"@
    ||| name == "sec-websocket-extensions"@
}

/// The fields that the lines from `i` on give, up to an empty line.
pub open spec fn socket_fields(ls: Seq<Seq<char>>, i: int, h: Fields) -> Result<
    Fields,
    ProxyErrorView,
>
    decreases ls.len() - i,
{
    if i < 0 || i >= ls.len() || ls[i].len() == 0 || ls[i] == "\r"@ {
        Ok(h)
    } else {
        match text::cut(ls[i], ':') {
            Some((n, v)) => {
                let name = text::lowered(text::trimmed(n));
                let value = text::trimmed(v);
                if !socket_field(name) {
                    socket_fields(ls, i + 1, h)
                } else if message::is_field_value(value) {
                    socket_fields(ls, i + 1, h.push((name, vstd::utf8::encode_utf8(value))))
                } else {
                    Err(ProxyErrorView::Http("failed to parse header value"@))
                }
            },
            None => socket_fields(ls, i + 1, h),
        }
    }
}

/// The fields of the client's response before those of the backend.
pub open spec fn upgrade_fields() -> Fields {
    seq![
        ("connection"@, vstd::utf8::encode_utf8("Upgrade"@)),
        ("upgrade"@, vstd::utf8::encode_utf8("websocket"@)),
    ]
}

/// What the client is answered after a backend answered with the text.
pub open spec fn upgraded(s: Seq<char>) -> Result<ResponseView, ProxyErrorView> {
    if !text::begins(s, "HTTP/1.1 101"@) {
        Err(
            ProxyErrorView::Internal(
                "upstream did not accept WebSocket upgrade: "@ + first_line(s),
            ),
        )
    } else {
        match socket_fields(text::lines(s), 1, upgrade_fields()) {
            Ok(headers) => Ok(ResponseView { status: 101, headers, body: seq![] }),
            Err(e) => Err(e),
        }
    }
}

/// What the client is answered after a backend answered with the text.
pub fn upgrade_response(s: &str) -> (r: Result<Response, ProxyError>)
    ensures
        data::outcome(r) == upgraded(s@),
{
    let lines = text::split_lines(s);
    let ghost ls = lines.deep_view();
    if !text::starts_with(s, "HTTP/1.1 101") {
        let first = if lines.len() > 0 {
            assert(ls[0] == lines@[0]@);
            lines[0].as_str()
        } else {
            "<empty>"
        };
        return Err(
            ProxyError::Internal(
                text::join("upstream did not accept WebSocket upgrade: ", first),
            ),
        );
    }
    let mut h = Headers::new();
    h.append("connection", message::utf8("Upgrade"));
    h.append("upgrade", message::utf8("websocket"));
    proof {
        reveal_strlit("connection");
        reveal_strlit("upgrade");
        assert(text::lowered("connection"@) =~= "connection"@);
        assert(text::lowered("upgrade"@) =~= "upgrade"@);
    }
    assert(h.deep_view() =~= upgrade_fields());
    let mut i: usize = 1;
    while i < lines.len()
        invariant_except_break
            socket_fields(ls, 1, upgrade_fields()) == socket_fields(ls, i as int, h.deep_view()),
        invariant
            1 <= i,
            ls == lines.deep_view(),
            ls == text::lines(s@),
            text::begins(s@, "HTTP/1.1 101"@),
        ensures
            socket_fields(ls, 1, upgrade_fields()) == Ok::<Fields, ProxyErrorView>(h.deep_view()),
        decreases lines.len() - i,
    {
        assert(ls[i as int] == lines@[i as int]@);
        let line = lines[i].as_str();
        if line.is_empty() || text::same(line, "\r") {
            break;
        }
        if let Some((n, v)) = text::split_once(line, ':') {
            let name = text::to_lower(text::trim(n.as_str()).as_str());
            let value = text::trim(v.as_str());
            if text::same(name.as_str(), "sec-websocket-accept") || text::same(
                name.as_str(),
                "sec-websocket-protocol",
            ) || text::same(name.as_str(), "sec-websocket-extensions") {
                match field_value(value.as_str()) {
                    Some(bytes) => {
                        assert(text::lowered(name@) =~= name@);
                        h.append(name.as_str(), bytes);
                    },
                    None => return Err(
                        ProxyError::Http("failed to parse header value".to_owned()),
                    ),
                }
            }
        }
        i = i + 1;
    }
    let body: Vec<u8> = Vec::new();
    assert(body@ =~= seq![]);
    Ok(Response { status: 101, headers: h, body })
}

/// What the client is answered after a backend answered with the bytes.
pub fn finish_upgrade(buf: &[u8]) -> (r: Result<Response, ProxyError>)
    ensures
        data::outcome(r) == upgraded(bytes::lossy(buf@)),
{
    upgrade_response(bytes::lossy_text(buf).as_str())
}

/// A request asks for a WebSocket where its `Connection` field lists `upgrade`, whatever
/// the letter case and whatever else it lists, and its `Upgrade` field is `websocket`.
pub proof fn lemma_upgrade_asked(h: Fields, i: int, parts: Seq<Seq<char>>, k: int, t: Seq<char>)
    requires
        0 <= i < h.len(),
        h[i].0 == "connection"@,
        message::value_text(h[i].1) matches Some(v) && text::lowered(v) == text::joined(
            parts,
            seq![','],
        ),
        0 <= k < parts.len(),
        text::trimmed(parts[k]) == "upgrade"@,
        forall|j: int| 0 <= j < parts.len() ==> !(#[trigger] parts[j]).contains(','),
        message::field_of(h, "upgrade"@) == Some(t),
    ensures
        asks_upgrade(h) <==> text::lowered(t) == text::lowered("websocket"@),
{
    text::lemma_listed(parts);
    let here = text::listed(text::joined(parts, seq![',']));
    assert(here[k] == "upgrade"@);
    lemma_names_of_field(h, 0, i, "upgrade"@);
}

/// What a `Connection` field lists is among the names.
proof fn lemma_names_of_field(h: Fields, from: int, i: int, name: Seq<char>)
    requires
        0 <= from <= i < h.len(),
        h[i].0 == "connection"@,
        message::value_text(h[i].1) matches Some(v) && text::listed(text::lowered(v)).contains(
            name,
        ),
    ensures
        connection_names(h, from).contains(name),
    decreases i - from,
{
    let all = connection_names(h, from);
    let rest = connection_names(h, from + 1);
    let n = all.len() - rest.len();
    if from == i {
        let here = text::listed(text::lowered(message::value_text(h[i].1)->0));
        let k = choose|k: int| 0 <= k < here.len() && here[k] == name;
        assert(all[k] == name);
    } else {
        lemma_names_of_field(h, from + 1, i, name);
        let k = choose|k: int| 0 <= k < rest.len() && rest[k] == name;
        assert(all[n + k] == name);
    }
}

/// A request without a `Connection` field, or without an `Upgrade` field, asks for none.
pub proof fn lemma_upgrade_not_asked(h: Fields)
    ensures
        message::field_of(h, "upgrade"@) is None ==> !asks_upgrade(h),
        (forall|i: int| 0 <= i < h.len() ==> (#[trigger] h[i]).0 != "connection"@)
            ==> !asks_upgrade(h),
{
    if forall|i: int| 0 <= i < h.len() ==> (#[trigger] h[i]).0 != "connection"@ {
        lemma_no_names(h, 0);
    }
}

/// Without `Connection` fields there are no names.
proof fn lemma_no_names(h: Fields, i: int)
    requires
        0 <= i,
        forall|j: int| 0 <= j < h.len() ==> (#[trigger] h[j]).0 != "connection"@,
    ensures
        connection_names(h, i).len() == 0,
    decreases h.len() - i,
{
    if i < h.len() {
        lemma_no_names(h, i + 1);
    }
}

/// A field that is not meant for one connection only has a line with its name and its
/// value, before those of the fields behind it.
pub proof fn lemma_field_goes_on(h: Fields, names: Seq<Seq<char>>, i: int, v: Seq<char>)
    requires
        0 <= i < h.len(),
        message::value_text(h[i].1) == Some(v),
        !hop_by_hop(h[i].0),
        !names.contains(h[i].0),
        h[i].0 != "host"@,
    ensures
        field_lines(h, names, i) == h[i].0 + seq![':', ' '] + v + seq!['\r', '\n'] + field_lines(
            h,
            names,
            i + 1,
        ),
{
    reveal_strlit(": ");
    reveal_strlit("\r\n");
    assert(": "@ =~= seq![':', ' ']);
    assert("\r\n"@ =~= seq!['\r', '\n']);
}

/// The request to the backend asks for what the client asked for, by the same method, and
/// names the backend as its host.
pub proof fn lemma_raw_request(req: RequestView, addr: Seq<char>)
    ensures
        text::begins(
            raw_request(req, addr),
            req.method + seq![' '] + req.uri.target() + " HTTP/1.1\r\nHost: "@ + addr
                + "\r\nConnection: Upgrade\r\nUpgrade: websocket\r\n"@,
        ),
        text::ends(raw_request(req, addr), "\r\n"@),
{
    reveal_strlit(" ");
    assert(" "@ =~= seq![' ']);
    let head = req.method + " "@ + req.uri.target() + " HTTP/1.1\r\nHost: "@ + addr
        + "\r\nConnection: Upgrade\r\nUpgrade: websocket\r\n"@;
    let lines = field_lines(req.headers, connection_names(req.headers, 0), 0);
    assert(raw_request(req, addr) =~= head + (lines + "\r\n"@));
    text::lemma_after_prefix(head, lines + "\r\n"@);
    text::lemma_before_suffix(head + lines, "\r\n"@);
}

/// Bytes are taken over until the head of the response ends with an empty line; a
/// connection that closes before, or more than 16384 bytes, are errors.
pub proof fn lemma_head_complete(a: Seq<u8>, b: Seq<u8>, chunk: Seq<u8>, buf: Seq<u8>)
    requires
        chunk.len() > 0,
        buf + chunk == a + seq![13u8, 10u8, 13u8, 10u8] + b,
    ensures
        buf.len() + chunk.len() <= 16384 ==> absorbed(buf, chunk) == Ok::<bool, ProxyErrorView>(
            true,
        ),
        buf.len() + chunk.len() > 16384 ==> absorbed(buf, chunk) is Err,
        absorbed(buf, Seq::empty()) is Err,
{
    let s = buf + chunk;
    text::lemma_first_at(s, head_end(), 0);
    let n = a.len() as int;
    assert(s.subrange(n, n + 4) =~= head_end());
    assert(text::occurs_at(s, head_end(), n));
}

/// A client is told that the connection is a WebSocket only where the backend agreed.
pub proof fn lemma_only_agreed(s: Seq<char>)
    ensures
        text::begins(s, "HTTP/1.1 101"@) ==> (upgraded(s) matches Ok(r) ==> r.status == 101
            && r.body.len() == 0),
        !text::begins(s, "HTTP/1.1 101"@) ==> upgraded(s) is Err,
{
}

/// A line of the backend's response with one of the fields for WebSockets adds the field,
/// one with any other field adds nothing, and an empty line ends the fields.
pub proof fn lemma_socket_field(ls: Seq<Seq<char>>, i: int, h: Fields, n: Seq<char>, v: Seq<char>)
    requires
        0 <= i < ls.len(),
        ls[i] == n + seq![':'] + v,
        !n.contains(':'),
        message::is_field_value(text::trimmed(v)),
    ensures
        text::lowered(text::trimmed(n)) == "sec-websocket-accept"@ || text::lowered(
            text::trimmed(n),
        ) == "sec-websocket-protocol"@ || text::lowered(text::trimmed(n))
            == "sec-websocket-extensions"@ ==> socket_fields(ls, i, h) == socket_fields(
            ls,
            i + 1,
            h.push(
                (
                    text::lowered(text::trimmed(n)),
                    vstd::utf8::encode_utf8(text::trimmed(v)),
                ),
            ),
        ),
        !socket_field(text::lowered(text::trimmed(n))) ==> socket_fields(ls, i, h)
            == socket_fields(ls, i + 1, h),
{
    reveal_strlit("\r");
    text::lemma_cut_at(n, ':', v);
    assert(ls[i][n.len() as int] == ':');
    assert("\r"@.len() == 1 && "\r"@[0] == '\r');
}

/// Fields on a connection, and on proxies, transfer codings and trailers along it, are meant for
/// one connection only; the fields of a handshake, of credentials and of contents are not.
pub proof fn lemma_fields_of_connection(name: Seq<char>)
    ensures
        name == "connection"@ || name == "keep-alive"@ || name == "upgrade"@ ==> hop_by_hop(name),
        name == "te"@ || name == "trailer"@ || name == "transfer-encoding"@ ==> hop_by_hop(name),
        name == "proxy-authenticate"@ || name == "proxy-authorization"@ || name
            == "proxy-connection"@ ==> hop_by_hop(name),
        name.len() > 0 && !seq!['c', 'k', 'p', 't', 'u'].contains(name[0]) ==> !hop_by_hop(name),
        hop_by_hop(name) && name[0] == 'c' ==> name.len() == 10,
{
    let first = seq!['c', 'k', 'p', 't', 'u'];
    assert(first[0] == 'c' && first[1] == 'k' && first[2] == 'p' && first[3] == 't' && first[4] == 'u');
    reveal_strlit("connection");
    reveal_strlit("keep-alive");
    reveal_strlit("proxy-authenticate");
    reveal_strlit("proxy-authorization");
    reveal_strlit("proxy-connection");
    reveal_strlit("te");
    reveal_strlit("trailer");
    reveal_strlit("transfer-encoding");
    reveal_strlit("upgrade");
}

} // verus!
