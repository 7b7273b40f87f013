//! Tunnels to other servers on behalf of clients.

use vstd::prelude::*;
use crate::config::types::{BasicAuthUser, BasicAuthUserView};
use crate::encoding;
use crate::encoding::base64_decode_relaxed;
use crate::error::{ProxyError, ProxyErrorView};
use crate::message;
use crate::message::{Fields, Headers, Request, RequestView, Response, ResponseView, Version};
use crate::passwords;
use crate::passwords::{check_password, has_bcrypt_prefix, read_credentials, HashType};
use crate::text;

verus! {

/// How a password of a user of the proxy is stored: by bcrypt or as it is.
pub open spec fn proxy_hash_type(hash: Seq<char>) -> HashType {
    if passwords::is_bcrypt(hash) {
        HashType::Bcrypt
    } else {
        HashType::Plaintext
    }
}

/// The name and the password are those of the user.
pub open spec fn verified(u: BasicAuthUserView, name: Seq<char>, password: Seq<char>) -> bool {
    u.username == name && passwords::password_fits(
        proxy_hash_type(u.password_hash),
        password,
        u.password_hash,
    )
}

/// The name and the password are those of a user from `i` on.
pub open spec fn verified_from(
    us: Seq<BasicAuthUserView>,
    name: Seq<char>,
    password: Seq<char>,
    i: int,
) -> bool
    decreases us.len() - i,
{
    0 <= i < us.len() && (verified(us[i], name, password) || verified_from(
        us,
        name,
        password,
        i + 1,
    ))
}

/// The name and the password that the fields carry for the proxy.
pub open spec fn proxy_credentials(h: Fields) -> Option<(Seq<char>, Seq<char>)> {
    match message::field_of(h, "proxy-authorization"@) {
        None => None,
        Some(t) => match text::after_prefix(t, "Basic "@) {
            None => None,
            Some(e) => match encoding::base64_relaxed(e) {
                None => None,
                Some(b) => passwords::credentials_in(b),
            },
        },
    }
}

/// Reads the name and the password that the fields carry for the proxy.
pub fn extract_proxy_credentials(headers: &Headers) -> (r: Option<(String, String)>)
    ensures
        r.deep_view() == proxy_credentials(headers.deep_view()),
{
    let t = match headers.text("proxy-authorization") {
        Some(t) => t,
        None => return None,
    };
    let e = match text::strip_prefix(t.as_str(), "Basic ") {
        Some(e) => e,
        None => return None,
    };
    match base64_decode_relaxed(e.as_str()) {
        Some(b) => read_credentials(&b),
        None => None,
    }
}

/// Tells whether the name and the password are those of the user.
pub fn verify_proxy_user(user: &BasicAuthUser, username: &str, password: &str) -> (r: bool)
    ensures
        r == verified(user.deep_view(), username@, password@),
{
    if !text::same(user.username.as_str(), username) {
        return false;
    }
    let kind = if has_bcrypt_prefix(user.password_hash.as_str()) {
        HashType::Bcrypt
    } else {
        HashType::Plaintext
    };
    check_password(kind, password, user.password_hash.as_str())
}

/// The answer to a request without a name and password that fit.
pub open spec fn auth_required() -> ResponseView {
    ResponseView {
        status: 407,
        headers: seq![
            ("proxy-authenticate"@, vstd::utf8::encode_utf8("Basic realm=\"gatel\""@)),
        ],
        body: vstd::utf8::encode_utf8("Proxy Authentication Required"@),
    }
}

/// Answers a request without a name and password that fit.
pub fn proxy_auth_required_response() -> (r: Response)
    ensures
        r.deep_view() == auth_required(),
{
    let mut headers = Headers::new();
    headers.append("proxy-authenticate", message::utf8("Basic realm=\"gatel\""));
    proof {
        reveal_strlit("proxy-authenticate");
        assert(text::lowered("proxy-authenticate"@) =~= "proxy-authenticate"@);
        assert(headers.deep_view() =~= auth_required().headers);
    }
    Response { status: 407, headers, body: message::utf8("Proxy Authentication Required") }
}

/// What becomes of a request to the proxy.
pub enum TunnelView {
    Connect(Seq<char>),
    Answer(ResponseView),
    Fail(ProxyErrorView),
}

/// What becomes of a request to the proxy.
#[derive(Debug)]
pub enum Tunnel {
    /// A tunnel to the server is opened.
    Connect(String),
    /// The request is answered.
    Answer(Response),
    /// The request fails.
    Fail(ProxyError),
}

impl DeepView for Tunnel {
    type V = TunnelView;

    open spec fn deep_view(&self) -> TunnelView {
        match self {
            Tunnel::Connect(a) => TunnelView::Connect(a@),
            Tunnel::Answer(r) => TunnelView::Answer(r.deep_view()),
            Tunnel::Fail(e) => TunnelView::Fail(e.deep_view()),
        }
    }
}

/// The request may use the proxy: where there are users, it is one of theirs.
pub open spec fn allowed(us: Seq<BasicAuthUserView>, h: Fields) -> bool {
    us.len() == 0 || (proxy_credentials(h) matches Some(c) && verified_from(us, c.0, c.1, 0))
}

/// What becomes of a request to the proxy that may use it or not.
pub open spec fn tunnel(r: RequestView, allowed: bool) -> TunnelView {
    if r.method != "CONNECT"@ {
        TunnelView::Fail(ProxyErrorView::BadRequest("forward proxy only supports CONNECT"@))
    } else if !allowed {
        TunnelView::Answer(auth_required())
    } else if r.version == Version::Http2 {
        TunnelView::Answer(
            message::plain_response(
                501,
                "HTTP/2 CONNECT tunneling is not supported; use HTTP/1.1"@,
            ),
        )
    } else {
        match r.uri.authority {
            Some(a) => TunnelView::Connect(a),
            None => TunnelView::Fail(
                ProxyErrorView::BadRequest("CONNECT request missing authority"@),
            ),
        }
    }
}

/// Opens tunnels for clients that ask for them with `CONNECT`.
pub struct ForwardProxy {
    pub auth_users: Vec<BasicAuthUser>,
}

/// Decides what becomes of a request to the proxy that may use it or not.
pub fn open_tunnel(request: &Request, allowed: bool) -> (r: Tunnel)
    ensures
        r.deep_view() == tunnel(request.deep_view(), allowed),
{
    if !text::same(request.method.as_str(), "CONNECT") {
        return Tunnel::Fail(
            ProxyError::BadRequest("forward proxy only supports CONNECT".to_owned()),
        );
    }
    if !allowed {
        return Tunnel::Answer(proxy_auth_required_response());
    }
    if request.version == Version::Http2 {
        return Tunnel::Answer(
            Response::plain(501, "HTTP/2 CONNECT tunneling is not supported; use HTTP/1.1"),
        );
    }
    match &request.uri.authority {
        Some(a) => Tunnel::Connect(a.clone()),
        None => Tunnel::Fail(
            ProxyError::BadRequest("CONNECT request missing authority".to_owned()),
        ),
    }
}

impl ForwardProxy {
    /// A proxy for the users, or for everyone where there are none.
    pub fn new(auth_users: Vec<BasicAuthUser>) -> (p: ForwardProxy)
        ensures
            p == (ForwardProxy { auth_users }),
    {
        ForwardProxy { auth_users }
    }

    /// Tells whether a request may use the proxy.
    pub fn is_allowed(&self, headers: &Headers) -> (r: bool)
        ensures
            r == allowed(self.auth_users.deep_view(), headers.deep_view()),
    {
        if self.auth_users.len() == 0 {
            return true;
        }
        let (name, password) = match extract_proxy_credentials(headers) {
            Some(c) => c,
            None => return false,
        };
        let ghost us = self.auth_users.deep_view();
        for i in 0..self.auth_users.len()
            invariant
                us == self.auth_users.deep_view(),
                us.len() > 0,
                proxy_credentials(headers.deep_view()) == Some((name@, password@)),
                verified_from(us, name@, password@, 0) == verified_from(
                    us,
                    name@,
                    password@,
                    i as int,
                ),
        {
            assert(us[i as int] == self.auth_users@[i as int].deep_view());
            if verify_proxy_user(&self.auth_users[i], name.as_str(), password.as_str()) {
                return true;
            }
        }
        false
    }

    /// Decides what becomes of a request to the proxy.
    pub fn run(&self, request: &Request) -> (r: Tunnel)
        ensures
            r.deep_view() == tunnel(
                request.deep_view(),
                allowed(self.auth_users.deep_view(), request.deep_view().headers),
            ),
    {
        if !text::same(request.method.as_str(), "CONNECT") {
            return open_tunnel(request, false);
        }
        let allowed = self.is_allowed(&request.headers);
        open_tunnel(request, allowed)
    }
}

/// Where there are users, a tunnel is opened only for a request that carries the name
/// and the password of one.
pub proof fn lemma_tunnels_for_users(us: Seq<BasicAuthUserView>, r: RequestView)
    requires
        us.len() > 0,
        tunnel(r, allowed(us, r.headers)) is Connect,
    ensures
        proxy_credentials(r.headers) matches Some(c) && verified_from(us, c.0, c.1, 0),
{
}

/// A request may use the proxy where there are no users, or where it carries the name and
/// the password of one of them, and not otherwise.
pub proof fn lemma_who_may_use(us: Seq<BasicAuthUserView>, h: Fields)
    ensures
        us.len() == 0 ==> allowed(us, h),
        us.len() > 0 ==> (allowed(us, h) <==> (proxy_credentials(h) matches Some(c) && exists|i: int|
            0 <= i < us.len() && (#[trigger] us[i]).username == c.0 && verified(us[i], c.0, c.1))),
{
    if let Some(c) = proxy_credentials(h) {
        lemma_one_of_users(us, c.0, c.1, 0);
    }
}

/// A name and a password are those of one of the users.
proof fn lemma_one_of_users(
    us: Seq<BasicAuthUserView>,
    name: Seq<char>,
    password: Seq<char>,
    i: int,
)
    requires
        0 <= i,
    ensures
        verified_from(us, name, password, i) <==> exists|j: int|
            i <= j < us.len() && (#[trigger] us[j]).username == name && verified(
                us[j],
                name,
                password,
            ),
    decreases us.len() - i,
{
    if i < us.len() {
        lemma_one_of_users(us, name, password, i + 1);
    }
}

/// A password that is stored as it is fits itself alone; one whose beginning is that of
/// bcrypt is left to bcrypt.
pub proof fn lemma_stored_password(u: BasicAuthUserView, name: Seq<char>, password: Seq<char>)
    ensures
        u.password_hash.len() == 0 || u.password_hash[0] != '$' ==> (verified(u, name, password)
            <==> u.username == name && password == u.password_hash),
        passwords::is_bcrypt(u.password_hash) ==> (verified(u, name, password) <==> u.username
            == name && passwords::bcrypt_accepts(password, u.password_hash)),
{
    passwords::lemma_hash_types(u.password_hash, password);
}

/// A tunnel is opened to the authority of every `CONNECT` request that may use the proxy,
/// unless it came by the second version of HTTP; one that may not is asked for a name and
/// a password, and a request by another method fails.
pub proof fn lemma_tunnel(r: RequestView, a: Seq<char>)
    ensures
        r.method == "CONNECT"@ && r.version != Version::Http2 && r.uri.authority == Some(a)
            ==> tunnel(r, true) == TunnelView::Connect(a),
        r.method == "CONNECT"@ ==> (tunnel(r, false) matches TunnelView::Answer(x) && x.status
            == 407 && message::value_of(x.headers, "proxy-authenticate"@) is Some),
        r.method == "CONNECT"@ && r.version == Version::Http2 ==> (
        tunnel(r, true) matches TunnelView::Answer(x) && x.status == 501),
        r.method != "CONNECT"@ ==> tunnel(r, true) is Fail && tunnel(r, false) is Fail,
        r.method == "CONNECT"@ && r.version != Version::Http2 && r.uri.authority is None ==> tunnel(
            r,
            true,
        ) is Fail,
{
    reveal_strlit("proxy-authenticate");
    assert(text::lowered("proxy-authenticate"@) =~= "proxy-authenticate"@);
    reveal_with_fuel(message::value_from, 2);
}

/// The name and the password are what stands before and after the first colon of the text
/// behind `Basic`.
pub proof fn lemma_proxy_credentials_read(
    h: Fields,
    encoded: Seq<char>,
    name: Seq<char>,
    password: Seq<char>,
)
    requires
        message::field_of(h, "proxy-authorization"@) == Some("Basic "@ + encoded),
        encoding::base64_relaxed(encoded) == Some(
            vstd::utf8::encode_utf8(name + seq![':'] + password),
        ),
        !name.contains(':'),
    ensures
        proxy_credentials(h) == Some((name, password)),
{
    text::lemma_after_prefix("Basic "@, encoded);
    let t = name + seq![':'] + password;
    vstd::utf8::encode_utf8_valid_utf8(t);
    vstd::utf8::encode_utf8_decode_utf8(t);
    text::lemma_cut_at(name, ':', password);
}

/// A name and a password that a client sends as it should are read as they are.
pub proof fn lemma_proxy_credentials_sent(h: Fields, name: Seq<char>, password: Seq<char>)
    requires
        !name.contains(':'),
        message::field_of(h, "proxy-authorization"@) == Some(
            "Basic "@ + encoding::base64_encoded(
                vstd::utf8::encode_utf8(name + seq![':'] + password),
            ),
        ),
    ensures
        proxy_credentials(h) == Some((name, password)),
{
    let b = vstd::utf8::encode_utf8(name + seq![':'] + password);
    encoding::lemma_base64_relaxed_round_trip(b);
    lemma_proxy_credentials_read(h, encoding::base64_encoded(b), name, password);
}

} // verus!
