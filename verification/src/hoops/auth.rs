//! Names and passwords in requests.

use vstd::prelude::*;
use crate::config::types::{BasicAuthUser, BasicAuthUserView};
use crate::encoding;
use crate::encoding::base64_decode;
use crate::message;
use crate::message::{ClientAddr, ClientView, Fields, Headers, Response, ResponseView};
use crate::passwords;
use crate::passwords::{check_password, detect_hash_type, read_credentials, HashType};
use crate::table;
use crate::table::{erase, fetch, new_table, store, Table};
use crate::text;
use crate::time::{Duration, Instant};

verus! {

/// A user as the checks need it.
#[verifier::ext_equal]
pub struct AuthUserView {
    pub username: Seq<char>,
    pub password_hash: Seq<char>,
    pub hash_type: HashType,
}

/// A user, with how the password is stored.
#[derive(Debug, PartialEq, Eq)]
pub struct AuthUser {
    pub username: String,
    pub password_hash: String,
    pub hash_type: HashType,
}

impl DeepView for AuthUser {
    type V = AuthUserView;

    open spec fn deep_view(&self) -> AuthUserView {
        AuthUserView {
            username: self.username@,
            password_hash: self.password_hash@,
            hash_type: self.hash_type,
        }
    }
}

/// A user of the configuration as the checks need it.
pub open spec fn auth_user(u: BasicAuthUserView) -> AuthUserView {
    AuthUserView {
        username: u.username,
        password_hash: u.password_hash,
        hash_type: passwords::hash_type(u.password_hash),
    }
}

/// The name and the password are those of the user.
pub open spec fn verified(u: AuthUserView, name: Seq<char>, password: Seq<char>) -> bool {
    u.username == name && passwords::password_fits(u.hash_type, password, u.password_hash)
}

/// The name and the password are those of a user from `i` on.
pub open spec fn verified_from(
    us: Seq<AuthUserView>,
    name: Seq<char>,
    password: Seq<char>,
    i: int,
) -> bool
    decreases us.len() - i,
{
    0 <= i < us.len() && (verified(us[i], name, password) || verified_from(
        us,
        name,
        password,
        i + 1,
    ))
}

/// The name and the password that the fields carry.
pub open spec fn basic_credentials(h: Fields) -> Option<(Seq<char>, Seq<char>)> {
    match message::field_of(h, "authorization"@) {
        None => None,
        Some(t) => match text::after_prefix(t, "Basic "@) {
            None => None,
            Some(e) => match encoding::base64_decoded(e) {
                None => None,
                Some(b) => passwords::credentials_in(b),
            },
        },
    }
}

/// Reads the name and the password that the fields carry.
pub fn extract_basic_credentials(headers: &Headers) -> (r: Option<(String, String)>)
    ensures
        r.deep_view() == basic_credentials(headers.deep_view()),
{
    let t = match headers.text("authorization") {
        Some(t) => t,
        None => return None,
    };
    let e = match text::strip_prefix(t.as_str(), "Basic ") {
        Some(e) => e,
        None => return None,
    };
    match base64_decode(e.as_str()) {
        Some(b) => read_credentials(&b),
        None => None,
    }
}

/// Tells whether the name and the password are those of the user.
pub fn verify_user(user: &AuthUser, username: &str, password: &str) -> (r: bool)
    ensures
        r == verified(user.deep_view(), username@, password@),
{
    text::same(user.username.as_str(), username) && check_password(
        user.hash_type,
        password,
        user.password_hash.as_str(),
    )
}

/// Tells whether the name and the password are those of one of the users.
pub fn verify_any(users: &Vec<AuthUser>, username: &str, password: &str) -> (r: bool)
    ensures
        r == verified_from(users.deep_view(), username@, password@, 0),
{
    let ghost us = users.deep_view();
    for i in 0..users.len()
        invariant
            us == users.deep_view(),
            verified_from(us, username@, password@, 0) == verified_from(
                us,
                username@,
                password@,
                i as int,
            ),
    {
        assert(us[i as int] == users@[i as int].deep_view());
        if verify_user(&users[i], username, password) {
            return true;
        }
    }
    false
}

/// The failures of each address: their number and the time of the last.
pub type Failures = Map<Seq<char>, Seq<u128>>;

/// The number of failures of an address in a row.
pub open spec fn failure_count(m: Failures, ip: Seq<char>) -> u32 {
    if m.contains_key(ip) && m[ip].len() == 2 {
        m[ip][0] as u32
    } else {
        0
    }
}

/// The failures with one more of an address.
pub open spec fn failed(m: Failures, ip: Seq<char>, now: Instant) -> Failures {
    m.insert(ip, seq![failure_count(m, ip).wrapping_add(1) as u128, now.nanos])
}

/// How often an address may fail: five times where nothing else is said.
pub open spec fn failures_allowed(max: Option<u32>) -> u32 {
    match max {
        Some(n) => n,
        None => 5,
    }
}

/// How long an address is shut out: for five minutes where nothing else is said.
pub open spec fn failure_window(window: Option<nat>) -> nat {
    match window {
        Some(d) => d,
        None => 300_000_000_000,
    }
}

/// The address has failed too often and not long ago.
pub open spec fn blocked(m: Failures, ip: Seq<char>, now: Instant, max: u32, window: nat) -> bool {
    m.contains_key(ip) && m[ip].len() == 2 && m[ip][0] as u32 >= max && now.after(
        Instant { nanos: m[ip][1] },
    ) < window
}

/// The answer to a request without a name and password that fit.
pub open spec fn unauthorized(realm: Seq<char>) -> ResponseView {
    ResponseView {
        status: 401,
        headers: seq![
            (
                "www-authenticate"@,
                vstd::utf8::encode_utf8("Basic realm=\""@ + realm + "\", charset=\"UTF-8\""@),
            ),
        ],
        body: vstd::utf8::encode_utf8("Unauthorized"@),
    }
}

/// Answers a request without a name and password that fit.
pub fn set_unauthorized(realm: &str) -> (r: Response)
    ensures
        r.deep_view() == unauthorized(realm@),
{
    let mut headers = Headers::new();
    let value = text::join3("Basic realm=\"", realm, "\", charset=\"UTF-8\"");
    headers.append("www-authenticate", message::utf8(value.as_str()));
    proof {
        reveal_strlit("www-authenticate");
        assert(text::lowered("www-authenticate"@) =~= "www-authenticate"@);
        assert(headers.deep_view() =~= unauthorized(realm@).headers);
    }
    Response { status: 401, headers, body: message::utf8("Unauthorized") }
}

/// What is checked of requests, and the failures so far.
#[verifier::ext_equal]
pub struct BasicAuthView {
    pub users: Seq<AuthUserView>,
    pub realm: Seq<char>,
    pub max: u32,
    pub window: nat,
    pub failures: Failures,
}

/// Lets requests through that carry the name and the password of a user.
///
/// After a number of failures in a row an address is turned away for a while,
/// whatever it carries.
pub struct BasicAuthHoop {
    users: Vec<AuthUser>,
    realm: String,
    brute_force_max: u32,
    brute_force_window: Duration,
    failure_map: Table,
}

impl DeepView for BasicAuthHoop {
    type V = BasicAuthView;

    closed spec fn deep_view(&self) -> BasicAuthView {
        BasicAuthView {
            users: self.users.deep_view(),
            realm: self.realm@,
            max: self.brute_force_max,
            window: self.brute_force_window.total(),
            failures: table::records(self.failure_map),
        }
    }
}

/// What becomes of a request: the name of the user, or an answer; and the failures
/// afterwards.
pub open spec fn checked(v: BasicAuthView, h: Fields, ip: Seq<char>, now: Instant) -> (
    Result<Seq<char>, ResponseView>,
    Failures,
) {
    if blocked(v.failures, ip, now, v.max, v.window) {
        (Err(message::plain_response(429, "Too Many Requests"@)), v.failures)
    } else {
        match basic_credentials(h) {
            Some((name, password)) if verified_from(v.users, name, password, 0) => (
                Ok(name),
                v.failures.remove(ip),
            ),
            _ => (Err(unauthorized(v.realm)), failed(v.failures, ip, now)),
        }
    }
}

impl BasicAuthHoop {
    /// Lets the users through.
    pub fn new(
        users: &Vec<BasicAuthUser>,
        brute_force_max: Option<u32>,
        brute_force_window: Option<Duration>,
    ) -> (h: BasicAuthHoop)
        ensures
            h.deep_view().users == users.deep_view().map_values(|u: BasicAuthUserView| auth_user(u)),
            h.deep_view().realm == "gatel"@,
            h.deep_view().max == failures_allowed(brute_force_max),
            h.deep_view().window == failure_window(brute_force_window.deep_view()),
            h.deep_view().failures.is_empty(),
    {
        let mut list: Vec<AuthUser> = Vec::new();
        let ghost us = users.deep_view();
        for i in 0..users.len()
            invariant
                us == users.deep_view(),
                list@.len() == i,
                forall|j: int| 0 <= j < i ==> (#[trigger] list@[j]).deep_view() == auth_user(us[j]),
        {
            let u = &users[i];
            assert(us[i as int] == u.deep_view());
            list.push(
                AuthUser {
                    username: u.username.clone(),
                    password_hash: u.password_hash.clone(),
                    hash_type: detect_hash_type(u.password_hash.as_str()),
                },
            );
        }
        assert(list.deep_view() =~= us.map_values(|u: BasicAuthUserView| auth_user(u)));
        BasicAuthHoop {
            users: list,
            realm: "gatel".to_owned(),
            brute_force_max: match brute_force_max {
                Some(n) => n,
                None => 5,
            },
            brute_force_window: match brute_force_window {
                Some(d) => d,
                None => Duration::from_secs(300),
            },
            failure_map: new_table(),
        }
    }

    /// Counts a failure of an address.
    fn record_failure(&mut self, ip: &str, now: Instant)
        ensures
            final(self).deep_view() == (BasicAuthView {
                failures: failed(old(self).deep_view().failures, ip@, now),
                ..old(self).deep_view()
            }),
    {
        let count: u32 = match fetch(&self.failure_map, ip) {
            Some(v) => if v.len() == 2 {
                v[0] as u32
            } else {
                0
            },
            None => 0,
        };
        let mut record: Vec<u128> = Vec::new();
        record.push(count.wrapping_add(1) as u128);
        record.push(now.nanos);
        assert(record@ =~= seq![count.wrapping_add(1) as u128, now.nanos]);
        store(&mut self.failure_map, ip, record);
    }

    /// Tells whether an address has failed too often and not long ago.
    pub fn is_blocked(&self, ip: &str, now: Instant) -> (r: bool)
        ensures
            r == blocked(
                self.deep_view().failures,
                ip@,
                now,
                self.deep_view().max,
                self.deep_view().window,
            ),
    {
        match fetch(&self.failure_map, ip) {
            Some(v) => v.len() == 2 && v[0] as u32 >= self.brute_force_max && now.nanos_since(
                Instant { nanos: v[1] },
            ) < self.brute_force_window.as_nanos(),
            None => false,
        }
    }

    /// Lets a request through with the name of its user, or answers it.
    pub fn handle(&mut self, headers: &Headers, client: &ClientAddr, now: Instant) -> (r: Result<
        String,
        Response,
    >)
        ensures
            ({
                let c = checked(
                    old(self).deep_view(),
                    headers.deep_view(),
                    client.deep_view().ip_text,
                    now,
                );
                &&& crate::data::outcome(r) == c.0
                &&& final(self).deep_view() == (BasicAuthView {
                    failures: c.1,
                    ..old(self).deep_view()
                })
            }),
    {
        let ip = client.ip_text.as_str();
        if self.is_blocked(ip, now) {
            return Err(Response::plain(429, "Too Many Requests"));
        }
        if let Some((name, password)) = extract_basic_credentials(headers) {
            if verify_any(&self.users, name.as_str(), password.as_str()) {
                erase(&mut self.failure_map, ip);
                return Ok(name);
            }
        }
        self.record_failure(ip, now);
        Err(set_unauthorized(self.realm.as_str()))
    }
}

/// An address that failed as often as it may is turned away as long as the window
/// lasts, whatever it carries.
pub proof fn lemma_locked_out(v: BasicAuthView, h: Fields, ip: Seq<char>, now: Instant)
    requires
        v.failures.contains_key(ip),
        v.failures[ip].len() == 2,
        failure_count(v.failures, ip) >= v.max,
        now.after(Instant { nanos: v.failures[ip][1] }) < v.window,
    ensures
        checked(v, h, ip, now) == (
            Err::<Seq<char>, ResponseView>(message::plain_response(429, "Too Many Requests"@)),
            v.failures,
        ),
{
}

/// Once a failure is the last that an address may have, its next request is turned
/// away as long as the window lasts, whatever it carries.
pub proof fn lemma_last_failure(
    v: BasicAuthView,
    h: Fields,
    ip: Seq<char>,
    now: Instant,
    next: Fields,
    later: Instant,
)
    requires
        checked(v, h, ip, now).0 == Err::<Seq<char>, ResponseView>(unauthorized(v.realm)),
        failure_count(v.failures, ip) < u32::MAX,
        failure_count(v.failures, ip) + 1 >= v.max,
        later.after(now) < v.window,
    ensures
        checked(
            BasicAuthView { failures: checked(v, h, ip, now).1, ..v },
            next,
            ip,
            later,
        ).0 == Err::<Seq<char>, ResponseView>(
            message::plain_response(429, "Too Many Requests"@),
        ),
{
    let w = BasicAuthView { failures: checked(v, h, ip, now).1, ..v };
    if blocked(v.failures, ip, now, v.max, v.window) {
        assert(message::plain_response(429, "Too Many Requests"@).status == 429);
    }
    lemma_locked_out(w, next, ip, later);
}

/// A failure counts one, and only for its address; a request that is let through
/// clears the failures of its address.
pub proof fn lemma_failures(
    v: BasicAuthView,
    h: Fields,
    ip: Seq<char>,
    now: Instant,
    other: Seq<char>,
)
    requires
        !blocked(v.failures, ip, now, v.max, v.window),
    ensures
        ({
            let c = checked(v, h, ip, now);
            &&& c.0 is Ok ==> failure_count(c.1, ip) == 0
            &&& c.0 is Err ==> failure_count(c.1, ip) == failure_count(v.failures, ip).wrapping_add(
                1,
            )
            &&& other != ip ==> failure_count(c.1, other) == failure_count(v.failures, other)
        }),
{
}

/// Nobody is let through without the name and the password of a user.
pub proof fn lemma_users_only(v: BasicAuthView, h: Fields, ip: Seq<char>, now: Instant)
    requires
        checked(v, h, ip, now).0 is Ok,
    ensures
        basic_credentials(h) matches Some(c) && checked(v, h, ip, now).0 == Ok::<
            Seq<char>,
            ResponseView,
        >(c.0) && verified_from(v.users, c.0, c.1, 0),
{
}

/// A request that carries the name and the password of a user is let through under this
/// name, unless its address is shut out, and its address has no failures afterwards.
pub proof fn lemma_user_let_through(
    v: BasicAuthView,
    h: Fields,
    ip: Seq<char>,
    now: Instant,
    j: int,
    password: Seq<char>,
)
    requires
        0 <= j < v.users.len(),
        passwords::password_fits(v.users[j].hash_type, password, v.users[j].password_hash),
        basic_credentials(h) == Some((v.users[j].username, password)),
        !blocked(v.failures, ip, now, v.max, v.window),
    ensures
        checked(v, h, ip, now).0 == Ok::<Seq<char>, ResponseView>(v.users[j].username),
        failure_count(checked(v, h, ip, now).1, ip) == 0,
{
    lemma_verified_from(v.users, v.users[j].username, password, 0);
    assert(verified(v.users[j], v.users[j].username, password));
}

/// A name and a password are those of one of the users.
proof fn lemma_verified_from(
    us: Seq<AuthUserView>,
    name: Seq<char>,
    password: Seq<char>,
    i: int,
)
    requires
        0 <= i,
    ensures
        verified_from(us, name, password, i) <==> exists|j: int|
            i <= j < us.len() && verified(#[trigger] us[j], name, password),
    decreases us.len() - i,
{
    if i < us.len() {
        lemma_verified_from(us, name, password, i + 1);
    }
}

/// Nobody is let through whose name is that of no user, or whose password fits none of the
/// users of that name; such a request is asked for a name and a password, and counts as a
/// failure.
pub proof fn lemma_others_asked(v: BasicAuthView, h: Fields, ip: Seq<char>, now: Instant)
    requires
        !blocked(v.failures, ip, now, v.max, v.window),
        basic_credentials(h) matches Some(c) ==> forall|j: int|
            0 <= j < v.users.len() && (#[trigger] v.users[j]).username == c.0
                ==> !passwords::password_fits(v.users[j].hash_type, c.1, v.users[j].password_hash),
    ensures
        checked(v, h, ip, now).0 matches Err(r) && r.status == 401 && message::value_of(
            r.headers,
            "www-authenticate"@,
        ) == Some(
            vstd::utf8::encode_utf8("Basic realm=\""@ + v.realm + "\", charset=\"UTF-8\""@),
        ),
        checked(v, h, ip, now).1 == failed(v.failures, ip, now),
{
    reveal_strlit("www-authenticate");
    assert(text::lowered("www-authenticate"@) =~= "www-authenticate"@);
    reveal_with_fuel(message::value_from, 2);
    if let Some(c) = basic_credentials(h) {
        lemma_verified_from(v.users, c.0, c.1, 0);
    }
}

/// The name and the password are what stands before and after the first colon of the text
/// behind `Basic`.
pub proof fn lemma_credentials_read(
    h: Fields,
    encoded: Seq<char>,
    name: Seq<char>,
    password: Seq<char>,
)
    requires
        message::field_of(h, "authorization"@) == Some("Basic "@ + encoded),
        encoding::base64_decoded(encoded) == Some(
            vstd::utf8::encode_utf8(name + seq![':'] + password),
        ),
        !name.contains(':'),
    ensures
        basic_credentials(h) == Some((name, password)),
{
    text::lemma_after_prefix("Basic "@, encoded);
    let t = name + seq![':'] + password;
    vstd::utf8::encode_utf8_valid_utf8(t);
    vstd::utf8::encode_utf8_decode_utf8(t);
    text::lemma_cut_at(name, ':', password);
}

/// An address is shut out exactly while the window after its last failure lasts, and only
/// where it has failed as often as it may.
pub proof fn lemma_shut_out_for_window(
    m: Failures,
    ip: Seq<char>,
    then: Instant,
    now: Instant,
    max: u32,
    window: nat,
)
    requires
        then.nanos <= now.nanos,
        failure_count(m, ip) < u32::MAX,
    ensures
        blocked(failed(m, ip, then), ip, now, max, window) <==> failure_count(m, ip) + 1 >= max
            && now.nanos - then.nanos < window,
        !m.contains_key(ip) ==> !blocked(m, ip, now, max, window),
{
}

/// An address may fail as often as is said, and is shut out for as long as is said; where
/// nothing is said, five times and for five minutes.
pub proof fn lemma_limits_of_failures(n: u32, d: nat)
    ensures
        failures_allowed(Some(n)) == n,
        failures_allowed(None) == 5,
        failure_window(Some(d)) == d,
        failure_window(None) == 5 * 60 * 1_000_000_000,
{
}

/// A name and a password that a client sends as it should are read as they are.
pub proof fn lemma_credentials_sent(h: Fields, name: Seq<char>, password: Seq<char>)
    requires
        !name.contains(':'),
        message::field_of(h, "authorization"@) == Some(
            "Basic "@ + encoding::base64_encoded(
                vstd::utf8::encode_utf8(name + seq![':'] + password),
            ),
        ),
    ensures
        basic_credentials(h) == Some((name, password)),
{
    let b = vstd::utf8::encode_utf8(name + seq![':'] + password);
    encoding::lemma_base64_round_trip(b);
    lemma_credentials_read(h, encoding::base64_encoded(b), name, password);
}

/// A user of the configuration is let in under the configured name, with the password that is
/// stored for it in words or with one that fits what is stored, by what this shows of how it
/// was made.
pub proof fn lemma_configured_user(u: BasicAuthUserView, name: Seq<char>, password: Seq<char>)
    ensures
        u.password_hash.len() == 0 || u.password_hash[0] != '$' ==> (verified(
            auth_user(u),
            name,
            password,
        ) <==> name == u.username && password == u.password_hash),
        verified(auth_user(u), name, password) <==> name == u.username && passwords::password_fits(
            passwords::hash_type(u.password_hash),
            password,
            u.password_hash,
        ),
{
    let h = u.password_hash;
    reveal_strlit("$2b$");
    reveal_strlit("$2a$");
    reveal_strlit("$2y$");
    reveal_strlit("$argon2id$");
    reveal_strlit("$argon2i$");
    reveal_strlit("$scrypt$");
    reveal_strlit("$pbkdf2-sha256$");
    if h.len() == 0 || h[0] != '$' {
        lemma_other_beginning(h, "$2b$"@);
        lemma_other_beginning(h, "$2a$"@);
        lemma_other_beginning(h, "$2y$"@);
        lemma_other_beginning(h, "$argon2id$"@);
        lemma_other_beginning(h, "$argon2i$"@);
        lemma_other_beginning(h, "$scrypt$"@);
        lemma_other_beginning(h, "$pbkdf2-sha256$"@);
    }
}

/// A text with another first character does not begin so.
proof fn lemma_other_beginning(s: Seq<char>, p: Seq<char>)
    requires
        p.len() > 0,
        s.len() == 0 || s[0] != p[0],
    ensures
        !text::begins(s, p),
{
    if text::begins(s, p) {
        assert(s.subrange(0, p.len() as int)[0] == s[0]);
    }
}

} // verus!
