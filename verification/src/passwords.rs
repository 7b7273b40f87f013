//! Stored passwords and how they are checked.

use vstd::prelude::*;
use crate::crypto::constant_time_eq;
use crate::data::Data;
use crate::message;
use crate::text;

verus! {

/// `bcrypt::verify` takes the password for the hash.
pub uninterp spec fn bcrypt_accepts(password: Seq<char>, hash: Seq<char>) -> bool;

/// `argon2::Argon2::verify_password` takes the password for the hash.
pub uninterp spec fn argon2_accepts(password: Seq<char>, hash: Seq<char>) -> bool;

/// `scrypt::Scrypt::verify_password` takes the password for the hash.
pub uninterp spec fn scrypt_accepts(password: Seq<char>, hash: Seq<char>) -> bool;

/// `pbkdf2::Pbkdf2::verify_password` takes the password for the hash.
pub uninterp spec fn pbkdf2_accepts(password: Seq<char>, hash: Seq<char>) -> bool;

/// `bcrypt::verify`: whether the password has the hash. A text that is no hash of
/// this kind is the hash of nothing. Which passwords have which hash is left to the
/// name `bcrypt_accepts`.
#[verifier::external_body]
fn check_bcrypt(password: &str, hash: &str) -> (r: bool)
    ensures
        r == bcrypt_accepts(password@, hash@),
{
    bcrypt::verify(password, hash).unwrap_or(false)
}

/// `argon2::Argon2::verify_password` on the hash as `password_hash::PasswordHash::new`
/// reads it: whether the password has the hash. A text that cannot be read is the
/// hash of nothing. Which passwords have which hash is left to the name
/// `argon2_accepts`.
#[verifier::external_body]
fn check_argon2(password: &str, hash: &str) -> (r: bool)
    ensures
        r == argon2_accepts(password@, hash@),
{
    match password_hash::PasswordHash::new(hash) {
        Ok(h) => password_hash::PasswordVerifier::verify_password(
            &argon2::Argon2::default(),
            password.as_bytes(),
            &h,
        ).is_ok(),
        Err(_) => false,
    }
}

/// `scrypt::Scrypt::verify_password` on the hash as `password_hash::PasswordHash::new`
/// reads it: whether the password has the hash. A text that cannot be read is the
/// hash of nothing. Which passwords have which hash is left to the name
/// `scrypt_accepts`.
#[verifier::external_body]
fn check_scrypt(password: &str, hash: &str) -> (r: bool)
    ensures
        r == scrypt_accepts(password@, hash@),
{
    match password_hash::PasswordHash::new(hash) {
        Ok(h) => password_hash::PasswordVerifier::verify_password(
            &scrypt::Scrypt,
            password.as_bytes(),
            &h,
        ).is_ok(),
        Err(_) => false,
    }
}

/// `pbkdf2::Pbkdf2::verify_password` on the hash as `password_hash::PasswordHash::new`
/// reads it: whether the password has the hash. A text that cannot be read is the
/// hash of nothing. Which passwords have which hash is left to the name
/// `pbkdf2_accepts`.
#[verifier::external_body]
fn check_pbkdf2(password: &str, hash: &str) -> (r: bool)
    ensures
        r == pbkdf2_accepts(password@, hash@),
{
    match password_hash::PasswordHash::new(hash) {
        Ok(h) => password_hash::PasswordVerifier::verify_password(
            &pbkdf2::Pbkdf2,
            password.as_bytes(),
            &h,
        ).is_ok(),
        Err(_) => false,
    }
}

/// How a password is stored.
#[derive(Clone, Copy, Debug, PartialEq, Eq, Structural)]
pub enum HashType {
    Plaintext,
    Bcrypt,
    Argon2,
    Scrypt,
    Pbkdf2,
}

/// A hash made by bcrypt.
pub open spec fn is_bcrypt(hash: Seq<char>) -> bool {
    text::begins(hash, "$2b$"@) || text::begins(hash, "$2a$"@) || text::begins(hash, "$2y$"@)
}

/// How a password is stored, as its prefix says.
pub open spec fn hash_type(hash: Seq<char>) -> HashType {
    if is_bcrypt(hash) {
        HashType::Bcrypt
    } else if text::begins(hash, "$argon2id$"@) || text::begins(hash, "$argon2i$"@) {
        HashType::Argon2
    } else if text::begins(hash, "$scrypt$"@) {
        HashType::Scrypt
    } else if text::begins(hash, "$pbkdf2-sha256$"@) {
        HashType::Pbkdf2
    } else {
        HashType::Plaintext
    }
}

/// Tells whether a hash was made by bcrypt.
pub fn has_bcrypt_prefix(hash: &str) -> (r: bool)
    ensures
        r == is_bcrypt(hash@),
{
    text::starts_with(hash, "$2b$") || text::starts_with(hash, "$2a$") || text::starts_with(
        hash,
        "$2y$",
    )
}

/// Finds out how a password is stored.
pub fn detect_hash_type(hash: &str) -> (r: HashType)
    ensures
        r == hash_type(hash@),
{
    if has_bcrypt_prefix(hash) {
        HashType::Bcrypt
    } else if text::starts_with(hash, "$argon2id$") || text::starts_with(hash, "$argon2i$") {
        HashType::Argon2
    } else if text::starts_with(hash, "$scrypt$") {
        HashType::Scrypt
    } else if text::starts_with(hash, "$pbkdf2-sha256$") {
        HashType::Pbkdf2
    } else {
        HashType::Plaintext
    }
}

/// A password fits what is stored.
pub open spec fn password_fits(kind: HashType, password: Seq<char>, hash: Seq<char>) -> bool {
    match kind {
        HashType::Plaintext => password == hash,
        HashType::Bcrypt => bcrypt_accepts(password, hash),
        HashType::Argon2 => argon2_accepts(password, hash),
        HashType::Scrypt => scrypt_accepts(password, hash),
        HashType::Pbkdf2 => pbkdf2_accepts(password, hash),
    }
}

/// Compares two texts without stopping at the first difference.
fn same_secret(a: &str, b: &str) -> (r: bool)
    ensures
        r == (a@ == b@),
{
    let (x, y) = (message::utf8(a), message::utf8(b));
    proof {
        vstd::utf8::encode_utf8_decode_utf8(a@);
        vstd::utf8::encode_utf8_decode_utf8(b@);
    }
    constant_time_eq(x.as_slice(), y.as_slice())
}

/// Tells whether a password fits what is stored.
pub fn check_password(kind: HashType, password: &str, hash: &str) -> (r: bool)
    ensures
        r == password_fits(kind, password@, hash@),
{
    match kind {
        HashType::Plaintext => same_secret(password, hash),
        HashType::Bcrypt => check_bcrypt(password, hash),
        HashType::Argon2 => check_argon2(password, hash),
        HashType::Scrypt => check_scrypt(password, hash),
        HashType::Pbkdf2 => check_pbkdf2(password, hash),
    }
}

/// The name and the password that bytes hold, with a colon between them.
pub open spec fn credentials_in(b: Seq<u8>) -> Option<(Seq<char>, Seq<char>)> {
    if vstd::utf8::valid_utf8(b) {
        text::cut(vstd::utf8::decode_utf8(b), ':')
    } else {
        None
    }
}

/// Reads the name and the password that bytes hold.
pub fn read_credentials(b: &Vec<u8>) -> (r: Option<(String, String)>)
    ensures
        r.deep_view() == credentials_in(b@),
{
    match crate::bytes::utf8_text(b.as_slice()) {
        Some(t) => text::split_once(t.as_str(), ':'),
        None => None,
    }
}

/// What is stored tells by its beginning how it was made; without such a beginning it is
/// the password itself.
pub proof fn lemma_hash_types(t: Seq<char>, password: Seq<char>)
    ensures
        hash_type("$2b$"@ + t) is Bcrypt,
        hash_type("$2a$"@ + t) is Bcrypt,
        hash_type("$2y$"@ + t) is Bcrypt,
        hash_type("$argon2id$"@ + t) is Argon2,
        hash_type("$argon2i$"@ + t) is Argon2,
        hash_type("$scrypt$"@ + t) is Scrypt,
        hash_type("$pbkdf2-sha256$"@ + t) is Pbkdf2,
        t.len() == 0 || t[0] != '$' ==> hash_type(t) is Plaintext && (password_fits(
            hash_type(t),
            password,
            t,
        ) <==> password == t),
{
    reveal_strlit("$2b$");
    reveal_strlit("$2a$");
    reveal_strlit("$2y$");
    reveal_strlit("$argon2id$");
    reveal_strlit("$argon2i$");
    reveal_strlit("$scrypt$");
    reveal_strlit("$pbkdf2-sha256$");
    text::lemma_after_prefix("$2b$"@, t);
    text::lemma_after_prefix("$2a$"@, t);
    text::lemma_after_prefix("$2y$"@, t);
    text::lemma_after_prefix("$argon2id$"@, t);
    text::lemma_after_prefix("$argon2i$"@, t);
    text::lemma_after_prefix("$scrypt$"@, t);
    text::lemma_after_prefix("$pbkdf2-sha256$"@, t);
    lemma_beginning("$argon2id$"@ + t);
    lemma_beginning("$argon2i$"@ + t);
    lemma_beginning("$scrypt$"@ + t);
    lemma_beginning("$pbkdf2-sha256$"@ + t);
    lemma_beginning(t);
}

/// The second character of what is stored.
proof fn lemma_beginning(s: Seq<char>)
    ensures
        is_bcrypt(s) ==> s.len() > 1 && s[0] == '$' && s[1] == '2',
        text::begins(s, "$argon2id$"@) || text::begins(s, "$argon2i$"@) ==> s.len() > 1 && s[0]
            == '$' && s[1] == 'a',
        text::begins(s, "$scrypt$"@) ==> s.len() > 1 && s[0] == '$' && s[1] == 's',
        text::begins(s, "$pbkdf2-sha256$"@) ==> s.len() > 1 && s[0] == '$' && s[1] == 'p',
{
    reveal_strlit("$2b$");
    reveal_strlit("$2a$");
    reveal_strlit("$2y$");
    reveal_strlit("$argon2id$");
    reveal_strlit("$argon2i$");
    reveal_strlit("$scrypt$");
    reveal_strlit("$pbkdf2-sha256$");
    assert forall|p: Seq<char>| p.len() > 1 && #[trigger] text::begins(s, p) implies s.len()
        > 1 && s[0] == p[0] && s[1] == p[1] by {
        let t = s.subrange(0, p.len() as int);
        assert(t[0] == s[0] && t[1] == s[1]);
    }
}

} // verus!
