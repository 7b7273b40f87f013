//! Backends that listen on a socket of the file system.

use vstd::prelude::*;
use crate::text;

verus! {

/// Tells whether an address is that of a socket of the file system.
pub open spec fn unix_addr(addr: Seq<char>) -> bool {
    text::begins(addr, "unix:"@) || text::begins(addr, "/"@)
}

/// The path of the socket of an address, without the mark before it.
pub open spec fn unix_path(addr: Seq<char>) -> Seq<char> {
    match text::after_prefix(addr, "unix:"@) {
        Some(p) => p,
        None => addr,
    }
}

/// Tells whether an address is that of a socket of the file system.
pub fn is_unix_addr(addr: &str) -> (r: bool)
    ensures
        r == unix_addr(addr@),
{
    text::starts_with(addr, "unix:") || text::starts_with(addr, "/")
}

/// The path of the socket of an address, without the mark before it.
pub fn parse_unix_path(addr: &str) -> (r: String)
    ensures
        r@ == unix_path(addr@),
{
    match text::strip_prefix(addr, "unix:") {
        Some(p) => p,
        None => addr.to_owned(),
    }
}

/// An address with the mark, or that is a path, is that of a socket of the file system, and
/// its path is what stands behind the mark.
pub proof fn lemma_socket_paths(p: Seq<char>)
    ensures
        unix_addr("unix:"@ + p),
        unix_path("unix:"@ + p) == p,
        unix_addr(seq!['/'] + p),
        unix_path(seq!['/'] + p) == seq!['/'] + p,
        p.len() > 0 && p[0] != '/' && p[0] != 'u' ==> !unix_addr(p),
{
    reveal_strlit("unix:");
    reveal_strlit("/");
    assert("/"@ =~= seq!['/']);
    text::lemma_after_prefix("unix:"@, p);
    text::lemma_after_prefix("/"@, p);
    let s = seq!['/'] + p;
    if text::begins(s, "unix:"@) {
        assert(s.subrange(0, 5)[0] == s[0]);
    }
    if p.len() > 0 {
        if text::begins(p, "unix:"@) {
            assert(p.subrange(0, 5)[0] == p[0]);
        }
        if text::begins(p, "/"@) {
            assert(p.subrange(0, 1)[0] == p[0]);
        }
    }
}

} // verus!
