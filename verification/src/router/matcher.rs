//! Path patterns and request matchers.

use vstd::prelude::*;
use crate::data::Data;
use crate::glob::glob_matches;
use crate::message;
use crate::message::{ClientAddr, Headers, Request};
use crate::net;
use crate::net::IpAddr;
use crate::text;

verus! {

// ---------------------------------------------------------------------------
// Paths
// ---------------------------------------------------------------------------

/// The route pattern `pattern` covers the request path `path`.
///
/// `/*` and `*` cover everything, `*.ext` a suffix, `/dir/*` a directory and
/// what is below it, `/dir*` a prefix, and any other pattern itself alone.
pub open spec fn covers(pattern: Seq<char>, path: Seq<char>) -> bool {
    if pattern == "/*"@ || pattern == "*"@ {
        true
    } else if text::begins(pattern, "*"@) && !text::begins(pattern, "**"@) {
        text::ends(path, pattern.skip(1))
    } else {
        match text::before_suffix(pattern, "/*"@) {
            Some(dir) => path == dir || text::begins(path, dir + "/"@),
            None => if text::ends(pattern, "*"@) {
                text::begins(path, pattern.drop_last())
            } else {
                path == pattern
            },
        }
    }
}

/// Match a request path against a route pattern.
pub fn path_matches(pattern: &str, path: &str) -> (r: bool)
    ensures
        r == covers(pattern@, path@),
{
    if text::same(pattern, "/*") || text::same(pattern, "*") {
        return true;
    }
    let v = text::chars(pattern);
    if text::starts_with(pattern, "*") && !text::starts_with(pattern, "**") {
        proof {
            reveal_strlit("*");
        }
        let suffix = text::string_of(&v, 1, v.len());
        assert(suffix@ =~= pattern@.skip(1));
        return text::ends_with(path, suffix.as_str());
    }
    match text::strip_suffix(pattern, "/*") {
        Some(dir) => {
            text::same(path, dir.as_str()) || text::starts_with(
                path,
                text::join(dir.as_str(), "/").as_str(),
            )
        },
        None => {
            if text::ends_with(pattern, "*") {
                proof {
                    reveal_strlit("*");
                }
                let prefix = text::string_of(&v, 0, v.len() - 1);
                assert(prefix@ =~= pattern@.drop_last());
                text::starts_with(path, prefix.as_str())
            } else {
                text::same(path, pattern)
            }
        },
    }
}

/// How specific a route pattern is: the greater, the more specific. Lengths are
/// those of the UTF-8 form.
pub open spec fn specificity(pattern: Seq<char>) -> nat {
    let n = vstd::utf8::encode_utf8(pattern).len();
    if pattern == "/*"@ || pattern == "*"@ {
        0
    } else if text::begins(pattern, "*"@) {
        n
    } else {
        match text::before_suffix(pattern, "/*"@) {
            Some(dir) => vstd::utf8::encode_utf8(dir).len() + 1,
            None => if text::ends(pattern, "*"@) {
                n
            } else {
                n + 1000
            },
        }
    }
}

/// `n`, or the greatest `usize` where that is less.
pub open spec fn capped(n: nat) -> nat {
    if n <= usize::MAX {
        n
    } else {
        usize::MAX as nat
    }
}

/// Sort patterns by specificity (most specific first).
/// Longer non-wildcard prefixes are more specific.
///
/// Law: [`lemma_specificity_order`].
pub fn pattern_specificity(pattern: &str) -> (r: usize)
    ensures
        r == capped(specificity(pattern@)),
{
    let n: usize = text::byte_len(pattern);
    if text::same(pattern, "/*") || text::same(pattern, "*") {
        return 0;
    }
    if text::starts_with(pattern, "*") {
        return n;
    }
    match text::strip_suffix(pattern, "/*") {
        Some(dir) => text::byte_len(dir.as_str()).saturating_add(1),
        None => {
            if text::ends_with(pattern, "*") {
                n
            } else {
                n.saturating_add(1000)
            }
        },
    }
}

/// The catch-all patterns are the least specific ones.
pub proof fn lemma_catch_all_least_specific(pattern: Seq<char>)
    ensures
        specificity("/*"@) <= specificity(pattern),
        specificity("*"@) <= specificity(pattern),
{
}

/// A text that is not empty has a byte.
proof fn lemma_some_byte(s: Seq<char>)
    requires
        s.len() > 0,
    ensures
        vstd::utf8::encode_utf8(s).len() > 0,
{
}

/// The specificity of a pattern for everything below a directory.
proof fn lemma_below(a: Seq<char>)
    requires
        a.len() > 0,
        !a.contains('*'),
    ensures
        specificity(a + "/*"@) == vstd::utf8::encode_utf8(a).len() + 1,
{
    reveal_strlit("/*");
    reveal_strlit("*");
    let w = a + "/*"@;
    assert(a.contains(a[0]));
    assert(w[0] == a[0]);
    assert(w.len() != "/*"@.len());
    assert(w.subrange(0, 1)[0] == w[0]);
    assert(w.subrange(w.len() - 2, w.len() as int) =~= "/*"@);
    assert(w.take(w.len() - 2) =~= a);
    assert(w.subrange(0, w.len() - 2) =~= a);
}

/// Of two patterns for what is below a directory, the one with the longer directory is
/// the more specific; both are more specific than the catch-all patterns; and a
/// pattern without a star is more specific than every one of at most 1000 bytes that
/// begins or ends with a star.
pub proof fn lemma_specificity_order(a: Seq<char>, b: Seq<char>, e: Seq<char>, w: Seq<char>)
    requires
        a.len() > 0 && !a.contains('*'),
        b.len() > 0 && !b.contains('*'),
        e.len() > 0 && !e.contains('*'),
        vstd::utf8::encode_utf8(a).len() > vstd::utf8::encode_utf8(b).len(),
        vstd::utf8::encode_utf8(a).len() < usize::MAX,
        w.len() > 0 && (w[0] == '*' || w.last() == '*'),
        vstd::utf8::encode_utf8(w).len() <= 1000,
    ensures
        capped(specificity(a + "/*"@)) > capped(specificity(b + "/*"@)),
        capped(specificity(b + "/*"@)) > 0,
        specificity("/*"@) == 0,
        specificity("*"@) == 0,
        capped(specificity(e)) > capped(specificity(w)),
{
    lemma_below(a);
    lemma_below(b);
    lemma_exact_most_specific(e, w);
}

/// A pattern without a star is more specific than every one of at most 1000 bytes that
/// begins or ends with a star.
pub proof fn lemma_exact_most_specific(e: Seq<char>, w: Seq<char>)
    requires
        e.len() > 0 && !e.contains('*'),
        w.len() > 0 && (w[0] == '*' || w.last() == '*'),
        vstd::utf8::encode_utf8(w).len() <= 1000,
    ensures
        capped(specificity(e)) > capped(specificity(w)),
{
    reveal_strlit("/*");
    reveal_strlit("*");
    lemma_some_byte(e);
    assert(e.contains(e[0]) && e.contains(e.last()));
    if text::begins(e, "*"@) {
        assert(e.subrange(0, 1)[0] == e[0]);
    }
    if e.len() >= 2 && e.subrange(e.len() - 2, e.len() as int) =~= "/*"@ {
        assert(e.subrange(e.len() - 2, e.len() as int)[1] == e.last());
    }
    if text::ends(e, "*"@) {
        assert(e.subrange(e.len() - 1, e.len() as int)[0] == e.last());
    }
    assert(specificity(e) == vstd::utf8::encode_utf8(e).len() + 1000);
    if w[0] == '*' {
        assert(w.subrange(0, 1) =~= "*"@);
    } else {
        assert(w.subrange(w.len() - 1, w.len() as int) =~= "*"@);
        if let Some(dir) = text::before_suffix(w, "/*"@) {
            assert(w =~= dir + "/*"@);
            lemma_bytes_add(dir, "/*"@);
            lemma_some_byte("/*"@);
        }
    }
}

/// The bytes of two texts in a row.
proof fn lemma_bytes_add(a: Seq<char>, b: Seq<char>)
    ensures
        vstd::utf8::encode_utf8(a + b).len() == vstd::utf8::encode_utf8(a).len()
            + vstd::utf8::encode_utf8(b).len(),
    decreases a.len(),
{
    if a.len() == 0 {
        assert(a + b =~= b);
    } else {
        assert((a + b).drop_first() =~= a.drop_first() + b);
        lemma_bytes_add(a.drop_first(), b);
    }
}

/// The catch-all patterns cover every path.
pub proof fn lemma_catch_all_covers(path: Seq<char>)
    ensures
        covers("/*"@, path),
        covers("*"@, path),
{
}

/// A pattern for a directory covers the directory itself and whatever is below it, at
/// any depth, and nothing else.
pub proof fn lemma_directory_covers(d: Seq<char>, p: Seq<char>)
    requires
        d.len() > 0,
        d[0] != '*',
    ensures
        covers(d + seq!['/', '*'], d),
        forall|t: Seq<char>| covers(d + seq!['/', '*'], #[trigger] (d + seq!['/'] + t)),
        covers(d + seq!['/', '*'], p) ==> p == d || (p.len() > d.len() && p.take(d.len() as int) == d
            && p[d.len() as int] == '/'),
{
    reveal_strlit("/*");
    reveal_strlit("/");
    reveal_strlit("*");
    reveal_strlit("**");
    let w = d + seq!['/', '*'];
    assert(w[0] == d[0]);
    assert(w.len() != "/*"@.len());
    assert(w.subrange(0, 1)[0] == w[0]);
    assert(w.subrange(w.len() - 2, w.len() as int) =~= "/*"@);
    assert(w.subrange(0, w.len() - 2) =~= d);
    assert(w.take(w.len() - 2) =~= d);
    let below = d + "/"@;
    assert(seq!['/'] =~= "/"@);
    assert forall|t: Seq<char>| covers(w, #[trigger] (d + seq!['/'] + t)) by {
        let q = d + seq!['/'] + t;
        assert(q.subrange(0, below.len() as int) =~= below);
    }
    if text::begins(p, below) {
        assert(p.subrange(0, below.len() as int) =~= below);
        assert(p.take(d.len() as int) =~= below.take(d.len() as int));
        assert(below.take(d.len() as int) =~= d);
        assert(p[d.len() as int] == below[d.len() as int]);
    }
}

/// A pattern that begins with a single star covers the paths that end with what is
/// behind the star, and no others.
pub proof fn lemma_suffix_covers(x: Seq<char>, p: Seq<char>)
    requires
        x.len() == 0 || x[0] != '*',
    ensures
        forall|t: Seq<char>| covers(seq!['*'] + x, #[trigger] (t + x)),
        covers(seq!['*'] + x, p) ==> p.len() >= x.len() && p.skip(p.len() - x.len()) == x,
{
    reveal_strlit("/*");
    reveal_strlit("*");
    reveal_strlit("**");
    let w = seq!['*'] + x;
    assert(w[0] == '*');
    assert(w.subrange(0, 1) =~= "*"@);
    assert(w.skip(1) =~= x);
    if w.len() >= 2 {
        assert(w.subrange(0, 2)[1] == x[0]);
    }
    if x.len() == 0 {
        assert(w =~= "*"@);
        assert(p.skip(p.len() - x.len()) =~= x);
    }
    assert forall|t: Seq<char>| covers(w, #[trigger] (t + x)) by {
        let q = t + x;
        assert(q.subrange(q.len() - x.len(), q.len() as int) =~= x);
    }
    if text::ends(p, x) {
        assert(p.skip(p.len() - x.len()) =~= p.subrange(p.len() - x.len(), p.len() as int));
    }
}

/// A pattern that ends with a star and does not stand for a directory covers the paths
/// that begin with what is before the star, and no others.
pub proof fn lemma_prefix_covers(x: Seq<char>, p: Seq<char>)
    requires
        x.len() > 0,
        x[0] != '*',
        x.last() != '/',
    ensures
        forall|t: Seq<char>| covers(x + seq!['*'], #[trigger] (x + t)),
        covers(x + seq!['*'], p) ==> p.len() >= x.len() && p.take(x.len() as int) == x,
{
    reveal_strlit("/*");
    reveal_strlit("*");
    reveal_strlit("**");
    let w = x + seq!['*'];
    assert(w[0] == x[0]);
    assert(w.subrange(0, 1)[0] == w[0]);
    assert(w.subrange(w.len() - 2, w.len() as int)[0] == x.last());
    assert(w.subrange(w.len() - 1, w.len() as int) =~= "*"@);
    assert(w.drop_last() =~= x);
    assert forall|t: Seq<char>| covers(w, #[trigger] (x + t)) by {
        let q = x + t;
        assert(q.subrange(0, x.len() as int) =~= x);
    }
    if text::begins(p, x) {
        assert(p.take(x.len() as int) =~= p.subrange(0, x.len() as int));
    }
}

/// A pattern that neither begins nor ends with a star covers itself alone.
pub proof fn lemma_exact_covers(e: Seq<char>, p: Seq<char>)
    requires
        e.len() > 0 ==> e[0] != '*' && e.last() != '*',
    ensures
        covers(e, p) <==> p == e,
{
    reveal_strlit("/*");
    reveal_strlit("*");
    reveal_strlit("**");
    if text::begins(e, "*"@) {
        assert(e.subrange(0, 1)[0] == e[0]);
    }
    if text::ends(e, "/*"@) {
        assert(e.subrange(e.len() - 2, e.len() as int)[1] == e.last());
    }
    if text::ends(e, "*"@) {
        assert(e.subrange(e.len() - 1, e.len() as int)[0] == e.last());
    }
    if e.len() > 0 {
        assert("/*"@.last() == '*' && "*"@.last() == '*');
    }
}

// ---------------------------------------------------------------------------
// Query parameters
// ---------------------------------------------------------------------------

/// The `key=value` pair `pair` gives the parameter `key`, with the value `value`
/// where one is asked for.
pub open spec fn pair_gives(pair: Seq<char>, key: Seq<char>, value: Option<Seq<char>>) -> bool {
    &&& pair.len() > 0
    &&& match text::cut(pair, '=') {
        Some((k, v)) => k == key && (value is None || value == Some(v)),
        None => pair == key && value is None,
    }
}

/// Some pair of the query gives the parameter.
pub open spec fn query_gives(query: Seq<char>, key: Seq<char>, value: Option<Seq<char>>) -> bool {
    exists|i: int|
        0 <= i < text::pieces(query, '&').len() && pair_gives(
            #[trigger] text::pieces(query, '&')[i],
            key,
            value,
        )
}

/// Check if a query string contains a parameter with the given key
/// (and optionally value).
pub fn match_query_param(query: &str, key: &str, value: Option<&str>) -> (r: bool)
    ensures
        r == query_gives(query@, key@, value.deep_view()),
{
    let pairs = text::split(query, '&');
    let ghost pv = text::pieces(query@, '&');
    for i in 0..pairs.len()
        invariant
            pairs.deep_view() == pv,
            pv == text::pieces(query@, '&'),
            forall|j: int| 0 <= j < i ==> !pair_gives(#[trigger] pv[j], key@, value.deep_view()),
    {
        let pair: &str = pairs[i].as_str();
        assert(pair@ == pv[i as int]);
        let found: bool = !pair.is_empty() && match text::split_once(pair, '=') {
            Some((k, v)) => text::same(k.as_str(), key) && match value {
                None => true,
                Some(expected) => text::same(v.as_str(), expected),
            },
            None => text::same(pair, key) && value.is_none(),
        };
        if found {
            assert(pair_gives(pv[i as int], key@, value.deep_view()));
            return true;
        }
    }
    false
}

/// A query gives a parameter its value exactly where one of the parts that the
/// ampersands divide it into is the name, `=` and the value; it gives the parameter
/// whatever its value where such a part is the name alone or begins with the name and
/// `=`.
pub proof fn lemma_query_parameter(ps: Seq<Seq<char>>, key: Seq<char>, value: Seq<char>)
    requires
        ps.len() > 0,
        forall|i: int| 0 <= i < ps.len() ==> !(#[trigger] ps[i]).contains('&'),
        key.len() > 0,
        !key.contains('='),
    ensures
        query_gives(text::joined(ps, seq!['&']), key, Some(value)) <==> ps.contains(
            key + seq!['='] + value,
        ),
        query_gives(text::joined(ps, seq!['&']), key, None) <==> (ps.contains(key) || exists|
            i: int,
            v: Seq<char>,
        |
            0 <= i < ps.len() && #[trigger] ps[i] == #[trigger] (key + seq!['='] + v)),
{
    let q = text::joined(ps, seq!['&']);
    text::lemma_pieces_of_joined(ps, '&');
    let l = text::pieces(q, '&');
    assert(l == ps);
    assert forall|i: int| 0 <= i < ps.len() implies (pair_gives(#[trigger] l[i], key, Some(value))
        <==> ps[i] == key + seq!['='] + value) && (pair_gives(l[i], key, None) <==> (ps[i] == key
        || exists|v: Seq<char>| ps[i] == #[trigger] (key + seq!['='] + v))) by {
        let x = ps[i];
        text::lemma_char_at(x, '=', 0);
        if exists|v: Seq<char>| x == #[trigger] (key + seq!['='] + v) {
            let v = choose|v: Seq<char>| x == #[trigger] (key + seq!['='] + v);
            assert(x[key.len() as int] == '=');
            match text::char_at(x, '=', 0) {
                Some(j) => {
                    if j < key.len() {
                        assert(x[j] == key[j]);
                        assert(key.contains(key[j]));
                    }
                    assert(x.take(j) =~= key);
                    assert(x.skip(j + 1) =~= v);
                },
                None => {},
            }
        }
        if x == key + seq!['='] + value {
            assert(x.skip(key.len() as int + 1) =~= value);
        }
        match text::char_at(x, '=', 0) {
            Some(j) => {
                assert(x =~= x.take(j) + seq!['='] + x.skip(j + 1));
                if x.take(j) == key {
                    assert(x == key + seq!['='] + x.skip(j + 1));
                }
                if x == key {
                    assert(key.contains(key[j]));
                }
            },
            None => {},
        }
    }
    if ps.contains(key + seq!['='] + value) {
        let i = choose|i: int| 0 <= i < ps.len() && ps[i] == key + seq!['='] + value;
        assert(pair_gives(l[i], key, Some(value)));
    }
    if ps.contains(key) {
        let i = choose|i: int| 0 <= i < ps.len() && ps[i] == key;
        assert(pair_gives(l[i], key, None));
    }
    if exists|i: int, v: Seq<char>|
        0 <= i < ps.len() && #[trigger] ps[i] == #[trigger] (key + seq!['='] + v) {
        let (i, v) = choose|i: int, v: Seq<char>|
            0 <= i < ps.len() && #[trigger] ps[i] == #[trigger] (key + seq!['='] + v);
        assert(pair_gives(l[i], key, None));
    }
    if query_gives(q, key, None) {
        let i = choose|i: int| 0 <= i < l.len() && pair_gives(#[trigger] l[i], key, None);
        if ps[i] != key {
            let v = choose|v: Seq<char>| ps[i] == #[trigger] (key + seq!['='] + v);
            assert(0 <= i < ps.len() && ps[i] == (key + seq!['='] + v));
        }
    }
}

// ---------------------------------------------------------------------------
// Address ranges
// ---------------------------------------------------------------------------

/// The address `ip` lies in the range `cidr`: a network with a prefix length
/// of the same version, or one address.
pub open spec fn in_range(cidr: Seq<char>, ip: IpAddr) -> bool {
    match text::cut(cidr, '/') {
        Some((network, prefix)) => match (
            net::ip_of(network),
            text::number(prefix, u32::MAX as nat),
        ) {
            (Some(IpAddr::V4(n)), Some(p)) => ip matches IpAddr::V4(a) && net::same_v4_prefix(a, n, p),
            (Some(IpAddr::V6(n)), Some(p)) => ip matches IpAddr::V6(a) && net::same_v6_prefix(a, n, p),
            _ => false,
        },
        None => net::ip_of(cidr) == Some(ip),
    }
}

/// Public re-export of CIDR matching used by the router condition evaluator.
pub fn match_cidr_pub(cidr: &str, ip: &IpAddr) -> (r: bool)
    ensures
        r == in_range(cidr@, *ip),
{
    match_cidr(cidr, ip)
}

/// Match an IP address against a CIDR range.
pub fn match_cidr(cidr: &str, ip: &IpAddr) -> (r: bool)
    ensures
        r == in_range(cidr@, *ip),
{
    match text::split_once(cidr, '/') {
        Some((network, prefix)) => {
            match (
                net::parse_ip(network.as_str()),
                text::parse_number(prefix.as_str(), u32::MAX as u64),
                *ip,
            ) {
                (Some(IpAddr::V4(n)), Some(p), IpAddr::V4(a)) => p <= 32 && net::v4_prefix_matches(
                    a,
                    n,
                    p as u32,
                ),
                (Some(IpAddr::V6(n)), Some(p), IpAddr::V6(a)) => p <= 128 && net::v6_prefix_matches(
                    a,
                    n,
                    p as u32,
                ),
                _ => false,
            }
        },
        None => match net::parse_ip(cidr) {
            Some(expected) => expected == *ip,
            None => false,
        },
    }
}

/// The address lies in one of the ranges.
pub open spec fn in_ranges(cidrs: Seq<Seq<char>>, ip: IpAddr) -> bool {
    exists|i: int| 0 <= i < cidrs.len() && in_range(#[trigger] cidrs[i], ip)
}

/// Match an IP address against some CIDR ranges.
pub fn match_any_cidr(cidrs: &Vec<String>, ip: &IpAddr) -> (r: bool)
    ensures
        r == in_ranges(cidrs.deep_view(), *ip),
{
    for i in 0..cidrs.len()
        invariant
            forall|j: int| 0 <= j < i ==> !in_range(#[trigger] cidrs.deep_view()[j], *ip),
    {
        assert(cidrs.deep_view()[i as int] == cidrs@[i as int]@);
        if match_cidr(cidrs[i].as_str(), ip) {
            return true;
        }
    }
    false
}

// ---------------------------------------------------------------------------
// Expressions
// ---------------------------------------------------------------------------

/// Accepts the braces around the name of a variable.
pub open spec fn brace() -> spec_fn(char) -> bool {
    |c: char| c == '{' || c == '}'
}

/// The value of a variable of an expression; an unknown one is empty.
pub open spec fn variable(
    var: Seq<char>,
    req: message::RequestView,
    client: message::ClientView,
) -> Seq<char> {
    let name = text::trimmed_end(text::trimmed_start(var, brace()), brace());
    if name == "method"@ {
        req.method
    } else if name == "path"@ {
        req.uri.path()
    } else if name == "host"@ {
        message::field_or(req.headers, "host"@, ""@)
    } else if name == "remote_ip"@ {
        client.ip_text
    } else if name == "scheme"@ || name == "protocol"@ {
        req.uri.scheme_text()
    } else if name == "query"@ {
        req.uri.query_text()
    } else {
        ""@
    }
}

/// The operator of a condition.
pub enum Operator {
    Differs,
    Equals,
    Globs,
}

/// A condition taken apart: the operator, what stands before it and after it.
pub open spec fn condition_parts(cond: Seq<char>) -> Option<(Seq<char>, Operator, Seq<char>)> {
    match text::first_at(cond, "!="@, 0) {
        Some(i) => Some(
            (text::trimmed(cond.take(i)), Operator::Differs, text::trimmed(cond.skip(i + 2))),
        ),
        None => match text::first_at(cond, "=="@, 0) {
            Some(i) => Some(
                (text::trimmed(cond.take(i)), Operator::Equals, text::trimmed(cond.skip(i + 2))),
            ),
            None => match text::first_at(cond, "~"@, 0) {
                Some(i) => Some(
                    (text::trimmed(cond.take(i)), Operator::Globs, text::trimmed(cond.skip(i + 1))),
                ),
                None => None,
            },
        },
    }
}

/// A single condition `{variable} operator value` holds of the request.
pub open spec fn condition_holds(
    cond: Seq<char>,
    req: message::RequestView,
    client: message::ClientView,
) -> bool {
    match condition_parts(cond) {
        None => false,
        Some((var, op, value)) => {
            let resolved = variable(var, req, client);
            match op {
                Operator::Differs => resolved != value,
                Operator::Equals => resolved == value,
                Operator::Globs => crate::glob::matching(
                    vstd::utf8::encode_utf8(value),
                    vstd::utf8::encode_utf8(resolved),
                ),
            }
        },
    }
}

/// Every condition of a conjunction holds.
pub open spec fn conjunction_holds(
    s: Seq<char>,
    req: message::RequestView,
    client: message::ClientView,
) -> bool {
    forall|i: int|
        0 <= i < text::parts(s, "&&"@).len() ==> condition_holds(
            text::trimmed(#[trigger] text::parts(s, "&&"@)[i]),
            req,
            client,
        )
}

/// Some alternative of the expression holds.
pub open spec fn expression_holds(
    s: Seq<char>,
    req: message::RequestView,
    client: message::ClientView,
) -> bool {
    exists|i: int|
        0 <= i < text::parts(s, "||"@).len() && conjunction_holds(
            #[trigger] text::parts(s, "||"@)[i],
            req,
            client,
        )
}

/// Drops braces at both ends.
fn trim_braces(s: &str) -> (r: String)
    ensures
        r@ == text::trimmed_end(text::trimmed_start(s@, brace()), brace()),
{
    let v = text::chars(s);
    let mut i: usize = 0;
    while i < v.len() && (v[i] == '{' || v[i] == '}')
        invariant
            i <= v@.len(),
            text::lead(v@, brace(), 0) == text::lead(v@, brace(), i as int),
        decreases v@.len() - i,
    {
        i += 1;
    }
    let rest = text::chars(text::string_of(&v, i, v.len()).as_str());
    assert(rest@ =~= text::trimmed_start(s@, brace()));
    let mut n: usize = rest.len();
    while n > 0 && (rest[n - 1] == '{' || rest[n - 1] == '}')
        invariant
            n <= rest@.len(),
            text::tail(rest@, brace(), rest@.len() as int) == text::tail(rest@, brace(), n as int),
        decreases n,
    {
        n -= 1;
    }
    let r = text::string_of(&rest, 0, n);
    assert(r@ =~= rest@.take(n as int));
    r
}

/// The value of a variable of an expression.
pub fn resolve_variable(var: &str, req: &Request, client: &ClientAddr) -> (r: String)
    ensures
        r@ == variable(var@, req.deep_view(), client.deep_view()),
{
    let name = trim_braces(var);
    let name: &str = name.as_str();
    if text::same(name, "method") {
        req.method.clone()
    } else if text::same(name, "path") {
        req.uri.path()
    } else if text::same(name, "host") {
        req.headers.text_or("host", "")
    } else if text::same(name, "remote_ip") {
        client.ip_text.clone()
    } else if text::same(name, "scheme") || text::same(name, "protocol") {
        req.uri.scheme_text()
    } else if text::same(name, "query") {
        req.uri.query_text()
    } else {
        "".to_owned()
    }
}

/// A condition taken apart.
fn split_condition(cond: &str) -> (r: Option<(String, Operator, String)>)
    ensures
        match r {
            Some((var, op, value)) => condition_parts(cond@) == Some((var@, op, value@)),
            None => condition_parts(cond@) is None,
        },
{
    let v = text::chars(cond);
    proof {
        reveal_strlit("!=");
        reveal_strlit("==");
        reveal_strlit("~");
    }
    let (found, op): (Option<usize>, Operator) = match text::find_in(&v, &text::chars("!="), 0) {
        Some(i) => (Some(i), Operator::Differs),
        None => match text::find_in(&v, &text::chars("=="), 0) {
            Some(i) => (Some(i), Operator::Equals),
            None => (text::find_in(&v, &text::chars("~"), 0), Operator::Globs),
        },
    };
    let width: usize = match op {
        Operator::Globs => 1,
        _ => 2,
    };
    match found {
        Some(i) => {
            let left = text::string_of(&v, 0, i);
            let right = text::string_of(&v, i + width, v.len());
            assert(left@ =~= cond@.take(i as int));
            assert(right@ =~= cond@.skip(i + width));
            Some((text::trim(left.as_str()), op, text::trim(right.as_str())))
        },
        None => None,
    }
}

/// Evaluates a single condition.
pub fn eval_single_condition(cond: &str, req: &Request, client: &ClientAddr) -> (r: bool)
    ensures
        r == condition_holds(cond@, req.deep_view(), client.deep_view()),
{
    match split_condition(cond) {
        None => false,
        Some((var, op, value)) => {
            let resolved = resolve_variable(var.as_str(), req, client);
            match op {
                Operator::Differs => resolved != value,
                Operator::Equals => resolved == value,
                Operator::Globs => glob_matches(value.as_str(), resolved.as_str()),
            }
        },
    }
}

/// Evaluates the conditions of a conjunction.
fn eval_conjunction(s: &str, req: &Request, client: &ClientAddr) -> (r: bool)
    ensures
        r == conjunction_holds(s@, req.deep_view(), client.deep_view()),
{
    proof {
        reveal_strlit("&&");
    }
    let parts = text::split_str(s, "&&");
    let ghost pv = text::parts(s@, "&&"@);
    for i in 0..parts.len()
        invariant
            parts.deep_view() == pv,
            pv == text::parts(s@, "&&"@),
            forall|j: int|
                0 <= j < i ==> condition_holds(
                    text::trimmed(#[trigger] pv[j]),
                    req.deep_view(),
                    client.deep_view(),
                ),
    {
        assert(parts@[i as int]@ == pv[i as int]);
        if !eval_single_condition(text::trim(parts[i].as_str()).as_str(), req, client) {
            return false;
        }
    }
    true
}

/// Evaluate a simple expression against a request.
///
/// Supported tokens:
/// - `{method}` — HTTP method
/// - `{path}` — request path
/// - `{host}` — Host header
/// - `{remote_ip}` — client IP
///
/// Operators:
/// - `==` — exact equality
/// - `!=` — inequality
/// - `~` — glob match
///
/// Combinators:
/// - `&&` — logical AND
/// - `||` — logical OR
pub fn eval_expression(expr: &str, req: &Request, client: &ClientAddr) -> (r: bool)
    ensures
        r == expression_holds(expr@, req.deep_view(), client.deep_view()),
{
    proof {
        reveal_strlit("||");
    }
    let parts = text::split_str(expr, "||");
    let ghost pv = text::parts(expr@, "||"@);
    for i in 0..parts.len()
        invariant
            parts.deep_view() == pv,
            pv == text::parts(expr@, "||"@),
            forall|j: int|
                0 <= j < i ==> !conjunction_holds(
                    #[trigger] pv[j],
                    req.deep_view(),
                    client.deep_view(),
                ),
    {
        assert(parts@[i as int]@ == pv[i as int]);
        if eval_conjunction(parts[i].as_str(), req, client) {
            return true;
        }
    }
    false
}

// ---------------------------------------------------------------------------
// Languages and cookies
// ---------------------------------------------------------------------------

/// The language tag of one entry of an `Accept-Language` field, without its
/// quality value.
pub open spec fn language_tag(entry: Seq<char>) -> Seq<char> {
    text::trimmed(text::before(entry, ';'))
}

/// The accepted tag is the configured language or a variant of it.
pub open spec fn language_fits(configured: Seq<char>, tag: Seq<char>) -> bool {
    let (c, a) = (text::lower_case(configured), text::lower_case(tag));
    tag.len() > 0 && (a == c || text::begins(a, c + "-"@))
}

/// Some entry of the `Accept-Language` field fits the configured language.
pub open spec fn language_accepted(configured: Seq<char>, field: Seq<char>) -> bool {
    exists|j: int|
        0 <= j < text::pieces(field, ',').len() && language_fits(
            configured,
            language_tag(#[trigger] text::pieces(field, ',')[j]),
        )
}

/// Tells whether some entry of the field fits the configured language.
fn accepts_language(configured: &str, field: &str) -> (r: bool)
    ensures
        r == language_accepted(configured@, field@),
{
    let entries = text::split(field, ',');
    let ghost ev = text::pieces(field@, ',');
    let c = text::to_lowercase(configured);
    for j in 0..entries.len()
        invariant
            entries.deep_view() == ev,
            ev == text::pieces(field@, ','),
            c@ == text::lower_case(configured@),
            forall|k: int| 0 <= k < j ==> !language_fits(configured@, language_tag(#[trigger] ev[k])),
    {
        assert(entries@[j as int]@ == ev[j as int]);
        let tag = text::trim(text::before_char(entries[j].as_str(), ';').as_str());
        if !tag.as_str().is_empty() {
            let a = text::to_lowercase(tag.as_str());
            if a == c || text::starts_with(a.as_str(), text::join(c.as_str(), "-").as_str()) {
                assert(language_fits(configured@, language_tag(ev[j as int])));
                return true;
            }
        }
    }
    false
}

/// The value that one `name=value` pair of a cookie header gives the cookie.
pub open spec fn cookie_in_pair(pair: Seq<char>, name: Seq<char>) -> Option<Seq<char>> {
    match text::cut(text::trimmed(pair), '=') {
        Some((k, v)) => if text::trimmed(k) == name {
            Some(text::trimmed(v))
        } else {
            None
        },
        None => None,
    }
}

/// The value that the first pair from `i` on gives the cookie.
pub open spec fn cookie_in_pairs(pairs: Seq<Seq<char>>, name: Seq<char>, i: int) -> Option<Seq<char>>
    decreases pairs.len() - i,
{
    if i < 0 || i >= pairs.len() {
        None
    } else {
        match cookie_in_pair(pairs[i], name) {
            Some(v) => Some(v),
            None => cookie_in_pairs(pairs, name, i + 1),
        }
    }
}

/// The value of the cookie in the fields from `i` on: the first pair with its
/// name in the `Cookie` fields that can be shown as text.
pub open spec fn cookie_from(h: message::Fields, name: Seq<char>, i: int) -> Option<Seq<char>>
    decreases h.len() - i,
{
    if i < 0 || i >= h.len() {
        None
    } else if h[i].0 == "cookie"@ && message::value_text(h[i].1) is Some {
        match cookie_in_pairs(text::pieces(message::value_text(h[i].1)->0, ';'), name, 0) {
            Some(v) => Some(v),
            None => cookie_from(h, name, i + 1),
        }
    } else {
        cookie_from(h, name, i + 1)
    }
}

/// The value of a cookie.
pub open spec fn cookie_of(h: message::Fields, name: Seq<char>) -> Option<Seq<char>> {
    cookie_from(h, name, 0)
}

/// The value that the pairs of one cookie header give the cookie.
fn cookie_in(header: &str, name: &str) -> (r: Option<String>)
    ensures
        r.deep_view() == cookie_in_pairs(text::pieces(header@, ';'), name@, 0),
{
    let pairs = text::split(header, ';');
    let ghost pv = text::pieces(header@, ';');
    for i in 0..pairs.len()
        invariant
            pairs.deep_view() == pv,
            pv == text::pieces(header@, ';'),
            cookie_in_pairs(pv, name@, 0) == cookie_in_pairs(pv, name@, i as int),
    {
        assert(pairs@[i as int]@ == pv[i as int]);
        match text::split_once(text::trim(pairs[i].as_str()).as_str(), '=') {
            Some((k, v)) => {
                if text::same(text::trim(k.as_str()).as_str(), name) {
                    return Some(text::trim(v.as_str()));
                }
            },
            None => {},
        }
    }
    None
}

/// Extract a cookie value from the `Cookie` header(s).
pub fn extract_cookie(headers: &Headers, name: &str) -> (r: Option<String>)
    ensures
        r.deep_view() == cookie_of(headers.deep_view(), name@),
{
    let ghost h = headers.deep_view();
    for i in 0..headers.entries.len()
        invariant
            h == headers.deep_view(),
            cookie_of(h, name@) == cookie_from(h, name@, i as int),
    {
        proof {
            assert(h[i as int].0 == headers.entries@[i as int].0@);
            assert(headers.entries@[i as int].1.deep_view() =~= headers.entries@[i as int].1@);
        }
        if text::same(headers.entries[i].0.as_str(), "cookie") {
            match message::visible_text(&headers.entries[i].1) {
                Some(header) => match cookie_in(header.as_str(), name) {
                    Some(v) => {
                        return Some(v);
                    },
                    None => {},
                },
                None => {},
            }
        }
    }
    None
}

// ---------------------------------------------------------------------------
// Request matchers
// ---------------------------------------------------------------------------

/// What a request matcher tests, over plain texts.
#[verifier::ext_equal]
pub enum MatcherView {
    Path(Seq<char>),
    Method(Seq<Seq<char>>),
    Header { name: Seq<char>, pattern: Seq<char> },
    HeaderRegex { name: Seq<char>, regex: Seq<char> },
    Cookie { name: Seq<char>, pattern: Seq<char> },
    Query { key: Seq<char>, value: Option<Seq<char>> },
    RemoteIp(Seq<Seq<char>>),
    Protocol(Seq<char>),
    Expression(Seq<char>),
    Not(Box<MatcherView>),
    And(Seq<MatcherView>),
    Or(Seq<MatcherView>),
    Language(Seq<Seq<char>>),
}

/// A composable request matcher that can test various aspects of an incoming
/// HTTP request.  Matchers can be combined with `And`, `Or`, and `Not`.
#[derive(Debug, PartialEq, Eq)]
pub enum RequestMatcher {
    /// Match the request path using glob-style patterns.
    Path(String),
    /// Match the HTTP method (e.g. `["GET", "POST"]`).
    Method(Vec<String>),
    /// Match a header value with glob pattern (e.g. `name="X-Custom"`, `pattern="foo*"`).
    Header { name: String, pattern: String },
    /// Match a header value with regex-like glob pattern.
    HeaderRegex { name: String, regex: String },
    /// Match the value of a cookie with glob pattern.
    Cookie { name: String, pattern: String },
    /// Match a query parameter.  If `value` is `None`, just check presence.
    Query { key: String, value: Option<String> },
    /// Match client IP against CIDR ranges (e.g. `["192.168.0.0/16", "10.0.0.0/8"]`).
    RemoteIp(Vec<String>),
    /// Match the protocol/scheme (e.g. `"https"`, `"http"`).
    Protocol(String),
    /// Simple expression matcher: `"{method} == GET && {path} ~ /api/*"`.
    Expression(String),
    /// Logical NOT.
    Not(Box<RequestMatcher>),
    /// Logical AND: all must match.
    And(Vec<RequestMatcher>),
    /// Logical OR: at least one must match.
    Or(Vec<RequestMatcher>),
    /// Match the Accept-Language header against a list of language tags.
    /// Uses case-insensitive prefix matching (e.g. "en" matches "en-US").
    Language(Vec<String>),
}

/// The plain texts of a matcher.
pub open spec fn matcher_view(m: RequestMatcher) -> MatcherView
    decreases m,
{
    match m {
        RequestMatcher::Path(p) => MatcherView::Path(p@),
        RequestMatcher::Method(p) => MatcherView::Method(p.deep_view()),
        RequestMatcher::Header { name, pattern } => MatcherView::Header {
            name: name@,
            pattern: pattern@,
        },
        RequestMatcher::HeaderRegex { name, regex } => MatcherView::HeaderRegex {
            name: name@,
            regex: regex@,
        },
        RequestMatcher::Cookie { name, pattern } => MatcherView::Cookie {
            name: name@,
            pattern: pattern@,
        },
        RequestMatcher::Query { key, value } => MatcherView::Query {
            key: key@,
            value: value.deep_view(),
        },
        RequestMatcher::RemoteIp(p) => MatcherView::RemoteIp(p.deep_view()),
        RequestMatcher::Protocol(p) => MatcherView::Protocol(p@),
        RequestMatcher::Expression(p) => MatcherView::Expression(p@),
        RequestMatcher::Not(p) => MatcherView::Not(Box::new(matcher_view(*p))),
        RequestMatcher::And(p) => MatcherView::And(
            Seq::new(
                p@.len(),
                |i: int|
                    if 0 <= i < p@.len() {
                        matcher_view(p@[i])
                    } else {
                        MatcherView::Path(seq![])
                    },
            ),
        ),
        RequestMatcher::Or(p) => MatcherView::Or(
            Seq::new(
                p@.len(),
                |i: int|
                    if 0 <= i < p@.len() {
                        matcher_view(p@[i])
                    } else {
                        MatcherView::Path(seq![])
                    },
            ),
        ),
        RequestMatcher::Language(p) => MatcherView::Language(p.deep_view()),
    }
}

impl DeepView for RequestMatcher {
    type V = MatcherView;

    open spec fn deep_view(&self) -> MatcherView {
        matcher_view(*self)
    }
}

/// A matcher that tests the same.
pub fn copy_matcher(m: &RequestMatcher) -> (r: RequestMatcher)
    ensures
        r.deep_view() == m.deep_view(),
    decreases m,
{
    match m {
        RequestMatcher::Path(p) => RequestMatcher::Path(p.clone()),
        RequestMatcher::Method(p) => RequestMatcher::Method(p.duplicate()),
        RequestMatcher::Header { name, pattern } => RequestMatcher::Header {
            name: name.clone(),
            pattern: pattern.clone(),
        },
        RequestMatcher::HeaderRegex { name, regex } => RequestMatcher::HeaderRegex {
            name: name.clone(),
            regex: regex.clone(),
        },
        RequestMatcher::Cookie { name, pattern } => RequestMatcher::Cookie {
            name: name.clone(),
            pattern: pattern.clone(),
        },
        RequestMatcher::Query { key, value } => RequestMatcher::Query {
            key: key.clone(),
            value: value.duplicate(),
        },
        RequestMatcher::RemoteIp(p) => RequestMatcher::RemoteIp(p.duplicate()),
        RequestMatcher::Protocol(p) => RequestMatcher::Protocol(p.clone()),
        RequestMatcher::Expression(p) => RequestMatcher::Expression(p.clone()),
        RequestMatcher::Not(p) => RequestMatcher::Not(Box::new(copy_matcher(p))),
        RequestMatcher::And(p) => {
            let q = copy_matchers(p);
            let r = RequestMatcher::And(q);
            assert(r.deep_view()->And_0 =~= q.deep_view());
            assert(m.deep_view()->And_0 =~= p.deep_view());
            r
        },
        RequestMatcher::Or(p) => {
            let q = copy_matchers(p);
            let r = RequestMatcher::Or(q);
            assert(r.deep_view()->Or_0 =~= q.deep_view());
            assert(m.deep_view()->Or_0 =~= p.deep_view());
            r
        },
        RequestMatcher::Language(p) => RequestMatcher::Language(p.duplicate()),
    }
}

/// Matchers that test the same.
fn copy_matchers(ms: &Vec<RequestMatcher>) -> (r: Vec<RequestMatcher>)
    ensures
        r.deep_view() == ms.deep_view(),
    decreases ms,
{
    let mut r: Vec<RequestMatcher> = Vec::new();
    for i in 0..ms.len()
        invariant
            r@.len() == i,
            forall|j: int| 0 <= j < i ==> (#[trigger] r@[j]).deep_view() == ms@[j].deep_view(),
    {
        r.push(copy_matcher(&ms[i]));
    }
    assert(r.deep_view() =~= ms.deep_view());
    r
}

/// Tells whether two matchers test the same.
pub fn same_matcher(a: &RequestMatcher, b: &RequestMatcher) -> (r: bool)
    ensures
        r == (a.deep_view() == b.deep_view()),
    decreases a,
{
    match (a, b) {
        (RequestMatcher::Path(p), RequestMatcher::Path(q)) => p.same_as(q),
        (RequestMatcher::Method(p), RequestMatcher::Method(q)) => p.same_as(q),
        (
            RequestMatcher::Header { name: n1, pattern: p1 },
            RequestMatcher::Header { name: n2, pattern: p2 },
        ) => n1.same_as(n2) && p1.same_as(p2),
        (
            RequestMatcher::HeaderRegex { name: n1, regex: p1 },
            RequestMatcher::HeaderRegex { name: n2, regex: p2 },
        ) => n1.same_as(n2) && p1.same_as(p2),
        (
            RequestMatcher::Cookie { name: n1, pattern: p1 },
            RequestMatcher::Cookie { name: n2, pattern: p2 },
        ) => n1.same_as(n2) && p1.same_as(p2),
        (
            RequestMatcher::Query { key: k1, value: v1 },
            RequestMatcher::Query { key: k2, value: v2 },
        ) => k1.same_as(k2) && v1.same_as(v2),
        (RequestMatcher::RemoteIp(p), RequestMatcher::RemoteIp(q)) => p.same_as(q),
        (RequestMatcher::Protocol(p), RequestMatcher::Protocol(q)) => p.same_as(q),
        (RequestMatcher::Expression(p), RequestMatcher::Expression(q)) => p.same_as(q),
        (RequestMatcher::Not(p), RequestMatcher::Not(q)) => same_matcher(p, q),
        (RequestMatcher::And(p), RequestMatcher::And(q)) => {
            assert(a.deep_view()->And_0 =~= p.deep_view());
            assert(b.deep_view()->And_0 =~= q.deep_view());
            same_matchers(p, q)
        },
        (RequestMatcher::Or(p), RequestMatcher::Or(q)) => {
            assert(a.deep_view()->Or_0 =~= p.deep_view());
            assert(b.deep_view()->Or_0 =~= q.deep_view());
            same_matchers(p, q)
        },
        (RequestMatcher::Language(p), RequestMatcher::Language(q)) => p.same_as(q),
        _ => false,
    }
}

/// Tells whether two lists of matchers test the same.
fn same_matchers(a: &Vec<RequestMatcher>, b: &Vec<RequestMatcher>) -> (r: bool)
    ensures
        r == (a.deep_view() == b.deep_view()),
    decreases a,
{
    if a.len() != b.len() {
        assert(a.deep_view().len() != b.deep_view().len());
        return false;
    }
    for i in 0..a.len()
        invariant
            a.len() == b.len(),
            forall|j: int| 0 <= j < i ==> (#[trigger] a@[j]).deep_view() == b@[j].deep_view(),
    {
        if !same_matcher(&a[i], &b[i]) {
            assert(a.deep_view()[i as int] != b.deep_view()[i as int]);
            return false;
        }
    }
    assert(a.deep_view() =~= b.deep_view());
    true
}

impl Clone for RequestMatcher {
    fn clone(&self) -> (r: RequestMatcher)
        ensures
            r.deep_view() == self.deep_view(),
    {
        copy_matcher(self)
    }
}

/// The method is one of `methods`, whatever the letter case.
pub open spec fn method_listed(methods: Seq<Seq<char>>, method: Seq<char>) -> bool {
    exists|i: int|
        0 <= i < methods.len() && text::upper_case(#[trigger] methods[i]) == text::upper_case(method)
}

/// The named field is there as text and the glob pattern matches it.
pub open spec fn field_globs(h: message::Fields, name: Seq<char>, pattern: Seq<char>) -> bool {
    &&& message::is_field_name(name)
    &&& message::field_of(h, name) matches Some(v) && crate::glob::matching(
        vstd::utf8::encode_utf8(pattern),
        vstd::utf8::encode_utf8(v),
    )
}

/// The matcher accepts the request.
pub open spec fn accepts(
    m: MatcherView,
    req: message::RequestView,
    client: message::ClientView,
) -> bool
    decreases m,
{
    match m {
        MatcherView::Path(p) => covers(p, req.uri.path()),
        MatcherView::Method(ms) => method_listed(ms, req.method),
        MatcherView::Header { name, pattern } => field_globs(req.headers, name, pattern),
        MatcherView::HeaderRegex { name, regex } => field_globs(req.headers, name, regex),
        MatcherView::Cookie { name, pattern } => cookie_of(req.headers, name) matches Some(v)
            && crate::glob::matching(
            vstd::utf8::encode_utf8(pattern),
            vstd::utf8::encode_utf8(v),
        ),
        MatcherView::Query { key, value } => query_gives(req.uri.query_text(), key, value),
        MatcherView::RemoteIp(cidrs) => in_ranges(cidrs, client.ip),
        MatcherView::Protocol(p) => text::lowered(req.uri.scheme_text()) == text::lowered(p),
        MatcherView::Expression(e) => expression_holds(e, req, client),
        MatcherView::Not(p) => !accepts(*p, req, client),
        MatcherView::And(ms) => all_accept(ms, req, client),
        MatcherView::Or(ms) => some_accepts(ms, req, client),
        MatcherView::Language(langs) => some_language_accepted(
            langs,
            message::field_or(req.headers, "accept-language"@, ""@),
        ),
    }
}

/// Every matcher accepts the request.
pub open spec fn all_accept(
    ms: Seq<MatcherView>,
    req: message::RequestView,
    client: message::ClientView,
) -> bool
    decreases ms,
{
    ms.len() == 0 || (all_accept(ms.drop_last(), req, client) && accepts(ms.last(), req, client))
}

/// Some matcher accepts the request.
pub open spec fn some_accepts(
    ms: Seq<MatcherView>,
    req: message::RequestView,
    client: message::ClientView,
) -> bool
    decreases ms,
{
    ms.len() > 0 && (some_accepts(ms.drop_last(), req, client) || accepts(ms.last(), req, client))
}

/// `all_accept` speaks of every matcher of the list.
pub proof fn lemma_all_accept(
    ms: Seq<MatcherView>,
    req: message::RequestView,
    client: message::ClientView,
)
    ensures
        all_accept(ms, req, client) == forall|i: int|
            0 <= i < ms.len() ==> #[trigger] accepts(ms[i], req, client),
    decreases ms.len(),
{
    if ms.len() > 0 {
        let d = ms.drop_last();
        lemma_all_accept(d, req, client);
        assert(forall|i: int| 0 <= i < d.len() ==> d[i] == ms[i]);
        if all_accept(ms, req, client) {
            assert forall|i: int| 0 <= i < ms.len() implies #[trigger] accepts(ms[i], req, client) by {
                if i < d.len() {
                    assert(accepts(d[i], req, client));
                }
            }
        } else if accepts(ms.last(), req, client) {
            let i = choose|i: int| 0 <= i < d.len() && !#[trigger] accepts(d[i], req, client);
            assert(!accepts(ms[i], req, client));
        } else {
            assert(!accepts(ms[ms.len() - 1], req, client));
        }
    }
}

/// `some_accepts` speaks of some matcher of the list.
pub proof fn lemma_some_accepts(
    ms: Seq<MatcherView>,
    req: message::RequestView,
    client: message::ClientView,
)
    ensures
        some_accepts(ms, req, client) == exists|i: int|
            0 <= i < ms.len() && #[trigger] accepts(ms[i], req, client),
    decreases ms.len(),
{
    if ms.len() > 0 {
        let d = ms.drop_last();
        lemma_some_accepts(d, req, client);
        assert(forall|i: int| 0 <= i < d.len() ==> d[i] == ms[i]);
        if some_accepts(d, req, client) {
            let i = choose|i: int| 0 <= i < d.len() && #[trigger] accepts(d[i], req, client);
            assert(accepts(ms[i], req, client));
        } else if accepts(ms.last(), req, client) {
            assert(accepts(ms[ms.len() - 1], req, client));
        } else {
            assert forall|i: int| 0 <= i < ms.len() implies !#[trigger] accepts(ms[i], req, client) by {
                if i < d.len() {
                    assert(!accepts(d[i], req, client));
                }
            }
        }
    }
}

/// The language field accepts one of the languages.
pub open spec fn some_language_accepted(langs: Seq<Seq<char>>, field: Seq<char>) -> bool {
    exists|i: int| 0 <= i < langs.len() && language_accepted(#[trigger] langs[i], field)
}

/// Tells whether the method is one of `methods`.
fn lists_method(methods: &Vec<String>, method: &str) -> (r: bool)
    ensures
        r == method_listed(methods.deep_view(), method@),
{
    let wanted = text::to_uppercase(method);
    for i in 0..methods.len()
        invariant
            wanted@ == text::upper_case(method@),
            forall|j: int|
                0 <= j < i ==> text::upper_case(#[trigger] methods.deep_view()[j]) != wanted@,
    {
        assert(methods.deep_view()[i as int] == methods@[i as int]@);
        if text::to_uppercase(methods[i].as_str()) == wanted {
            return true;
        }
    }
    false
}

/// Tells whether the language field accepts one of the languages.
fn accepts_some_language(langs: &Vec<String>, field: &str) -> (r: bool)
    ensures
        r == some_language_accepted(langs.deep_view(), field@),
{
    for i in 0..langs.len()
        invariant
            forall|j: int|
                0 <= j < i ==> !language_accepted(#[trigger] langs.deep_view()[j], field@),
    {
        assert(langs.deep_view()[i as int] == langs@[i as int]@);
        if accepts_language(langs[i].as_str(), field) {
            return true;
        }
    }
    false
}

/// Tells whether every matcher accepts the request.
pub fn all_match(matchers: &Vec<RequestMatcher>, req: &Request, client: &ClientAddr) -> (r: bool)
    ensures
        r == all_accept(matchers.deep_view(), req.deep_view(), client.deep_view()),
    decreases matchers,
{
    let ghost mv = matchers.deep_view();
    for i in 0..matchers.len()
        invariant
            mv == matchers.deep_view(),
            forall|j: int|
                0 <= j < i ==> #[trigger] accepts(mv[j], req.deep_view(), client.deep_view()),
    {
        assert(mv[i as int] == matchers@[i as int].deep_view());
        if !matchers[i].matches(req, client) {
            assert(!accepts(mv[i as int], req.deep_view(), client.deep_view()));
            proof {
                lemma_all_accept(mv, req.deep_view(), client.deep_view());
            }
            return false;
        }
    }
    proof {
        lemma_all_accept(mv, req.deep_view(), client.deep_view());
    }
    true
}

/// Tells whether some matcher accepts the request.
pub fn some_match(matchers: &Vec<RequestMatcher>, req: &Request, client: &ClientAddr) -> (r: bool)
    ensures
        r == some_accepts(matchers.deep_view(), req.deep_view(), client.deep_view()),
    decreases matchers,
{
    let ghost mv = matchers.deep_view();
    for i in 0..matchers.len()
        invariant
            mv == matchers.deep_view(),
            forall|j: int|
                0 <= j < i ==> !#[trigger] accepts(mv[j], req.deep_view(), client.deep_view()),
    {
        assert(mv[i as int] == matchers@[i as int].deep_view());
        if matchers[i].matches(req, client) {
            assert(accepts(mv[i as int], req.deep_view(), client.deep_view()));
            proof {
                lemma_some_accepts(mv, req.deep_view(), client.deep_view());
            }
            return true;
        }
    }
    proof {
        lemma_some_accepts(mv, req.deep_view(), client.deep_view());
    }
    false
}

impl RequestMatcher {
    /// Test whether an incoming request matches this matcher.
    pub fn matches(&self, req: &Request, client_addr: &ClientAddr) -> (r: bool)
        ensures
            r == accepts(self.deep_view(), req.deep_view(), client_addr.deep_view()),
        decreases self,
    {
        match self {
            RequestMatcher::Path(pattern) => path_matches(
                pattern.as_str(),
                req.uri.path().as_str(),
            ),
            RequestMatcher::Method(methods) => lists_method(methods, req.method.as_str()),
            RequestMatcher::Header { name, pattern } => header_globs(
                &req.headers,
                name.as_str(),
                pattern.as_str(),
            ),
            RequestMatcher::HeaderRegex { name, regex } => header_globs(
                &req.headers,
                name.as_str(),
                regex.as_str(),
            ),
            RequestMatcher::Cookie { name, pattern } => match extract_cookie(
                &req.headers,
                name.as_str(),
            ) {
                Some(v) => glob_matches(pattern.as_str(), v.as_str()),
                None => false,
            },
            RequestMatcher::Query { key, value } => {
                let query = req.uri.query_text();
                match value {
                    Some(v) => match_query_param(query.as_str(), key.as_str(), Some(v.as_str())),
                    None => match_query_param(query.as_str(), key.as_str(), None),
                }
            },
            RequestMatcher::RemoteIp(cidrs) => match_any_cidr(cidrs, &client_addr.ip),
            RequestMatcher::Protocol(proto) => text::same_ignore_case(
                req.uri.scheme_text().as_str(),
                proto.as_str(),
            ),
            RequestMatcher::Expression(expr) => eval_expression(expr.as_str(), req, client_addr),
            RequestMatcher::Not(inner) => !inner.matches(req, client_addr),
            RequestMatcher::And(matchers) => {
                assert(self.deep_view()->And_0 =~= matchers.deep_view());
                all_match(matchers, req, client_addr)
            },
            RequestMatcher::Or(matchers) => {
                assert(self.deep_view()->Or_0 =~= matchers.deep_view());
                some_match(matchers, req, client_addr)
            },
            RequestMatcher::Language(langs) => accepts_some_language(
                langs,
                req.headers.text_or("accept-language", "").as_str(),
            ),
        }
    }
}

/// Tells whether the named field is there as text and the glob pattern matches it.
fn header_globs(headers: &Headers, name: &str, pattern: &str) -> (r: bool)
    ensures
        r == field_globs(headers.deep_view(), name@, pattern@),
{
    match message::field_name(name) {
        Some(_) => match headers.text(name) {
            Some(v) => glob_matches(pattern, v.as_str()),
            None => false,
        },
        None => false,
    }
}

/// A negated matcher accepts exactly what the matcher does not; a conjunction
/// of matchers accepts what its negated members' alternative does not.
pub proof fn lemma_matcher_logic(
    m: MatcherView,
    ms: Seq<MatcherView>,
    req: message::RequestView,
    client: message::ClientView,
)
    ensures
        accepts(MatcherView::Not(Box::new(m)), req, client) == !accepts(m, req, client),
        accepts(MatcherView::And(ms), req, client) == !accepts(
            MatcherView::Or(ms.map_values(|x: MatcherView| MatcherView::Not(Box::new(x)))),
            req,
            client,
        ),
{
    let ns = ms.map_values(|x: MatcherView| MatcherView::Not(Box::new(x)));
    lemma_all_accept(ms, req, client);
    lemma_some_accepts(ns, req, client);
    assert forall|i: int| 0 <= i < ms.len() implies #[trigger] accepts(ns[i], req, client)
        == !accepts(ms[i], req, client) by {
        assert(ns[i] == MatcherView::Not(Box::new(ms[i])));
    }
    if !all_accept(ms, req, client) {
        let i = choose|i: int| 0 <= i < ms.len() && !#[trigger] accepts(ms[i], req, client);
        assert(accepts(ns[i], req, client));
    }
}

/// A condition is taken apart at its operator: what stands before it is the variable and
/// what stands behind it the value, without white space around them.
pub proof fn lemma_condition_read(l: Seq<char>, r: Seq<char>)
    requires
        !l.contains('=') && !l.contains('!') && !l.contains('~'),
        !r.contains('=') && !r.contains('!') && !r.contains('~'),
    ensures
        condition_parts(l + seq!['=', '='] + r) == Some(
            (text::trimmed(l), Operator::Equals, text::trimmed(r)),
        ),
        condition_parts(l + seq!['!', '='] + r) == Some(
            (text::trimmed(l), Operator::Differs, text::trimmed(r)),
        ),
        condition_parts(l + seq!['~'] + r) == Some(
            (text::trimmed(l), Operator::Globs, text::trimmed(r)),
        ),
        condition_parts(l) is None,
{
    reveal_strlit("!=");
    reveal_strlit("==");
    reveal_strlit("~");
    assert("!="@ =~= seq!['!', '='] && "=="@ =~= seq!['=', '='] && "~"@ =~= seq!['~']);
    let n = l.len() as int;
    let e = l + "=="@ + r;
    text::lemma_first_where_put(l, "=="@, r);
    assert(!e.contains('!')) by {
        lemma_free(l, "=="@, r, '!');
    }
    text::lemma_not_begun(e, "!="@, 0);
    assert(e.take(n) =~= l && e.skip(n + 2) =~= r);
    let d = l + "!="@ + r;
    text::lemma_first_where_put(l, "!="@, r);
    assert(d.take(n) =~= l && d.skip(n + 2) =~= r);
    let g = l + "~"@ + r;
    text::lemma_first_where_put(l, "~"@, r);
    assert(!g.contains('!') && !g.contains('=')) by {
        lemma_free(l, "~"@, r, '!');
        lemma_free(l, "~"@, r, '=');
    }
    text::lemma_not_begun(g, "!="@, 0);
    text::lemma_not_begun(g, "=="@, 0);
    assert(g.take(n) =~= l && g.skip(n + 1) =~= r);
    text::lemma_not_begun(l, "!="@, 0);
    text::lemma_not_begun(l, "=="@, 0);
    text::lemma_not_begun(l, "~"@, 0);
}

/// A character that is in none of three texts is not in the three in a row.
proof fn lemma_free(a: Seq<char>, b: Seq<char>, c: Seq<char>, x: char)
    requires
        !a.contains(x) && !b.contains(x) && !c.contains(x),
    ensures
        !(a + b + c).contains(x),
{
    let all = a + b + c;
    if all.contains(x) {
        let i = choose|i: int| 0 <= i < all.len() && all[i] == x;
        if i < a.len() {
            assert(a.contains(a[i]));
        } else if i < a.len() + b.len() {
            assert(b.contains(b[i - a.len()]));
        } else {
            assert(c.contains(c[i - a.len() - b.len()]));
        }
    }
}

/// The variables of expressions stand for the parts of the request and for the client, in
/// braces or not.
pub proof fn lemma_variables(req: message::RequestView, client: message::ClientView)
    ensures
        variable("method"@, req, client) == req.method,
        variable("{method}"@, req, client) == req.method,
        variable("path"@, req, client) == req.uri.path(),
        variable("{path}"@, req, client) == req.uri.path(),
        variable("host"@, req, client) == message::field_or(req.headers, "host"@, ""@),
        variable("{host}"@, req, client) == message::field_or(req.headers, "host"@, ""@),
        variable("remote_ip"@, req, client) == client.ip_text,
        variable("{remote_ip}"@, req, client) == client.ip_text,
        variable("scheme"@, req, client) == req.uri.scheme_text(),
        variable("{scheme}"@, req, client) == req.uri.scheme_text(),
        variable("{query}"@, req, client) == req.uri.query_text(),
{
    reveal_strlit("method");
    reveal_strlit("{method}");
    reveal_strlit("path");
    reveal_strlit("{path}");
    reveal_strlit("host");
    reveal_strlit("{host}");
    reveal_strlit("remote_ip");
    reveal_strlit("{remote_ip}");
    reveal_strlit("scheme");
    reveal_strlit("{scheme}");
    reveal_strlit("query");
    reveal_strlit("{query}");
    reveal_strlit("protocol");
    assert("method"@.len() == 6 && "path"@.len() == 4 && "host"@.len() == 4 && "remote_ip"@.len()
        == 9 && "scheme"@.len() == 6 && "query"@.len() == 5 && "protocol"@.len() == 8);
    assert("path"@[0] == 'p' && "host"@[0] == 'h' && "method"@[0] == 'm' && "scheme"@[0] == 's');
    lemma_braces("method"@, "{method}"@);
    lemma_braces("path"@, "{path}"@);
    lemma_braces("host"@, "{host}"@);
    lemma_braces("remote_ip"@, "{remote_ip}"@);
    lemma_braces("scheme"@, "{scheme}"@);
    lemma_braces("query"@, "{query}"@);
}

/// Braces around a name do not count.
proof fn lemma_braces(name: Seq<char>, braced: Seq<char>)
    requires
        name.len() > 0,
        name[0] != '{' && name[0] != '}',
        name.last() != '{' && name.last() != '}',
        braced =~= seq!['{'] + name + seq!['}'],
    ensures
        text::trimmed_end(text::trimmed_start(name, brace()), brace()) == name,
        text::trimmed_end(text::trimmed_start(braced, brace()), brace()) == name,
{
    let p = brace();
    reveal_with_fuel(text::lead, 3);
    reveal_with_fuel(text::tail, 3);
    assert(text::lead(name, p, 0) == 0);
    assert(name.skip(0) =~= name);
    assert(text::tail(name, p, name.len() as int) == name.len());
    assert(name.take(name.len() as int) =~= name);
    assert(braced[0] == '{' && braced[1] == name[0]);
    assert(text::lead(braced, p, 0) == 1);
    let t = braced.skip(1);
    assert(t.last() == '}' && t[t.len() - 2] == name.last());
    assert(text::tail(t, p, t.len() as int) == t.len() - 1);
    assert(t.take(t.len() - 1) =~= name);
}

/// An expression of one condition holds where the condition does; one of two joined by
/// `&&` where both do, and one of two joined by `||` where one of them does.
pub proof fn lemma_expressions(
    a: Seq<char>,
    b: Seq<char>,
    req: message::RequestView,
    client: message::ClientView,
)
    requires
        !a.contains('&') && !a.contains('|'),
        !b.contains('&') && !b.contains('|'),
    ensures
        expression_holds(a, req, client) <==> condition_holds(text::trimmed(a), req, client),
        expression_holds(a + seq!['&', '&'] + b, req, client) <==> condition_holds(
            text::trimmed(a),
            req,
            client,
        ) && condition_holds(text::trimmed(b), req, client),
        expression_holds(a + seq!['|', '|'] + b, req, client) <==> condition_holds(
            text::trimmed(a),
            req,
            client,
        ) || condition_holds(text::trimmed(b), req, client),
{
    reveal_strlit("&&");
    reveal_strlit("||");
    assert("&&"@ =~= seq!['&', '&'] && "||"@ =~= seq!['|', '|']);
    lemma_one_condition(a, req, client);
    lemma_one_condition(b, req, client);
    text::lemma_not_begun(a, "||"@, 0);
    text::lemma_one_part(a, "||"@);
    let one = text::parts(a, "||"@);
    assert(one[0] == a);
    let both = a + "&&"@ + b;
    lemma_free(a, "&&"@, b, '|');
    text::lemma_not_begun(both, "||"@, 0);
    text::lemma_one_part(both, "||"@);
    assert(text::parts(both, "||"@)[0] == both);
    text::lemma_first_where_put(a, "&&"@, b);
    text::lemma_parts_step(a, "&&"@, b);
    text::lemma_not_begun(b, "&&"@, 0);
    text::lemma_one_part(b, "&&"@);
    let two = text::parts(both, "&&"@);
    assert(two =~= seq![a, b]);
    assert(two[0] == a && two[1] == b);
    let either = a + "||"@ + b;
    text::lemma_first_where_put(a, "||"@, b);
    text::lemma_parts_step(a, "||"@, b);
    text::lemma_not_begun(b, "||"@, 0);
    text::lemma_one_part(b, "||"@);
    let alt = text::parts(either, "||"@);
    assert(alt =~= seq![a, b]);
    assert(alt[0] == a && alt[1] == b);
    if conjunction_holds(a, req, client) {
        assert(conjunction_holds(alt[0], req, client));
        assert(conjunction_holds(one[0], req, client));
    }
    if conjunction_holds(b, req, client) {
        assert(conjunction_holds(alt[1], req, client));
    }
    if conjunction_holds(both, req, client) {
        assert(condition_holds(text::trimmed(two[0]), req, client));
        assert(condition_holds(text::trimmed(two[1]), req, client));
        assert(conjunction_holds(text::parts(both, "||"@)[0], req, client));
    }
}

/// A conjunction of one condition.
proof fn lemma_one_condition(
    a: Seq<char>,
    req: message::RequestView,
    client: message::ClientView,
)
    requires
        !a.contains('&'),
    ensures
        conjunction_holds(a, req, client) <==> condition_holds(text::trimmed(a), req, client),
{
    reveal_strlit("&&");
    text::lemma_not_begun(a, "&&"@, 0);
    text::lemma_one_part(a, "&&"@);
    assert(text::parts(a, "&&"@)[0] == a);
}

/// A condition holds where the variable is, or is not, the value, or the pattern matches it.
pub proof fn lemma_operators(
    l: Seq<char>,
    r: Seq<char>,
    req: message::RequestView,
    client: message::ClientView,
)
    requires
        !l.contains('=') && !l.contains('!') && !l.contains('~'),
        !r.contains('=') && !r.contains('!') && !r.contains('~'),
    ensures
        condition_holds(l + seq!['=', '='] + r, req, client) <==> variable(
            text::trimmed(l),
            req,
            client,
        ) == text::trimmed(r),
        condition_holds(l + seq!['!', '='] + r, req, client) <==> variable(
            text::trimmed(l),
            req,
            client,
        ) != text::trimmed(r),
        !condition_holds(l, req, client),
{
    lemma_condition_read(l, r);
}

/// A client takes a language where one of the tags of its field is the language or a
/// variant of it, whatever quality stands behind the tag.
pub proof fn lemma_language_taken(
    entries: Seq<Seq<char>>,
    i: int,
    tag: Seq<char>,
    quality: Seq<char>,
    language: Seq<char>,
)
    requires
        0 <= i < entries.len(),
        forall|j: int| 0 <= j < entries.len() ==> !(#[trigger] entries[j]).contains(','),
        entries[i] == tag + seq![';'] + quality || entries[i] == tag,
        !tag.contains(';'),
        text::trimmed(tag).len() > 0,
        text::lower_case(text::trimmed(tag)) == text::lower_case(language) || text::begins(
            text::lower_case(text::trimmed(tag)),
            text::lower_case(language) + "-"@,
        ),
    ensures
        language_accepted(language, text::joined(entries, seq![','])),
{
    text::lemma_pieces_of_joined(entries, ',');
    text::lemma_cut_at(tag, ';', quality);
    assert(language_fits(
        language,
        language_tag(text::pieces(text::joined(entries, seq![',']), ',')[i]),
    ));
}

/// A client whose field names no tag that is the language or a variant of it does not take
/// it.
pub proof fn lemma_language_not_taken(entries: Seq<Seq<char>>, language: Seq<char>)
    requires
        entries.len() > 0,
        forall|j: int| 0 <= j < entries.len() ==> !(#[trigger] entries[j]).contains(','),
        forall|j: int|
            0 <= j < entries.len() ==> text::lower_case(
                text::trimmed(text::before(#[trigger] entries[j], ';')),
            ) != text::lower_case(language) && !text::begins(
                text::lower_case(text::trimmed(text::before(entries[j], ';'))),
                text::lower_case(language) + "-"@,
            ),
    ensures
        !language_accepted(language, text::joined(entries, seq![','])),
{
    text::lemma_pieces_of_joined(entries, ',');
}

/// A cookie has the value of the first pair of its name.
pub proof fn lemma_cookie_read(
    h: message::Fields,
    pairs: Seq<Seq<char>>,
    i: int,
    name: Seq<char>,
    value: Seq<char>,
)
    requires
        h.len() > 0,
        h[0].0 == "cookie"@,
        message::value_text(h[0].1) == Some(text::joined(pairs, seq![';'])),
        0 <= i < pairs.len(),
        forall|j: int| 0 <= j < pairs.len() ==> !(#[trigger] pairs[j]).contains(';'),
        text::trimmed(pairs[i]) == name + seq!['='] + value,
        !name.contains('='),
        text::trimmed(name) == name,
        forall|j: int| 0 <= j < i ==> cookie_in_pair(#[trigger] pairs[j], name) is None,
    ensures
        cookie_of(h, name) == Some(text::trimmed(value)),
{
    text::lemma_pieces_of_joined(pairs, ';');
    text::lemma_cut_at(name, '=', value);
    lemma_first_pair(pairs, name, 0, i);
}

/// The first pair that gives the cookie.
proof fn lemma_first_pair(pairs: Seq<Seq<char>>, name: Seq<char>, from: int, i: int)
    requires
        0 <= from <= i < pairs.len(),
        cookie_in_pair(pairs[i], name) is Some,
        forall|j: int| 0 <= j < i ==> cookie_in_pair(#[trigger] pairs[j], name) is None,
    ensures
        cookie_in_pairs(pairs, name, from) == cookie_in_pair(pairs[i], name),
    decreases i - from,
{
    if from < i {
        assert(cookie_in_pair(pairs[from], name) is None);
        lemma_first_pair(pairs, name, from + 1, i);
    }
}

/// A pair of another name, or without a value, gives no cookie.
pub proof fn lemma_other_cookie(pair: Seq<char>, name: Seq<char>, k: Seq<char>, v: Seq<char>)
    requires
        text::trimmed(pair) == k + seq!['='] + v || text::trimmed(pair) == k,
        !k.contains('='),
        text::trimmed(k) != name,
    ensures
        cookie_in_pair(pair, name) is None,
{
    text::lemma_cut_at(k, '=', v);
}

/// Each kind of matcher looks at its own part of the request: the path, the method, a
/// field, a cookie, the query, the client, the scheme, an expression or the languages.
pub proof fn lemma_kinds_of_matchers(
    req: message::RequestView,
    client: message::ClientView,
    p: Seq<char>,
    q: Seq<char>,
    ms: Seq<Seq<char>>,
    value: Option<Seq<char>>,
)
    ensures
        accepts(MatcherView::Path(p), req, client) <==> covers(p, req.uri.path()),
        accepts(MatcherView::Method(ms), req, client) <==> exists|i: int|
            0 <= i < ms.len() && text::upper_case(#[trigger] ms[i]) == text::upper_case(req.method),
        accepts(MatcherView::Query { key: p, value }, req, client) <==> query_gives(
            req.uri.query_text(),
            p,
            value,
        ),
        accepts(MatcherView::RemoteIp(ms), req, client) <==> exists|i: int|
            0 <= i < ms.len() && in_range(#[trigger] ms[i], client.ip),
        accepts(MatcherView::Protocol(p), req, client) <==> text::lowered(req.uri.scheme_text())
            == text::lowered(p),
        accepts(MatcherView::Header { name: p, pattern: q }, req, client)
            <==> message::is_field_name(p) && (message::field_of(req.headers, p) matches Some(v)
            && crate::glob::matching(
            vstd::utf8::encode_utf8(q),
            vstd::utf8::encode_utf8(v),
        )),
        accepts(MatcherView::Cookie { name: p, pattern: q }, req, client) <==> (cookie_of(
            req.headers,
            p,
        ) matches Some(v) && crate::glob::matching(
            vstd::utf8::encode_utf8(q),
            vstd::utf8::encode_utf8(v),
        )),
        accepts(MatcherView::Expression(p), req, client) <==> expression_holds(p, req, client),
        accepts(MatcherView::Language(ms), req, client) <==> exists|i: int|
            0 <= i < ms.len() && language_accepted(
                #[trigger] ms[i],
                message::field_or(req.headers, "accept-language"@, ""@),
            ),
{
}

/// A range of an address and a prefix holds the addresses of the same version that agree
/// with it in so many bits; an address alone is a range of its own.
pub proof fn lemma_ranges_read(s: Seq<char>, n: u32, ip: u32, prefix: u8)
    requires
        net::v4_of(s) == Some(n),
        !s.contains('/'),
        prefix <= 32,
    ensures
        in_range(s, IpAddr::V4(ip)) <==> ip == n,
        in_range(s + seq!['/'] + text::decimal(prefix as nat), IpAddr::V4(ip)) <==> ip as nat
            / vstd::arithmetic::power2::pow2((32 - prefix) as nat) == n as nat
            / vstd::arithmetic::power2::pow2((32 - prefix) as nat),
        forall|a: u128| !#[trigger] in_range(s, IpAddr::V6(a)),
{
    let d = text::decimal(prefix as nat);
    text::lemma_decimal_value(prefix as nat);
    text::lemma_cut_at(s, '/', d);
    net::lemma_same_block(ip, n, prefix as nat);
}

} // verus!
