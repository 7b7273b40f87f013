//! Glob patterns: `?` stands for one byte, `*` for a run of bytes without `/`,
//! `**` for any run of bytes.

use vstd::prelude::*;

verus! {

/// The byte `?`.
pub const ANY: u8 = 0x3f;

/// The byte `*`.
pub const STAR: u8 = 0x2a;

/// The byte `/`.
pub const SLASH: u8 = 0x2f;

/// How far a stretch of a pattern after a `*` goes at one place of the text.
pub enum Attempt {
    /// The stretch ends at this place, so that the whole match is decided.
    Decided(bool),
    /// The stretch does not fit at this place.
    Mismatch,
}

/// `p` holds nothing but `*`.
pub open spec fn only_stars(p: Seq<u8>) -> bool {
    forall|i: int| 0 <= i < p.len() ==> #[trigger] p[i] == STAR
}

/// `p` starts with `**`.
pub open spec fn double_star(p: Seq<u8>) -> bool {
    p.len() > 1 && p[0] == STAR && p[1] == STAR
}

/// The pattern `p` matches the text `t`.
///
/// Up to its first `*` the pattern is held against the text byte by byte.
pub open spec fn matching(p: Seq<u8>, t: Seq<u8>) -> bool
    decreases p.len(), t.len(), 0nat,
{
    if t.len() == 0 {
        only_stars(p)
    } else if p.len() == 0 {
        false
    } else if double_star(p) {
        spanning(p.skip(2), t)
    } else if p[0] == STAR {
        after_star(p.skip(1), t)
    } else if p[0] == ANY || p[0] == t[0] {
        matching(p.skip(1), t.skip(1))
    } else {
        false
    }
}

/// What follows a `**` matches some end of the text.
pub open spec fn spanning(rest: Seq<u8>, t: Seq<u8>) -> bool
    decreases rest.len(), t.len(), 2nat,
{
    rest.len() == 0 || some_end(without_slash(rest), t)
}

/// A `/` after a `**` is part of what the `**` stands for.
pub open spec fn without_slash(rest: Seq<u8>) -> Seq<u8> {
    if rest.len() > 0 && rest[0] == SLASH {
        rest.skip(1)
    } else {
        rest
    }
}

/// `r` matches some end of the text.
pub open spec fn some_end(r: Seq<u8>, t: Seq<u8>) -> bool
    decreases r.len(), t.len(), 1nat,
{
    matching(r, t) || (t.len() > 0 && some_end(r, t.skip(1)))
}

/// The pattern `*` followed by `q` matches the text `t`: the `*` takes the
/// shortest run without `/` after which `q` fits up to its own next `*`, and
/// that choice is final.
pub open spec fn after_star(q: Seq<u8>, t: Seq<u8>) -> bool
    decreases q.len(), t.len(), 2nat,
{
    match attempt(q, t) {
        Attempt::Decided(b) => b,
        Attempt::Mismatch => t.len() > 0 && t[0] != SLASH && after_star(q, t.skip(1)),
    }
}

/// Holds `q` against the start of `t`, byte by byte, up to the next `*`.
pub open spec fn attempt(q: Seq<u8>, t: Seq<u8>) -> Attempt
    decreases q.len(), t.len(), 1nat,
{
    if t.len() == 0 {
        Attempt::Decided(only_stars(q))
    } else if q.len() == 0 {
        Attempt::Mismatch
    } else if double_star(q) {
        Attempt::Decided(spanning(q.skip(2), t))
    } else if q[0] == STAR {
        Attempt::Decided(after_star(q.skip(1), t))
    } else if q[0] == ANY || q[0] == t[0] {
        attempt(q.skip(1), t.skip(1))
    } else {
        Attempt::Mismatch
    }
}

/// `p` holds neither `*` nor `?`.
pub open spec fn literal(p: Seq<u8>) -> bool {
    forall|i: int| 0 <= i < p.len() ==> #[trigger] p[i] != STAR && p[i] != ANY
}

/// A pattern without wildcards matches itself and nothing else.
pub proof fn lemma_literal(p: Seq<u8>, t: Seq<u8>)
    requires
        literal(p),
    ensures
        matching(p, t) == (p == t),
    decreases p.len(),
{
    if p.len() == 0 {
        assert(matching(p, t) == (t.len() == 0));
        if t.len() == 0 {
            assert(p =~= t);
        }
    } else if t.len() == 0 {
        assert(p[0] != STAR);
    } else {
        assert(p[0] != STAR && p[0] != ANY);
        assert forall|i: int| 0 <= i < p.skip(1).len() implies #[trigger] p.skip(1)[i] != STAR
            && p.skip(1)[i] != ANY by {
            assert(p[i + 1] != STAR);
        }
        lemma_literal(p.skip(1), t.skip(1));
        if p[0] == t[0] && p.skip(1) == t.skip(1) {
            assert(p =~= seq![p[0]] + p.skip(1));
            assert(t =~= seq![t[0]] + t.skip(1));
        }
    }
}

/// A trailing `*` takes every rest of the text that holds no `/`.
proof fn lemma_trailing_star(t: Seq<u8>)
    ensures
        after_star(Seq::empty(), t) == !t.contains(SLASH),
    decreases t.len(),
{
    let e = Seq::<u8>::empty();
    assert(attempt(e, t) == (if t.len() == 0 {
        Attempt::Decided(only_stars(e))
    } else {
        Attempt::Mismatch
    }));
    if t.len() > 0 {
        lemma_trailing_star(t.skip(1));
        if t.contains(SLASH) && t[0] != SLASH {
            let i = choose|i: int| 0 <= i < t.len() && t[i] == SLASH;
            assert(t.skip(1)[i - 1] == SLASH);
        }
        if t.skip(1).contains(SLASH) {
            let i = choose|i: int| 0 <= i < t.skip(1).len() && t.skip(1)[i] == SLASH;
            assert(t[i + 1] == SLASH);
        }
        assert(t[0] == SLASH ==> t.contains(SLASH));
    }
}

/// A literal prefix followed by one `*` matches exactly the texts with that
/// prefix and no `/` after it: a single `*` never crosses a `/`.
pub proof fn lemma_prefix_star(p: Seq<u8>, t: Seq<u8>)
    requires
        literal(p),
    ensures
        matching(p.push(STAR), t) == (crate::text::begins(t, p) && !t.skip(
            p.len() as int,
        ).contains(SLASH)),
    decreases p.len(),
{
    let q = p.push(STAR);
    if p.len() == 0 {
        assert(q.skip(1) =~= Seq::empty());
        lemma_trailing_star(t);
        assert(t.skip(0) =~= t);
        assert(t.subrange(0, 0) =~= p);
        if t.len() == 0 {
            assert(only_stars(q));
        }
    } else {
        assert(p[0] != STAR && p[0] != ANY);
        assert(q[0] == p[0]);
        if t.len() == 0 {
            assert(!only_stars(q));
        } else {
            let p1 = p.skip(1);
            let t1 = t.skip(1);
            assert(q.skip(1) =~= p1.push(STAR));
            assert forall|i: int| 0 <= i < p1.len() implies #[trigger] p1[i] != STAR && p1[i] != ANY by {
                assert(p[i + 1] != STAR);
            }
            lemma_prefix_star(p1, t1);
            if t.len() >= p.len() {
                assert(t1.skip(p1.len() as int) =~= t.skip(p.len() as int));
                if crate::text::begins(t, p) {
                    assert(t1.subrange(0, p1.len() as int) =~= p1) by {
                        assert forall|i: int| 0 <= i < p1.len() implies t1[i] == p1[i] by {
                            assert(t.subrange(0, p.len() as int)[i + 1] == p[i + 1]);
                        }
                    }
                    assert(t.subrange(0, p.len() as int)[0] == p[0]);
                }
                if p[0] == t[0] && crate::text::begins(t1, p1) {
                    assert(t.subrange(0, p.len() as int) =~= p) by {
                        assert forall|i: int| 0 <= i < p.len() implies t[i] == p[i] by {
                            if i > 0 {
                                assert(t1.subrange(0, p1.len() as int)[i - 1] == p1[i - 1]);
                            }
                        }
                    }
                }
            }
        }
    }
}

/// `**` at the end of a pattern takes every rest of the text.
pub proof fn lemma_trailing_double_star(t: Seq<u8>)
    ensures
        matching(seq![STAR, STAR], t),
{
    let p = seq![STAR, STAR];
    assert(p.skip(2) =~= Seq::<u8>::empty());
    assert(spanning(p.skip(2), t));
}

/// Match a string against a glob pattern.
pub fn glob_matches(pattern: &str, text: &str) -> (r: bool)
    ensures
        r == matching(vstd::utf8::encode_utf8(pattern@), vstd::utf8::encode_utf8(text@)),
{
    glob_matches_impl(pattern.as_bytes(), text.as_bytes())
}

/// What the whole match comes to when the stretch after the latest `*` does
/// not fit at its present place.
spec fn retry(p: Seq<u8>, t: Seq<u8>, star: Option<(int, int)>) -> bool {
    match star {
        None => false,
        Some((sp, st)) => st < t.len() && t[st] != SLASH && after_star(p.skip(sp + 1), t.skip(st + 1)),
    }
}

/// What the whole match comes to from the positions `pi` and `ti` on.
spec fn outlook(p: Seq<u8>, t: Seq<u8>, pi: int, ti: int, star: Option<(int, int)>) -> bool {
    match star {
        None => matching(p.skip(pi), t.skip(ti)),
        Some(_) => match attempt(p.skip(pi), t.skip(ti)) {
            Attempt::Decided(b) => b,
            Attempt::Mismatch => retry(p, t, star),
        },
    }
}

/// Match a byte string against a glob pattern.
pub fn glob_matches_impl(pattern: &[u8], text: &[u8]) -> (r: bool)
    ensures
        r == matching(pattern@, text@),
    decreases pattern@.len(),
{
    let mut pi: usize = 0;
    let mut ti: usize = 0;
    let mut starred: bool = false;
    let mut star_pi: usize = 0;
    let mut star_ti: usize = 0;
    let ghost (p, t) = (pattern@, text@);
    let ghost mut star: Option<(int, int)> = None;
    assert(p.skip(0) =~= p && t.skip(0) =~= t);
    while ti < text.len()
        invariant
            p == pattern@,
            t == text@,
            pi <= p.len(),
            ti <= t.len(),
            star_ti <= ti,
            star == (if starred {
                Some((star_pi as int, star_ti as int))
            } else {
                None
            }),
            starred ==> star_pi < pi,
            matching(p, t) == outlook(p, t, pi as int, ti as int, star),
        decreases t.len() - star_ti, p.len() - pi,
    {
        let ghost (q, u) = (p.skip(pi as int), t.skip(ti as int));
        if pi < pattern.len() {
            assert(q.skip(1) =~= p.skip(pi + 1));
            assert(u.skip(1) =~= t.skip(ti + 1));
            if pi + 1 < pattern.len() && pattern[pi] == STAR && pattern[pi + 1] == STAR {
                assert(q.skip(2) =~= p.skip(pi + 2));
                let mut rest: usize = pi + 2;
                let ghost whole = q.skip(2);
                assert(matching(p, t) == spanning(whole, u)) by {
                    assert(matching(q, u) == spanning(whole, u));
                    assert(attempt(q, u) == Attempt::Decided(spanning(whole, u)));
                }
                if rest == pattern.len() {
                    return true;
                }
                if pattern[rest] == SLASH {
                    assert(whole.skip(1) =~= p.skip(pi + 3));
                    rest += 1;
                }
                let sub = vstd::slice::slice_subrange(pattern, rest, pattern.len());
                let ghost r = sub@;
                assert(r =~= p.skip(rest as int));
                let mut start: usize = ti;
                loop
                    invariant
                        t == text@,
                        u == t.skip(ti as int),
                        ti <= start <= t.len(),
                        sub@ == r,
                        p == pattern@,
                        whole.len() > 0,
                        r == without_slash(whole),
                        matching(p, t) == spanning(whole, u),
                        r.len() < pattern@.len(),
                        some_end(r, u) == some_end(r, t.skip(start as int)),
                    decreases t.len() - start,
                {
                    let end = vstd::slice::slice_subrange(text, start, text.len());
                    assert(end@ =~= t.skip(start as int));
                    if glob_matches_impl(sub, end) {
                        return true;
                    }
                    if start == text.len() {
                        return false;
                    }
                    assert(t.skip(start as int).skip(1) =~= t.skip(start + 1));
                    start += 1;
                }
            }
            if pattern[pi] == ANY {
                pi += 1;
                ti += 1;
                continue;
            }
            if pattern[pi] == STAR {
                starred = true;
                star_pi = pi;
                star_ti = ti;
                proof {
                    star = Some((pi as int, ti as int));
                }
                pi += 1;
                assert(after_star(q.skip(1), u) == outlook(p, t, pi as int, ti as int, star));
                continue;
            }
            if pattern[pi] == text[ti] {
                pi += 1;
                ti += 1;
                continue;
            }
        }
        if starred {
            if text[star_ti] == SLASH {
                return false;
            }
            pi = star_pi + 1;
            star_ti += 1;
            ti = star_ti;
            proof {
                star = Some((star_pi as int, star_ti as int));
                if ti < t.len() {
                    assert(t.skip(ti as int).skip(1) =~= t.skip(ti + 1));
                }
            }
            continue;
        }
        return false;
    }
    let ghost start = pi;
    assert(matching(p, t) == only_stars(p.skip(start as int)));
    while pi < pattern.len() && pattern[pi] == STAR
        invariant
            p == pattern@,
            start <= pi <= p.len(),
            forall|i: int| start <= i < pi ==> #[trigger] p[i] == STAR,
        decreases p.len() - pi,
    {
        pi += 1;
    }
    proof {
        if pi < p.len() {
            assert(p.skip(start as int)[pi - start] != STAR);
        }
    }
    pi == pattern.len()
}

/// A `?` takes any one byte and no fewer; any other byte but `*` takes itself alone.
pub proof fn lemma_one_byte(c: u8, p: Seq<u8>, b: u8, t: Seq<u8>)
    requires
        c != STAR,
    ensures
        matching(seq![ANY] + p, seq![b] + t) == matching(p, t),
        matching(seq![c] + p, seq![b] + t) == ((c == ANY || c == b) && matching(p, t)),
        !matching(seq![c] + p, Seq::empty()),
        !matching(seq![ANY] + p, Seq::empty()),
        !matching(Seq::empty(), seq![b] + t),
{
    let q = seq![c] + p;
    let a = seq![ANY] + p;
    let s = seq![b] + t;
    assert(q.skip(1) =~= p && a.skip(1) =~= p && s.skip(1) =~= t);
    assert(q[0] == c && a[0] == ANY && s[0] == b);
    assert(!double_star(q) && !double_star(a));
}

/// A stretch without wildcards fits a place exactly where it is all that is left of the text.
proof fn lemma_attempt_literal(q: Seq<u8>, t: Seq<u8>)
    requires
        literal(q),
    ensures
        attempt(q, t) == Attempt::Decided(true) <==> q == t,
        attempt(q, t) == Attempt::Decided(false) ==> t.len() < q.len(),
    decreases q.len(),
{
    if t.len() == 0 {
        if q.len() > 0 {
            assert(q[0] != STAR);
        } else {
            assert(q =~= t);
        }
    } else if q.len() > 0 {
        assert(q[0] != STAR && q[0] != ANY);
        let q1 = q.skip(1);
        let t1 = t.skip(1);
        assert forall|i: int| 0 <= i < q1.len() implies #[trigger] q1[i] != STAR && q1[i] != ANY by {
            assert(q[i + 1] != STAR);
        }
        lemma_attempt_literal(q1, t1);
        if q[0] == t[0] && q1 == t1 {
            assert(q =~= seq![q[0]] + q1);
            assert(t =~= seq![t[0]] + t1);
        }
    }
}

/// What stands at the end of a text stands at the end of what is left of it, as far as that
/// is long enough.
proof fn lemma_end_of_rest(t: Seq<u8>, q: Seq<u8>)
    requires
        t.len() > 0,
    ensures
        crate::text::ends(t.skip(1), q) <==> crate::text::ends(t, q) && t.len() > q.len(),
        crate::text::ends(t, q) && t.len() == q.len() ==> t == q,
        crate::text::ends(t, t),
{
    let u = t.skip(1);
    assert(t.subrange(0, t.len() as int) =~= t);
    if u.len() >= q.len() {
        assert(u.subrange(u.len() - q.len(), u.len() as int) =~= t.subrange(
            t.len() - q.len(),
            t.len() as int,
        ));
    }
}

/// A `*` before bytes without wildcards takes what stands before them, where it holds no `/`.
proof fn lemma_after_star_literal(q: Seq<u8>, t: Seq<u8>)
    requires
        literal(q),
    ensures
        after_star(q, t) == (crate::text::ends(t, q) && !t.take(t.len() - q.len()).contains(SLASH)),
    decreases t.len(),
{
    lemma_attempt_literal(q, t);
    if t.len() == 0 {
        assert(attempt(q, t) is Decided);
        if q == t {
            assert(t.subrange(0, 0) =~= q);
            assert(t.take(0) =~= Seq::<u8>::empty());
        }
    } else {
        lemma_end_of_rest(t, q);
        let u = t.skip(1);
        if q == t {
            assert(t.take(0) =~= Seq::<u8>::empty());
        }
        if attempt(q, t) is Mismatch && t.len() > q.len() {
            lemma_after_star_literal(q, u);
            let a = t.take(t.len() - q.len());
            let b = u.take(u.len() - q.len());
            assert(a =~= seq![t[0]] + b);
            if a.contains(SLASH) && t[0] != SLASH {
                let i = choose|i: int| 0 <= i < a.len() && a[i] == SLASH;
                assert(b[i - 1] == SLASH);
            }
            if b.contains(SLASH) {
                let i = choose|i: int| 0 <= i < b.len() && b[i] == SLASH;
                assert(a[i + 1] == SLASH);
            }
            if t[0] == SLASH {
                assert(a[0] == SLASH);
            }
        } else if attempt(q, t) is Mismatch {
            assert(!crate::text::ends(t, q));
            if t[0] != SLASH {
                lemma_after_star_literal(q, u);
                assert(!crate::text::ends(u, q));
            }
        }
    }
}

/// One `*` before bytes without wildcards matches exactly the texts that end in them with no
/// `/` before.
pub proof fn lemma_star_suffix(q: Seq<u8>, t: Seq<u8>)
    requires
        literal(q),
        q.len() > 0,
    ensures
        matching(seq![STAR] + q, t) == (crate::text::ends(t, q) && !t.take(
            t.len() - q.len(),
        ).contains(SLASH)),
{
    let p = seq![STAR] + q;
    assert(p.skip(1) =~= q);
    assert(p[1] == q[0] && q[0] != STAR);
    lemma_after_star_literal(q, t);
    if t.len() == 0 {
        assert(p[1] != STAR);
        assert(!only_stars(p));
    }
}

/// Bytes without wildcards match some end of a text exactly where the text ends in them.
proof fn lemma_some_end_literal(r: Seq<u8>, t: Seq<u8>)
    requires
        literal(r),
        r.len() > 0,
    ensures
        some_end(r, t) == crate::text::ends(t, r),
    decreases t.len(),
{
    lemma_literal(r, t);
    if t.len() > 0 {
        lemma_end_of_rest(t, r);
        lemma_some_end_literal(r, t.skip(1));
    }
}

/// `**` before bytes without wildcards, with or without a `/` between, matches exactly the
/// texts that end in them, whatever stands before.
pub proof fn lemma_double_star_suffix(r: Seq<u8>, t: Seq<u8>)
    requires
        literal(r),
        r.len() > 0,
        r[0] != SLASH,
    ensures
        matching(seq![STAR, STAR] + r, t) == crate::text::ends(t, r),
        matching(seq![STAR, STAR, SLASH] + r, t) == crate::text::ends(t, r),
{
    let p = seq![STAR, STAR] + r;
    let q = seq![STAR, STAR, SLASH] + r;
    assert(p.skip(2) =~= r);
    assert(q.skip(2) =~= seq![SLASH] + r);
    assert((seq![SLASH] + r).skip(1) =~= r);
    lemma_some_end_literal(r, t);
    if t.len() == 0 {
        assert(p[2] == r[0] && r[0] != STAR);
        assert(q[2] == SLASH);
        assert(!only_stars(p) && !only_stars(q));
    } else {
        assert(matching(p, t) == spanning(p.skip(2), t));
        assert(matching(q, t) == spanning(q.skip(2), t));
        assert(without_slash(r) == r);
        assert(without_slash(seq![SLASH] + r) == r);
    }
}

} // verus!
