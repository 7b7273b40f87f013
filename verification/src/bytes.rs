//! Work on bytes.

use vstd::prelude::*;
use crate::text;

verus! {

/// What becomes of bytes that are taken as UTF-8, with what is none replaced.
pub uninterp spec fn lossy(v: Seq<u8>) -> Seq<char>;

/// `String::from_utf8`: the text that the bytes are the UTF-8 form of.
#[verifier::external_body]
pub(crate) fn utf8_text(v: &[u8]) -> (r: Option<String>)
    ensures
        match r {
            Some(s) => vstd::utf8::valid_utf8(v@) && s@ == vstd::utf8::decode_utf8(v@),
            None => !vstd::utf8::valid_utf8(v@),
        },
{
    String::from_utf8(v.to_vec()).ok()
}

/// `String::from_utf8_lossy`: the text that the bytes are the UTF-8 form of. In
/// other bytes, what is no UTF-8 is replaced; by how much is left to the name
/// `lossy`.
#[verifier::external_body]
pub(crate) fn lossy_text(v: &[u8]) -> (r: String)
    ensures
        r@ == lossy(v@),
        vstd::utf8::valid_utf8(v@) ==> r@ == vstd::utf8::decode_utf8(v@),
{
    String::from_utf8_lossy(v).into_owned()
}

/// Appends bytes.
pub fn append(v: &mut Vec<u8>, more: &[u8])
    ensures
        final(v)@ == old(v)@ + more@,
{
    let ghost start = v@;
    assert(start + more@.take(0) =~= start);
    for i in 0..more.len()
        invariant
            v@ == start + more@.take(i as int),
    {
        v.push(more[i]);
        assert(start + more@.take(i + 1) =~= (start + more@.take(i as int)).push(more@[i as int]));
    }
    assert(more@.take(more@.len() as int) =~= more@);
}

/// The bytes from one place up to another.
pub fn part(v: &[u8], from: usize, to: usize) -> (r: Vec<u8>)
    requires
        from <= to <= v@.len(),
    ensures
        r@ == v@.subrange(from as int, to as int),
{
    let mut r: Vec<u8> = Vec::new();
    for i in from..to
        invariant
            to <= v@.len(),
            r@ == v@.subrange(from as int, i as int),
    {
        r.push(v[i]);
        assert(v@.subrange(from as int, i + 1) =~= v@.subrange(from as int, i as int).push(
            v@[i as int],
        ));
    }
    r
}

/// Tells whether `p` stands in `s` at the place `i`.
pub fn matches_at(s: &[u8], p: &[u8], i: usize) -> (r: bool)
    requires
        i <= s@.len(),
    ensures
        r == text::occurs_at(s@, p@, i as int),
{
    if p.len() > s.len() - i {
        return false;
    }
    for k in 0..p.len()
        invariant
            i + p.len() <= s.len(),
            forall|j: int| 0 <= j < k ==> s@[i + j] == p@[j],
    {
        if s[i + k] != p[k] {
            assert(s@.subrange(i as int, i + p@.len())[k as int] != p@[k as int]);
            return false;
        }
    }
    assert(s@.subrange(i as int, i + p@.len()) =~= p@);
    true
}

/// The first place from `from` on at which `p` stands in `s`.
pub fn find(s: &[u8], p: &[u8], from: usize) -> (r: Option<usize>)
    requires
        from <= s@.len(),
    ensures
        match r {
            Some(i) => text::first_at(s@, p@, from as int) == Some(i as int) && i + p@.len()
                <= s@.len(),
            None => text::first_at(s@, p@, from as int) is None,
        },
{
    let mut i: usize = from;
    loop
        invariant
            from <= i <= s.len(),
            text::first_at(s@, p@, from as int) == text::first_at(s@, p@, i as int),
        decreases s.len() - i,
    {
        if matches_at(s, p, i) {
            return Some(i);
        }
        if i == s.len() {
            assert(text::first_at(s@, p@, i + 1) is None);
            return None;
        }
        assert(i + p@.len() > s@.len() ==> text::first_at(s@, p@, i + 1) is None);
        i = i + 1;
    }
}

/// Tells whether `p` stands anywhere in `s`.
pub fn has(s: &[u8], p: &[u8]) -> (r: bool)
    ensures
        r == text::contains(s@, p@),
{
    find(s, p, 0).is_some()
}

} // verus!
