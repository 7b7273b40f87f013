//! Text operations: searching, splitting, trimming, replacing, letter case and
//! decimal numbers, each stated over the sequence of characters of a string.

use vstd::prelude::*;

verus! {

// ---------------------------------------------------------------------------
// Characters
// ---------------------------------------------------------------------------

/// The characters with the Unicode property `White_Space`.
pub open spec fn is_space(c: char) -> bool {
    let n = c as u32;
    ||| 0x09 <= n <= 0x0d
    ||| n == 0x20
    ||| n == 0x85
    ||| n == 0xa0
    ||| n == 0x1680
    ||| 0x2000 <= n <= 0x200a
    ||| n == 0x2028
    ||| n == 0x2029
    ||| n == 0x202f
    ||| n == 0x205f
    ||| n == 0x3000
}

/// Tells whether `c` is white space.
pub fn space(c: char) -> (r: bool)
    ensures
        r == is_space(c),
{
    let n: u32 = c as u32;
    (0x09 <= n && n <= 0x0d) || n == 0x20 || n == 0x85 || n == 0xa0 || n == 0x1680 || (0x2000 <= n
        && n <= 0x200a) || n == 0x2028 || n == 0x2029 || n == 0x202f || n == 0x205f || n == 0x3000
}

/// The lower-case form of an ASCII letter; every other character is kept.
pub open spec fn lower(c: char) -> char {
    if 'A' <= c <= 'Z' {
        (c as u8 + 32) as char
    } else {
        c
    }
}

/// The upper-case form of an ASCII letter; every other character is kept.
pub open spec fn upper(c: char) -> char {
    if 'a' <= c <= 'z' {
        (c as u8 - 32) as char
    } else {
        c
    }
}

/// `lower` as code.
pub fn lower_char(c: char) -> (r: char)
    ensures
        r == lower(c),
{
    if 'A' <= c && c <= 'Z' {
        (c as u8 + 32) as char
    } else {
        c
    }
}

/// `s` with every ASCII letter in lower case.
pub open spec fn lowered(s: Seq<char>) -> Seq<char> {
    s.map_values(|c: char| lower(c))
}

/// `s` with every ASCII letter in upper case.
pub open spec fn uppered(s: Seq<char>) -> Seq<char> {
    s.map_values(|c: char| upper(c))
}

// ---------------------------------------------------------------------------
// Strings and vectors of characters
// ---------------------------------------------------------------------------

/// `String::push`: appends one character.
pub assume_specification[ String::push ](s: &mut String, c: char)
    ensures
        final(s)@ == old(s)@.push(c),
;

/// The characters of `s`.
pub fn chars(s: &str) -> (v: Vec<char>)
    ensures
        v@ == s@,
{
    let mut v: Vec<char> = Vec::new();
    for c in it: s.chars()
        invariant
            v@ == it.seq().take(it.index() as int),
            it.seq() == s@,
    {
        v.push(c);
    }
    v
}

/// The string made of `v[from..to]`.
pub fn string_of(v: &[char], from: usize, to: usize) -> (s: String)
    requires
        from <= to <= v@.len(),
    ensures
        s@ == v@.subrange(from as int, to as int),
{
    let mut s = String::new();
    for i in from..to
        invariant
            from <= i <= to <= v@.len(),
            s@ == v@.subrange(from as int, i as int),
    {
        s.push(v[i]);
    }
    s
}

/// Compares two strings.
pub fn same(a: &str, b: &str) -> (r: bool)
    ensures
        r == (a@ == b@),
{
    a.to_owned() == b.to_owned()
}

/// `s` with every ASCII letter in lower case.
pub fn to_lower(s: &str) -> (r: String)
    ensures
        r@ == lowered(s@),
{
    let mut r = String::new();
    for c in it: s.chars()
        invariant
            it.seq() == s@,
            r@ == lowered(s@.take(it.index() as int)),
    {
        r.push(lower_char(c));
    }
    assert(s@.take(s@.len() as int) =~= s@);
    r
}

/// Compares two strings, ignoring the case of ASCII letters.
pub fn same_ignore_case(a: &str, b: &str) -> (r: bool)
    ensures
        r == (lowered(a@) == lowered(b@)),
{
    to_lower(a) == to_lower(b)
}

/// `a` followed by `b`.
pub fn join(a: &str, b: &str) -> (r: String)
    ensures
        r@ == a@ + b@,
{
    let mut r = a.to_owned();
    r.append(b);
    r
}

/// `a` followed by `b` and `c`.
pub fn join3(a: &str, b: &str, c: &str) -> (r: String)
    ensures
        r@ == a@ + b@ + c@,
{
    let mut r = a.to_owned();
    r.append(b);
    r.append(c);
    r
}

/// What `str::to_uppercase` makes of a text.
pub uninterp spec fn upper_case(s: Seq<char>) -> Seq<char>;

/// `str::to_uppercase`: the upper-case form of a text by the rules of Unicode,
/// which on ASCII texts is that of each letter.
#[verifier::external_body]
pub(crate) fn to_uppercase(s: &str) -> (r: String)
    ensures
        r@ == upper_case(s@),
        vstd::utf8::is_ascii_chars(s@) ==> r@ == uppered(s@),
{
    s.to_uppercase()
}

/// What `str::to_lowercase` makes of a text.
pub uninterp spec fn lower_case(s: Seq<char>) -> Seq<char>;

/// `str::to_lowercase`: the lower-case form of a text by the rules of Unicode,
/// which on ASCII texts is that of each letter.
#[verifier::external_body]
pub(crate) fn to_lowercase(s: &str) -> (r: String)
    ensures
        r@ == lower_case(s@),
        vstd::utf8::is_ascii_chars(s@) ==> r@ == lowered(s@),
{
    s.to_lowercase()
}

/// The length of the UTF-8 form of `s`.
pub fn byte_len(s: &str) -> (n: usize)
    ensures
        n == vstd::utf8::encode_utf8(s@).len(),
{
    s.as_bytes().len()
}

// ---------------------------------------------------------------------------
// Searching
// ---------------------------------------------------------------------------

/// `p` occurs in `s` at position `i`.
pub open spec fn occurs_at<T>(s: Seq<T>, p: Seq<T>, i: int) -> bool {
    0 <= i && i + p.len() <= s.len() && s.subrange(i, i + p.len()) == p
}

/// `p` is a prefix of `s`.
pub open spec fn begins<T>(s: Seq<T>, p: Seq<T>) -> bool {
    occurs_at(s, p, 0)
}

/// `p` is a suffix of `s`.
pub open spec fn ends<T>(s: Seq<T>, p: Seq<T>) -> bool {
    occurs_at(s, p, s.len() - p.len())
}

/// The first position from `from` on at which `p` occurs in `s`.
pub open spec fn first_at<T>(s: Seq<T>, p: Seq<T>, from: int) -> Option<int>
    decreases s.len() + 1 - from,
{
    if from < 0 || from + p.len() > s.len() {
        None
    } else if occurs_at(s, p, from) {
        Some(from)
    } else {
        first_at(s, p, from + 1)
    }
}

/// The first position from `from` on at which `s` holds `c`.
pub open spec fn char_at(s: Seq<char>, c: char, from: int) -> Option<int>
    decreases s.len() - from,
{
    if from < 0 || from >= s.len() {
        None
    } else if s[from] == c {
        Some(from)
    } else {
        char_at(s, c, from + 1)
    }
}

/// The last position below `to` at which `s` holds `c`.
pub open spec fn last_char_at(s: Seq<char>, c: char, to: int) -> Option<int>
    decreases to,
{
    if to <= 0 || to > s.len() {
        None
    } else if s[to - 1] == c {
        Some(to - 1)
    } else {
        last_char_at(s, c, to - 1)
    }
}

/// `p` occurs somewhere in `s`.
pub open spec fn contains<T>(s: Seq<T>, p: Seq<T>) -> bool {
    first_at(s, p, 0) is Some
}

/// `first_at` gives the least position at which the pattern occurs.
pub proof fn lemma_first_at<T>(s: Seq<T>, p: Seq<T>, from: int)
    requires
        0 <= from,
    ensures
        match first_at(s, p, from) {
            Some(i) => from <= i && occurs_at(s, p, i) && forall|j: int|
                from <= j < i ==> !occurs_at(s, p, j),
            None => forall|j: int| from <= j ==> !occurs_at(s, p, j),
        },
    decreases s.len() + 1 - from,
{
    if from + p.len() <= s.len() && !occurs_at(s, p, from) {
        lemma_first_at(s, p, from + 1);
    }
}

/// `char_at` gives the least position at which the character stands.
pub proof fn lemma_char_at(s: Seq<char>, c: char, from: int)
    requires
        0 <= from,
    ensures
        match char_at(s, c, from) {
            Some(i) => from <= i < s.len() && s[i] == c && forall|j: int|
                from <= j < i ==> s[j] != c,
            None => forall|j: int| from <= j < s.len() ==> s[j] != c,
        },
    decreases s.len() - from,
{
    if from < s.len() && s[from] != c {
        lemma_char_at(s, c, from + 1);
    }
}

/// `last_char_at` gives the greatest position at which the character stands.
pub proof fn lemma_last_char_at(s: Seq<char>, c: char, to: int)
    requires
        to <= s.len(),
    ensures
        match last_char_at(s, c, to) {
            Some(i) => 0 <= i < to && s[i] == c && forall|j: int| i < j < to ==> s[j] != c,
            None => forall|j: int| 0 <= j < to ==> s[j] != c,
        },
    decreases to,
{
    if to > 0 && s[to - 1] != c {
        lemma_last_char_at(s, c, to - 1);
    }
}

/// Tells whether `p` occurs in `s` at position `i`.
pub fn match_at(s: &[char], p: &[char], i: usize) -> (r: bool)
    requires
        i <= s@.len(),
    ensures
        r == occurs_at(s@, p@, i as int),
{
    if s.len() - i < p.len() {
        return false;
    }
    for k in 0..p.len()
        invariant
            i + p@.len() <= s.len(),
            forall|j: int| 0 <= j < k ==> s@[i + j] == p@[j],
    {
        if s[i + k] != p[k] {
            assert(s@.subrange(i as int, i + p@.len())[k as int] != p@[k as int]);
            return false;
        }
    }
    assert(s@.subrange(i as int, i + p@.len()) =~= p@);
    true
}

/// The first position from `from` on at which `p` occurs in `s`.
pub fn find_in(s: &[char], p: &[char], from: usize) -> (r: Option<usize>)
    requires
        from <= s@.len(),
    ensures
        match r {
            Some(i) => first_at(s@, p@, from as int) == Some(i as int) && i + p.len() <= s.len(),
            None => first_at(s@, p@, from as int) is None,
        },
{
    let mut i: usize = from;
    while i < s.len()
        invariant
            from <= i <= s@.len(),
            first_at(s@, p@, from as int) == first_at(s@, p@, i as int),
        decreases s@.len() - i,
    {
        if match_at(s, p, i) {
            return Some(i);
        }
        if s.len() - i < p.len() {
            return None;
        }
        i += 1;
    }
    if match_at(s, p, i) {
        return Some(i);
    }
    assert(first_at(s@, p@, i + 1) is None);
    None
}

/// The first position from `from` on at which `s` holds `c`.
pub fn find_char_in(s: &[char], c: char, from: usize) -> (r: Option<usize>)
    requires
        from <= s@.len(),
    ensures
        match r {
            Some(i) => char_at(s@, c, from as int) == Some(i as int) && from <= i < s.len() && s@[i as int] == c,
            None => char_at(s@, c, from as int) is None,
        },
{
    let mut i: usize = from;
    while i < s.len()
        invariant
            from <= i <= s@.len(),
            char_at(s@, c, from as int) == char_at(s@, c, i as int),
        decreases s@.len() - i,
    {
        if s[i] == c {
            return Some(i);
        }
        i += 1;
    }
    None
}

/// The last position at which `s` holds `c`.
pub fn rfind_char_in(s: &[char], c: char) -> (r: Option<usize>)
    ensures
        match r {
            Some(i) => last_char_at(s@, c, s@.len() as int) == Some(i as int) && i < s.len() && s@[i as int] == c,
            None => last_char_at(s@, c, s@.len() as int) is None,
        },
{
    let mut i: usize = s.len();
    while i > 0
        invariant
            i <= s@.len(),
            last_char_at(s@, c, s@.len() as int) == last_char_at(s@, c, i as int),
        decreases i,
    {
        if s[i - 1] == c {
            return Some(i - 1);
        }
        i -= 1;
    }
    None
}

/// Tells whether `s` starts with `p`.
pub fn starts_with(s: &str, p: &str) -> (r: bool)
    ensures
        r == begins(s@, p@),
{
    match_at(&chars(s), &chars(p), 0)
}

/// Tells whether `s` ends with `p`.
pub fn ends_with(s: &str, p: &str) -> (r: bool)
    ensures
        r == ends(s@, p@),
{
    let (sv, pv) = (chars(s), chars(p));
    if sv.len() < pv.len() {
        return false;
    }
    match_at(&sv, &pv, sv.len() - pv.len())
}

/// Tells whether `p` occurs in `s`.
pub fn has(s: &str, p: &str) -> (r: bool)
    ensures
        r == contains(s@, p@),
{
    find_in(&chars(s), &chars(p), 0).is_some()
}

/// Tells whether `s` holds the character `c`.
pub fn has_char(s: &str, c: char) -> (r: bool)
    ensures
        r == s@.contains(c),
{
    proof {
        lemma_char_at(s@, c, 0);
    }
    find_char_in(&chars(s), c, 0).is_some()
}

/// What is left of `s` after the prefix `p`.
pub open spec fn after_prefix(s: Seq<char>, p: Seq<char>) -> Option<Seq<char>> {
    if begins(s, p) {
        Some(s.skip(p.len() as int))
    } else {
        None
    }
}

/// What is left of `s` before the suffix `p`.
pub open spec fn before_suffix(s: Seq<char>, p: Seq<char>) -> Option<Seq<char>> {
    if ends(s, p) {
        Some(s.take(s.len() - p.len()))
    } else {
        None
    }
}

/// Removes the prefix `p` from `s`.
pub fn strip_prefix(s: &str, p: &str) -> (r: Option<String>)
    ensures
        r.deep_view() == after_prefix(s@, p@),
{
    let (sv, pv) = (chars(s), chars(p));
    if match_at(&sv, &pv, 0) {
        let rest = string_of(&sv, pv.len(), sv.len());
        assert(rest@ =~= s@.skip(p@.len() as int));
        Some(rest)
    } else {
        None
    }
}

/// Removes the suffix `p` from `s`.
pub fn strip_suffix(s: &str, p: &str) -> (r: Option<String>)
    ensures
        r.deep_view() == before_suffix(s@, p@),
{
    let (sv, pv) = (chars(s), chars(p));
    if sv.len() >= pv.len() && match_at(&sv, &pv, sv.len() - pv.len()) {
        let rest = string_of(&sv, 0, sv.len() - pv.len());
        assert(rest@ =~= s@.take(s@.len() - p@.len()));
        Some(rest)
    } else {
        None
    }
}

// ---------------------------------------------------------------------------
// Splitting
// ---------------------------------------------------------------------------

/// The pieces of `s` from position `from` on, cut at every `c`.
pub open spec fn pieces_from(s: Seq<char>, c: char, from: int) -> Seq<Seq<char>>
    decreases s.len() - from,
{
    match char_at(s, c, from) {
        Some(i) => {
            if from <= i < s.len() {
                seq![s.subrange(from, i)] + pieces_from(s, c, i + 1)
            } else {
                seq![]
            }
        },
        None => seq![s.skip(from)],
    }
}

/// The pieces of `s` between its occurrences of `c`; one more than there are
/// occurrences.
pub open spec fn pieces(s: Seq<char>, c: char) -> Seq<Seq<char>> {
    pieces_from(s, c, 0)
}

/// What stands before and after the first `c` of `s`.
pub open spec fn cut(s: Seq<char>, c: char) -> Option<(Seq<char>, Seq<char>)> {
    match char_at(s, c, 0) {
        Some(i) => Some((s.take(i), s.skip(i + 1))),
        None => None,
    }
}

/// What stands before the first `c` of `s`, or all of `s`.
pub open spec fn before(s: Seq<char>, c: char) -> Seq<char> {
    match char_at(s, c, 0) {
        Some(i) => s.take(i),
        None => s,
    }
}

/// The first piece is what stands before the first separator, and no piece
/// holds a separator.
pub proof fn lemma_pieces(s: Seq<char>, c: char, from: int)
    requires
        0 <= from <= s.len(),
    ensures
        pieces_from(s, c, from).len() > 0,
        pieces_from(s, c, from)[0] == before(s.skip(from), c),
        forall|i: int|
            0 <= i < pieces_from(s, c, from).len() ==> !(#[trigger] pieces_from(s, c, from)[i]).contains(c),
    decreases s.len() - from,
{
    lemma_char_at(s, c, from);
    lemma_char_at(s.skip(from), c, 0);
    match char_at(s, c, from) {
        Some(i) => {
            let rest = s.skip(from);
            assert(rest[i - from] == c);
            let k = char_at(rest, c, 0)->0;
            assert(s[from + k] == c);
            assert(k == i - from);
            assert(s.subrange(from, i) =~= rest.take(k));
            lemma_pieces(s, c, i + 1);
            let tail = pieces_from(s, c, i + 1);
            let all = pieces_from(s, c, from);
            assert forall|j: int| 0 <= j < all.len() implies !(#[trigger] all[j]).contains(c) by {
                if j > 0 {
                    assert(all[j] == tail[j - 1]);
                }
            }
        },
        None => {
            assert(forall|j: int| 0 <= j < s.skip(from).len() ==> s.skip(from)[j] == s[from + j]);
        },
    }
}

/// Cuts `s` at every `c`.
pub fn split(s: &str, c: char) -> (r: Vec<String>)
    ensures
        r.deep_view() == pieces(s@, c),
        r@.len() > 0,
{
    let v = chars(s);
    let mut r: Vec<String> = Vec::new();
    let mut from: usize = 0;
    loop
        invariant
            v@ == s@,
            from <= v@.len(),
            r.deep_view() + pieces_from(s@, c, from as int) == pieces(s@, c),
        decreases v@.len() - from,
    {
        let ghost before_push = r.deep_view();
        match find_char_in(&v, c, from) {
            Some(i) => {
                r.push(string_of(&v, from, i));
                proof {
                    assert(r.deep_view() =~= before_push.push(s@.subrange(from as int, i as int)));
                    assert(r.deep_view() + pieces_from(s@, c, i + 1) =~= before_push + pieces_from(
                        s@,
                        c,
                        from as int,
                    ));
                }
                from = i + 1;
            },
            None => {
                r.push(string_of(&v, from, v.len()));
                proof {
                    assert(s@.subrange(from as int, s@.len() as int) =~= s@.skip(from as int));
                    assert(r.deep_view() =~= before_push + pieces_from(s@, c, from as int));
                }
                return r;
            },
        }
    }
}

/// The pieces of `s` from position `from` on, cut at every `p`, found from left
/// to right.
pub open spec fn parts_from(s: Seq<char>, p: Seq<char>, from: int) -> Seq<Seq<char>>
    decreases s.len() - from,
{
    match first_at(s, p, from) {
        Some(i) => {
            if p.len() > 0 && from <= i && i + p.len() <= s.len() {
                seq![s.subrange(from, i)] + parts_from(s, p, i + p.len())
            } else {
                seq![s.skip(from)]
            }
        },
        None => seq![s.skip(from)],
    }
}

/// The pieces of `s` between its occurrences of `p`.
pub open spec fn parts(s: Seq<char>, p: Seq<char>) -> Seq<Seq<char>> {
    parts_from(s, p, 0)
}

/// Cuts `s` at every `p`.
pub fn split_str(s: &str, p: &str) -> (r: Vec<String>)
    requires
        p@.len() > 0,
    ensures
        r.deep_view() == parts(s@, p@),
{
    let (v, pv) = (chars(s), chars(p));
    let mut r: Vec<String> = Vec::new();
    let mut from: usize = 0;
    loop
        invariant
            v@ == s@,
            pv@ == p@,
            p@.len() > 0,
            from <= v@.len(),
            r.deep_view() + parts_from(s@, p@, from as int) == parts(s@, p@),
        decreases v@.len() - from,
    {
        let ghost before_push = r.deep_view();
        match find_in(&v, &pv, from) {
            Some(i) => {
                proof {
                    lemma_first_at(s@, p@, from as int);
                }
                r.push(string_of(&v, from, i));
                proof {
                    assert(r.deep_view() =~= before_push.push(s@.subrange(from as int, i as int)));
                    assert(r.deep_view() + parts_from(s@, p@, i + p@.len()) =~= before_push
                        + parts_from(s@, p@, from as int));
                }
                from = i + pv.len();
            },
            None => {
                r.push(string_of(&v, from, v.len()));
                proof {
                    assert(s@.subrange(from as int, s@.len() as int) =~= s@.skip(from as int));
                    assert(r.deep_view() =~= before_push + parts_from(s@, p@, from as int));
                }
                return r;
            },
        }
    }
}

/// Cuts `s` at its first `c`.
pub fn split_once(s: &str, c: char) -> (r: Option<(String, String)>)
    ensures
        r.deep_view() == cut(s@, c),
{
    let v = chars(s);
    match find_char_in(&v, c, 0) {
        Some(i) => {
            let a = string_of(&v, 0, i);
            let b = string_of(&v, i + 1, v.len());
            assert(a@ =~= s@.take(i as int));
            assert(b@ =~= s@.skip(i + 1));
            Some((a, b))
        },
        None => None,
    }
}

/// What stands before the first `c` of `s`, or all of `s`.
pub fn before_char(s: &str, c: char) -> (r: String)
    ensures
        r@ == before(s@, c),
{
    let v = chars(s);
    match find_char_in(&v, c, 0) {
        Some(i) => {
            let a = string_of(&v, 0, i);
            assert(a@ =~= s@.take(i as int));
            a
        },
        None => s.to_owned(),
    }
}

// ---------------------------------------------------------------------------
// Trimming
// ---------------------------------------------------------------------------

/// The first position from `i` on whose character `p` rejects.
pub open spec fn lead(s: Seq<char>, p: spec_fn(char) -> bool, i: int) -> int
    decreases s.len() - i,
{
    if 0 <= i < s.len() && p(s[i]) {
        lead(s, p, i + 1)
    } else {
        i
    }
}

/// The end of what is left when the characters before `n` that `p` accepts
/// are dropped.
pub open spec fn tail(s: Seq<char>, p: spec_fn(char) -> bool, n: int) -> int
    decreases n,
{
    if 0 < n <= s.len() && p(s[n - 1]) {
        tail(s, p, n - 1)
    } else {
        n
    }
}

/// `s` without the characters at its start that `p` accepts.
pub open spec fn trimmed_start(s: Seq<char>, p: spec_fn(char) -> bool) -> Seq<char> {
    s.skip(lead(s, p, 0))
}

/// `s` without the characters at its end that `p` accepts.
pub open spec fn trimmed_end(s: Seq<char>, p: spec_fn(char) -> bool) -> Seq<char> {
    s.take(tail(s, p, s.len() as int))
}

/// `s` without white space at its ends.
pub open spec fn trimmed(s: Seq<char>) -> Seq<char> {
    trimmed_end(trimmed_start(s, |c: char| is_space(c)), |c: char| is_space(c))
}

/// Accepts the character `q` alone.
pub open spec fn only(q: char) -> spec_fn(char) -> bool {
    |c: char| c == q
}

/// `s` without the character `q` at its ends.
pub open spec fn trimmed_of(s: Seq<char>, q: char) -> Seq<char> {
    trimmed_end(trimmed_start(s, only(q)), only(q))
}

/// The bounds of `lead`.
pub proof fn lemma_lead(s: Seq<char>, p: spec_fn(char) -> bool, i: int)
    requires
        0 <= i <= s.len(),
    ensures
        i <= lead(s, p, i) <= s.len(),
        lead(s, p, i) < s.len() ==> !p(s[lead(s, p, i)]),
        forall|j: int| i <= j < lead(s, p, i) ==> p(#[trigger] s[j]),
    decreases s.len() - i,
{
    if i < s.len() && p(s[i]) {
        lemma_lead(s, p, i + 1);
    }
}

/// The bounds of `tail`.
pub proof fn lemma_tail(s: Seq<char>, p: spec_fn(char) -> bool, n: int)
    requires
        0 <= n <= s.len(),
    ensures
        0 <= tail(s, p, n) <= n,
        tail(s, p, n) > 0 ==> !p(s[tail(s, p, n) - 1]),
        forall|j: int| tail(s, p, n) <= j < n ==> p(#[trigger] s[j]),
    decreases n,
{
    if 0 < n && p(s[n - 1]) {
        lemma_tail(s, p, n - 1);
    }
}

/// A text that neither begins nor ends with white space stays as it is.
pub proof fn lemma_trimmed_fixed(s: Seq<char>)
    requires
        s.len() > 0 ==> !is_space(s[0]) && !is_space(s.last()),
    ensures
        trimmed(s) == s,
{
    let p = |c: char| is_space(c);
    assert(lead(s, p, 0) == 0);
    assert(s.skip(0) =~= s);
    assert(tail(s, p, s.len() as int) == s.len());
    assert(s.take(s.len() as int) =~= s);
}

/// A trimmed text neither begins nor ends with white space, so that trimming it again
/// changes nothing.
pub proof fn lemma_trimmed_twice(s: Seq<char>)
    ensures
        trimmed(s).len() > 0 ==> !is_space(trimmed(s)[0]) && !is_space(trimmed(s).last()),
        trimmed(trimmed(s)) == trimmed(s),
{
    let p = |c: char| is_space(c);
    let t = trimmed_start(s, p);
    lemma_lead(s, p, 0);
    lemma_tail(t, p, t.len() as int);
    let u = trimmed(s);
    assert(u == t.take(tail(t, p, t.len() as int)));
    if u.len() > 0 {
        assert(u[0] == t[0]);
        assert(t[0] == s[lead(s, p, 0)]);
        assert(u.last() == t[u.len() - 1]);
    }
    lemma_trimmed_fixed(u);
}

/// Putting a text in lower case twice is the same as doing it once, and does not touch
/// its white space.
pub proof fn lemma_lowered(s: Seq<char>)
    ensures
        lowered(lowered(s)) == lowered(s),
        lowered(s).len() == s.len(),
        forall|i: int| 0 <= i < s.len() ==> is_space(#[trigger] lowered(s)[i]) == is_space(s[i]),
{
    assert forall|i: int| 0 <= i < s.len() implies lower(lower(#[trigger] s[i])) == lower(s[i])
        && is_space(lower(s[i])) == is_space(s[i]) by {
        let c = s[i];
        if 'A' <= c <= 'Z' {
            let d = lower(c);
            assert(d as u32 == c as u32 + 32);
        }
    }
    assert(lowered(lowered(s)) =~= lowered(s));
}

/// Drops white space at the start of `s`.
pub fn trim_start(s: &str) -> (r: String)
    ensures
        r@ == trimmed_start(s@, |c: char| is_space(c)),
{
    let v = chars(s);
    let ghost p = |c: char| is_space(c);
    let mut i: usize = 0;
    while i < v.len() && space(v[i])
        invariant
            i <= v@.len(),
            p == (|c: char| is_space(c)),
            lead(v@, p, 0) == lead(v@, p, i as int),
        decreases v@.len() - i,
    {
        i += 1;
    }
    let r = string_of(&v, i, v.len());
    assert(r@ =~= s@.skip(i as int));
    r
}

/// Drops white space at the end of `s`.
pub fn trim_end(s: &str) -> (r: String)
    ensures
        r@ == trimmed_end(s@, |c: char| is_space(c)),
{
    let v = chars(s);
    let ghost p = |c: char| is_space(c);
    let mut n: usize = v.len();
    while n > 0 && space(v[n - 1])
        invariant
            n <= v@.len(),
            p == (|c: char| is_space(c)),
            tail(v@, p, v@.len() as int) == tail(v@, p, n as int),
        decreases n,
    {
        n -= 1;
    }
    let r = string_of(&v, 0, n);
    assert(r@ =~= s@.take(n as int));
    r
}

/// Drops white space at both ends of `s`.
pub fn trim(s: &str) -> (r: String)
    ensures
        r@ == trimmed(s@),
{
    trim_end(&trim_start(s))
}

/// Drops the character `q` at the start of `s`.
pub fn trim_start_char(s: &str, q: char) -> (r: String)
    ensures
        r@ == trimmed_start(s@, only(q)),
{
    let v = chars(s);
    let ghost p = only(q);
    let mut i: usize = 0;
    while i < v.len() && v[i] == q
        invariant
            i <= v@.len(),
            p == only(q),
            lead(v@, p, 0) == lead(v@, p, i as int),
        decreases v@.len() - i,
    {
        i += 1;
    }
    let r = string_of(&v, i, v.len());
    assert(r@ =~= s@.skip(i as int));
    r
}

/// Drops the character `q` at the end of `s`.
pub fn trim_end_char(s: &str, q: char) -> (r: String)
    ensures
        r@ == trimmed_end(s@, only(q)),
{
    let v = chars(s);
    let ghost p = only(q);
    let mut n: usize = v.len();
    while n > 0 && v[n - 1] == q
        invariant
            n <= v@.len(),
            p == only(q),
            tail(v@, p, v@.len() as int) == tail(v@, p, n as int),
        decreases n,
    {
        n -= 1;
    }
    let r = string_of(&v, 0, n);
    assert(r@ =~= s@.take(n as int));
    r
}

/// Drops the character `q` at both ends of `s`.
pub fn trim_char(s: &str, q: char) -> (r: String)
    ensures
        r@ == trimmed_of(s@, q),
{
    trim_end_char(&trim_start_char(s, q), q)
}

// ---------------------------------------------------------------------------
// Replacing
// ---------------------------------------------------------------------------

/// `s` from position `i` on with every non-overlapping `p`, found from left to
/// right, replaced by `by`.
pub open spec fn replaced_from(s: Seq<char>, p: Seq<char>, by: Seq<char>, i: int) -> Seq<char>
    decreases s.len() - i,
{
    match first_at(s, p, i) {
        Some(j) => {
            if p.len() > 0 && i <= j && j + p.len() <= s.len() {
                s.subrange(i, j) + by + replaced_from(s, p, by, j + p.len())
            } else {
                s.skip(i)
            }
        },
        None => s.skip(i),
    }
}

/// `by` before every character of `s` and at its end.
pub open spec fn interleaved(s: Seq<char>, by: Seq<char>) -> Seq<char>
    decreases s.len(),
{
    if s.len() == 0 {
        by
    } else {
        interleaved(s.drop_last(), by).push(s.last()) + by
    }
}

/// `s` with every occurrence of `p` replaced by `by`. The empty pattern occurs
/// before every character and at the end.
pub open spec fn replaced(s: Seq<char>, p: Seq<char>, by: Seq<char>) -> Seq<char> {
    if p.len() == 0 {
        interleaved(s, by)
    } else {
        replaced_from(s, p, by, 0)
    }
}

/// `s` with the first occurrence of `p` replaced by `by`.
pub open spec fn replaced_once(s: Seq<char>, p: Seq<char>, by: Seq<char>) -> Seq<char> {
    match first_at(s, p, 0) {
        Some(j) => s.take(j) + by + s.skip(j + p.len()),
        None => s,
    }
}

/// A text that does not hold the pattern is not changed.
pub proof fn lemma_replaced_absent(s: Seq<char>, p: Seq<char>, by: Seq<char>)
    requires
        p.len() > 0,
        !contains(s, p),
    ensures
        replaced(s, p, by) == s,
{
    assert(s.skip(0) =~= s);
}

/// Replaces every occurrence of `p` in `s` by `by`.
pub fn replace(s: &str, p: &str, by: &str) -> (r: String)
    ensures
        r@ == replaced(s@, p@, by@),
{
    let (sv, pv) = (chars(s), chars(p));
    let mut r = String::new();
    if pv.len() == 0 {
        r.append(by);
        for i in 0..sv.len()
            invariant
                sv@ == s@,
                r@ == interleaved(s@.take(i as int), by@),
        {
            r.push(sv[i]);
            r.append(by);
            proof {
                let t = s@.take(i + 1);
                assert(t.drop_last() =~= s@.take(i as int));
            }
        }
        assert(s@.take(s@.len() as int) =~= s@);
        return r;
    }
    let mut i: usize = 0;
    loop
        invariant
            sv@ == s@,
            pv@ == p@,
            p@.len() > 0,
            i <= sv@.len(),
            r@ + replaced_from(s@, p@, by@, i as int) == replaced_from(s@, p@, by@, 0),
        decreases sv@.len() - i,
    {
        let ghost done = r@;
        match find_in(&sv, &pv, i) {
            Some(j) => {
                proof {
                    lemma_first_at(s@, p@, i as int);
                }
                r.append(&string_of(&sv, i, j));
                r.append(by);
                proof {
                    assert(r@ + replaced_from(s@, p@, by@, j + p@.len()) =~= done + replaced_from(
                        s@,
                        p@,
                        by@,
                        i as int,
                    ));
                }
                i = j + pv.len();
            },
            None => {
                r.append(&string_of(&sv, i, sv.len()));
                assert(s@.subrange(i as int, s@.len() as int) =~= s@.skip(i as int));
                return r;
            },
        }
    }
}

/// Replaces the first occurrence of `p` in `s` by `by`.
pub fn replace_first(s: &str, p: &str, by: &str) -> (r: String)
    ensures
        r@ == replaced_once(s@, p@, by@),
{
    let (sv, pv) = (chars(s), chars(p));
    match find_in(&sv, &pv, 0) {
        Some(j) => {
            let mut r = string_of(&sv, 0, j);
            r.append(by);
            r.append(&string_of(&sv, j + pv.len(), sv.len()));
            assert(s@.subrange(0, j as int) =~= s@.take(j as int));
            assert(s@.subrange(j + p@.len(), s@.len() as int) =~= s@.skip(j + p@.len()));
            r
        },
        None => s.to_owned(),
    }
}

// ---------------------------------------------------------------------------
// Decimal numbers
// ---------------------------------------------------------------------------

/// `c` is a decimal digit.
pub open spec fn is_digit(c: char) -> bool {
    '0' <= c <= '9'
}

/// Every character of `s` is a decimal digit.
pub open spec fn all_digits(s: Seq<char>) -> bool {
    forall|i: int| 0 <= i < s.len() ==> is_digit(#[trigger] s[i])
}

/// The number that the decimal digits of `s` write.
pub open spec fn value(s: Seq<char>) -> nat
    decreases s.len(),
{
    if s.len() == 0 {
        0
    } else {
        value(s.drop_last()) * 10 + (s.last() as nat - '0' as nat) as nat
    }
}

/// `s` without one leading plus sign.
pub open spec fn unsigned_part(s: Seq<char>) -> Seq<char> {
    if s.len() > 0 && s[0] == '+' {
        s.skip(1)
    } else {
        s
    }
}

/// The number that `s` writes, where it is at most `max`: at least one decimal
/// digit, perhaps after a plus sign, and nothing else.
pub open spec fn number(s: Seq<char>, max: nat) -> Option<nat> {
    let d = unsigned_part(s);
    if d.len() > 0 && all_digits(d) && value(d) <= max {
        Some(value(d))
    } else {
        None
    }
}

/// The decimal digit for `n`.
pub open spec fn digit(n: nat) -> char {
    (n + '0' as nat) as char
}

/// The decimal form of `n`.
pub open spec fn decimal(n: nat) -> Seq<char>
    decreases n,
{
    if n < 10 {
        seq![digit(n)]
    } else {
        decimal(n / 10).push(digit(n % 10))
    }
}

/// A prefix of a number is no greater than the number.
proof fn lemma_value_prefix(s: Seq<char>, n: int)
    requires
        0 <= n <= s.len(),
        all_digits(s),
    ensures
        value(s.take(n)) <= value(s),
    decreases s.len(),
{
    if n < s.len() {
        let t = s.drop_last();
        assert(is_digit(s.last()));
        assert forall|i: int| 0 <= i < t.len() implies is_digit(#[trigger] t[i]) by {
            assert(is_digit(s[i]));
        }
        lemma_value_prefix(t, n);
        assert(t.take(n) =~= s.take(n));
    } else {
        assert(s.take(n) =~= s);
    }
}

/// The decimal form of a number is read back as the number.
pub proof fn lemma_decimal_value(n: nat)
    ensures
        decimal(n).len() > 0,
        all_digits(decimal(n)),
        value(decimal(n)) == n,
        forall|max: nat| n <= max ==> #[trigger] number(decimal(n), max) == Some(n),
    decreases n,
{
    reveal_with_fuel(value, 2);
    if n < 10 {
        assert(decimal(n).drop_last() =~= seq![]);
    } else {
        lemma_decimal_value(n / 10);
        assert(decimal(n).drop_last() =~= decimal(n / 10));
    }
    assert(is_digit(decimal(n)[0]));
}

/// Reads a decimal number of at most `max`.
pub fn parse_number(s: &str, max: u64) -> (r: Option<u64>)
    ensures
        match r {
            Some(n) => number(s@, max as nat) == Some(n as nat),
            None => number(s@, max as nat) is None,
        },
{
    let v = chars(s);
    let start: usize = if v.len() > 0 && v[0] == '+' {
        1
    } else {
        0
    };
    let ghost d = unsigned_part(s@);
    assert(d =~= s@.skip(start as int));
    if v.len() == start {
        return None;
    }
    let mut n: u64 = 0;
    for i in start..v.len()
        invariant
            start <= 1,
            start <= i <= v@.len(),
            v@ == s@,
            d == s@.skip(start as int),
            d == unsigned_part(s@),
            d.len() > 0,
            forall|j: int| 0 <= j < i - start ==> is_digit(#[trigger] d[j]),
            n == value(d.take(i - start)),
            n <= max,
    {
        let c: char = v[i];
        assert(d[i - start] == c);
        if c < '0' || c > '9' {
            assert(!is_digit(d[i - start]));
            return None;
        }
        let k: u64 = (c as u8 - '0' as u8) as u64;
        let next: u128 = n as u128 * 10 + k as u128;
        proof {
            assert(d.take(i - start + 1).drop_last() =~= d.take(i - start));
            assert(value(d.take(i - start + 1)) == next);
        }
        if next > max as u128 {
            proof {
                if all_digits(d) {
                    lemma_value_prefix(d, i - start + 1);
                }
            }
            return None;
        }
        n = next as u64;
    }
    assert(d.take(d.len() as int) =~= d);
    Some(n)
}

/// The decimal form of `n`.
pub fn number_text(n: u128) -> (s: String)
    ensures
        s@ == decimal(n as nat),
    decreases n,
{
    if n < 10 {
        let mut s = String::new();
        s.push((n as u8 + '0' as u8) as char);
        assert(s@ =~= seq![digit(n as nat)]);
        s
    } else {
        let mut s = number_text(n / 10);
        s.push(((n % 10) as u8 + '0' as u8) as char);
        s
    }
}

// ---------------------------------------------------------------------------
// Joining
// ---------------------------------------------------------------------------

/// The parts one after the other, with `sep` between them.
pub open spec fn joined(p: Seq<Seq<char>>, sep: Seq<char>) -> Seq<char>
    decreases p.len(),
{
    if p.len() == 0 {
        seq![]
    } else if p.len() == 1 {
        p[0]
    } else {
        joined(p.drop_last(), sep) + sep + p.last()
    }
}

/// The parts one after the other, with `sep` between them.
pub fn join_all(p: &Vec<String>, sep: &str) -> (r: String)
    ensures
        r@ == joined(p.deep_view(), sep@),
{
    let ghost all = p.deep_view();
    let mut out = String::new();
    assert(all.take(0) =~= seq![]);
    assert(out@ =~= seq![]);
    for i in 0..p.len()
        invariant
            all == p.deep_view(),
            out@ == joined(all.take(i as int), sep@),
    {
        assert(all.take(i + 1).drop_last() =~= all.take(i as int));
        assert(all.take(i + 1).last() == p@[i as int]@);
        if i == 0 {
            out = p[i].clone();
        } else {
            out = join3(out.as_str(), sep, p[i].as_str());
        }
    }
    assert(all.take(all.len() as int) =~= all);
    out
}

// ---------------------------------------------------------------------------
// Lines
// ---------------------------------------------------------------------------

/// A text without a carriage return at its end.
pub open spec fn without_return(s: Seq<char>) -> Seq<char> {
    if s.len() > 0 && s.last() == '\r' {
        s.drop_last()
    } else {
        s
    }
}

/// The lines of a text. A line break at the very end begins no line.
pub open spec fn lines(s: Seq<char>) -> Seq<Seq<char>> {
    let p = pieces(s, '\n');
    let n = if p.len() > 0 && p.last().len() == 0 {
        p.len() - 1
    } else {
        p.len() as int
    };
    Seq::new(n as nat, |i: int| if i < p.len() - 1 {
        without_return(p[i])
    } else {
        p[i]
    })
}

/// The lines of a text. A line break at the very end begins no line.
pub fn split_lines(s: &str) -> (r: Vec<String>)
    ensures
        r.deep_view() == lines(s@),
{
    let p = split(s, '\n');
    let ghost ps = p.deep_view();
    let mut n: usize = p.len();
    if n > 0 {
        assert(ps.last() == p@[n - 1]@);
        if p[n - 1].as_str().is_empty() {
            n = n - 1;
        }
    }
    let mut out: Vec<String> = Vec::new();
    for i in 0..n
        invariant
            ps == p.deep_view(),
            ps == pieces(s@, '\n'),
            n <= p@.len(),
            n == lines(s@).len(),
            out@.len() == i,
            forall|k: int| 0 <= k < i ==> (#[trigger] out@[k])@ == lines(s@)[k],
    {
        assert(ps[i as int] == p@[i as int]@);
        if i < p.len() - 1 {
            let v = chars(p[i].as_str());
            let m = v.len();
            if m > 0 && v[m - 1] == '\r' {
                let t = string_of(v.as_slice(), 0, m - 1);
                assert(t@ =~= ps[i as int].drop_last());
                out.push(t);
            } else {
                out.push(p[i].clone());
            }
        } else {
            out.push(p[i].clone());
        }
    }
    assert(out.deep_view() =~= lines(s@));
    out
}

// ---------------------------------------------------------------------------
// Lists
// ---------------------------------------------------------------------------

/// The parts of a text between commas, without the space round them.
pub open spec fn listed(s: Seq<char>) -> Seq<Seq<char>> {
    let p = pieces(s, ',');
    Seq::new(p.len(), |i: int| trimmed(p[i]))
}

/// The parts of a text between commas, without the space round them.
pub fn comma_list(s: &str) -> (r: Vec<String>)
    ensures
        r.deep_view() == listed(s@),
{
    let p = split(s, ',');
    let mut out: Vec<String> = Vec::new();
    for i in 0..p.len()
        invariant
            p.deep_view() == pieces(s@, ','),
            out@.len() == i,
            forall|k: int| 0 <= k < i ==> (#[trigger] out@[k])@ == listed(s@)[k],
    {
        assert(p.deep_view()[i as int] == p@[i as int]@);
        out.push(trim(p[i].as_str()));
    }
    assert(out.deep_view() =~= listed(s@));
    out
}

/// Moves all texts of one list to the end of another.
pub fn extend(v: &mut Vec<String>, more: Vec<String>)
    ensures
        final(v).deep_view() == old(v).deep_view() + more.deep_view(),
{
    let ghost start = v.deep_view();
    assert(start =~= start + more.deep_view().take(0));
    for i in 0..more.len()
        invariant
            v.deep_view() == start + more.deep_view().take(i as int),
    {
        let ghost before = v.deep_view();
        v.push(more[i].clone());
        assert(v.deep_view() =~= before.push(more@[i as int]@));
        assert(more.deep_view().take(i + 1) =~= more.deep_view().take(i as int).push(
            more@[i as int]@,
        ));
    }
    assert(more.deep_view().take(more.deep_view().len() as int) =~= more.deep_view());
}

// ---------------------------------------------------------------------------
// Cutting undoes joining
// ---------------------------------------------------------------------------

/// A text with one more part behind it has one more piece.
pub proof fn lemma_pieces_behind(s: Seq<char>, x: Seq<char>, c: char, from: int)
    requires
        0 <= from <= s.len(),
        !x.contains(c),
    ensures
        pieces_from(s + seq![c] + x, c, from) == pieces_from(s, c, from).push(x),
    decreases s.len() - from,
{
    let all = s + seq![c] + x;
    lemma_char_at(s, c, from);
    lemma_char_at(all, c, from);
    assert(all[s.len() as int] == c);
    assert(forall|k: int| 0 <= k < s.len() ==> all[k] == s[k]);
    match char_at(s, c, from) {
        Some(i) => {
            let k = char_at(all, c, from)->0;
            assert(all[i] == c);
            assert(k == i);
            assert(all.subrange(from, i) =~= s.subrange(from, i));
            lemma_pieces_behind(s, x, c, i + 1);
            assert(seq![s.subrange(from, i)] + pieces_from(s, c, i + 1).push(x) =~= (seq![
                s.subrange(from, i),
            ] + pieces_from(s, c, i + 1)).push(x));
        },
        None => {
            let k = char_at(all, c, from)->0;
            assert(k == s.len());
            assert(all.subrange(from, k) =~= s.skip(from));
            lemma_char_at(all, c, k + 1);
            assert(char_at(all, c, k + 1) is None) by {
                if let Some(j) = char_at(all, c, k + 1) {
                    assert(x[j - s.len() - 1] == c);
                }
            }
            assert(all.skip(k + 1) =~= x);
            assert(pieces_from(all, c, k + 1) == seq![x]);
            assert(pieces_from(all, c, from) == seq![s.skip(from)] + seq![x]);
            assert(pieces_from(s, c, from) == seq![s.skip(from)]);
            assert(seq![s.skip(from)] + seq![x] =~= seq![s.skip(from)].push(x));
        },
    }
}

/// Parts that were joined by a character that none of them holds come apart at it
/// again.
pub proof fn lemma_pieces_of_joined(p: Seq<Seq<char>>, c: char)
    requires
        p.len() > 0,
        forall|i: int| 0 <= i < p.len() ==> !(#[trigger] p[i]).contains(c),
    ensures
        pieces(joined(p, seq![c]), c) == p,
    decreases p.len(),
{
    if p.len() == 1 {
        lemma_char_at(p[0], c, 0);
        assert(char_at(p[0], c, 0) is None) by {
            if let Some(j) = char_at(p[0], c, 0) {
                assert(p[0][j] == c);
            }
        }
        assert(p[0].skip(0) =~= p[0]);
        assert(seq![p[0]] =~= p);
    } else {
        let d = p.drop_last();
        assert forall|i: int| 0 <= i < d.len() implies !(#[trigger] d[i]).contains(c) by {
            assert(d[i] == p[i]);
        }
        lemma_pieces_of_joined(d, c);
        lemma_pieces_behind(joined(d, seq![c]), p.last(), c, 0);
        assert(d.push(p.last()) =~= p);
    }
}

/// Joined parts with one more part before them.
pub proof fn lemma_joined_front(x: Seq<char>, p: Seq<Seq<char>>, sep: Seq<char>)
    requires
        p.len() > 0,
    ensures
        joined(seq![x] + p, sep) == x + sep + joined(p, sep),
    decreases p.len(),
{
    let all = seq![x] + p;
    assert(all.last() == p.last());
    if p.len() == 1 {
        assert(all.drop_last() =~= seq![x]);
        assert(joined(seq![x], sep) == x);
    } else {
        assert(all.drop_last() =~= seq![x] + p.drop_last());
        lemma_joined_front(x, p.drop_last(), sep);
        assert(x + sep + joined(p.drop_last(), sep) + sep + p.last() =~= x + sep + (joined(
            p.drop_last(),
            sep,
        ) + sep + p.last()));
    }
}

// ---------------------------------------------------------------------------
// Words
// ---------------------------------------------------------------------------

/// The place of the first space from `i` on, or the end.
pub open spec fn word_end(s: Seq<char>, i: int) -> int
    decreases s.len() - i,
{
    if i < 0 || i >= s.len() || is_space(s[i]) {
        i
    } else {
        word_end(s, i + 1)
    }
}

/// The words of a text from `i` on: what stands between spaces.
pub open spec fn words_from(s: Seq<char>, i: int) -> Seq<Seq<char>>
    decreases s.len() - i,
{
    if i < 0 || i >= s.len() {
        seq![]
    } else if is_space(s[i]) {
        words_from(s, i + 1)
    } else {
        let j = word_end(s, i);
        if i < j <= s.len() {
            seq![s.subrange(i, j)] + words_from(s, j)
        } else {
            seq![]
        }
    }
}

/// The words of a text: what stands between spaces.
pub open spec fn words(s: Seq<char>) -> Seq<Seq<char>> {
    words_from(s, 0)
}

/// Where a word ends.
proof fn lemma_word_end(s: Seq<char>, i: int)
    requires
        0 <= i <= s.len(),
    ensures
        i <= word_end(s, i) <= s.len(),
        forall|k: int| i <= k < word_end(s, i) ==> !is_space(#[trigger] s[k]),
        word_end(s, i) < s.len() ==> is_space(s[word_end(s, i)]),
        i < s.len() && !is_space(s[i]) ==> i < word_end(s, i),
    decreases s.len() - i,
{
    if i < s.len() && !is_space(s[i]) {
        lemma_word_end(s, i + 1);
    }
}

/// The words of a text: what stands between spaces.
pub fn split_whitespace(s: &str) -> (r: Vec<String>)
    ensures
        r.deep_view() == words(s@),
{
    let v = chars(s);
    let mut out: Vec<String> = Vec::new();
    let mut i: usize = 0;
    assert(out.deep_view() + words_from(s@, 0) =~= words(s@));
    while i < v.len()
        invariant
            v@ == s@,
            i <= v.len(),
            out.deep_view() + words_from(s@, i as int) == words(s@),
        decreases v.len() - i,
    {
        if space(v[i]) {
            i = i + 1;
        } else {
            proof {
                lemma_word_end(s@, i as int);
            }
            let mut j: usize = i;
            while j < v.len() && !space(v[j])
                invariant
                    v@ == s@,
                    i <= j <= v.len(),
                    word_end(s@, i as int) == word_end(s@, j as int),
                decreases v.len() - j,
            {
                j = j + 1;
            }
            let ghost before = out.deep_view();
            let w = string_of(v.as_slice(), i, j);
            let ghost x = w@;
            out.push(w);
            assert(out.deep_view() =~= before.push(x));
            assert(out.deep_view() + words_from(s@, j as int) =~= before + (seq![x] + words_from(
                s@,
                j as int,
            )));
            i = j;
        }
    }
    assert(out.deep_view() =~= out.deep_view() + words_from(s@, s@.len() as int));
    out
}

/// A text without spaces.
pub open spec fn spaceless(s: Seq<char>) -> bool {
    forall|i: int| 0 <= i < s.len() ==> !is_space(#[trigger] s[i])
}

/// A word of a text ends where it does when more text stands behind a space.
proof fn lemma_word_end_before(s: Seq<char>, rest: Seq<char>, i: int)
    requires
        0 <= i <= s.len(),
        rest.len() > 0,
        is_space(rest[0]),
    ensures
        word_end(s + rest, i) == word_end(s, i),
    decreases s.len() - i,
{
    let all = s + rest;
    if i < s.len() {
        assert(all[i] == s[i]);
        if !is_space(s[i]) {
            lemma_word_end_before(s, rest, i + 1);
        }
    } else {
        assert(all[i] == rest[0]);
    }
}

/// A text with one more word behind it has one more word.
proof fn lemma_words_behind(s: Seq<char>, x: Seq<char>, i: int)
    requires
        0 <= i <= s.len(),
        x.len() > 0,
        spaceless(x),
    ensures
        words_from(s + seq![' '] + x, i) == words_from(s, i).push(x),
    decreases s.len() - i,
{
    let all = s + seq![' '] + x;
    let rest = seq![' '] + x;
    assert(all =~= s + rest);
    let n = s.len() as int;
    assert(all[n] == ' ');
    if i == n {
        assert(words_from(all, n) == words_from(all, n + 1));
        assert(all[n + 1] == x[0]);
        lemma_word_end(all, n + 1);
        let j = word_end(all, n + 1);
        assert(j == all.len()) by {
            if j < all.len() {
                assert(all[j] == x[j - n - 1]);
            }
        }
        assert(all.subrange(n + 1, j) =~= x);
        assert(words_from(all, j) =~= seq![]);
        assert(words_from(s, i) =~= seq![]);
        assert(seq![x] + seq![] =~= Seq::<Seq<char>>::empty().push(x));
    } else {
        assert(all[i] == s[i]);
        if is_space(s[i]) {
            lemma_words_behind(s, x, i + 1);
        } else {
            lemma_word_end(s, i);
            lemma_word_end_before(s, rest, i);
            let j = word_end(s, i);
            lemma_words_behind(s, x, j);
            assert(all.subrange(i, j) =~= s.subrange(i, j));
            assert(seq![s.subrange(i, j)] + words_from(s, j).push(x) =~= (seq![s.subrange(i, j)]
                + words_from(s, j)).push(x));
        }
    }
}

/// Words that were joined by a space come apart again.
pub proof fn lemma_words_of_joined(p: Seq<Seq<char>>)
    requires
        forall|i: int| 0 <= i < p.len() ==> (#[trigger] p[i]).len() > 0 && spaceless(p[i]),
    ensures
        words(joined(p, seq![' '])) == p,
    decreases p.len(),
{
    if p.len() == 0 {
        assert(words(joined(p, seq![' '])) =~= p);
    } else if p.len() == 1 {
        let x = p[0];
        lemma_word_end(x, 0);
        assert(word_end(x, 0) == x.len());
        assert(x.subrange(0, x.len() as int) =~= x);
        assert(words_from(x, x.len() as int) =~= seq![]);
        assert(seq![x] + seq![] =~= p);
    } else {
        let d = p.drop_last();
        assert forall|i: int| 0 <= i < d.len() implies (#[trigger] d[i]).len() > 0 && spaceless(
            d[i],
        ) by {
            assert(d[i] == p[i]);
        }
        lemma_words_of_joined(d);
        assert(p.last() == p[p.len() - 1]);
        lemma_words_behind(joined(d, seq![' ']), p.last(), 0);
        assert(d.push(p.last()) =~= p);
    }
}

// ---------------------------------------------------------------------------
// Hexadecimal numbers
// ---------------------------------------------------------------------------

/// The digit of a number below sixteen.
pub open spec fn hex_digit(n: nat) -> char {
    if n < 10 {
        (n + 48) as char
    } else {
        (n + 87) as char
    }
}

/// The hexadecimal digits of a number, with small letters.
pub open spec fn hexadecimal(n: nat) -> Seq<char>
    decreases n,
{
    if n < 16 {
        seq![hex_digit(n)]
    } else {
        hexadecimal(n / 16).push(hex_digit(n % 16))
    }
}

/// The hexadecimal digits of a number, with small letters.
pub fn hex_text(n: u64) -> (r: String)
    ensures
        r@ == hexadecimal(n as nat),
    decreases n,
{
    let d: u8 = (n % 16) as u8;
    let c: char = if d < 10 {
        (d + 48) as char
    } else {
        (d + 87) as char
    };
    if n < 16 {
        let mut s = String::new();
        s.push(c);
        assert(s@ =~= seq![hex_digit(n as nat)]);
        s
    } else {
        let mut s = hex_text(n / 16);
        s.push(c);
        s
    }
}

/// Numbers with the same hexadecimal digits are the same; the digits are `0` to `9` and
/// `a` to `f`.
pub proof fn lemma_hexadecimal(a: nat, b: nat)
    ensures
        hexadecimal(a).len() > 0,
        forall|i: int|
            0 <= i < hexadecimal(a).len() ==> '0' <= #[trigger] hexadecimal(a)[i] <= '9' || 'a'
                <= hexadecimal(a)[i] <= 'f',
        hexadecimal(a) == hexadecimal(b) ==> a == b,
    decreases a,
{
    let (x, y) = (hexadecimal(a), hexadecimal(b));
    assert forall|n: nat| n < 16 implies '0' <= #[trigger] hex_digit(n) <= '9' || 'a' <= hex_digit(
        n,
    ) <= 'f' by {}
    if a >= 16 {
        lemma_hexadecimal(a / 16, b / 16);
    }
    if b >= 16 {
        assert(y.drop_last() =~= hexadecimal(b / 16));
        lemma_hexadecimal_some(b / 16);
    }
    if a >= 16 {
        assert(x.drop_last() =~= hexadecimal(a / 16));
        assert(hex_digit(a % 16) == x.last());
        lemma_hexadecimal_some(a / 16);
    }
    if x == y {
        assert(x.last() == y.last());
        assert(x.len() == y.len());
        if a >= 16 && b >= 16 {
            assert(hex_digit(a % 16) == hex_digit(b % 16));
            assert(a % 16 == b % 16);
            assert(a / 16 == b / 16);
        } else if a < 16 && b < 16 {
            assert(hex_digit(a) == hex_digit(b));
        }
    }
}

/// A number has a hexadecimal digit.
proof fn lemma_hexadecimal_some(n: nat)
    ensures
        hexadecimal(n).len() > 0,
{
}

// ---------------------------------------------------------------------------
// Texts that were put together come apart again
// ---------------------------------------------------------------------------

/// A text is cut where the first separator was put.
pub proof fn lemma_cut_at(a: Seq<char>, c: char, b: Seq<char>)
    requires
        !a.contains(c),
    ensures
        char_at(a + seq![c] + b, c, 0) == Some(a.len() as int),
        cut(a + seq![c] + b, c) == Some((a, b)),
        before(a + seq![c] + b, c) == a,
        cut(a, c) is None,
        before(a, c) == a,
{
    let s = a + seq![c] + b;
    lemma_char_at(s, c, 0);
    lemma_char_at(a, c, 0);
    assert(s[a.len() as int] == c);
    if let Some(j) = char_at(a, c, 0) {
        assert(a.contains(a[j]));
    }
    let i = char_at(s, c, 0)->0;
    if i < a.len() {
        assert(s[i] == a[i]);
        assert(a.contains(a[i]));
    }
    assert(s.take(i) =~= a);
    assert(s.skip(i + 1) =~= b);
}

/// What was put behind a prefix is what is found behind it.
pub proof fn lemma_after_prefix(p: Seq<char>, x: Seq<char>)
    ensures
        begins(p + x, p),
        after_prefix(p + x, p) == Some(x),
{
    assert((p + x).subrange(0, p.len() as int) =~= p);
    assert((p + x).skip(p.len() as int) =~= x);
}

/// What was put before a suffix is what is found before it.
pub proof fn lemma_before_suffix(x: Seq<char>, p: Seq<char>)
    ensures
        ends(x + p, p),
        before_suffix(x + p, p) == Some(x),
{
    let s = x + p;
    assert(s.subrange(s.len() - p.len(), s.len() as int) =~= p);
    assert(s.take(s.len() - p.len()) =~= x);
    assert(s.subrange(0, s.len() - p.len()) =~= x);
}

/// A text between two quotes is what is left without them.
pub proof fn lemma_trimmed_quotes(x: Seq<char>, q: char)
    requires
        x.len() > 0,
        x[0] != q,
        x.last() != q,
    ensures
        trimmed_of(seq![q] + x + seq![q], q) == x,
        trimmed_of(x, q) == x,
{
    let s = seq![q] + x + seq![q];
    let p = only(q);
    reveal_with_fuel(lead, 3);
    reveal_with_fuel(tail, 3);
    assert(s[0] == q && s[1] == x[0]);
    assert(lead(s, p, 0) == 1);
    let t = s.skip(1);
    assert(t.last() == q && t[t.len() - 2] == x.last());
    assert(tail(t, p, t.len() as int) == t.len() - 1);
    assert(t.take(t.len() - 1) =~= x);
    assert(lead(x, p, 0) == 0);
    assert(x.skip(0) =~= x);
    assert(tail(x, p, x.len() as int) == x.len());
    assert(x.take(x.len() as int) =~= x);
}

/// What is replaced does not depend on what stands before it.
proof fn lemma_first_at_behind<T>(s: Seq<T>, p: Seq<T>, from: int, i: int)
    requires
        0 <= from <= i,
    ensures
        first_at(s, p, i) == match first_at(s.skip(from), p, i - from) {
            Some(j) => Some(j + from),
            None => None,
        } || from > s.len(),
    decreases s.len() - i,
{
    if from <= s.len() {
        let t = s.skip(from);
        lemma_first_at(s, p, i);
        lemma_first_at(t, p, i - from);
        assert forall|k: int| from <= k && k + p.len() <= s.len() implies (#[trigger] occurs_at(
            s,
            p,
            k,
        ) <==> occurs_at(t, p, k - from)) by {
            assert(s.subrange(k, k + p.len()) =~= t.subrange(k - from, k - from + p.len()));
        }
        match first_at(t, p, i - from) {
            Some(j) => {
                assert(occurs_at(s, p, j + from));
                if let Some(m) = first_at(s, p, i) {
                    assert(occurs_at(t, p, m - from));
                }
            },
            None => {
                if let Some(m) = first_at(s, p, i) {
                    assert(occurs_at(s, p, m));
                    assert(occurs_at(t, p, m - from));
                }
            },
        }
    }
}

/// Replacing from a place on is replacing in what stands there.
proof fn lemma_replaced_behind(s: Seq<char>, p: Seq<char>, by: Seq<char>, from: int, i: int)
    requires
        p.len() > 0,
        0 <= from <= i <= s.len(),
    ensures
        replaced_from(s, p, by, i) == replaced_from(s.skip(from), p, by, i - from),
    decreases s.len() - i,
{
    let t = s.skip(from);
    lemma_first_at_behind(s, p, from, i);
    lemma_first_at(s, p, i);
    assert(s.skip(i) =~= t.skip(i - from));
    if let Some(j) = first_at(s, p, i) {
        assert(s.subrange(i, j) =~= t.subrange(i - from, j - from));
        lemma_replaced_behind(s, p, by, from, j + p.len());
    }
}

/// The first occurrence of a pattern is replaced, and then every one in what follows it;
/// where one occurrence is to be replaced, what follows stays as it is.
pub proof fn lemma_replaced_step(s: Seq<char>, p: Seq<char>, by: Seq<char>, j: int)
    requires
        p.len() > 0,
        first_at(s, p, 0) == Some(j),
    ensures
        0 <= j <= s.len() - p.len(),
        replaced(s, p, by) == s.take(j) + by + replaced(s.skip(j + p.len()), p, by),
        replaced_once(s, p, by) == s.take(j) + by + s.skip(j + p.len()),
{
    lemma_first_at(s, p, 0);
    assert(s.subrange(0, j) =~= s.take(j));
    lemma_replaced_behind(s, p, by, j + p.len(), j + p.len());
}

/// A character occurs first where it was put first.
pub proof fn lemma_first_single(a: Seq<char>, c: char, b: Seq<char>)
    requires
        !a.contains(c),
    ensures
        first_at(a + seq![c] + b, seq![c], 0) == Some(a.len() as int),
        first_at(a, seq![c], 0) is None,
{
    let s = a + seq![c] + b;
    let p = seq![c];
    lemma_first_at(s, p, 0);
    lemma_first_at(a, p, 0);
    assert(s.subrange(a.len() as int, a.len() as int + 1) =~= p);
    assert(occurs_at(s, p, a.len() as int));
    if let Some(j) = first_at(s, p, 0) {
        if j < a.len() {
            assert(s.subrange(j, j + 1)[0] == a[j]);
            assert(a.contains(a[j]));
        }
    }
    if let Some(j) = first_at(a, p, 0) {
        assert(a.subrange(j, j + 1)[0] == a[j]);
        assert(a.contains(a[j]));
    }
}

/// Replacing a character puts the new text between the parts that it separated.
pub proof fn lemma_replaced_separators(parts: Seq<Seq<char>>, c: char, by: Seq<char>)
    requires
        parts.len() > 0,
        forall|i: int| 0 <= i < parts.len() ==> !(#[trigger] parts[i]).contains(c),
    ensures
        replaced(joined(parts, seq![c]), seq![c], by) == joined(parts, by),
    decreases parts.len(),
{
    let x = parts[0];
    let rest = parts.skip(1);
    let sep = seq![c];
    lemma_first_single(x, c, joined(rest, sep));
    if parts.len() == 1 {
        assert(joined(parts, sep) == x && joined(parts, by) == x);
        assert(!contains(x, sep));
        lemma_replaced_absent(x, sep, by);
    } else {
        assert forall|i: int| 0 <= i < rest.len() implies !(#[trigger] rest[i]).contains(c) by {
            assert(rest[i] == parts[i + 1]);
        }
        lemma_replaced_separators(rest, c, by);
        assert(seq![x] + rest =~= parts);
        lemma_joined_front(x, rest, sep);
        lemma_joined_front(x, rest, by);
        let s = joined(parts, sep);
        lemma_replaced_step(s, sep, by, x.len() as int);
        assert(s.take(x.len() as int) =~= x);
        assert(s.skip(x.len() as int + 1) =~= joined(rest, sep));
    }
}

/// A number has as many decimal digits as it takes, and no needless zero before them.
pub proof fn lemma_decimal_short(n: nat)
    ensures
        n < 10 ==> decimal(n).len() == 1,
        10 <= n < 100 ==> decimal(n).len() == 2,
        100 <= n < 1000 ==> decimal(n).len() == 3,
        n > 0 ==> decimal(n)[0] != '0',
        decimal(n).len() > 1 ==> n >= 10,
    decreases n,
{
    reveal_with_fuel(decimal, 4);
    if n >= 10 {
        lemma_decimal_short(n / 10);
        lemma_decimal_value(n / 10);
        assert(decimal(n)[0] == decimal(n / 10)[0]);
    }
}

/// Different numbers are written differently.
pub proof fn lemma_decimal_unique(a: nat, b: nat)
    requires
        decimal(a) == decimal(b),
    ensures
        a == b,
{
    lemma_decimal_value(a);
    lemma_decimal_value(b);
}

/// A list is taken apart at its commas, without the space round its parts.
pub proof fn lemma_listed(parts: Seq<Seq<char>>)
    requires
        parts.len() > 0,
        forall|i: int| 0 <= i < parts.len() ==> !(#[trigger] parts[i]).contains(','),
    ensures
        listed(joined(parts, seq![','])) == parts.map_values(|s: Seq<char>| trimmed(s)),
{
    lemma_pieces_of_joined(parts, ',');
    assert(listed(joined(parts, seq![','])) =~= parts.map_values(|s: Seq<char>| trimmed(s)));
}

/// Lines are what stands between line breaks, of either kind; the last break begins no
/// further line.
pub proof fn lemma_lines(ls: Seq<Seq<char>>)
    requires
        ls.len() > 0,
        forall|i: int| 0 <= i < ls.len() ==> !(#[trigger] ls[i]).contains('\n'),
        forall|i: int|
            0 <= i < ls.len() ==> (#[trigger] ls[i]).len() == 0 || ls[i].last() != '\r',
    ensures
        lines(joined(ls, seq!['\n']).push('\n')) == ls,
        lines(joined(ls, seq!['\r', '\n']) + seq!['\r', '\n']) == ls,
{
    let none = Seq::<char>::empty();
    let a = ls.push(none);
    assert forall|i: int| 0 <= i < a.len() implies !(#[trigger] a[i]).contains('\n') by {
        if i < ls.len() {
            assert(a[i] == ls[i]);
        }
    }
    lemma_pieces_of_joined(a, '\n');
    assert(a.drop_last() =~= ls);
    assert(joined(a, seq!['\n']) =~= joined(ls, seq!['\n']).push('\n'));
    assert(lines(joined(ls, seq!['\n']).push('\n')) =~= ls) by {
        assert forall|i: int| 0 <= i < ls.len() implies without_return(#[trigger] a[i]) == ls[i] by {
            assert(a[i] == ls[i]);
        }
    }
    let rs = ls.map_values(|s: Seq<char>| s.push('\r'));
    let b = rs.push(none);
    assert forall|i: int| 0 <= i < b.len() implies !(#[trigger] b[i]).contains('\n') by {
        if i < ls.len() {
            assert(b[i] == ls[i].push('\r'));
            if b[i].contains('\n') {
                let k = choose|k: int| 0 <= k < b[i].len() && b[i][k] == '\n';
                assert(ls[i].contains(ls[i][k]));
            }
        }
    }
    lemma_pieces_of_joined(b, '\n');
    assert(b.drop_last() =~= rs);
    lemma_returns_joined(ls);
    let s = joined(ls, seq!['\r', '\n']) + seq!['\r', '\n'];
    assert(joined(b, seq!['\n']) =~= s);
    assert(lines(s) =~= ls) by {
        assert forall|i: int| 0 <= i < ls.len() implies without_return(#[trigger] b[i]) == ls[i] by {
            assert(b[i] == ls[i].push('\r'));
            assert(b[i].drop_last() =~= ls[i]);
        }
    }
}

/// Lines with a carriage return at their end, joined by line feeds.
proof fn lemma_returns_joined(ls: Seq<Seq<char>>)
    requires
        ls.len() > 0,
    ensures
        joined(ls.map_values(|s: Seq<char>| s.push('\r')), seq!['\n']) == joined(
            ls,
            seq!['\r', '\n'],
        ).push('\r'),
    decreases ls.len(),
{
    let rs = ls.map_values(|s: Seq<char>| s.push('\r'));
    if ls.len() > 1 {
        let d = ls.drop_last();
        lemma_returns_joined(d);
        assert(rs.drop_last() =~= d.map_values(|s: Seq<char>| s.push('\r')));
        assert(rs.last() == ls.last().push('\r'));
        assert(joined(rs, seq!['\n']) =~= joined(ls, seq!['\r', '\n']).push('\r'));
    }
}

/// A text is cut at the first separator, and what follows is cut in the same way.
pub proof fn lemma_parts_step(a: Seq<char>, p: Seq<char>, b: Seq<char>)
    requires
        p.len() > 0,
        first_at(a + p + b, p, 0) == Some(a.len() as int),
    ensures
        parts(a + p + b, p) == seq![a] + parts(b, p),
{
    let s = a + p + b;
    let n = a.len() as int;
    assert(s.subrange(0, n) =~= a);
    lemma_parts_behind(s, p, n + p.len(), n + p.len());
    assert(s.skip(n + p.len()) =~= b);
}

/// Cutting from a place on is cutting what stands there.
proof fn lemma_parts_behind(s: Seq<char>, p: Seq<char>, from: int, i: int)
    requires
        p.len() > 0,
        0 <= from <= i <= s.len(),
    ensures
        parts_from(s, p, i) == parts_from(s.skip(from), p, i - from),
    decreases s.len() - i,
{
    let t = s.skip(from);
    lemma_first_at_behind(s, p, from, i);
    lemma_first_at(s, p, i);
    assert(s.skip(i) =~= t.skip(i - from));
    if let Some(j) = first_at(s, p, i) {
        assert(s.subrange(i, j) =~= t.subrange(i - from, j - from));
        lemma_parts_behind(s, p, from, j + p.len());
    }
}

/// A text without the separator is one part.
pub proof fn lemma_one_part(s: Seq<char>, p: Seq<char>)
    requires
        !contains(s, p),
    ensures
        parts(s, p) == seq![s],
{
    assert(s.skip(0) =~= s);
}

/// What a text does not hold the first character of it does not hold.
pub proof fn lemma_not_begun(s: Seq<char>, p: Seq<char>, i: int)
    requires
        0 <= i < p.len(),
        !s.contains(p[i]),
    ensures
        first_at(s, p, 0) is None,
        !contains(s, p),
{
    lemma_first_at(s, p, 0);
    if let Some(j) = first_at(s, p, 0) {
        assert(s.subrange(j, j + p.len())[i] == s[j + i]);
        assert(s.contains(s[j + i]));
    }
}

/// The first occurrence is found.
proof fn lemma_first_found(s: Seq<char>, p: Seq<char>, from: int, n: int)
    requires
        0 <= from <= n,
        occurs_at(s, p, n),
        forall|j: int| from <= j < n ==> !occurs_at(s, p, j),
    ensures
        first_at(s, p, from) == Some(n),
    decreases n - from,
{
    if from < n {
        lemma_first_found(s, p, from + 1, n);
    }
}

/// What begins with a character that does not stand before it is found where it was put.
pub proof fn lemma_first_where_put(a: Seq<char>, p: Seq<char>, b: Seq<char>)
    requires
        p.len() > 0,
        !a.contains(p[0]),
    ensures
        first_at(a + p + b, p, 0) == Some(a.len() as int),
{
    let s = a + p + b;
    let n = a.len() as int;
    assert(occurs_at(s, p, n)) by {
        assert(s.subrange(n, n + p.len()) =~= p);
    }
    assert forall|j: int| 0 <= j < n implies !occurs_at(s, p, j) by {
        if occurs_at(s, p, j) {
            assert(s.subrange(j, j + p.len())[0] == s[j]);
            assert(s[j] == a[j]);
            assert(a.contains(a[j]));
        }
    }
    lemma_first_found(s, p, 0, n);
}

/// White space around a text does not count, and none within it is dropped.
pub proof fn lemma_trimmed_padded(a: Seq<char>, s: Seq<char>, b: Seq<char>)
    requires
        forall|i: int| 0 <= i < a.len() ==> is_space(#[trigger] a[i]),
        forall|i: int| 0 <= i < b.len() ==> is_space(#[trigger] b[i]),
        s.len() > 0 && !is_space(s[0]) && !is_space(s.last()),
    ensures
        trimmed(a + s + b) == s,
{
    let p = |c: char| is_space(c);
    let t = a + s + b;
    lemma_lead(t, p, 0);
    let k = lead(t, p, 0);
    if k < a.len() {
        assert(t[k] == a[k]);
    }
    if k > a.len() {
        assert(p(t[a.len() as int]));
        assert(t[a.len() as int] == s[0]);
    }
    let u = t.skip(k);
    assert(u =~= s + b);
    lemma_tail(u, p, u.len() as int);
    let m = tail(u, p, u.len() as int);
    if m > s.len() {
        assert(u[m - 1] == b[m - 1 - s.len()]);
    }
    if m < s.len() {
        assert(p(u[s.len() - 1]));
        assert(u[s.len() - 1] == s.last());
    }
    assert(u.take(m) =~= s);
}

/// Blanks, tabs and line ends are white space; what is visible in ASCII is not.
pub proof fn lemma_spaces(c: char)
    ensures
        c == ' ' || c == '\t' || c == '\n' || c == '\r' ==> is_space(c),
        '!' <= c <= '~' ==> !is_space(c),
{
}

/// A text in small letters has the small letter for every capital and everything else as it
/// was; a text in capitals the other way round.
pub proof fn lemma_letter_case(s: Seq<char>, i: int)
    requires
        0 <= i < s.len(),
    ensures
        lowered(s).len() == s.len(),
        'A' <= s[i] <= 'Z' ==> lowered(s)[i] as u32 == s[i] as u32 + 32,
        !('A' <= s[i] <= 'Z') ==> lowered(s)[i] == s[i],
        uppered(s).len() == s.len(),
        'a' <= s[i] <= 'z' ==> uppered(s)[i] as u32 + 32 == s[i] as u32,
        !('a' <= s[i] <= 'z') ==> uppered(s)[i] == s[i],
{
}

/// A text holds another exactly where the other stands somewhere in it.
#[verifier::rlimit(50)]
pub proof fn lemma_contains(s: Seq<char>, p: Seq<char>)
    ensures
        contains(s, p) <==> exists|a: Seq<char>, b: Seq<char>| s == #[trigger] (a + p + b),
{
    if contains(s, p) {
        lemma_contains_split(s, p);
    }
    if exists|a: Seq<char>, b: Seq<char>| s == #[trigger] (a + p + b) {
        let (a, b) = choose|a: Seq<char>, b: Seq<char>| s == #[trigger] (a + p + b);
        lemma_contains_put(a, p, b);
    }
}

/// A text that holds another is this one with something before and behind.
#[verifier::rlimit(50)]
proof fn lemma_contains_split(s: Seq<char>, p: Seq<char>)
    requires
        contains(s, p),
    ensures
        exists|a: Seq<char>, b: Seq<char>| s == #[trigger] (a + p + b),
{
    lemma_first_at(s, p, 0);
    let i = first_at(s, p, 0)->0;
    let a = s.take(i);
    let b = s.skip(i + p.len());
    assert(s =~= a + p + b) by {
        assert(s.subrange(i, i + p.len()) == p);
    }
}

/// A text begins or ends with another exactly where it is this one and something else.
#[verifier::rlimit(50)]
pub proof fn lemma_at_ends(s: Seq<char>, p: Seq<char>)
    ensures
        begins(s, p) <==> exists|b: Seq<char>| s == #[trigger] (p + b),
        ends(s, p) <==> exists|a: Seq<char>| s == #[trigger] (a + p),
{
    if begins(s, p) {
        assert(s =~= p + s.skip(p.len() as int));
    }
    if exists|b: Seq<char>| s == #[trigger] (p + b) {
        let b = choose|b: Seq<char>| s == #[trigger] (p + b);
        assert(s.subrange(0, p.len() as int) =~= p);
    }
    if ends(s, p) {
        assert(s =~= s.take(s.len() - p.len()) + p);
    }
    if exists|a: Seq<char>| s == #[trigger] (a + p) {
        let a = choose|a: Seq<char>| s == #[trigger] (a + p);
        assert(s.subrange(s.len() - p.len(), s.len() as int) =~= p);
    }
}

/// A text that is empty, or holds anything but digits behind a plus sign, is no number; nor
/// is a number that is too great.
pub proof fn lemma_no_number(s: Seq<char>, k: int, n: nat, max: nat)
    ensures
        number(Seq::empty(), max) is None,
        1 <= k < s.len() && !('0' <= s[k] <= '9') ==> number(s, max) is None,
        n > max ==> number(decimal(n), max) is None,
        n <= max ==> number(seq!['+'] + decimal(n), max) == Some(n),
        number(seq!['-'] + decimal(n), max) is None,
{
    lemma_decimal_value(n);
    let d = decimal(n);
    assert(is_digit(d[0]));
    let p = seq!['+'] + d;
    assert(p[0] == '+' && p.skip(1) =~= d);
    let m = seq!['-'] + d;
    assert(m[0] == '-' && !is_digit('-'));
    assert(!is_digit(m[0]));
    if 1 <= k < s.len() && !('0' <= s[k] <= '9') {
        let u = unsigned_part(s);
        if s[0] == '+' {
            assert(u[k - 1] == s[k]);
            assert(!is_digit(u[k - 1]));
        } else {
            assert(!is_digit(u[k]));
        }
    }
}

/// What stands in a text stands in every text that holds this one.
pub proof fn lemma_contains_within(a: Seq<char>, s: Seq<char>, b: Seq<char>, p: Seq<char>)
    requires
        contains(s, p),
    ensures
        contains(a + s + b, p),
{
    lemma_first_at(s, p, 0);
    let i = first_at(s, p, 0)->0;
    let n = a.len() + i;
    let t = a + s + b;
    assert(occurs_at(t, p, n)) by {
        assert(t.subrange(n, n + p.len()) =~= s.subrange(i, i + p.len()));
    }
    lemma_first_at(t, p, 0);
}

/// A text stands in itself with others around it.
pub proof fn lemma_contains_put(a: Seq<char>, p: Seq<char>, b: Seq<char>)
    ensures
        contains(a + p + b, p),
{
    let s = a + p + b;
    let n = a.len() as int;
    assert(occurs_at(s, p, n)) by {
        assert(s.subrange(n, n + p.len()) =~= p);
    }
    lemma_first_at(s, p, 0);
}

} // verus!
