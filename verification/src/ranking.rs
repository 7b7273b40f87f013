//! Stable sorting, and sets of texts in order.

use vstd::prelude::*;
use vstd::multiset::Multiset;
use crate::data::Data;
use crate::sorted_map;
use crate::sorted_map::comes_before;

verus! {

/// What can be put in order.
pub trait Ranked: DeepView + Sized {
    /// `a` goes before `b`.
    spec fn precedes(a: Self::V, b: Self::V) -> bool;

    /// Tells whether `self` goes before `other`.
    fn goes_before(&self, other: &Self) -> (r: bool)
        ensures
            r == Self::precedes(self.deep_view(), other.deep_view()),
    ;
}

impl Ranked for String {
    open spec fn precedes(a: Seq<char>, b: Seq<char>) -> bool {
        sorted_map::text_before(a, b)
    }

    fn goes_before(&self, other: &String) -> (r: bool) {
        comes_before(self.as_str(), other.as_str())
    }
}

/// The first position from `i` on whose value must come after `x`.
pub open spec fn place<T: Ranked>(s: Seq<T::V>, x: T::V, i: int) -> int
    decreases s.len() - i,
{
    if 0 <= i < s.len() && !T::precedes(x, s[i]) {
        place::<T>(s, x, i + 1)
    } else {
        i
    }
}

/// The values of `s` in order; values of which neither goes before the other
/// stay as they stood.
pub open spec fn sorted<T: Ranked>(s: Seq<T::V>) -> Seq<T::V>
    decreases s.len(),
{
    if s.len() == 0 {
        s
    } else {
        let done = sorted::<T>(s.drop_last());
        done.insert(place::<T>(done, s.last(), 0), s.last())
    }
}

/// The bounds of `place`.
pub proof fn lemma_place<T: Ranked>(s: Seq<T::V>, x: T::V, i: int)
    requires
        0 <= i <= s.len(),
    ensures
        i <= place::<T>(s, x, i) <= s.len(),
        forall|j: int| i <= j < place::<T>(s, x, i) ==> !T::precedes(x, #[trigger] s[j]),
        place::<T>(s, x, i) < s.len() ==> T::precedes(x, s[place::<T>(s, x, i)]),
    decreases s.len() - i,
{
    if i < s.len() && !T::precedes(x, s[i]) {
        lemma_place::<T>(s, x, i + 1);
    }
}

/// Sorting keeps every value as often as it was there.
pub proof fn lemma_sorted_keeps<T: Ranked>(s: Seq<T::V>)
    ensures
        sorted::<T>(s).len() == s.len(),
        sorted::<T>(s).to_multiset() == s.to_multiset(),
    decreases s.len(),
{
    broadcast use vstd::seq_lib::group_to_multiset_ensures;

    if s.len() > 0 {
        let d = s.drop_last();
        let done = sorted::<T>(d);
        lemma_sorted_keeps::<T>(d);
        lemma_place::<T>(done, s.last(), 0);
        let i = place::<T>(done, s.last(), 0);
        vstd::seq_lib::to_multiset_insert(done, i, s.last());
        assert(s =~= d.push(s.last()));
        assert(sorted::<T>(s).to_multiset() =~= s.to_multiset());
    }
}

/// Where the order is transitive and never goes both ways, no value of the
/// sorted list goes before an earlier one.
pub proof fn lemma_sorted_in_order<T: Ranked>(s: Seq<T::V>)
    requires
        forall|a: T::V, b: T::V| #[trigger] T::precedes(a, b) ==> !T::precedes(b, a),
        forall|a: T::V, b: T::V, c: T::V|
            !#[trigger] T::precedes(b, a) && !#[trigger] T::precedes(c, b) ==> !T::precedes(c, a),
    ensures
        forall|i: int, j: int|
            0 <= i < j < sorted::<T>(s).len() ==> !T::precedes(
                #[trigger] sorted::<T>(s)[j],
                #[trigger] sorted::<T>(s)[i],
            ),
    decreases s.len(),
{
    if s.len() > 0 {
        let x = s.last();
        let done = sorted::<T>(s.drop_last());
        lemma_sorted_in_order::<T>(s.drop_last());
        lemma_place::<T>(done, x, 0);
        let p = place::<T>(done, x, 0);
        let t = sorted::<T>(s);
        assert forall|i: int, j: int| 0 <= i < j < t.len() implies !T::precedes(
            #[trigger] t[j],
            #[trigger] t[i],
        ) by {
            let (i0, j0) = (if i > p { i - 1 } else { i }, if j > p { j - 1 } else { j });
            if i == p {
                assert(t[i] == x && t[j] == done[j0]);
                assert(T::precedes(x, done[p]));
                assert(!T::precedes(done[p], x));
                if j0 > p {
                    assert(!T::precedes(done[j0], done[p]));
                }
            } else if j == p {
                assert(t[j] == x && t[i] == done[i0]);
            } else {
                assert(t[i] == done[i0] && t[j] == done[j0]);
            }
        }
    }
}

/// Puts `x` in its place in a sorted list.
fn insert_ranked<T: Ranked>(v: &mut Vec<T>, x: T)
    ensures
        final(v).deep_view() == old(v).deep_view().insert(
            place::<T>(old(v).deep_view(), x.deep_view(), 0),
            x.deep_view(),
        ),
{
    let ghost s = v.deep_view();
    let ghost xv = x.deep_view();
    let mut i: usize = 0;
    while i < v.len() && !x.goes_before(&v[i])
        invariant
            *v == *old(v),
            i <= v.len(),
            s == v.deep_view(),
            xv == x.deep_view(),
            place::<T>(s, xv, 0) == place::<T>(s, xv, i as int),
        decreases v.len() - i,
    {
        i += 1;
    }
    v.insert(i, x);
    assert(v.deep_view() =~= s.insert(i as int, xv));
}

/// The values of `v` in order.
pub fn sort<T: Ranked + Data>(v: &Vec<T>) -> (r: Vec<T>)
    ensures
        r.deep_view() == sorted::<T>(v.deep_view()),
{
    let mut r: Vec<T> = Vec::new();
    let ghost s = v.deep_view();
    for i in 0..v.len()
        invariant
            s == v.deep_view(),
            r.deep_view() == sorted::<T>(s.take(i as int)),
    {
        let x = v[i].duplicate();
        proof {
            assert(s.take(i + 1).drop_last() =~= s.take(i as int));
            assert(s.take(i + 1).last() == x.deep_view());
        }
        insert_ranked(&mut r, x);
    }
    assert(s.take(s.len() as int) =~= s);
    r
}

// ---------------------------------------------------------------------------
// Sets of texts
// ---------------------------------------------------------------------------

/// Where `x` belongs among ascending texts, from `i` on.
pub open spec fn text_slot(s: Seq<Seq<char>>, x: Seq<char>, i: int) -> int
    decreases s.len() - i,
{
    if 0 <= i < s.len() && sorted_map::text_before(s[i], x) {
        text_slot(s, x, i + 1)
    } else {
        i
    }
}

/// The ascending texts `s` and `x`, once.
pub open spec fn text_added(s: Seq<Seq<char>>, x: Seq<char>) -> Seq<Seq<char>> {
    let i = text_slot(s, x, 0);
    if 0 <= i < s.len() && s[i] == x {
        s
    } else {
        s.insert(i, x)
    }
}

/// The different texts of `s`, ascending.
pub open spec fn text_set(s: Seq<Seq<char>>) -> Seq<Seq<char>>
    decreases s.len(),
{
    if s.len() == 0 {
        s
    } else {
        text_added(text_set(s.drop_last()), s.last())
    }
}

/// The texts ascend, so that none occurs twice.
pub open spec fn texts_ascend(s: Seq<Seq<char>>) -> bool {
    forall|i: int, j: int|
        0 <= i < j < s.len() ==> sorted_map::text_before(#[trigger] s[i], #[trigger] s[j])
}

/// The bounds of `text_slot`.
pub proof fn lemma_text_slot(s: Seq<Seq<char>>, x: Seq<char>, i: int)
    requires
        0 <= i <= s.len(),
    ensures
        i <= text_slot(s, x, i) <= s.len(),
        forall|j: int| i <= j < text_slot(s, x, i) ==> sorted_map::text_before(#[trigger] s[j], x),
        text_slot(s, x, i) < s.len() ==> !sorted_map::text_before(s[text_slot(s, x, i)], x),
    decreases s.len() - i,
{
    if i < s.len() && sorted_map::text_before(s[i], x) {
        lemma_text_slot(s, x, i + 1);
    }
}

/// Adding a text keeps the texts ascending; it is then among them, and the
/// others are those that were.
pub proof fn lemma_text_added(s: Seq<Seq<char>>, x: Seq<char>)
    requires
        texts_ascend(s),
    ensures
        texts_ascend(text_added(s, x)),
        forall|y: Seq<char>| #[trigger] text_added(s, x).contains(y) <==> y == x || s.contains(y),
{
    lemma_text_slot(s, x, 0);
    let p = text_slot(s, x, 0);
    let t = text_added(s, x);
    if p < s.len() && s[p] == x {
        assert(s.contains(x));
    } else {
        assert forall|i: int, j: int| 0 <= i < j < t.len() implies sorted_map::text_before(
            #[trigger] t[i],
            #[trigger] t[j],
        ) by {
            let (i0, j0) = (if i > p { i - 1 } else { i }, if j > p { j - 1 } else { j });
            if i == p {
                sorted_map::lemma_text_before_total(s[p], x);
                if j0 > p {
                    sorted_map::lemma_text_before_transitive(x, s[p], s[j0]);
                }
            } else if j == p {
            } else {
                assert(t[i] == s[i0] && t[j] == s[j0]);
            }
        }
        assert forall|y: Seq<char>| #[trigger] t.contains(y) <==> y == x || s.contains(y) by {
            if y == x {
                assert(t[p] == x);
            }
            if s.contains(y) {
                let k = choose|k: int| 0 <= k < s.len() && s[k] == y;
                assert(t[if k < p { k } else { k + 1 }] == y);
            }
            if t.contains(y) && y != x {
                let k = choose|k: int| 0 <= k < t.len() && t[k] == y;
                assert(s[if k < p { k } else { k - 1 }] == y);
            }
        }
    }
}

/// `text_set` holds exactly the texts of the list, in ascending order.
pub proof fn lemma_text_set(s: Seq<Seq<char>>)
    ensures
        texts_ascend(text_set(s)),
        forall|y: Seq<char>| #[trigger] text_set(s).contains(y) <==> s.contains(y),
    decreases s.len(),
{
    if s.len() > 0 {
        let d = s.drop_last();
        lemma_text_set(d);
        lemma_text_added(text_set(d), s.last());
        assert forall|y: Seq<char>| #[trigger] text_set(s).contains(y) <==> s.contains(y) by {
            assert(text_set(d).contains(y) <==> d.contains(y));
            if d.contains(y) {
                let k = choose|k: int| 0 <= k < d.len() && d[k] == y;
                assert(s[k] == y);
            }
            if s.contains(y) && y != s.last() {
                let k = choose|k: int| 0 <= k < s.len() && s[k] == y;
                assert(d[k] == y);
            }
            if y == s.last() {
                assert(s[s.len() - 1] == y);
            }
        }
    }
}

/// Texts that ascend are a set already.
pub proof fn lemma_text_set_fixed(s: Seq<Seq<char>>)
    requires
        texts_ascend(s),
    ensures
        text_set(s) == s,
    decreases s.len(),
{
    if s.len() > 0 {
        let d = s.drop_last();
        assert(texts_ascend(d)) by {
            assert forall|i: int, j: int| 0 <= i < j < d.len() implies sorted_map::text_before(
                #[trigger] d[i],
                #[trigger] d[j],
            ) by {
                assert(d[i] == s[i] && d[j] == s[j]);
            }
        }
        lemma_text_set_fixed(d);
        lemma_text_slot(d, s.last(), 0);
        let k = text_slot(d, s.last(), 0);
        if k < d.len() {
            assert(sorted_map::text_before(s[k], s[s.len() - 1]));
            assert(d[k] == s[k]);
        }
        assert(d.insert(d.len() as int, s.last()) =~= s);
    }
}

/// A value of a sorted list is one of the list.
pub proof fn lemma_sorted_member<T: Ranked>(s: Seq<T::V>, i: int)
    requires
        0 <= i < s.len(),
    ensures
        sorted::<T>(s).len() == s.len(),
        s.contains(sorted::<T>(s)[i]),
{
    broadcast use vstd::seq_lib::group_to_multiset_ensures;

    lemma_sorted_keeps::<T>(s);
    let x = sorted::<T>(s)[i];
    assert(sorted::<T>(s).contains(x));
    assert(s.to_multiset().contains(x));
}

/// Adds a text to ascending texts.
pub fn add_text(v: &mut Vec<String>, x: String)
    ensures
        final(v).deep_view() == text_added(old(v).deep_view(), x@),
{
    let ghost s = v.deep_view();
    let mut i: usize = 0;
    while i < v.len() && comes_before(v[i].as_str(), x.as_str())
        invariant
            *v == *old(v),
            i <= v.len(),
            s == v.deep_view(),
            text_slot(s, x@, 0) == text_slot(s, x@, i as int),
        decreases v.len() - i,
    {
        i += 1;
    }
    if i < v.len() && v[i] == x {
        return;
    }
    v.insert(i, x);
    assert(v.deep_view() =~= s.insert(i as int, x@));
}

/// The different texts of `v`, ascending.
pub fn unique_texts(v: &Vec<String>) -> (r: Vec<String>)
    ensures
        r.deep_view() == text_set(v.deep_view()),
{
    let mut r: Vec<String> = Vec::new();
    let ghost s = v.deep_view();
    for i in 0..v.len()
        invariant
            s == v.deep_view(),
            r.deep_view() == text_set(s.take(i as int)),
    {
        proof {
            assert(s.take(i + 1).drop_last() =~= s.take(i as int));
            assert(s.take(i + 1).last() == v@[i as int]@);
        }
        add_text(&mut r, v[i].clone());
    }
    assert(s.take(s.len() as int) =~= s);
    r
}

/// Tells whether a text is in the list.
pub fn has_text(v: &Vec<String>, x: &str) -> (r: bool)
    ensures
        r == v.deep_view().contains(x@),
{
    for i in 0..v.len()
        invariant
            forall|j: int| 0 <= j < i ==> v.deep_view()[j] != x@,
    {
        if crate::text::same(v[i].as_str(), x) {
            assert(v.deep_view()[i as int] == x@);
            return true;
        }
    }
    false
}

} // verus!
