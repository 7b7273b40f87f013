//! A map that keeps its entries in the order of their keys.

use vstd::prelude::*;
use crate::data::Data;

verus! {

/// `a` comes before `b` in the order of dictionaries.
pub open spec fn text_before(a: Seq<char>, b: Seq<char>) -> bool
    decreases a.len(),
{
    if b.len() == 0 {
        false
    } else if a.len() == 0 {
        true
    } else if a[0] != b[0] {
        a[0] < b[0]
    } else {
        text_before(a.skip(1), b.skip(1))
    }
}

/// Of two different texts one comes before the other, and not the other way round.
pub proof fn lemma_text_before_total(a: Seq<char>, b: Seq<char>)
    ensures
        a == b ==> !text_before(a, b),
        a != b ==> text_before(a, b) != text_before(b, a),
    decreases a.len(),
{
    if a.len() > 0 && b.len() > 0 {
        lemma_text_before_total(a.skip(1), b.skip(1));
        if a[0] == b[0] && a.skip(1) == b.skip(1) {
            assert(a =~= seq![a[0]] + a.skip(1));
            assert(b =~= seq![b[0]] + b.skip(1));
        }
    } else if a.len() == 0 && b.len() == 0 {
        assert(a =~= b);
    }
}

/// The order of texts is transitive.
pub proof fn lemma_text_before_transitive(a: Seq<char>, b: Seq<char>, c: Seq<char>)
    requires
        text_before(a, b),
        text_before(b, c),
    ensures
        text_before(a, c),
    decreases a.len(),
{
    if a.len() > 0 && b.len() > 0 && c.len() > 0 && a[0] == b[0] && b[0] == c[0] {
        lemma_text_before_transitive(a.skip(1), b.skip(1), c.skip(1));
    }
}

/// Tells whether `a` comes before `b` in the order of dictionaries.
pub fn comes_before(a: &str, b: &str) -> (r: bool)
    ensures
        r == text_before(a@, b@),
{
    let (av, bv) = (crate::text::chars(a), crate::text::chars(b));
    let mut i: usize = 0;
    assert(a@.skip(0) =~= a@ && b@.skip(0) =~= b@);
    while i < av.len() && i < bv.len()
        invariant
            i <= av@.len(),
            i <= bv@.len(),
            av@ == a@,
            bv@ == b@,
            text_before(a@, b@) == text_before(a@.skip(i as int), b@.skip(i as int)),
        decreases av@.len() - i,
    {
        if av[i] != bv[i] {
            return av[i] < bv[i];
        }
        assert(a@.skip(i as int).skip(1) =~= a@.skip(i + 1));
        assert(b@.skip(i as int).skip(1) =~= b@.skip(i + 1));
        i += 1;
    }
    i < bv.len()
}

/// What can be the key of a sorted map.
pub trait MapKey: DeepView + Sized {
    /// `a` comes before `b`.
    spec fn before(a: Self::V, b: Self::V) -> bool;

    /// Of two different keys one comes before the other, and not the other way round.
    proof fn lemma_total(a: Self::V, b: Self::V)
        ensures
            a == b ==> !Self::before(a, b),
            a != b ==> Self::before(a, b) != Self::before(b, a),
    ;

    /// The order of keys is transitive.
    proof fn lemma_transitive(a: Self::V, b: Self::V, c: Self::V)
        requires
            Self::before(a, b),
            Self::before(b, c),
        ensures
            Self::before(a, c),
    ;

    /// Tells whether `self` comes before `other`.
    fn is_before(&self, other: &Self) -> (r: bool)
        ensures
            r == Self::before(self.deep_view(), other.deep_view()),
    ;

    /// Tells whether the keys are the same.
    fn is_same(&self, other: &Self) -> (r: bool)
        ensures
            r == (self.deep_view() == other.deep_view()),
    ;
}

impl MapKey for String {
    open spec fn before(a: Seq<char>, b: Seq<char>) -> bool {
        text_before(a, b)
    }

    proof fn lemma_total(a: Seq<char>, b: Seq<char>) {
        lemma_text_before_total(a, b);
    }

    proof fn lemma_transitive(a: Seq<char>, b: Seq<char>, c: Seq<char>) {
        lemma_text_before_transitive(a, b, c);
    }

    fn is_before(&self, other: &String) -> (r: bool) {
        comes_before(self.as_str(), other.as_str())
    }

    fn is_same(&self, other: &String) -> (r: bool) {
        *self == *other
    }
}

/// `a` comes before `b` where the lists are put in order by their first texts that
/// differ.
pub open spec fn texts_before(a: Seq<Seq<char>>, b: Seq<Seq<char>>) -> bool
    decreases a.len(),
{
    if b.len() == 0 {
        false
    } else if a.len() == 0 {
        true
    } else if a[0] != b[0] {
        text_before(a[0], b[0])
    } else {
        texts_before(a.skip(1), b.skip(1))
    }
}

/// Of two different lists one comes before the other, and not the other way round.
pub proof fn lemma_texts_before_total(a: Seq<Seq<char>>, b: Seq<Seq<char>>)
    ensures
        a == b ==> !texts_before(a, b),
        a != b ==> texts_before(a, b) != texts_before(b, a),
    decreases a.len(),
{
    if a.len() > 0 && b.len() > 0 {
        lemma_text_before_total(a[0], b[0]);
        lemma_texts_before_total(a.skip(1), b.skip(1));
        if a[0] == b[0] && a.skip(1) == b.skip(1) {
            assert(a =~= seq![a[0]] + a.skip(1));
            assert(b =~= seq![b[0]] + b.skip(1));
        }
    } else if a.len() == 0 && b.len() == 0 {
        assert(a =~= b);
    }
}

/// The order of lists of texts is transitive.
pub proof fn lemma_texts_before_transitive(
    a: Seq<Seq<char>>,
    b: Seq<Seq<char>>,
    c: Seq<Seq<char>>,
)
    requires
        texts_before(a, b),
        texts_before(b, c),
    ensures
        texts_before(a, c),
    decreases a.len(),
{
    if a.len() > 0 && b.len() > 0 && c.len() > 0 {
        lemma_text_before_total(a[0], b[0]);
        lemma_text_before_total(b[0], c[0]);
        if a[0] == b[0] && b[0] == c[0] {
            lemma_texts_before_transitive(a.skip(1), b.skip(1), c.skip(1));
        } else if a[0] != b[0] && b[0] != c[0] {
            lemma_text_before_transitive(a[0], b[0], c[0]);
            lemma_text_before_total(a[0], c[0]);
        }
    }
}

/// Tells whether `a` comes before `b` in the order of lists of texts.
pub fn lists_before(a: &Vec<String>, b: &Vec<String>) -> (r: bool)
    ensures
        r == texts_before(a.deep_view(), b.deep_view()),
{
    let ghost (av, bv) = (a.deep_view(), b.deep_view());
    let mut i: usize = 0;
    assert(av.skip(0) =~= av);
    assert(bv.skip(0) =~= bv);
    while i < a.len() && i < b.len()
        invariant
            av == a.deep_view(),
            bv == b.deep_view(),
            i <= a.len(),
            i <= b.len(),
            texts_before(av, bv) == texts_before(av.skip(i as int), bv.skip(i as int)),
        decreases a.len() - i,
    {
        assert(av.skip(i as int)[0] == a@[i as int]@);
        assert(bv.skip(i as int)[0] == b@[i as int]@);
        if !crate::text::same(a[i].as_str(), b[i].as_str()) {
            return comes_before(a[i].as_str(), b[i].as_str());
        }
        assert(av.skip(i as int).skip(1) =~= av.skip(i + 1));
        assert(bv.skip(i as int).skip(1) =~= bv.skip(i + 1));
        i = i + 1;
    }
    i < b.len()
}

impl MapKey for Vec<String> {
    open spec fn before(a: Seq<Seq<char>>, b: Seq<Seq<char>>) -> bool {
        texts_before(a, b)
    }

    proof fn lemma_total(a: Seq<Seq<char>>, b: Seq<Seq<char>>) {
        lemma_texts_before_total(a, b);
    }

    proof fn lemma_transitive(a: Seq<Seq<char>>, b: Seq<Seq<char>>, c: Seq<Seq<char>>) {
        lemma_texts_before_transitive(a, b, c);
    }

    fn is_before(&self, other: &Vec<String>) -> (r: bool) {
        lists_before(self, other)
    }

    fn is_same(&self, other: &Vec<String>) -> (r: bool) {
        self.same_as(other)
    }
}

impl MapKey for u16 {
    open spec fn before(a: u16, b: u16) -> bool {
        a < b
    }

    proof fn lemma_total(a: u16, b: u16) {
    }

    proof fn lemma_transitive(a: u16, b: u16, c: u16) {
    }

    fn is_before(&self, other: &u16) -> (r: bool) {
        *self < *other
    }

    fn is_same(&self, other: &u16) -> (r: bool) {
        *self == *other
    }
}

/// The first entry from `i` on with the key `k`.
pub open spec fn position<K, V>(s: Seq<(K, V)>, k: K, i: int) -> Option<int>
    decreases s.len() - i,
{
    if i < 0 || i >= s.len() {
        None
    } else if s[i].0 == k {
        Some(i)
    } else {
        position(s, k, i + 1)
    }
}

/// The value that the entries `s` give for the key `k`.
pub open spec fn lookup<K, V>(s: Seq<(K, V)>, k: K) -> Option<V> {
    match position(s, k, 0) {
        Some(i) => Some(s[i].1),
        None => None,
    }
}

/// Where the key `k` belongs among the entries from `i` on.
pub open spec fn slot<K: MapKey, X>(s: Seq<(K::V, X)>, k: K::V, i: int) -> int
    decreases s.len() - i,
{
    if 0 <= i < s.len() && K::before(s[i].0, k) {
        slot::<K, X>(s, k, i + 1)
    } else {
        i
    }
}

/// The entries `s` with the value of `k` set to `v`.
pub open spec fn put<K: MapKey, X>(s: Seq<(K::V, X)>, k: K::V, v: X) -> Seq<(K::V, X)> {
    let i = slot::<K, X>(s, k, 0);
    if 0 <= i < s.len() && s[i].0 == k {
        s.update(i, (k, v))
    } else {
        s.insert(i, (k, v))
    }
}

/// The entries `s` without the first one whose key is `k`.
pub open spec fn without<K, V>(s: Seq<(K, V)>, k: K) -> Seq<(K, V)> {
    match position(s, k, 0) {
        Some(i) => s.remove(i),
        None => s,
    }
}

/// The keys ascend.
pub open spec fn ascending<K: MapKey, X>(s: Seq<(K::V, X)>) -> bool {
    forall|i: int, j: int| 0 <= i < j < s.len() ==> K::before((#[trigger] s[i]).0, (#[trigger] s[j]).0)
}

/// `position` gives the first entry with the key.
pub proof fn lemma_position<K, V>(s: Seq<(K, V)>, k: K, i: int)
    requires
        0 <= i,
    ensures
        match position(s, k, i) {
            Some(p) => i <= p < s.len() && s[p].0 == k && forall|j: int|
                i <= j < p ==> (#[trigger] s[j]).0 != k,
            None => forall|j: int| i <= j < s.len() ==> (#[trigger] s[j]).0 != k,
        },
    decreases s.len() - i,
{
    if i < s.len() && s[i].0 != k {
        lemma_position(s, k, i + 1);
    }
}

/// `slot` gives the first entry whose key does not come before `k`.
pub proof fn lemma_slot<K: MapKey, X>(s: Seq<(K::V, X)>, k: K::V, i: int)
    requires
        0 <= i <= s.len(),
    ensures
        i <= slot::<K, X>(s, k, i) <= s.len(),
        forall|j: int| i <= j < slot::<K, X>(s, k, i) ==> K::before((#[trigger] s[j]).0, k),
        slot::<K, X>(s, k, i) < s.len() ==> !K::before(s[slot::<K, X>(s, k, i)].0, k),
    decreases s.len() - i,
{
    if i < s.len() && K::before(s[i].0, k) {
        lemma_slot::<K, X>(s, k, i + 1);
    }
}

/// Setting a value keeps the keys ascending; the value is then found under its
/// key, and every other key gives what it gave before.
pub proof fn lemma_put<K: MapKey, X>(s: Seq<(K::V, X)>, k: K::V, v: X)
    requires
        ascending::<K, X>(s),
    ensures
        ascending::<K, X>(put::<K, X>(s, k, v)),
        lookup(put::<K, X>(s, k, v), k) == Some(v),
        forall|q: K::V| q != k ==> #[trigger] lookup(put::<K, X>(s, k, v), q) == lookup(s, q),
{
    let n = slot::<K, X>(s, k, 0);
    let t = put::<K, X>(s, k, v);
    lemma_slot::<K, X>(s, k, 0);
    let replaces = n < s.len() && s[n].0 == k;
    assert forall|i: int, j: int| 0 <= i < j < t.len() implies K::before(
        (#[trigger] t[i]).0,
        (#[trigger] t[j]).0,
    ) by {
        if !replaces {
            let (i0, j0) = (if i > n { i - 1 } else { i }, if j > n { j - 1 } else { j });
            if i == n {
                K::lemma_total(s[n].0, k);
                if j0 > n {
                    K::lemma_transitive(k, s[n].0, s[j0].0);
                }
            } else if j == n {
            } else {
                assert(t[i] == s[i0] && t[j] == s[j0]);
            }
        } else {
            assert(t[i].0 == s[i].0 && t[j].0 == s[j].0);
        }
    }
    assert forall|q: K::V| #[trigger] lookup(t, q) == (if q == k { Some(v) } else { lookup(s, q) }) by {
        lemma_position(t, q, 0);
        lemma_position(s, q, 0);
        if q == k {
            assert(t[n].0 == k);
            let p = position(t, k, 0)->0;
            if p != n {
                K::lemma_total(t[p].0, t[n].0);
                K::lemma_total(t[n].0, t[p].0);
            }
        } else if replaces {
            assert forall|j: int| 0 <= j < s.len() implies (#[trigger] s[j]).0 == t[j].0 by {}
        } else {
            match position(s, q, 0) {
                Some(p) => {
                    let p2 = if p < n { p } else { p + 1 };
                    assert(t[p2] == s[p]);
                    let p3 = position(t, q, 0)->0;
                    let p4 = if p3 < n { p3 } else { p3 - 1 };
                    assert(p3 != n);
                    assert(t[p3] == s[p4]);
                },
                None => {
                    if let Some(p3) = position(t, q, 0) {
                        assert(p3 != n);
                        let p4 = if p3 < n { p3 } else { p3 - 1 };
                        assert(t[p3] == s[p4]);
                    }
                },
            }
        }
    }
}

/// Removing a key keeps the keys ascending; the key is then not found, and
/// every other key gives what it gave before.
pub proof fn lemma_without<K: MapKey, X>(s: Seq<(K::V, X)>, k: K::V)
    requires
        ascending::<K, X>(s),
    ensures
        ascending::<K, X>(without(s, k)),
        lookup(without(s, k), k) is None,
        forall|q: K::V| q != k ==> #[trigger] lookup(without(s, k), q) == lookup(s, q),
{
    let t = without(s, k);
    lemma_position(s, k, 0);
    if let Some(n) = position(s, k, 0) {
        assert forall|i: int, j: int| 0 <= i < j < t.len() implies K::before(
            (#[trigger] t[i]).0,
            (#[trigger] t[j]).0,
        ) by {
            let (i0, j0) = (if i >= n { i + 1 } else { i }, if j >= n { j + 1 } else { j });
            assert(t[i] == s[i0] && t[j] == s[j0]);
        }
        assert forall|q: K::V| #[trigger] lookup(t, q) == (if q == k { None } else { lookup(s, q) }) by {
            lemma_position(t, q, 0);
            lemma_position(s, q, 0);
            if let Some(p) = position(t, q, 0) {
                let p0 = if p >= n { p + 1 } else { p };
                assert(t[p] == s[p0]);
                if q == k {
                    K::lemma_total(s[n].0, s[p0].0);
                    K::lemma_total(s[p0].0, s[n].0);
                }
            }
            if q != k {
                if let Some(p) = position(s, q, 0) {
                    let p1 = if p > n { p - 1 } else { p };
                    assert(t[p1] == s[p]);
                    let p2 = position(t, q, 0)->0;
                    let p3 = if p2 >= n { p2 + 1 } else { p2 };
                    assert(t[p2] == s[p3]);
                }
            }
        }
    }
}

/// A map whose entries are kept in the order of their keys.
#[derive(Debug, PartialEq, Eq)]
pub struct SortedMap<K, V> {
    pub entries: Vec<(K, V)>,
}

impl<K: DeepView, V: DeepView> DeepView for SortedMap<K, V> {
    type V = Seq<(K::V, V::V)>;

    open spec fn deep_view(&self) -> Seq<(K::V, V::V)> {
        self.entries.deep_view()
    }
}

impl<K: MapKey, V: DeepView> SortedMap<K, V> {
    /// A map without entries.
    pub fn new() -> (m: SortedMap<K, V>)
        ensures
            m.deep_view() == Seq::<(K::V, V::V)>::empty(),
            ascending::<K, V::V>(m.deep_view()),
    {
        SortedMap { entries: Vec::new() }
    }

    /// The number of entries.
    pub fn len(&self) -> (n: usize)
        ensures
            n == self.deep_view().len(),
    {
        self.entries.len()
    }

    /// Where the key stands.
    pub fn find(&self, key: &K) -> (r: Option<usize>)
        ensures
            match r {
                Some(i) => position(self.deep_view(), key.deep_view(), 0) == Some(i as int) && i
                    < self.entries.len(),
                None => position(self.deep_view(), key.deep_view(), 0) is None,
            },
    {
        for i in 0..self.entries.len()
            invariant
                position(self.deep_view(), key.deep_view(), 0) == position(
                    self.deep_view(),
                    key.deep_view(),
                    i as int,
                ),
        {
            if self.entries[i].0.is_same(key) {
                return Some(i);
            }
        }
        None
    }

    /// The value under the key.
    pub fn get(&self, key: &K) -> (r: Option<&V>)
        ensures
            r.deep_view() == lookup(self.deep_view(), key.deep_view()),
            r matches Some(v) ==> (position(self.deep_view(), key.deep_view(), 0) matches Some(i)
                && *v == self.entries@[i].1),
    {
        match self.find(key) {
            Some(i) => Some(&self.entries[i].1),
            None => None,
        }
    }

    /// Sets the value under the key.
    pub fn insert(&mut self, key: K, value: V)
        ensures
            final(self).deep_view() == put::<K, V::V>(
                old(self).deep_view(),
                key.deep_view(),
                value.deep_view(),
            ),
    {
        let ghost s = self.deep_view();
        let ghost k = key.deep_view();
        let mut i: usize = 0;
        while i < self.entries.len() && self.entries[i].0.is_before(&key)
            invariant
                *self == *old(self),
                i <= self.entries.len(),
                s == self.deep_view(),
                k == key.deep_view(),
                slot::<K, V::V>(s, k, 0) == slot::<K, V::V>(s, k, i as int),
            decreases self.entries.len() - i,
        {
            i += 1;
        }
        if i < self.entries.len() && self.entries[i].0.is_same(&key) {
            self.entries[i] = (key, value);
            assert(self.deep_view() =~= s.update(i as int, (k, value.deep_view())));
        } else {
            self.entries.insert(i, (key, value));
            assert(self.deep_view() =~= s.insert(i as int, (k, value.deep_view())));
        }
    }

    /// Takes the entry of the key out.
    pub fn remove(&mut self, key: &K) -> (r: Option<V>)
        ensures
            r.deep_view() == lookup(old(self).deep_view(), key.deep_view()),
            final(self).deep_view() == without(old(self).deep_view(), key.deep_view()),
    {
        let ghost s = self.deep_view();
        match self.find(key) {
            Some(i) => {
                let entry = self.entries.remove(i);
                assert(self.deep_view() =~= s.remove(i as int));
                Some(entry.1)
            },
            None => None,
        }
    }
}

} // verus!
