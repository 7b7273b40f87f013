//! Texts with placeholders in them.

use vstd::prelude::*;
use crate::sorted_map::SortedMap;
use crate::text;

verus! {

/// The placeholder for a key.
pub open spec fn placeholder(key: Seq<char>) -> Seq<char> {
    "{"@ + key + "}"@
}

/// A text with the placeholders of the entries from `i` on replaced by their values, one
/// key after the other.
pub open spec fn expanded(s: Seq<char>, values: Seq<(Seq<char>, Seq<char>)>, i: int) -> Seq<char>
    decreases values.len() - i,
{
    if i < 0 || i >= values.len() {
        s
    } else {
        expanded(text::replaced(s, placeholder(values[i].0), values[i].1), values, i + 1)
    }
}

/// Replaces the placeholders in a template by their values, in the order of the keys.
pub fn expand_placeholders(template: &str, values: &SortedMap<String, String>) -> (r: String)
    ensures
        r@ == expanded(template@, values.deep_view(), 0),
{
    let ghost v = values.deep_view();
    let mut out = template.to_owned();
    for i in 0..values.entries.len()
        invariant
            v == values.entries.deep_view(),
            expanded(out@, v, i as int) == expanded(template@, v, 0),
    {
        assert(v[i as int] == values.entries@[i as int].deep_view());
        let key = text::join3("{", values.entries[i].0.as_str(), "}");
        out = text::replace(out.as_str(), key.as_str(), values.entries[i].1.as_str());
    }
    out
}

/// A template in which no placeholder of a key occurs stays as it is.
pub proof fn lemma_nothing_to_expand(
    s: Seq<char>,
    values: Seq<(Seq<char>, Seq<char>)>,
    i: int,
)
    requires
        0 <= i,
        forall|k: int|
            0 <= k < values.len() ==> !text::contains(s, placeholder((#[trigger] values[k]).0)),
    ensures
        expanded(s, values, i) == s,
    decreases values.len() - i,
{
    if i < values.len() {
        reveal_strlit("{");
        assert(placeholder(values[i].0).len() > 0);
        assert(!text::contains(s, placeholder(values[i].0)));
        text::lemma_replaced_absent(s, placeholder(values[i].0), values[i].1);
        lemma_nothing_to_expand(s, values, i + 1);
    }
}

/// The placeholders are replaced one key after the other, in the order of the keys.
pub proof fn lemma_expanded_in_order(
    s: Seq<char>,
    values: Seq<(Seq<char>, Seq<char>)>,
    i: int,
)
    requires
        0 <= i < values.len(),
    ensures
        expanded(s, values, i) == text::replaced(
            expanded(s, values.drop_last(), i),
            seq!['{'] + values.last().0 + seq!['}'],
            values.last().1,
        ),
    decreases values.len() - i,
{
    reveal_strlit("{");
    reveal_strlit("}");
    let d = values.drop_last();
    let t = text::replaced(s, placeholder(values[i].0), values[i].1);
    assert(placeholder(values.last().0) =~= seq!['{'] + values.last().0 + seq!['}']);
    if i + 1 < values.len() {
        assert(d[i] == values[i]);
        lemma_expanded_in_order(t, values, i + 1);
    } else {
        assert(expanded(t, values, i + 1) == t);
        assert(expanded(s, d, i) == s);
    }
}

/// A placeholder is replaced by the value of its key, and what stands before and behind it
/// stays, as long as nothing else there begins a placeholder.
pub proof fn lemma_placeholder_filled(
    values: Seq<(Seq<char>, Seq<char>)>,
    i: int,
    k: int,
    a: Seq<char>,
    b: Seq<char>,
)
    requires
        0 <= i <= k < values.len(),
        forall|j: int|
            0 <= j < values.len() ==> !(#[trigger] values[j]).0.contains('{')
                && !values[j].0.contains('}'),
        forall|j: int| 0 <= j < k ==> (#[trigger] values[j]).0 != values[k].0,
        !a.contains('{') && !b.contains('{') && !values[k].1.contains('{'),
    ensures
        expanded(a + placeholder(values[k].0) + b, values, i) == a + values[k].1 + b,
    decreases k - i,
{
    reveal_strlit("{");
    reveal_strlit("}");
    let s = a + placeholder(values[k].0) + b;
    let p = placeholder(values[i].0);
    assert(p[0] == '{');
    if i < k {
        lemma_other_placeholder(values[i].0, values[k].0, a, b);
        text::lemma_replaced_absent(s, p, values[i].1);
        lemma_placeholder_filled(values, i + 1, k, a, b);
    } else {
        let by = values[k].1;
        text::lemma_first_where_put(a, p, b);
        text::lemma_replaced_step(s, p, by, a.len() as int);
        assert(s.take(a.len() as int) =~= a);
        assert(s.skip(a.len() as int + p.len()) =~= b);
        text::lemma_not_begun(b, p, 0);
        text::lemma_replaced_absent(b, p, by);
        let t = a + by + b;
        assert(!t.contains('{')) by {
            if t.contains('{') {
                let j = choose|j: int| 0 <= j < t.len() && t[j] == '{';
                if j < a.len() {
                    assert(a.contains(a[j]));
                } else if j < a.len() + by.len() {
                    assert(by.contains(by[j - a.len()]));
                } else {
                    assert(b.contains(b[j - a.len() - by.len()]));
                }
            }
        }
        assert forall|j: int| 0 <= j < values.len() implies !text::contains(
            t,
            placeholder((#[trigger] values[j]).0),
        ) by {
            assert(placeholder(values[j].0)[0] == '{');
            text::lemma_not_begun(t, placeholder(values[j].0), 0);
        }
        lemma_nothing_to_expand(t, values, k + 1);
    }
}

/// A placeholder does not hold that of another key.
proof fn lemma_other_placeholder(x: Seq<char>, y: Seq<char>, a: Seq<char>, b: Seq<char>)
    requires
        x != y,
        !x.contains('{') && !x.contains('}'),
        !y.contains('{') && !y.contains('}'),
        !a.contains('{') && !b.contains('{'),
    ensures
        !text::contains(a + placeholder(y) + b, placeholder(x)),
{
    reveal_strlit("{");
    reveal_strlit("}");
    let s = a + placeholder(y) + b;
    let p = placeholder(x);
    text::lemma_first_at(s, p, 0);
    if let Some(j) = text::first_at(s, p, 0) {
        let t = s.subrange(j, j + p.len());
        assert(t == p);
        assert(t[0] == s[j] && p[0] == '{');
        let n = a.len() as int;
        if j < n {
            assert(a.contains(a[j]));
        } else if j > n && j < n + placeholder(y).len() {
            if j < n + 1 + y.len() {
                assert(s[j] == y[j - n - 1]);
                assert(y.contains(y[j - n - 1]));
            }
        } else if j >= n + placeholder(y).len() {
            assert(b.contains(b[j - n - placeholder(y).len()]));
        }
        assert(j == n);
        if x.len() < y.len() {
            let m = x.len() as int + 1;
            assert(p[m] == '}');
            assert(t[m] == s[n + m]);
            assert(s[n + m] == y[m - 1]);
            assert(y.contains(y[m - 1]));
        } else if x.len() > y.len() {
            let m = y.len() as int + 1;
            assert(t[m] == s[n + m] && s[n + m] == '}');
            assert(p[m] == x[m - 1]);
            assert(x.contains(x[m - 1]));
        } else {
            assert forall|m: int| 0 <= m < x.len() implies x[m] == y[m] by {
                assert(p[m + 1] == x[m]);
                assert(t[m + 1] == s[n + m + 1] && s[n + m + 1] == y[m]);
            }
            assert(x =~= y);
        }
    }
}

} // verus!
