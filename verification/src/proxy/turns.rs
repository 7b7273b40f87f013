//! What turns by weight come to in the long run.

use vstd::prelude::*;
use crate::proxy::lb::{
    all_gathered, gathered, heaviest, total_weight, weighted_pick, weighted_start, WrrEntry,
};
use crate::proxy::upstream;
use crate::proxy::upstream::Entries;

verus! {

/// The sum of the first `n` weights.
pub open spec fn weight_sum(weights: Seq<u32>, n: int) -> int
    decreases n,
{
    if n <= 0 || n > weights.len() {
        0
    } else {
        weight_sum(weights, n - 1) + weights[n - 1]
    }
}

/// The entries after `n` selections among the same backends.
pub open spec fn after_rounds(w: Seq<WrrEntry>, es: Entries, n: nat) -> Seq<WrrEntry>
    decreases n,
{
    if n == 0 {
        w
    } else {
        weighted_pick(after_rounds(w, es, (n - 1) as nat), es).0
    }
}

/// How often the backend at `i` is picked in the first `n` selections.
pub open spec fn times_picked(w: Seq<WrrEntry>, es: Entries, n: nat, i: int) -> nat
    decreases n,
{
    if n == 0 {
        0
    } else {
        times_picked(w, es, (n - 1) as nat, i) + (if weighted_pick(
            after_rounds(w, es, (n - 1) as nat),
            es,
        ).1 == Some(i) {
            1nat
        } else {
            0
        })
    }
}

/// What the first `n` entries have gathered together.
spec fn sum(s: Seq<WrrEntry>, n: int) -> int
    decreases n,
{
    if n <= 0 || n > s.len() {
        0
    } else {
        sum(s, n - 1) + s[n - 1].current_weight
    }
}

/// How many of the first `n` entries a choice takes in.
spec fn taken(b: Seq<bool>, n: int) -> int
    decreases n,
{
    if n <= 0 || n > b.len() {
        0
    } else {
        taken(b, n - 1) + (if b[n - 1] {
            1int
        } else {
            0
        })
    }
}

/// What those of the first `n` entries that a choice takes in have gathered together.
spec fn share(s: Seq<WrrEntry>, b: Seq<bool>, n: int) -> int
    decreases n,
{
    if n <= 0 || n > s.len() || n > b.len() {
        0
    } else {
        share(s, b, n - 1) + (if b[n - 1] {
            s[n - 1].current_weight as int
        } else {
            0
        })
    }
}

/// The most that `k` of `n` entries can have gathered together, where the weights add
/// up to `all`.
spec fn most(all: int, n: int, k: int) -> int
    decreases n - k,
{
    if k >= n {
        0
    } else {
        k * (most(all, n, k + 1) + all) / (k + 1)
    }
}

/// How often `k` is to be doubled to come to `n`.
spec fn doublings(k: int, n: int) -> int
    decreases
            if k < n {
                n - k
            } else {
                0
            },
{
    if k <= 0 || k >= n {
        0
    } else {
        1 + doublings(2 * k, n)
    }
}

/// What the entries have gathered cancels out, none owes as much as the sum of the
/// weights, and no choice of them has gathered more than as many can.
spec fn balanced(s: Seq<WrrEntry>, weights: Seq<u32>) -> bool {
    &&& s.len() == weights.len()
    &&& forall|i: int| 0 <= i < s.len() ==> (#[trigger] s[i]).effective_weight == weights[i]
    &&& forall|i: int|
        0 <= i < s.len() ==> (#[trigger] s[i]).current_weight > -weight_sum(
            weights,
            weights.len() as int,
        )
    &&& sum(s, s.len() as int) == 0
    &&& forall|b: Seq<bool>|
        b.len() == s.len() ==> #[trigger] share(s, b, s.len() as int) <= most(
            weight_sum(weights, weights.len() as int),
            s.len() as int,
            taken(b, s.len() as int),
        )
}

proof fn lemma_most(all: int, n: int, k: int)
    requires
        0 <= k,
        0 <= all,
    ensures
        0 <= most(all, n, k),
        k < n ==> (k + 1) * most(all, n, k) <= k * (most(all, n, k + 1) + all),
    decreases n - k,
{
    if k < n {
        lemma_most(all, n, k + 1);
        let x = k * (most(all, n, k + 1) + all);
        assert(x >= 0) by (nonlinear_arith)
            requires
                x == k * (most(all, n, k + 1) + all),
                k >= 0,
                most(all, n, k + 1) + all >= 0,
        ;
        let d = k + 1;
        assert(0 <= x / d && d * (x / d) <= x) by (nonlinear_arith)
            requires
                x >= 0,
                d > 0,
        ;
    }
}

/// Between `k` and `j` entries the most per entry grows by less than a sum of the
/// weights for each `k` entries.
proof fn lemma_most_between(all: int, n: int, k: int, j: int)
    requires
        0 < k <= j <= n,
        0 <= all,
    ensures
        j * most(all, n, k) <= k * most(all, n, j) + all * (j - k) * j,
    decreases j - k,
{
    if k == j {
        assert(all * (j - k) * j == 0) by (nonlinear_arith)
            requires
                k == j,
        ;
    } else {
        let i = j - 1;
        lemma_most_between(all, n, k, i);
        lemma_most(all, n, i);
        let (x, y, z) = (most(all, n, k), most(all, n, i), most(all, n, j));
        assert(i * x <= k * y + all * (i - k) * i);
        assert(j * y <= i * (z + all));
        assert(j * (i * x) <= j * (k * y + all * (i - k) * i)) by (nonlinear_arith)
            requires
                j > 0,
                i * x <= k * y + all * (i - k) * i,
        ;
        assert(k * (j * y) <= k * (i * (z + all))) by (nonlinear_arith)
            requires
                k > 0,
                j * y <= i * (z + all),
        ;
        assert(i * (j * x) == j * (i * x)) by (nonlinear_arith);
        assert(j * (k * y + all * (i - k) * i) == k * (j * y) + i * (all * (i - k) * j))
            by (nonlinear_arith);
        assert(k * (i * (z + all)) == i * (k * z + k * all)) by (nonlinear_arith);
        let right = k * z + k * all + all * (i - k) * j;
        assert(i * (j * x) <= i * right) by (nonlinear_arith)
            requires
                i * (j * x) <= i * (k * z + k * all) + i * (all * (i - k) * j),
                right == k * z + k * all + all * (i - k) * j,
        ;
        assert(j * x <= right) by (nonlinear_arith)
            requires
                i > 0,
                i * (j * x) <= i * right,
        ;
        assert(k * all + all * (i - k) * j <= all * (j - k) * j) by (nonlinear_arith)
            requires
                i == j - 1,
                k <= j,
                0 <= all,
        ;
    }
}

/// The most per entry is a sum of the weights for each doubling up to all entries.
proof fn lemma_most_doubling(all: int, n: int, k: int)
    requires
        0 < k <= n,
        0 <= all,
    ensures
        most(all, n, k) <= k * all * doublings(k, n),
    decreases n - k,
{
    if k < n {
        let x = most(all, n, k);
        let ka = k * all;
        assert(0 <= ka) by (nonlinear_arith)
            requires
                ka == k * all,
                0 < k,
                0 <= all,
        ;
        if 2 * k <= n {
            let d = doublings(2 * k, n);
            lemma_most_doubling(all, n, 2 * k);
            lemma_most_between(all, n, k, 2 * k);
            let y = most(all, n, 2 * k);
            assert(2 * x <= y + 2 * ka) by (nonlinear_arith)
                requires
                    k > 0,
                    ka == k * all,
                    (2 * k) * x <= k * y + all * (2 * k - k) * (2 * k),
            ;
            assert((2 * k) * all * d == 2 * (ka * d)) by (nonlinear_arith)
                requires
                    ka == k * all,
            ;
            assert(ka * (1 + d) == ka + ka * d) by (nonlinear_arith);
            assert(k * all * (1 + d) == ka * (1 + d));
        } else {
            lemma_most_between(all, n, k, n);
            assert(x <= ka) by (nonlinear_arith)
                requires
                    n * x <= k * 0 + all * (n - k) * n,
                    0 < k < n < 2 * k,
                    0 <= all,
                    ka == k * all,
            ;
            assert(doublings(2 * k, n) == 0);
            assert(k * all * 1 == ka) by (nonlinear_arith)
                requires
                    ka == k * all,
            ;
        }
    } else {
        assert(k * all * 0 == 0) by (nonlinear_arith);
    }
}

/// One more entry in a choice counts once.
proof fn lemma_one_more(s: Seq<WrrEntry>, b: Seq<bool>, m: int, n: int)
    requires
        0 <= m < s.len(),
        b.len() == s.len(),
        0 <= n <= s.len(),
        !b[m],
    ensures
        taken(b.update(m, true), n) == taken(b, n) + (if m < n {
            1int
        } else {
            0
        }),
        share(s, b.update(m, true), n) == share(s, b, n) + (if m < n {
            s[m].current_weight as int
        } else {
            0
        }),
        0 <= taken(b, n) <= n,
    decreases n,
{
    if n > 0 {
        lemma_one_more(s, b, m, n - 1);
    }
}

/// A choice that leaves one out is not all.
proof fn lemma_not_all(b: Seq<bool>, m: int, n: int)
    requires
        0 <= n <= b.len(),
    ensures
        0 <= taken(b, n) <= n,
        0 <= m < n && !b[m] ==> taken(b, n) < n,
        taken(b, n) == n ==> forall|i: int| 0 <= i < n ==> b[i],
    decreases n,
{
    if n > 0 {
        lemma_not_all(b, m, n - 1);
    }
}

/// A choice of all has gathered what all have.
proof fn lemma_share_of_all(s: Seq<WrrEntry>, b: Seq<bool>, n: int)
    requires
        b.len() == s.len(),
        0 <= n <= s.len(),
        forall|i: int| 0 <= i < n ==> b[i],
    ensures
        share(s, b, n) == sum(s, n),
    decreases n,
{
    if n > 0 {
        lemma_share_of_all(s, b, n - 1);
    }
}

/// No choice has more than as many times the most that one has.
proof fn lemma_share_at_most(s: Seq<WrrEntry>, b: Seq<bool>, n: int, top: int)
    requires
        b.len() == s.len(),
        0 <= n <= s.len(),
        forall|i: int| 0 <= i < n ==> (#[trigger] s[i]).current_weight <= top,
    ensures
        share(s, b, n) <= taken(b, n) * top,
    decreases n,
{
    if n > 0 {
        lemma_share_at_most(s, b, n - 1, top);
        let t = taken(b, n - 1);
        assert((t + 1) * top == t * top + top) by (nonlinear_arith);
        assert(s[n - 1].current_weight <= top);
    } else {
        assert(0 * top == 0) by (nonlinear_arith);
    }
}

/// Gathering adds no more than the sum of the weights to a choice.
proof fn lemma_share_grows(
    s: Seq<WrrEntry>,
    g: Seq<WrrEntry>,
    weights: Seq<u32>,
    b: Seq<bool>,
    n: int,
)
    requires
        g.len() == s.len(),
        weights.len() == s.len(),
        b.len() == s.len(),
        0 <= n <= s.len(),
        forall|i: int|
            0 <= i < s.len() ==> (#[trigger] g[i]).current_weight == s[i].current_weight + weights[i],
    ensures
        share(g, b, n) <= share(s, b, n) + weight_sum(weights, n),
    decreases n,
{
    if n > 0 {
        lemma_share_grows(s, g, weights, b, n - 1);
        assert(g[n - 1].current_weight == s[n - 1].current_weight + weights[n - 1]);
    }
}

/// The entry of one backend counts once in the share of a choice that takes it in.
proof fn lemma_share_update(s: Seq<WrrEntry>, i: int, e: WrrEntry, b: Seq<bool>, n: int)
    requires
        0 <= i < s.len(),
        b.len() == s.len(),
        0 <= n <= s.len(),
    ensures
        share(s.update(i, e), b, n) == share(s, b, n) + (if i < n && b[i] {
            e.current_weight - s[i].current_weight
        } else {
            0
        }),
    decreases n,
{
    if n > 0 {
        lemma_share_update(s, i, e, b, n - 1);
    }
}

/// The choice of one backend.
proof fn lemma_share_of_one(s: Seq<WrrEntry>, i: int, n: int)
    requires
        0 <= i < s.len(),
        0 <= n <= s.len(),
    ensures
        share(s, Seq::new(s.len(), |j: int| j == i), n) == (if i < n {
            s[i].current_weight as int
        } else {
            0
        }),
        taken(Seq::new(s.len(), |j: int| j == i), n) == (if i < n {
            1int
        } else {
            0
        }),
    decreases n,
{
    if n > 0 {
        lemma_share_of_one(s, i, n - 1);
    }
}

/// No backend has gathered more than a sum of the weights for each doubling up to all
/// backends.
proof fn lemma_gathered_at_most(s: Seq<WrrEntry>, weights: Seq<u32>, i: int)
    requires
        balanced(s, weights),
        0 <= i < s.len(),
    ensures
        s[i].current_weight <= weight_sum(weights, weights.len() as int) * doublings(
            1,
            weights.len() as int,
        ),
{
    let n = s.len() as int;
    let all = weight_sum(weights, n);
    let one = Seq::new(s.len(), |j: int| j == i);
    lemma_weight_sum_grows(weights, 0, n);
    lemma_share_of_one(s, i, n);
    assert(share(s, one, n) <= most(all, n, taken(one, n)));
    lemma_most_doubling(all, n, 1);
    assert(1 * all * doublings(1, n) == all * doublings(1, n)) by (nonlinear_arith);
}

/// When the backend that has gathered most pays the sum of the weights, no choice has
/// more than as many can.
proof fn lemma_shares_bounded(
    s: Seq<WrrEntry>,
    g: Seq<WrrEntry>,
    after: Seq<WrrEntry>,
    weights: Seq<u32>,
    m: int,
    b: Seq<bool>,
)
    requires
        balanced(s, weights),
        g.len() == s.len(),
        forall|i: int|
            0 <= i < s.len() ==> (#[trigger] g[i]).current_weight == s[i].current_weight + weights[i],
        0 <= m < s.len(),
        forall|i: int| 0 <= i < s.len() ==> (#[trigger] g[i]).current_weight <= g[m].current_weight,
        after == g.update(m, after[m]),
        after[m].current_weight == g[m].current_weight - weight_sum(weights, weights.len() as int),
        sum(after, after.len() as int) == 0,
        b.len() == s.len(),
    ensures
        share(after, b, after.len() as int) <= most(
            weight_sum(weights, weights.len() as int),
            after.len() as int,
            taken(b, after.len() as int),
        ),
{
    let n = s.len() as int;
    let all = weight_sum(weights, n);
    let k = taken(b, n);
    lemma_weight_sum_grows(weights, 0, n);
    lemma_not_all(b, m, n);
    lemma_share_update(g, m, after[m], b, n);
    if k == n {
        lemma_share_of_all(after, b, n);
    } else if b[m] {
        lemma_share_grows(s, g, weights, b, n);
        assert(share(s, b, n) <= most(all, n, k));
    } else {
        let c = b.update(m, true);
        lemma_one_more(g, b, m, n);
        lemma_share_grows(s, g, weights, c, n);
        assert(share(s, c, n) <= most(all, n, taken(c, n)));
        let top = g[m].current_weight as int;
        lemma_share_at_most(g, b, n, top);
        let (x, y) = (share(g, b, n), most(all, n, k + 1) + all);
        assert(x + top <= y);
        assert((k + 1) * x <= k * y) by (nonlinear_arith)
            requires
                k >= 0,
                x <= k * top,
                x + top <= y,
        ;
        let d = k + 1;
        let z = k * y;
        assert(x <= z / d) by (nonlinear_arith)
            requires
                d > 0,
                d * x <= z,
        ;
    }
}

proof fn lemma_weight_sum_grows(weights: Seq<u32>, m: int, n: int)
    requires
        0 <= m <= n <= weights.len(),
    ensures
        0 <= weight_sum(weights, m) <= weight_sum(weights, n),
    decreases n,
{
    if n > 0 {
        if m < n {
            lemma_weight_sum_grows(weights, m, n - 1);
        } else {
            lemma_weight_sum_grows(weights, m - 1, m - 1);
        }
    }
}

/// The backend at `i` cannot have gathered more than the others owe.
proof fn lemma_sum_at_least(s: Seq<WrrEntry>, n: int, i: int, owed: int)
    requires
        0 <= n <= s.len(),
        owed >= 0,
        forall|j: int| 0 <= j < n ==> (#[trigger] s[j]).current_weight >= -owed,
    ensures
        sum(s, n) >= -(n * owed),
        0 <= i < n ==> sum(s, n) >= s[i].current_weight - (n - 1) * owed,
    decreases n,
{
    if n > 0 {
        lemma_sum_at_least(s, n - 1, i, owed);
        assert(n * owed == (n - 1) * owed + owed) by (nonlinear_arith);
        assert(n >= 2 ==> (n - 1) * owed == (n - 2) * owed + owed) by (nonlinear_arith);
        assert(s[n - 1].current_weight >= -owed);
    } else {
        assert(n * owed == 0) by (nonlinear_arith)
            requires
                n == 0,
        ;
    }
}

/// Where no entry has anything, there is nothing in all.
proof fn lemma_sum_not_positive(s: Seq<WrrEntry>, n: int)
    requires
        0 <= n <= s.len(),
        forall|j: int| 0 <= j < n ==> (#[trigger] s[j]).current_weight <= 0,
    ensures
        sum(s, n) <= 0,
    decreases n,
{
    if n > 0 {
        lemma_sum_not_positive(s, n - 1);
        assert(s[n - 1].current_weight <= 0);
    }
}

/// Where no entry owes anything and there is nothing in all, each has nothing.
proof fn lemma_all_zero(s: Seq<WrrEntry>, n: int, i: int)
    requires
        0 <= i < n <= s.len(),
        forall|j: int| 0 <= j < n ==> (#[trigger] s[j]).current_weight >= 0,
        sum(s, n) <= 0,
    ensures
        s[i].current_weight == 0,
{
    lemma_sum_at_least(s, n, i, 0);
    assert((n - 1) * 0 == 0) by (nonlinear_arith);
}

/// The entry of one backend counts once in the sum.
proof fn lemma_sum_update(s: Seq<WrrEntry>, i: int, e: WrrEntry, n: int)
    requires
        0 <= i < s.len(),
        0 <= n <= s.len(),
    ensures
        sum(s.update(i, e), n) == sum(s, n) + (if i < n {
            e.current_weight - s[i].current_weight
        } else {
            0
        }),
    decreases n,
{
    if n > 0 {
        lemma_sum_update(s, i, e, n - 1);
    }
}

/// With all backends up and nothing beyond the range, gathering adds the weights.
proof fn lemma_gathering(s: Seq<WrrEntry>, es: Entries, weights: Seq<u32>, n: int)
    requires
        0 <= n <= s.len(),
        s.len() == weights.len(),
        forall|i: int| 0 <= i < s.len() ==> upstream::healthy(es, i),
        forall|i: int| 0 <= i < s.len() ==> (#[trigger] s[i]).effective_weight == weights[i],
        forall|i: int|
            0 <= i < s.len() ==> (#[trigger] s[i]).current_weight + weights[i] <= i128::MAX,
        weight_sum(weights, weights.len() as int) <= i128::MAX,
    ensures
        sum(all_gathered(s, es), n) == sum(s, n) + weight_sum(weights, n),
        total_weight(s, es, n) == weight_sum(weights, n),
        forall|i: int|
            0 <= i < s.len() ==> (#[trigger] all_gathered(s, es)[i]).current_weight
                == s[i].current_weight + weights[i],
        forall|i: int|
            0 <= i < s.len() ==> (#[trigger] all_gathered(s, es)[i]).effective_weight
                == weights[i],
    decreases n,
{
    if n > 0 {
        lemma_gathering(s, es, weights, n - 1);
        lemma_weight_sum_grows(weights, n, weights.len() as int);
        lemma_weight_sum_grows(weights, n - 1, n - 1);
        assert(upstream::healthy(es, n - 1));
        assert(s[n - 1].effective_weight == weights[n - 1]);
    }
}

/// The pick is a backend that has gathered most.
proof fn lemma_heaviest(s: Seq<WrrEntry>, es: Entries, n: int)
    requires
        0 <= n <= s.len(),
        forall|i: int| 0 <= i < s.len() ==> upstream::healthy(es, i),
        forall|i: int|
            0 <= i < s.len() ==> (#[trigger] all_gathered(s, es)[i]).current_weight > i128::MIN,
    ensures
        n > 0 ==> heaviest(s, es, n) is Some,
        match heaviest(s, es, n) {
            Some(b) => 0 <= b < n && forall|j: int|
                0 <= j < n ==> (#[trigger] all_gathered(s, es)[j]).current_weight
                    <= all_gathered(s, es)[b].current_weight,
            None => true,
        },
    decreases n,
{
    if n > 0 {
        lemma_heaviest(s, es, n - 1);
        assert(upstream::healthy(es, n - 1));
        assert(all_gathered(s, es)[n - 1] == gathered(s[n - 1]));
        match heaviest(s, es, n - 1) {
            Some(b) => {
                assert(upstream::healthy(es, b));
                assert(all_gathered(s, es)[b] == gathered(s[b]));
            },
            None => {},
        }
    }
}

/// A selection keeps the balance; each backend gathers its weight, and the one that
/// is picked pays the sum of the weights.
proof fn lemma_round(s: Seq<WrrEntry>, es: Entries, weights: Seq<u32>)
    requires
        balanced(s, weights),
        forall|i: int| 0 <= i < weights.len() ==> upstream::healthy(es, i),
        0 < weight_sum(weights, weights.len() as int),
        (doublings(1, weights.len() as int) + 1) * weight_sum(weights, weights.len() as int)
            <= i128::MAX,
    ensures
        balanced(weighted_pick(s, es).0, weights),
        match weighted_pick(s, es).1 {
            Some(b) => 0 <= b < weights.len() && forall|i: int|
                0 <= i < weights.len() ==> (#[trigger] weighted_pick(s, es).0[i]).current_weight
                    == s[i].current_weight + weights[i] - (if i == b {
                    weight_sum(weights, weights.len() as int)
                } else {
                    0
                }),
            None => false,
        },
{
    let n = weights.len() as int;
    let all = weight_sum(weights, n);
    let g = all_gathered(s, es);
    assert(n > 0);
    let d = doublings(1, n);
    lemma_doublings(1, n);
    assert((d + 1) * all == all * d + all) by (nonlinear_arith);
    assert(all * d >= 0) by (nonlinear_arith)
        requires
            0 < all,
            0 <= d,
    ;
    assert forall|i: int| 0 <= i < s.len() implies (#[trigger] s[i]).current_weight + weights[i]
        <= i128::MAX by {
        lemma_gathered_at_most(s, weights, i);
        lemma_weight_sum_grows(weights, 0, i);
        lemma_weight_sum_grows(weights, i + 1, n);
        assert(weights[i] <= all);
    }
    lemma_gathering(s, es, weights, n);
    assert forall|i: int| 0 <= i < s.len() implies (#[trigger] g[i]).current_weight > i128::MIN by {
        assert(s[i].current_weight > -all);
    }
    lemma_heaviest(s, es, n);
    let b = heaviest(s, es, n)->0;
    if g[b].current_weight <= 0 {
        assert forall|j: int| 0 <= j < n implies (#[trigger] g[j]).current_weight <= 0 by {}
        lemma_sum_not_positive(g, n);
        assert(false);
    }
    let paid = WrrEntry { current_weight: g[b].current_weight.wrapping_sub(all as i128), ..g[b] };
    lemma_sum_update(g, b, paid, n);
    let after = weighted_pick(s, es).0;
    assert(after == g.update(b, paid));
    assert(paid.current_weight == g[b].current_weight - all);
    assert forall|i: int| 0 <= i < after.len() implies (#[trigger] after[i]).current_weight
        > -all by {
        assert(s[i].current_weight > -all);
        assert(g[i].current_weight == s[i].current_weight + weights[i]);
    }
    assert forall|i: int| 0 <= i < after.len() implies (#[trigger] after[i]).effective_weight
        == weights[i] by {
        assert(g[i].effective_weight == weights[i]);
    }
    assert forall|c: Seq<bool>| c.len() == after.len() implies #[trigger] share(
        after,
        c,
        after.len() as int,
    ) <= most(all, after.len() as int, taken(c, after.len() as int)) by {
        lemma_shares_bounded(s, g, after, weights, b, c);
    }
    assert forall|i: int| 0 <= i < n implies (#[trigger] after[i]).current_weight
        == s[i].current_weight + weights[i] - (if i == b {
        all
    } else {
        0
    }) by {
        assert(g[i].current_weight == s[i].current_weight + weights[i]);
    }
}

proof fn lemma_doublings(k: int, n: int)
    ensures
        0 <= doublings(k, n),
    decreases
            if k < n {
                n - k
            } else {
                0
            },
{
    if 0 < k < n {
        lemma_doublings(2 * k, n);
    }
}

proof fn lemma_weight_sum_at_most(weights: Seq<u32>, n: int)
    requires
        0 <= n <= weights.len(),
    ensures
        weight_sum(weights, n) <= n * 0xffff_ffff,
    decreases n,
{
    if n > 0 {
        lemma_weight_sum_at_most(weights, n - 1);
    }
}

proof fn lemma_doublings_at_most(k: int, n: int, d: nat)
    requires
        0 < k,
        n <= k * vstd::arithmetic::power2::pow2(d),
    ensures
        doublings(k, n) <= d,
    decreases d,
{
    if k < n {
        vstd::arithmetic::power2::lemma2_to64();
        if d == 0 {
            assert(k * 1 == k);
        } else {
            let e = (d - 1) as nat;
            vstd::arithmetic::power2::lemma_pow2_unfold(d);
            let x = vstd::arithmetic::power2::pow2(e) as int;
            assert(k * (2 * x) == (2 * k) * x) by (nonlinear_arith);
            lemma_doublings_at_most(2 * k, n, e);
        }
    }
}

/// No list of weights is so long or so heavy that what is gathered is out of range.
proof fn lemma_turns_fit(weights: Seq<u32>)
    requires
        weights.len() <= usize::MAX,
    ensures
        (doublings(1, weights.len() as int) + 1) * weight_sum(weights, weights.len() as int)
            <= i128::MAX,
{
    let n = weights.len() as int;
    let all = weight_sum(weights, n);
    let d = doublings(1, n);
    lemma_weight_sum_grows(weights, 0, n);
    lemma_weight_sum_at_most(weights, n);
    vstd::arithmetic::power2::lemma2_to64();
    lemma_doublings_at_most(1, n, 64);
    assert((d + 1) * all <= 65 * all) by (nonlinear_arith)
        requires
            d <= 64,
            0 <= all,
    ;
}

/// With a weight and all backends up, every selection picks a backend.
pub proof fn lemma_always_picked(weights: Seq<u32>, es: Entries, n: nat)
    requires
        weights.len() <= usize::MAX,
        forall|k: int| 0 <= k < weights.len() ==> upstream::healthy(es, k),
        0 < weight_sum(weights, weights.len() as int),
    ensures
        weighted_pick(after_rounds(weighted_start(weights), es, n), es).1 matches Some(b) && 0
            <= b < weights.len(),
{
    lemma_turns_fit(weights);
    lemma_rounds(weights, es, n);
    lemma_round(after_rounds(weighted_start(weights), es, n), es, weights);
}

proof fn lemma_start_share(weights: Seq<u32>, b: Seq<bool>, n: int)
    requires
        0 <= n <= weights.len(),
        b.len() == weights.len(),
    ensures
        share(weighted_start(weights), b, n) == 0,
    decreases n,
{
    if n > 0 {
        lemma_start_share(weights, b, n - 1);
    }
}

proof fn lemma_start_sum(weights: Seq<u32>, n: int)
    requires
        0 <= n <= weights.len(),
    ensures
        sum(weighted_start(weights), n) == 0,
    decreases n,
{
    if n > 0 {
        lemma_start_sum(weights, n - 1);
    }
}

/// After `n` selections a backend has gathered its weight `n` times, and paid the sum
/// of the weights each time that it was picked.
proof fn lemma_rounds(weights: Seq<u32>, es: Entries, n: nat)
    requires
        forall|i: int| 0 <= i < weights.len() ==> upstream::healthy(es, i),
        0 < weight_sum(weights, weights.len() as int),
        (doublings(1, weights.len() as int) + 1) * weight_sum(weights, weights.len() as int)
            <= i128::MAX,
    ensures
        balanced(after_rounds(weighted_start(weights), es, n), weights),
        forall|i: int|
            0 <= i < weights.len() ==> (#[trigger] after_rounds(
                weighted_start(weights),
                es,
                n,
            )[i]).current_weight == n * weights[i] - weight_sum(weights, weights.len() as int)
                * times_picked(weighted_start(weights), es, n, i),
    decreases n,
{
    let w = weighted_start(weights);
    let all = weight_sum(weights, weights.len() as int);
    if n == 0 {
        lemma_start_sum(weights, weights.len() as int);
        assert forall|b: Seq<bool>| b.len() == w.len() implies #[trigger] share(
            w,
            b,
            w.len() as int,
        ) <= most(all, w.len() as int, taken(b, w.len() as int)) by {
            lemma_start_share(weights, b, w.len() as int);
            lemma_not_all(b, 0, w.len() as int);
            lemma_most(all, w.len() as int, taken(b, w.len() as int));
        }
        assert forall|i: int| 0 <= i < weights.len() implies (#[trigger] after_rounds(
            w,
            es,
            n,
        )[i]).current_weight == n * weights[i] - all * times_picked(w, es, n, i) by {
            assert(0 * weights[i] == 0) by (nonlinear_arith);
            assert(all * 0 == 0) by (nonlinear_arith);
        }
    } else {
        let m = (n - 1) as nat;
        let s = after_rounds(w, es, m);
        lemma_rounds(weights, es, m);
        lemma_round(s, es, weights);
        let b = weighted_pick(s, es).1->0;
        assert forall|i: int| 0 <= i < weights.len() implies (#[trigger] after_rounds(
            w,
            es,
            n,
        )[i]).current_weight == n * weights[i] - all * times_picked(w, es, n, i) by {
            let t = times_picked(w, es, m, i) as int;
            let x = weights[i] as int;
            assert(after_rounds(w, es, n)[i] == weighted_pick(s, es).0[i]);
            assert(s[i].current_weight == m * x - all * t);
            assert(n * x == m * x + x) by (nonlinear_arith)
                requires
                    n == m + 1,
            ;
            assert(all * (t + 1) == all * t + all) by (nonlinear_arith);
        }
    }
}

/// With all backends up, as many selections as the weights add up to pick each
/// backend as often as its weight says, and leave the turns as they were at the start:
/// after `rounds` times as many, each was picked `rounds` times its weight.
pub proof fn lemma_picked_by_weight(weights: Seq<u32>, es: Entries, rounds: nat, i: int)
    requires
        weights.len() <= usize::MAX,
        forall|k: int| 0 <= k < weights.len() ==> upstream::healthy(es, k),
        0 <= i < weights.len(),
    ensures
        times_picked(
            weighted_start(weights),
            es,
            (rounds * weight_sum(weights, weights.len() as int)) as nat,
            i,
        ) == rounds * weights[i],
        after_rounds(
            weighted_start(weights),
            es,
            (rounds * weight_sum(weights, weights.len() as int)) as nat,
        ) == weighted_start(weights),
{
    lemma_turns_fit(weights);
    let w = weighted_start(weights);
    let n = weights.len() as int;
    let all = weight_sum(weights, n);
    lemma_weight_sum_grows(weights, 0, n);
    lemma_weight_sum_grows(weights, i, i);
    lemma_weight_sum_grows(weights, i + 1, n);
    let r = rounds as int;
    assert(r * all >= 0) by (nonlinear_arith)
        requires
            r >= 0,
            all >= 0,
    ;
    let calls = (rounds * all) as nat;
    if all > 0 {
        let s = after_rounds(w, es, calls);
        lemma_rounds(weights, es, calls);
        assert forall|k: int| 0 <= k < n implies (#[trigger] s[k]).current_weight == all * (r
            * weights[k] - times_picked(w, es, calls, k)) by {
            let t = times_picked(w, es, calls, k) as int;
            let x = weights[k] as int;
            assert(s[k].current_weight == calls * x - all * t);
            assert((r * all) * x - all * t == all * (r * x - t)) by (nonlinear_arith);
        }
        assert forall|k: int| 0 <= k < n implies (#[trigger] s[k]).current_weight >= 0 by {
            let d = r * weights[k] - times_picked(w, es, calls, k);
            assert(s[k].current_weight == all * d);
            assert(s[k].current_weight > -all);
            assert(all * d >= 0) by (nonlinear_arith)
                requires
                    all > 0,
                    all * d > -all,
            ;
        }
        assert forall|k: int| 0 <= k < n implies #[trigger] s[k] == w[k] by {
            lemma_all_zero(s, n, k);
        }
        assert(s =~= w);
        let d = r * weights[i] - times_picked(w, es, calls, i);
        assert(s[i].current_weight == all * d);
        assert(d == 0) by (nonlinear_arith)
            requires
                all > 0,
                all * d == 0,
        ;
    } else {
        assert(weights[i] == 0);
        assert(r * 0 == 0) by (nonlinear_arith);
    }
}

} // verus!
