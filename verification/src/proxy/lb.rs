//! Strategies that pick a backend for a request.

use vstd::prelude::*;
use crate::config::types::{LbPolicy, ProxyConfig, ProxyConfigView};
use crate::data::Data;
use crate::message;
use crate::message::{ClientAddr, ClientView, Fields, Headers};
use crate::proxy::upstream;
use crate::proxy::upstream::{Entries, UpstreamPool};
use crate::router::matcher;
use crate::router::matcher::extract_cookie;
use crate::text;

verus! {

/// The plain values of an [`LbContext`].
#[verifier::ext_equal]
pub struct LbContextView {
    pub client: ClientView,
    pub uri: Seq<char>,
    pub headers: Fields,
}

/// What a strategy may know of a request.
pub struct LbContext {
    pub client: ClientAddr,
    pub uri: String,
    pub headers: Headers,
}

impl DeepView for LbContext {
    type V = LbContextView;

    open spec fn deep_view(&self) -> LbContextView {
        LbContextView {
            client: self.client.deep_view(),
            uri: self.uri@,
            headers: self.headers.deep_view(),
        }
    }
}

/// A strategy that picks a backend of a pool.
pub trait LoadBalancer: DeepView + Sized {
    /// Tells whether the strategy may pick `r` among the backends and be `after`
    /// afterwards.
    spec fn picks(
        before: Self::V,
        es: Entries,
        ctx: LbContextView,
        after: Self::V,
        r: Option<int>,
    ) -> bool;

    /// Picks a backend. It is one that is up; none is picked only where the
    /// strategy finds none.
    fn select(&mut self, pool: &UpstreamPool, ctx: &LbContext) -> (r: Option<usize>)
        ensures
            Self::picks(
                old(self).deep_view(),
                upstream::entries(pool.deep_view()),
                ctx.deep_view(),
                final(self).deep_view(),
                index(r),
            ),
            r matches Some(i) ==> upstream::healthy(upstream::entries(pool.deep_view()), i as int),
    ;
}

/// An index as a number.
pub open spec fn index(r: Option<usize>) -> Option<int> {
    match r {
        Some(i) => Some(i as int),
        None => None,
    }
}

/// The places of the backends from `i` on that are up.
pub open spec fn healthy_from(es: Entries, i: int) -> Seq<int>
    decreases es.len() - i,
{
    if i < 0 || i >= es.len() {
        seq![]
    } else if es[i].healthy {
        seq![i] + healthy_from(es, i + 1)
    } else {
        healthy_from(es, i + 1)
    }
}

/// The places of the backends that are up.
pub open spec fn healthy_list(es: Entries) -> Seq<int> {
    healthy_from(es, 0)
}

/// Only backends that are up are in the list, and each of them is.
proof fn lemma_healthy_from(es: Entries, i: int)
    requires
        0 <= i,
    ensures
        forall|k: int|
            0 <= k < healthy_from(es, i).len() ==> i <= #[trigger] healthy_from(es, i)[k]
                && upstream::healthy(es, healthy_from(es, i)[k]),
        forall|j: int|
            i <= j && #[trigger] upstream::healthy(es, j) ==> healthy_from(es, i).contains(j),
    decreases es.len() - i,
{
    if i < es.len() {
        lemma_healthy_from(es, i + 1);
        let rest = healthy_from(es, i + 1);
        if es[i].healthy {
            let all = seq![i] + rest;
            assert forall|j: int| i <= j && #[trigger] upstream::healthy(
                es,
                j,
            ) implies all.contains(j) by {
                if j == i {
                    assert(all[0] == j);
                } else {
                    let k = choose|k: int| 0 <= k < rest.len() && rest[k] == j;
                    assert(all[k + 1] == j);
                }
            }
            assert forall|k: int| 0 <= k < all.len() implies i <= #[trigger] all[k]
                && upstream::healthy(es, all[k]) by {
                if k > 0 {
                    assert(all[k] == rest[k - 1]);
                }
            }
        }
    }
}

/// Places as numbers.
pub open spec fn numbers(v: Seq<usize>) -> Seq<int> {
    v.map_values(|i: usize| i as int)
}

/// The places of the backends that are up.
fn healthy_indices(pool: &UpstreamPool) -> (r: Vec<usize>)
    ensures
        numbers(r@) == healthy_list(upstream::entries(pool.deep_view())),
{
    let s = pool.snapshot();
    let ghost es = upstream::entries(pool.deep_view());
    let mut out: Vec<usize> = Vec::new();
    assert(numbers(out@) + healthy_from(es, 0) =~= healthy_from(es, 0));
    let n = s.len();
    for i in 0..n
        invariant
            n == es.len(),
            es == upstream::shown(pool.deep_view(), s.deep_view()),
            numbers(out@) + healthy_from(es, i as int) == healthy_from(es, 0),
    {
        if s.is_healthy(pool, i) {
            let ghost before = out@;
            out.push(i);
            assert(numbers(out@) =~= numbers(before).push(i as int));
            assert(numbers(out@) + healthy_from(es, i + 1) =~= numbers(before) + (seq![i as int]
                + healthy_from(es, i + 1)));
        }
    }
    assert(numbers(out@) =~= numbers(out@) + healthy_from(es, es.len() as int));
    out
}

// ---------------------------------------------------------------------------
// Round robin
// ---------------------------------------------------------------------------

/// Picks one backend after the other.
#[derive(Debug, PartialEq, Eq)]
pub struct RoundRobinLb {
    counter: usize,
}

impl DeepView for RoundRobinLb {
    type V = usize;

    closed spec fn deep_view(&self) -> usize {
        self.counter
    }
}

/// The count and the pick after at most so many tries.
pub open spec fn round_robin(es: Entries, counter: usize, tries: nat) -> (usize, Option<int>)
    decreases tries,
{
    if tries == 0 || es.len() == 0 {
        (counter, None)
    } else {
        let i = counter as int % es.len() as int;
        let next = counter.wrapping_add(1);
        if es[i].healthy {
            (next, Some(i))
        } else {
            round_robin(es, next, (tries - 1) as nat)
        }
    }
}

impl RoundRobinLb {
    /// A strategy that begins with the first backend.
    pub fn new() -> (r: RoundRobinLb)
        ensures
            r.deep_view() == 0,
    {
        RoundRobinLb { counter: 0 }
    }
}

impl LoadBalancer for RoundRobinLb {
    open spec fn picks(
        before: usize,
        es: Entries,
        ctx: LbContextView,
        after: usize,
        r: Option<int>,
    ) -> bool {
        (after, r) == round_robin(es, before, es.len())
    }

    fn select(&mut self, pool: &UpstreamPool, ctx: &LbContext) -> (r: Option<usize>) {
        let s = pool.snapshot();
        let ghost es = upstream::entries(pool.deep_view());
        let n = s.len();
        if n == 0 {
            return None;
        }
        for k in 0..n
            invariant
                n == es.len(),
                n > 0,
                es == upstream::shown(pool.deep_view(), s.deep_view()),
                round_robin(es, old(self).deep_view(), es.len()) == round_robin(
                    es,
                    self.deep_view(),
                    (n - k) as nat,
                ),
                es == upstream::entries(pool.deep_view()),
        {
            let i: usize = self.counter % n;
            self.counter = self.counter.wrapping_add(1);
            if s.is_healthy(pool, i) {
                return Some(i);
            }
        }
        None
    }
}

/// With all backends up, each selection picks the next one.
pub proof fn lemma_round_robin_order(es: Entries, counter: usize)
    requires
        es.len() > 0,
        forall|i: int| 0 <= i < es.len() ==> (#[trigger] es[i]).healthy,
    ensures
        round_robin(es, counter, es.len()) == (
            counter.wrapping_add(1),
            Some(counter as int % es.len() as int),
        ),
{
    assert(es[counter as int % es.len() as int].healthy);
}

// ---------------------------------------------------------------------------
// Chance
// ---------------------------------------------------------------------------

/// `rand::seq::IndexedRandom::choose` with the generator of the thread: one of the
/// values, or none where there are none. Which one is left to chance.
#[verifier::external_body]
fn choose_one(v: &Vec<usize>) -> (r: Option<usize>)
    ensures
        match r {
            Some(i) => v@.contains(i),
            None => v@.len() == 0,
        },
{
    rand::seq::IndexedRandom::choose(v.as_slice(), &mut rand::rng()).copied()
}

/// Two values from two different places of a list.
pub open spec fn two_places(v: Seq<usize>, t: Seq<usize>) -> bool {
    t.len() == 2 && exists|i: int, j: int|
        0 <= i < v.len() && 0 <= j < v.len() && i != j && v[i] == t[0] && v[j] == t[1]
}

/// `rand::seq::IndexedRandom::choose_multiple` with the generator of the thread:
/// the values at two different places. Which places is left to chance.
#[verifier::external_body]
fn choose_two(v: &Vec<usize>) -> (r: Vec<usize>)
    requires
        v@.len() >= 2,
    ensures
        two_places(v@, r@),
{
    rand::seq::IndexedRandom::choose_multiple(v.as_slice(), &mut rand::rng(), 2).copied().collect()
}

/// Picks any backend that is up.
#[derive(Debug, PartialEq, Eq)]
pub struct RandomLb;

impl DeepView for RandomLb {
    type V = ();

    open spec fn deep_view(&self) -> () {
        ()
    }
}

impl RandomLb {
    pub fn new() -> (r: RandomLb)
        ensures
            r.deep_view() == (),
    {
        RandomLb
    }
}

impl LoadBalancer for RandomLb {
    /// Some backend that is up, where there is one.
    open spec fn picks(
        before: (),
        es: Entries,
        ctx: LbContextView,
        after: (),
        r: Option<int>,
    ) -> bool {
        match r {
            Some(i) => upstream::healthy(es, i),
            None => healthy_list(es).len() == 0,
        }
    }

    fn select(&mut self, pool: &UpstreamPool, ctx: &LbContext) -> (r: Option<usize>) {
        let v = healthy_indices(pool);
        let r = choose_one(&v);
        proof {
            lemma_healthy_from(upstream::entries(pool.deep_view()), 0);
            if let Some(i) = r {
                let k = choose|k: int| 0 <= k < v@.len() && v@[k] == i;
                assert(numbers(v@)[k] == i);
            }
        }
        r
    }
}

/// Takes two backends that are up at random and picks the one with fewer
/// connections.
#[derive(Debug, PartialEq, Eq)]
pub struct TwoRandomChoicesLb;

impl DeepView for TwoRandomChoicesLb {
    type V = ();

    open spec fn deep_view(&self) -> () {
        ()
    }
}

impl TwoRandomChoicesLb {
    pub fn new() -> (r: TwoRandomChoicesLb)
        ensures
            r.deep_view() == (),
    {
        TwoRandomChoicesLb
    }
}

/// The pick among the two places of the list: the one with fewer connections, the
/// first where they have as many.
pub open spec fn lighter(es: Entries, a: int, b: int) -> int {
    if es[a].active_conns <= es[b].active_conns {
        a
    } else {
        b
    }
}

impl LoadBalancer for TwoRandomChoicesLb {
    /// Nothing where no backend is up, the only one where one is, and otherwise the
    /// lighter one of two of them.
    open spec fn picks(
        before: (),
        es: Entries,
        ctx: LbContextView,
        after: (),
        r: Option<int>,
    ) -> bool {
        let l = healthy_list(es);
        if l.len() == 0 {
            r is None
        } else if l.len() == 1 {
            r == Some(l[0])
        } else {
            exists|i: int, j: int|
                0 <= i < l.len() && 0 <= j < l.len() && i != j && r == Some(
                    lighter(es, #[trigger] l[i], #[trigger] l[j]),
                )
        }
    }

    fn select(&mut self, pool: &UpstreamPool, ctx: &LbContext) -> (r: Option<usize>) {
        let ghost es = upstream::entries(pool.deep_view());
        let v = healthy_indices(pool);
        let ghost l = healthy_list(es);
        proof {
            lemma_healthy_from(es, 0);
            assert(forall|k: int| 0 <= k < v@.len() ==> l[k] == #[trigger] v@[k]);
        }
        if v.len() == 0 {
            return None;
        }
        if v.len() == 1 {
            assert(l[0] == v@[0]);
            return Some(v[0]);
        }
        let two = choose_two(&v);
        let (a, b) = (two[0], two[1]);
        proof {
            let (i, j) = choose|i: int, j: int|
                0 <= i < v@.len() && 0 <= j < v@.len() && i != j && v@[i] == two@[0] && v@[j]
                    == two@[1];
            assert(l[i] == a && l[j] == b);
        }
        if pool.conn_count(a) <= pool.conn_count(b) {
            Some(a)
        } else {
            Some(b)
        }
    }
}

// ---------------------------------------------------------------------------
// Weights
// ---------------------------------------------------------------------------

/// The weight of a backend and what it has gathered. The numbers are wide enough for
/// any weights of any number of backends.
#[derive(Clone, Copy, Debug, PartialEq, Eq, Structural)]
pub struct WrrEntry {
    pub effective_weight: i128,
    pub current_weight: i128,
}

impl DeepView for WrrEntry {
    type V = WrrEntry;

    open spec fn deep_view(&self) -> WrrEntry {
        *self
    }
}

/// Picks backends in turn, each as often as its weight says and evenly spread.
///
/// Every round each backend that is up gathers its weight; the one that has
/// gathered most is picked and pays the sum of the weights. What this comes to in the
/// long run is [`crate::proxy::turns::lemma_picked_by_weight`].
#[derive(Debug, PartialEq, Eq)]
pub struct WeightedRoundRobinLb {
    state: Vec<WrrEntry>,
}

impl DeepView for WeightedRoundRobinLb {
    type V = Seq<WrrEntry>;

    closed spec fn deep_view(&self) -> Seq<WrrEntry> {
        self.state@
    }
}

/// The entries at the start.
pub open spec fn weighted_start(weights: Seq<u32>) -> Seq<WrrEntry> {
    Seq::new(
        weights.len(),
        |i: int| WrrEntry { effective_weight: weights[i] as i128, current_weight: 0 },
    )
}

/// An entry that has gathered its weight.
pub open spec fn gathered(e: WrrEntry) -> WrrEntry {
    WrrEntry { current_weight: e.current_weight.wrapping_add(e.effective_weight), ..e }
}

/// The entries after those that are up have gathered their weight.
pub open spec fn all_gathered(w: Seq<WrrEntry>, es: Entries) -> Seq<WrrEntry> {
    Seq::new(
        w.len(),
        |i: int|
            if upstream::healthy(es, i) {
                gathered(w[i])
            } else {
                w[i]
            },
    )
}

/// The sum of the weights of the first `n` entries that are up.
pub open spec fn total_weight(w: Seq<WrrEntry>, es: Entries, n: int) -> i128
    decreases n,
{
    if n <= 0 || n > w.len() {
        0
    } else if upstream::healthy(es, n - 1) {
        total_weight(w, es, n - 1).wrapping_add(w[n - 1].effective_weight)
    } else {
        total_weight(w, es, n - 1)
    }
}

/// The first of the first `n` entries that are up and have gathered most.
pub open spec fn heaviest(w: Seq<WrrEntry>, es: Entries, n: int) -> Option<int>
    decreases n,
{
    if n <= 0 || n > w.len() {
        None
    } else {
        let before = heaviest(w, es, n - 1);
        let most = match before {
            Some(i) => gathered(w[i]).current_weight,
            None => i128::MIN,
        };
        if upstream::healthy(es, n - 1) && gathered(w[n - 1]).current_weight > most {
            Some(n - 1)
        } else {
            before
        }
    }
}

/// The entries and the pick after a selection.
pub open spec fn weighted_pick(w: Seq<WrrEntry>, es: Entries) -> (Seq<WrrEntry>, Option<int>) {
    let n = w.len() as int;
    let g = all_gathered(w, es);
    match heaviest(w, es, n) {
        Some(i) => (
            g.update(
                i,
                WrrEntry {
                    current_weight: g[i].current_weight.wrapping_sub(total_weight(w, es, n)),
                    ..g[i]
                },
            ),
            Some(i),
        ),
        None => (g, None),
    }
}

impl WeightedRoundRobinLb {
    /// A strategy for backends of the weights.
    pub fn new(weights: &[u32]) -> (r: WeightedRoundRobinLb)
        ensures
            r.deep_view() == weighted_start(weights@),
    {
        let mut state: Vec<WrrEntry> = Vec::new();
        for i in 0..weights.len()
            invariant
                state@ =~= weighted_start(weights@).take(i as int),
        {
            state.push(WrrEntry { effective_weight: weights[i] as i128, current_weight: 0 });
        }
        assert(weighted_start(weights@).take(weights@.len() as int) =~= weighted_start(weights@));
        WeightedRoundRobinLb { state }
    }
}

impl LoadBalancer for WeightedRoundRobinLb {
    open spec fn picks(
        before: Seq<WrrEntry>,
        es: Entries,
        ctx: LbContextView,
        after: Seq<WrrEntry>,
        r: Option<int>,
    ) -> bool {
        (after, r) == weighted_pick(before, es)
    }

    fn select(&mut self, pool: &UpstreamPool, ctx: &LbContext) -> (r: Option<usize>) {
        let s = pool.snapshot();
        let ghost es = upstream::entries(pool.deep_view());
        let ghost w = self.state@;
        let n = self.state.len();
        let mut total: i128 = 0;
        let mut best: Option<usize> = None;
        let mut most: i128 = i128::MIN;
        for i in 0..n
            invariant
                es == upstream::shown(pool.deep_view(), s.deep_view()),
                n == w.len(),
                self.state@.len() == n,
                forall|k: int| 0 <= k < i ==> self.state@[k] == #[trigger] all_gathered(w, es)[k],
                forall|k: int| i <= k < n ==> self.state@[k] == #[trigger] w[k],
                total == total_weight(w, es, i as int),
                index(best) == heaviest(w, es, i as int),
                best matches Some(b) ==> b < i && most == gathered(w[b as int]).current_weight
                    && upstream::healthy(es, b as int),
                best is None ==> most == i128::MIN,
        {
            assert(self.state@[i as int] == w[i as int]);
            if s.is_healthy(pool, i) {
                let e = self.state[i];
                let current: i128 = e.current_weight.wrapping_add(e.effective_weight);
                self.state.set(
                    i,
                    WrrEntry { effective_weight: e.effective_weight, current_weight: current },
                );
                total = total.wrapping_add(e.effective_weight);
                if current > most {
                    most = current;
                    best = Some(i);
                }
            }
            assert(self.state@[i as int] == all_gathered(w, es)[i as int]);
        }
        assert(self.state@ =~= all_gathered(w, es));
        if let Some(b) = best {
            let e = self.state[b];
            self.state.set(
                b,
                WrrEntry {
                    effective_weight: e.effective_weight,
                    current_weight: e.current_weight.wrapping_sub(total),
                },
            );
        }
        best
    }
}

// ---------------------------------------------------------------------------
// Hashes
// ---------------------------------------------------------------------------

/// What the default hasher of the standard library makes of a text.
pub uninterp spec fn text_hash(s: Seq<char>) -> u64;

/// `std::hash::DefaultHasher`, made by `new`, over the text: the same text gives
/// the same number. The numbers themselves are left to the hasher.
#[verifier::external_body]
fn hash_value(value: &str) -> (h: u64)
    ensures
        h == text_hash(value@),
{
    let mut hasher = std::hash::DefaultHasher::new();
    std::hash::Hash::hash(value, &mut hasher);
    std::hash::Hasher::finish(&hasher)
}

/// The backend that a hash stands for among those that are up.
pub open spec fn hash_pick(es: Entries, hash: u64) -> Option<int> {
    let l = healthy_list(es);
    if l.len() == 0 {
        None
    } else {
        Some(l[hash as usize as int % l.len() as int])
    }
}

/// The backend that a hash stands for among those that are up.
pub fn pick_by_hash(pool: &UpstreamPool, hash: u64) -> (r: Option<usize>)
    ensures
        index(r) == hash_pick(upstream::entries(pool.deep_view()), hash),
        r matches Some(i) ==> upstream::healthy(upstream::entries(pool.deep_view()), i as int),
{
    let v = healthy_indices(pool);
    if v.len() == 0 {
        return None;
    }
    let k: usize = hash as usize % v.len();
    proof {
        lemma_healthy_from(upstream::entries(pool.deep_view()), 0);
        assert(numbers(v@)[k as int] == v@[k as int]);
    }
    Some(v[k])
}

/// Picks by the address of the client.
#[derive(Debug, PartialEq, Eq)]
pub struct IpHashLb;

impl DeepView for IpHashLb {
    type V = ();

    open spec fn deep_view(&self) -> () {
        ()
    }
}

impl IpHashLb {
    pub fn new() -> (r: IpHashLb)
        ensures
            r.deep_view() == (),
    {
        IpHashLb
    }
}

impl LoadBalancer for IpHashLb {
    open spec fn picks(
        before: (),
        es: Entries,
        ctx: LbContextView,
        after: (),
        r: Option<int>,
    ) -> bool {
        r == hash_pick(es, text_hash(ctx.client.ip_text))
    }

    fn select(&mut self, pool: &UpstreamPool, ctx: &LbContext) -> (r: Option<usize>) {
        pick_by_hash(pool, hash_value(ctx.client.ip_text.as_str()))
    }
}

/// Picks by the path that is asked for, so that requests for the same path go to the
/// same backend, whatever their query.
#[derive(Debug, PartialEq, Eq)]
pub struct UriHashLb;

impl DeepView for UriHashLb {
    type V = ();

    open spec fn deep_view(&self) -> () {
        ()
    }
}

impl UriHashLb {
    pub fn new() -> (r: UriHashLb)
        ensures
            r.deep_view() == (),
    {
        UriHashLb
    }
}

impl LoadBalancer for UriHashLb {
    open spec fn picks(
        before: (),
        es: Entries,
        ctx: LbContextView,
        after: (),
        r: Option<int>,
    ) -> bool {
        r == hash_pick(es, text_hash(text::before(ctx.uri, '?')))
    }

    fn select(&mut self, pool: &UpstreamPool, ctx: &LbContext) -> (r: Option<usize>) {
        let path = text::before_char(ctx.uri.as_str(), '?');
        pick_by_hash(pool, hash_value(path.as_str()))
    }
}

/// Requests for the same path go to the same backend as long as the same backends are
/// up, whatever else the requests hold.
pub proof fn lemma_same_path(
    es: Entries,
    a: LbContextView,
    b: LbContextView,
    r: Option<int>,
    q: Option<int>,
)
    requires
        text::before(a.uri, '?') == text::before(b.uri, '?'),
        UriHashLb::picks((), es, a, (), r),
        UriHashLb::picks((), es, b, (), q),
    ensures
        r == q,
{
}

/// Picks by a field of the request.
#[derive(Debug, PartialEq, Eq)]
pub struct HeaderHashLb {
    header_name: String,
}

impl DeepView for HeaderHashLb {
    type V = Seq<char>;

    closed spec fn deep_view(&self) -> Seq<char> {
        self.header_name@
    }
}

impl HeaderHashLb {
    pub fn new(header_name: String) -> (r: HeaderHashLb)
        ensures
            r.deep_view() == header_name@,
    {
        HeaderHashLb { header_name }
    }
}

impl LoadBalancer for HeaderHashLb {
    open spec fn picks(
        before: Seq<char>,
        es: Entries,
        ctx: LbContextView,
        after: Seq<char>,
        r: Option<int>,
    ) -> bool {
        after == before && r == hash_pick(
            es,
            text_hash(message::field_or(ctx.headers, before, ""@)),
        )
    }

    fn select(&mut self, pool: &UpstreamPool, ctx: &LbContext) -> (r: Option<usize>) {
        let value = ctx.headers.text_or(self.header_name.as_str(), "");
        pick_by_hash(pool, hash_value(value.as_str()))
    }
}

/// Picks by a cookie of the request.
#[derive(Debug, PartialEq, Eq)]
pub struct CookieHashLb {
    cookie_name: String,
}

impl DeepView for CookieHashLb {
    type V = Seq<char>;

    closed spec fn deep_view(&self) -> Seq<char> {
        self.cookie_name@
    }
}

impl CookieHashLb {
    pub fn new(cookie_name: String) -> (r: CookieHashLb)
        ensures
            r.deep_view() == cookie_name@,
    {
        CookieHashLb { cookie_name }
    }
}

/// The value of a cookie; empty where there is none.
pub open spec fn cookie_or_empty(h: Fields, name: Seq<char>) -> Seq<char> {
    match matcher::cookie_of(h, name) {
        Some(v) => v,
        None => ""@,
    }
}

impl LoadBalancer for CookieHashLb {
    open spec fn picks(
        before: Seq<char>,
        es: Entries,
        ctx: LbContextView,
        after: Seq<char>,
        r: Option<int>,
    ) -> bool {
        after == before && r == hash_pick(es, text_hash(cookie_or_empty(ctx.headers, before)))
    }

    fn select(&mut self, pool: &UpstreamPool, ctx: &LbContext) -> (r: Option<usize>) {
        let value = match extract_cookie(&ctx.headers, self.cookie_name.as_str()) {
            Some(v) => v,
            None => "".to_owned(),
        };
        pick_by_hash(pool, hash_value(value.as_str()))
    }
}

// ---------------------------------------------------------------------------
// Connections and order
// ---------------------------------------------------------------------------

/// Picks the backend with the fewest connections.
#[derive(Debug, PartialEq, Eq)]
pub struct LeastConnLb;

impl DeepView for LeastConnLb {
    type V = ();

    open spec fn deep_view(&self) -> () {
        ()
    }
}

impl LeastConnLb {
    pub fn new() -> (r: LeastConnLb)
        ensures
            r.deep_view() == (),
    {
        LeastConnLb
    }
}

impl LoadBalancer for LeastConnLb {
    /// The first of the backends that are up and have the fewest connections. One
    /// with the greatest number of connections that can be counted is never picked.
    open spec fn picks(
        before: (),
        es: Entries,
        ctx: LbContextView,
        after: (),
        r: Option<int>,
    ) -> bool {
        match r {
            Some(i) => {
                &&& upstream::healthy(es, i)
                &&& es[i].active_conns < usize::MAX
                &&& forall|j: int| #[trigger]
                    upstream::healthy(es, j) ==> if j < i {
                        es[i].active_conns < es[j].active_conns
                    } else {
                        es[i].active_conns <= es[j].active_conns
                    }
            },
            None => forall|j: int| #[trigger]
                upstream::healthy(es, j) ==> es[j].active_conns == usize::MAX,
        }
    }

    fn select(&mut self, pool: &UpstreamPool, ctx: &LbContext) -> (r: Option<usize>) {
        let s = pool.snapshot();
        let ghost es = upstream::entries(pool.deep_view());
        let mut best: Option<usize> = None;
        let mut fewest: usize = usize::MAX;
        let n = s.len();
        for i in 0..n
            invariant
                n == es.len(),
                es == upstream::shown(pool.deep_view(), s.deep_view()),
                best matches Some(b) ==> b < i && upstream::healthy(es, b as int) && fewest
                    == es[b as int].active_conns && fewest < usize::MAX,
                best is None ==> fewest == usize::MAX,
                forall|j: int|
                    j < i && #[trigger] upstream::healthy(es, j) ==> match best {
                        Some(b) => if j < b {
                            fewest < es[j].active_conns
                        } else {
                            fewest <= es[j].active_conns
                        },
                        None => es[j].active_conns == usize::MAX,
                    },
        {
            if s.is_healthy(pool, i) {
                let count: usize = s.conn_count(pool, i);
                if count < fewest {
                    fewest = count;
                    best = Some(i);
                }
            }
        }
        best
    }
}

/// Picks the first backend that is up.
#[derive(Debug, PartialEq, Eq)]
pub struct FirstLb;

impl DeepView for FirstLb {
    type V = ();

    open spec fn deep_view(&self) -> () {
        ()
    }
}

impl FirstLb {
    pub fn new() -> (r: FirstLb)
        ensures
            r.deep_view() == (),
    {
        FirstLb
    }
}

impl LoadBalancer for FirstLb {
    /// The first backend that is up.
    open spec fn picks(
        before: (),
        es: Entries,
        ctx: LbContextView,
        after: (),
        r: Option<int>,
    ) -> bool {
        match r {
            Some(i) => upstream::healthy(es, i) && forall|j: int| #[trigger]
                upstream::healthy(es, j) ==> i <= j,
            None => forall|j: int| !#[trigger] upstream::healthy(es, j),
        }
    }

    fn select(&mut self, pool: &UpstreamPool, ctx: &LbContext) -> (r: Option<usize>) {
        let s = pool.snapshot();
        let ghost es = upstream::entries(pool.deep_view());
        let n = s.len();
        for i in 0..n
            invariant
                n == es.len(),
                es == upstream::shown(pool.deep_view(), s.deep_view()),
                es == upstream::entries(pool.deep_view()),
                forall|j: int| j < i ==> !#[trigger] upstream::healthy(es, j),
        {
            if s.is_healthy(pool, i) {
                return Some(i);
            }
        }
        None
    }
}

// ---------------------------------------------------------------------------
// Any of them
// ---------------------------------------------------------------------------

/// The plain values of a [`Balancer`].
#[verifier::ext_equal]
pub enum BalancerView {
    RoundRobin(usize),
    Random,
    WeightedRoundRobin(Seq<WrrEntry>),
    IpHash,
    LeastConn,
    UriHash,
    HeaderHash(Seq<char>),
    CookieHash(Seq<char>),
    First,
    TwoRandomChoices,
}

/// One of the strategies.
pub enum Balancer {
    RoundRobin(RoundRobinLb),
    Random(RandomLb),
    WeightedRoundRobin(WeightedRoundRobinLb),
    IpHash(IpHashLb),
    LeastConn(LeastConnLb),
    UriHash(UriHashLb),
    HeaderHash(HeaderHashLb),
    CookieHash(CookieHashLb),
    First(FirstLb),
    TwoRandomChoices(TwoRandomChoicesLb),
}

impl DeepView for Balancer {
    type V = BalancerView;

    open spec fn deep_view(&self) -> BalancerView {
        match self {
            Balancer::RoundRobin(b) => BalancerView::RoundRobin(b.deep_view()),
            Balancer::Random(_) => BalancerView::Random,
            Balancer::WeightedRoundRobin(b) => BalancerView::WeightedRoundRobin(b.deep_view()),
            Balancer::IpHash(_) => BalancerView::IpHash,
            Balancer::LeastConn(_) => BalancerView::LeastConn,
            Balancer::UriHash(_) => BalancerView::UriHash,
            Balancer::HeaderHash(b) => BalancerView::HeaderHash(b.deep_view()),
            Balancer::CookieHash(b) => BalancerView::CookieHash(b.deep_view()),
            Balancer::First(_) => BalancerView::First,
            Balancer::TwoRandomChoices(_) => BalancerView::TwoRandomChoices,
        }
    }
}

impl LoadBalancer for Balancer {
    /// What the strategy that it is may do.
    open spec fn picks(
        before: BalancerView,
        es: Entries,
        ctx: LbContextView,
        after: BalancerView,
        r: Option<int>,
    ) -> bool {
        match (before, after) {
            (BalancerView::RoundRobin(a), BalancerView::RoundRobin(b)) => RoundRobinLb::picks(
                a,
                es,
                ctx,
                b,
                r,
            ),
            (BalancerView::Random, BalancerView::Random) => RandomLb::picks((), es, ctx, (), r),
            (
                BalancerView::WeightedRoundRobin(a),
                BalancerView::WeightedRoundRobin(b),
            ) => WeightedRoundRobinLb::picks(a, es, ctx, b, r),
            (BalancerView::IpHash, BalancerView::IpHash) => IpHashLb::picks((), es, ctx, (), r),
            (BalancerView::LeastConn, BalancerView::LeastConn) => LeastConnLb::picks(
                (),
                es,
                ctx,
                (),
                r,
            ),
            (BalancerView::UriHash, BalancerView::UriHash) => UriHashLb::picks(
                (),
                es,
                ctx,
                (),
                r,
            ),
            (BalancerView::HeaderHash(a), BalancerView::HeaderHash(b)) => HeaderHashLb::picks(
                a,
                es,
                ctx,
                b,
                r,
            ),
            (BalancerView::CookieHash(a), BalancerView::CookieHash(b)) => CookieHashLb::picks(
                a,
                es,
                ctx,
                b,
                r,
            ),
            (BalancerView::First, BalancerView::First) => FirstLb::picks((), es, ctx, (), r),
            (
                BalancerView::TwoRandomChoices,
                BalancerView::TwoRandomChoices,
            ) => TwoRandomChoicesLb::picks((), es, ctx, (), r),
            _ => false,
        }
    }

    fn select(&mut self, pool: &UpstreamPool, ctx: &LbContext) -> (r: Option<usize>) {
        match self {
            Balancer::RoundRobin(b) => b.select(pool, ctx),
            Balancer::Random(b) => b.select(pool, ctx),
            Balancer::WeightedRoundRobin(b) => b.select(pool, ctx),
            Balancer::IpHash(b) => b.select(pool, ctx),
            Balancer::LeastConn(b) => b.select(pool, ctx),
            Balancer::UriHash(b) => b.select(pool, ctx),
            Balancer::HeaderHash(b) => b.select(pool, ctx),
            Balancer::CookieHash(b) => b.select(pool, ctx),
            Balancer::First(b) => b.select(pool, ctx),
            Balancer::TwoRandomChoices(b) => b.select(pool, ctx),
        }
    }
}

/// The weights of the backends that a configuration names.
pub open spec fn weights_of(c: ProxyConfigView) -> Seq<u32> {
    Seq::new(c.upstreams.len(), |i: int| c.upstreams[i].weight)
}

/// A text, or the other one where there is none.
pub open spec fn name_or(t: Option<Seq<char>>, other: Seq<char>) -> Seq<char> {
    match t {
        Some(s) => s,
        None => other,
    }
}

/// The strategy that a configuration asks for, at its start.
pub open spec fn balancer_of(c: ProxyConfigView) -> BalancerView {
    match c.lb {
        LbPolicy::RoundRobin => BalancerView::RoundRobin(0),
        LbPolicy::Random => BalancerView::Random,
        LbPolicy::WeightedRoundRobin => BalancerView::WeightedRoundRobin(
            weighted_start(weights_of(c)),
        ),
        LbPolicy::IpHash => BalancerView::IpHash,
        LbPolicy::LeastConn => BalancerView::LeastConn,
        LbPolicy::UriHash => BalancerView::UriHash,
        LbPolicy::HeaderHash => BalancerView::HeaderHash(
            name_or(c.lb_header, "X-Forwarded-For"@),
        ),
        LbPolicy::CookieHash => BalancerView::CookieHash(name_or(c.lb_cookie, "session"@)),
        LbPolicy::First => BalancerView::First,
        LbPolicy::TwoRandomChoices => BalancerView::TwoRandomChoices,
    }
}

impl Balancer {
    /// The strategy that a configuration asks for.
    pub fn from_config(config: &ProxyConfig) -> (b: Balancer)
        ensures
            b.deep_view() == balancer_of(config.deep_view()),
    {
        match config.lb {
            LbPolicy::RoundRobin => Balancer::RoundRobin(RoundRobinLb::new()),
            LbPolicy::Random => Balancer::Random(RandomLb::new()),
            LbPolicy::WeightedRoundRobin => {
                let mut weights: Vec<u32> = Vec::new();
                for i in 0..config.upstreams.len()
                    invariant
                        weights@ =~= weights_of(config.deep_view()).take(i as int),
                {
                    assert(config.upstreams.deep_view()[i as int]
                        == config.upstreams@[i as int].deep_view());
                    weights.push(config.upstreams[i].weight);
                }
                assert(weights_of(config.deep_view()).take(weights@.len() as int) =~= weights_of(
                    config.deep_view(),
                ));
                Balancer::WeightedRoundRobin(WeightedRoundRobinLb::new(weights.as_slice()))
            },
            LbPolicy::IpHash => Balancer::IpHash(IpHashLb::new()),
            LbPolicy::LeastConn => Balancer::LeastConn(LeastConnLb::new()),
            LbPolicy::UriHash => Balancer::UriHash(UriHashLb::new()),
            LbPolicy::HeaderHash => {
                let name = match &config.lb_header {
                    Some(s) => s.clone(),
                    None => "X-Forwarded-For".to_owned(),
                };
                Balancer::HeaderHash(HeaderHashLb::new(name))
            },
            LbPolicy::CookieHash => {
                let name = match &config.lb_cookie {
                    Some(s) => s.clone(),
                    None => "session".to_owned(),
                };
                Balancer::CookieHash(CookieHashLb::new(name))
            },
            LbPolicy::First => Balancer::First(FirstLb::new()),
            LbPolicy::TwoRandomChoices => Balancer::TwoRandomChoices(TwoRandomChoicesLb::new()),
        }
    }
}

// ---------------------------------------------------------------------------
// What holds of every selection
// ---------------------------------------------------------------------------

/// The turn goes on from the backend whose turn it is to the first one that is up: those
/// that it passes are down, and the next turn is that of the one behind. None is picked
/// only where all are down.
pub proof fn lemma_round_robin_next(
    es: Entries,
    ctx: LbContextView,
    counter: usize,
    after: usize,
    r: Option<int>,
)
    requires
        counter + es.len() <= usize::MAX,
        RoundRobinLb::picks(counter, es, ctx, after, r),
    ensures
        match r {
            Some(i) => exists|k: int|
                0 <= k < es.len() && i == #[trigger] ((counter + k) % es.len() as int)
                    && es[i].healthy && after == counter + k + 1 && forall|j: int|
                    0 <= j < k ==> !es[#[trigger] ((counter + j) % es.len() as int)].healthy,
            None => forall|i: int| 0 <= i < es.len() ==> !(#[trigger] es[i]).healthy,
        },
{
    lemma_turns(es, counter, counter, es.len());
    if r is None {
        assert forall|i: int| 0 <= i < es.len() implies !(#[trigger] es[i]).healthy by {
            let n = es.len() as int;
            let j = (i - counter as int) % n;
            assert((counter + j) % n == i) by {
                vstd::arithmetic::div_mod::lemma_add_mod_noop_right(
                    counter as int,
                    i - counter as int,
                    n,
                );
                vstd::arithmetic::div_mod::lemma_small_mod(i as nat, n as nat);
            }
        }
    }
}

/// What is known of the turns that were passed.
proof fn lemma_turns(es: Entries, start: usize, counter: usize, tries: nat)
    requires
        start <= counter,
        counter - start + tries == es.len(),
        start + es.len() <= usize::MAX,
        forall|j: int|
            0 <= j < counter - start ==> !es[#[trigger] ((start + j) % es.len() as int)].healthy,
    ensures
        match round_robin(es, counter, tries).1 {
            Some(i) => exists|k: int|
                0 <= k < es.len() && i == #[trigger] ((start + k) % es.len() as int)
                    && es[i].healthy && round_robin(es, counter, tries).0 == start + k + 1
                    && forall|j: int|
                    0 <= j < k ==> !es[#[trigger] ((start + j) % es.len() as int)].healthy,
            None => forall|j: int|
                0 <= j < es.len() ==> !es[#[trigger] ((start + j) % es.len() as int)].healthy,
        },
    decreases tries,
{
    if tries > 0 && es.len() > 0 {
        let k = counter - start;
        let i = counter as int % es.len() as int;
        assert(start + k == counter);
        assert(i == (start + k) % es.len() as int);
        if !es[i].healthy {
            lemma_turns(es, start, (counter + 1) as usize, (tries - 1) as nat);
        }
    }
}

/// With two backends up, two turns in a row do not go to the same one.
pub proof fn lemma_turns_alternate(
    es: Entries,
    ctx: LbContextView,
    a: usize,
    b: usize,
    c: usize,
    first: Option<int>,
    second: Option<int>,
    x: int,
    y: int,
)
    requires
        a + 2 * es.len() <= usize::MAX,
        upstream::healthy(es, x),
        upstream::healthy(es, y),
        x != y,
        RoundRobinLb::picks(a, es, ctx, b, first),
        RoundRobinLb::picks(b, es, ctx, c, second),
    ensures
        first is Some,
        second is Some,
        first != second,
{
    let n = es.len() as int;
    lemma_round_robin_next(es, ctx, a, b, first);
    assert(es[x].healthy && es[y].healthy);
    let k = choose|k: int|
        0 <= k < n && first->0 == #[trigger] ((a + k) % n) && es[first->0].healthy && b == a + k
            + 1 && forall|j: int| 0 <= j < k ==> !es[#[trigger] ((a + j) % n)].healthy;
    lemma_round_robin_next(es, ctx, b, c, second);
    let m = choose|m: int|
        0 <= m < n && second->0 == #[trigger] ((b + m) % n) && es[second->0].healthy && c == b + m
            + 1 && forall|j: int| 0 <= j < m ==> !es[#[trigger] ((b + j) % n)].healthy;
    if first == second {
        let d = m + 1;
        assert((a + k) % n == (a + k + d) % n);
        assert(d % n == 0) by {
            vstd::arithmetic::div_mod::lemma_sub_mod_noop(a + k + d, a + k, n);
            assert(((a + k + d) % n - (a + k) % n) % n == (a + k + d - (a + k)) % n);
            vstd::arithmetic::div_mod::lemma_small_mod(0, n as nat);
        }
        assert(d == n) by {
            if d < n {
                vstd::arithmetic::div_mod::lemma_small_mod(d as nat, n as nat);
            }
        }
        let other = if x == first->0 {
            y
        } else {
            x
        };
        let j = (other - b) % n;
        assert((b + j) % n == other) by {
            vstd::arithmetic::div_mod::lemma_add_mod_noop_right(b as int, other - b, n);
            vstd::arithmetic::div_mod::lemma_small_mod(other as nat, n as nat);
        }
        if j == m {
            assert(other == second->0);
        }
        assert(j < m);
        assert(!es[(b + j) % n].healthy);
    }
}

/// Whatever the strategy, what is picked is up; and unless the strategy goes by weights
/// or by the number of connections, one is picked wherever one is up.
pub proof fn lemma_picked_is_up(
    before: BalancerView,
    es: Entries,
    ctx: LbContextView,
    after: BalancerView,
    r: Option<int>,
    up: int,
)
    requires
        Balancer::picks(before, es, ctx, after, r),
        before matches BalancerView::RoundRobin(c) ==> c + es.len() <= usize::MAX,
        upstream::healthy(es, up),
    ensures
        r matches Some(i) ==> upstream::healthy(es, i),
        !(before is WeightedRoundRobin) && !(before is LeastConn) ==> r is Some,
        before is LeastConn && es[up].active_conns < usize::MAX ==> r is Some,
{
    lemma_healthy_from(es, 0);
    let l = healthy_list(es);
    assert(l.contains(up));
    match (before, after) {
        (BalancerView::RoundRobin(a), BalancerView::RoundRobin(b)) => {
            lemma_round_robin_next(es, ctx, a, b, r);
            assert(es[up].healthy);
        },
        (BalancerView::WeightedRoundRobin(a), _) => {
            lemma_heaviest_up(a, es, a.len() as int);
        },
        (BalancerView::TwoRandomChoices, _) => {
            if l.len() > 1 {
                let (i, j) = choose|i: int, j: int|
                    0 <= i < l.len() && 0 <= j < l.len() && i != j && r == Some(
                        lighter(es, #[trigger] l[i], #[trigger] l[j]),
                    );
                assert(upstream::healthy(es, l[i]) && upstream::healthy(es, l[j]));
            }
        },
        _ => {},
    }
    if l.len() > 0 {
        assert forall|h: u64| upstream::healthy(es, #[trigger] hash_pick(es, h)->0) by {
            let k = h as usize as int % l.len() as int;
            assert(0 <= k < l.len());
            assert(upstream::healthy(es, l[k]));
        }
    }
}

/// The heaviest entry is up.
proof fn lemma_heaviest_up(w: Seq<WrrEntry>, es: Entries, n: int)
    ensures
        heaviest(w, es, n) matches Some(i) ==> upstream::healthy(es, i),
    decreases n,
{
    if 0 < n <= w.len() {
        lemma_heaviest_up(w, es, n - 1);
    }
}

/// Strategies that go by the client, a field or a cookie send what is the same in this
/// respect to the same backend as long as the same backends are up.
pub proof fn lemma_same_client_same_backend(
    before: BalancerView,
    es: Entries,
    a: LbContextView,
    b: LbContextView,
    after: BalancerView,
    later: BalancerView,
    r: Option<int>,
    q: Option<int>,
)
    requires
        Balancer::picks(before, es, a, after, r),
        Balancer::picks(before, es, b, later, q),
        match before {
            BalancerView::IpHash => a.client.ip_text == b.client.ip_text,
            BalancerView::UriHash => text::before(a.uri, '?') == text::before(b.uri, '?'),
            BalancerView::HeaderHash(n) => message::field_of(a.headers, n) == message::field_of(
                b.headers,
                n,
            ),
            BalancerView::CookieHash(n) => matcher::cookie_of(a.headers, n) == matcher::cookie_of(
                b.headers,
                n,
            ),
            BalancerView::First => true,
            _ => false,
        },
    ensures
        r == q,
        after == before,
{
    if before is First && r is Some && q is Some {
        assert(upstream::healthy(es, r->0) && upstream::healthy(es, q->0));
    }
}

/// Hashes spread over all the backends that are up: so many hashes in a row as backends
/// are up stand for each of them once.
pub proof fn lemma_hashes_spread(es: Entries, i: int, j: int)
    requires
        0 <= i < healthy_list(es).len() <= u32::MAX,
        0 <= j < healthy_list(es).len(),
    ensures
        hash_pick(es, i as u64) == Some(healthy_list(es)[i]),
        i < j ==> hash_pick(es, i as u64)->0 < hash_pick(es, j as u64)->0,
        upstream::healthy(es, healthy_list(es)[i]),
{
    lemma_healthy_from(es, 0);
    lemma_healthy_in_order(es, 0);
    let n = healthy_list(es).len();
    vstd::arithmetic::div_mod::lemma_small_mod(i as nat, n);
    vstd::arithmetic::div_mod::lemma_small_mod(j as nat, n);
    assert(i as u64 as usize == i);
    assert(j as u64 as usize == j);
}

/// The backends that are up are listed in order.
proof fn lemma_healthy_in_order(es: Entries, i: int)
    requires
        0 <= i,
    ensures
        forall|a: int, b: int|
            0 <= a < b < healthy_from(es, i).len() ==> #[trigger] healthy_from(es, i)[a]
                < #[trigger] healthy_from(es, i)[b],
    decreases es.len() - i,
{
    if i < es.len() {
        lemma_healthy_in_order(es, i + 1);
        lemma_healthy_from(es, i + 1);
        let rest = healthy_from(es, i + 1);
        if es[i].healthy {
            let all = seq![i] + rest;
            assert forall|a: int, b: int| 0 <= a < b < all.len() implies #[trigger] all[a]
                < #[trigger] all[b] by {
                assert(all[b] == rest[b - 1]);
                if a > 0 {
                    assert(all[a] == rest[a - 1]);
                }
            }
        }
    }
}

/// The strategy that goes by connections picks none that has more of them than another
/// that is up; the one that picks the lighter of two never picks the one that has more
/// than all others; the one that takes the first never passes one that is up.
pub proof fn lemma_lightest_picked(
    before: BalancerView,
    es: Entries,
    ctx: LbContextView,
    after: BalancerView,
    i: int,
    j: int,
)
    requires
        Balancer::picks(before, es, ctx, after, Some(i)),
        upstream::healthy(es, j),
        i != j,
    ensures
        before is LeastConn ==> es[i].active_conns <= es[j].active_conns,
        before is First ==> i < j,
        before is TwoRandomChoices ==> exists|k: int|
            k != i && #[trigger] upstream::healthy(es, k) && es[i].active_conns
                <= es[k].active_conns,
{
    lemma_healthy_from(es, 0);
    lemma_healthy_in_order(es, 0);
    let l = healthy_list(es);
    if before is TwoRandomChoices {
        assert(l.contains(j));
        let y = choose|y: int| 0 <= y < l.len() && l[y] == j;
        if l.len() == 1 {
            assert(l[0] == i && l[0] == j);
        } else {
            let (a, b) = choose|a: int, b: int|
                0 <= a < l.len() && 0 <= b < l.len() && a != b && Some(i) == Some(
                    lighter(es, #[trigger] l[a], #[trigger] l[b]),
                );
            let k = if i == l[a] {
                l[b]
            } else {
                l[a]
            };
            assert(l[a] != l[b]) by {
                if a < b {
                    assert(l[a] < l[b]);
                } else {
                    assert(l[b] < l[a]);
                }
            }
            assert(upstream::healthy(es, k));
        }
    }
}

/// The backend that is picked by weight is up, none that is up has gathered more, and of those
/// with as much it is the first.
pub proof fn lemma_heaviest_picked(w: Seq<WrrEntry>, es: Entries, n: int, j: int)
    requires
        0 <= n <= w.len(),
    ensures
        heaviest(w, es, n) matches Some(i) ==> {
            &&& 0 <= i < n
            &&& upstream::healthy(es, i)
            &&& 0 <= j < n && upstream::healthy(es, j) ==> gathered(w[j]).current_weight
                <= gathered(w[i]).current_weight
            &&& 0 <= j < i && upstream::healthy(es, j) ==> gathered(w[j]).current_weight < gathered(
                w[i],
            ).current_weight
        },
        heaviest(w, es, n) is None && 0 <= j < n && upstream::healthy(es, j) ==> gathered(
            w[j],
        ).current_weight == i128::MIN,
    decreases n,
{
    if n > 0 {
        lemma_heaviest_picked(w, es, n - 1, j);
    }
}

} // verus!
