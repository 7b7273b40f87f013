//! Backends that are looked up while the server runs.

use vstd::prelude::*;
use crate::data::Data;
use crate::proxy::upstream::{Backend, BackendView};
use crate::ranking;
use crate::ranking::{sort, Ranked};
use crate::sorted_map;
use crate::text;
use crate::time::Duration;

verus! {

/// Which records of the name service are asked for.
#[derive(Clone, Copy, Debug, PartialEq, Eq, Structural)]
pub enum DnsRecordType {
    /// Addresses. The port comes from the configuration.
    A,
    /// Services. The port comes from the record.
    SRV,
}

/// Where backends are looked up.
#[derive(Debug, PartialEq, Eq)]
pub struct DynamicUpstreamConfig {
    /// The name, such as `app.svc.cluster.local`.
    pub dns_name: String,
    /// The port that goes with each address.
    pub port: u16,
    /// How often the name is looked up.
    pub refresh_interval: Duration,
}

/// The backends that the last lookup gave.
#[derive(Debug, PartialEq, Eq)]
pub struct DynamicBackends {
    inner: Vec<Backend>,
}

impl DeepView for DynamicBackends {
    type V = Seq<BackendView>;

    closed spec fn deep_view(&self) -> Seq<BackendView> {
        self.inner.deep_view()
    }
}

impl Default for DynamicBackends {
    fn default() -> (r: DynamicBackends)
        ensures
            r.deep_view() == Seq::<BackendView>::empty(),
    {
        DynamicBackends::new()
    }
}

impl DynamicBackends {
    /// No backends.
    pub fn new() -> (r: DynamicBackends)
        ensures
            r.deep_view() == Seq::<BackendView>::empty(),
    {
        let inner: Vec<Backend> = Vec::new();
        assert(inner.deep_view() =~= seq![]);
        DynamicBackends { inner }
    }

    /// The backends.
    pub fn load(&self) -> (r: &Vec<Backend>)
        ensures
            r.deep_view() == self.deep_view(),
    {
        &self.inner
    }

    /// Replaces the backends.
    pub fn store(&mut self, backends: Vec<Backend>)
        ensures
            final(self).deep_view() == backends.deep_view(),
    {
        self.inner = backends;
    }
}

// ---------------------------------------------------------------------------
// What a lookup brings
// ---------------------------------------------------------------------------

impl Ranked for Backend {
    open spec fn precedes(a: BackendView, b: BackendView) -> bool {
        sorted_map::text_before(a.addr, b.addr)
    }

    fn goes_before(&self, other: &Backend) -> (r: bool) {
        sorted_map::comes_before(self.addr.as_str(), other.addr.as_str())
    }
}

/// The backends without those that have the address of the one before them.
pub open spec fn without_repeats(bs: Seq<BackendView>) -> Seq<BackendView>
    decreases bs.len(),
{
    if bs.len() == 0 {
        seq![]
    } else {
        let before = without_repeats(bs.drop_last());
        if before.len() > 0 && before.last().addr == bs.last().addr {
            before
        } else {
            before.push(bs.last())
        }
    }
}

/// Backends in the order of their addresses, each address once.
pub open spec fn settled(bs: Seq<BackendView>) -> Seq<BackendView> {
    without_repeats(ranking::sorted::<Backend>(bs))
}

/// Puts backends in the order of their addresses, each address once.
pub fn settle(bs: &Vec<Backend>) -> (r: Vec<Backend>)
    ensures
        r.deep_view() == settled(bs.deep_view()),
{
    let s = sort(bs);
    let ghost all = s.deep_view();
    let mut out: Vec<Backend> = Vec::new();
    assert(all.take(0) =~= seq![]);
    assert(out.deep_view() =~= seq![]);
    for i in 0..s.len()
        invariant
            all == s.deep_view(),
            out.deep_view() == without_repeats(all.take(i as int)),
    {
        assert(all.take(i + 1).drop_last() =~= all.take(i as int));
        assert(all[i as int] == s@[i as int].deep_view());
        let n = out.len();
        if n > 0 {
            assert(out.deep_view().last() == out@[n - 1].deep_view());
        }
        if n == 0 || !text::same(out[n - 1].addr.as_str(), s[i].addr.as_str()) {
            let ghost prev = out.deep_view();
            let b = s[i].duplicate();
            out.push(b);
            assert(out.deep_view() =~= prev.push(b.deep_view()));
        }
    }
    assert(all.take(all.len() as int) =~= all);
    out
}

/// The backends at the addresses, each of weight one.
pub open spec fn plain_backends(addrs: Seq<Seq<char>>) -> Seq<BackendView> {
    Seq::new(
        addrs.len(),
        |i: int| BackendView { addr: addrs[i], weight: 1, activity_key: None },
    )
}

/// What the addresses that a name stands for become: none where there are none, so
/// that the backends of an earlier lookup stay.
pub open spec fn resolved(addrs: Seq<Seq<char>>) -> Option<Seq<BackendView>> {
    let bs = settled(plain_backends(addrs));
    if bs.len() == 0 {
        None
    } else {
        Some(bs)
    }
}

/// The text that is looked up for a name and a port.
pub fn lookup_target(dns_name: &str, port: u16) -> (r: String)
    ensures
        r@ == dns_name@ + ":"@ + text::decimal(port as nat),
{
    text::join3(dns_name, ":", text::number_text(port as u128).as_str())
}

/// Takes over the addresses that a lookup gave. Where it gave none, or failed, the
/// backends stay as they are. Tells whether they were replaced.
pub fn resolve_and_update(found: Option<&Vec<String>>, backends: &mut DynamicBackends) -> (r: bool)
    ensures
        match found {
            Some(addrs) => match resolved(addrs.deep_view()) {
                Some(bs) => r && final(backends).deep_view() == bs,
                None => !r && final(backends).deep_view() == old(backends).deep_view(),
            },
            None => !r && final(backends).deep_view() == old(backends).deep_view(),
        },
{
    let addrs = match found {
        Some(a) => a,
        None => return false,
    };
    let mut bs: Vec<Backend> = Vec::new();
    for i in 0..addrs.len()
        invariant
            bs@.len() == i,
            forall|k: int|
                0 <= k < i ==> (#[trigger] bs@[k]).deep_view() == plain_backends(
                    addrs.deep_view(),
                )[k],
    {
        assert(addrs.deep_view()[i as int] == addrs@[i as int]@);
        bs.push(Backend { addr: addrs[i].clone(), weight: 1, activity_key: None });
    }
    assert(bs.deep_view() =~= plain_backends(addrs.deep_view()));
    let s = settle(&bs);
    if s.len() == 0 {
        return false;
    }
    backends.store(s);
    true
}

/// Health marks and connection counts for so many backends: all up, with none.
pub fn build_tracking_vecs(count: usize) -> (r: (Vec<bool>, Vec<usize>))
    ensures
        r.0@ == Seq::new(count as nat, |i: int| true),
        r.1@ == Seq::new(count as nat, |i: int| 0usize),
{
    let mut healthy: Vec<bool> = Vec::new();
    let mut active_conns: Vec<usize> = Vec::new();
    for i in 0..count
        invariant
            healthy@ =~= Seq::new(i as nat, |k: int| true),
            active_conns@ =~= Seq::new(i as nat, |k: int| 0usize),
    {
        healthy.push(true);
        active_conns.push(0);
    }
    (healthy, active_conns)
}

// ---------------------------------------------------------------------------
// What settling comes to
// ---------------------------------------------------------------------------

/// Some backend has the address.
pub open spec fn at_address(bs: Seq<BackendView>, addr: Seq<char>) -> bool {
    exists|i: int| 0 <= i < bs.len() && (#[trigger] bs[i]).addr == addr
}

/// The addresses ascend; none comes twice.
pub open spec fn addresses_ascend(bs: Seq<BackendView>) -> bool {
    forall|i: int, j: int|
        0 <= i < j < bs.len() ==> sorted_map::text_before(
            (#[trigger] bs[i]).addr,
            (#[trigger] bs[j]).addr,
        )
}

proof fn lemma_without_repeats(bs: Seq<BackendView>)
    requires
        forall|i: int, j: int|
            0 <= i < j < bs.len() ==> !sorted_map::text_before(
                (#[trigger] bs[j]).addr,
                (#[trigger] bs[i]).addr,
            ),
    ensures
        addresses_ascend(without_repeats(bs)),
        forall|a: Seq<char>| at_address(without_repeats(bs), a) <==> #[trigger] at_address(bs, a),
        bs.len() > 0 ==> without_repeats(bs).len() > 0 && without_repeats(bs).last().addr
            == bs.last().addr,
    decreases bs.len(),
{
    let r = without_repeats(bs);
    if bs.len() > 0 {
        let d = bs.drop_last();
        let before = without_repeats(d);
        assert forall|i: int, j: int| 0 <= i < j < d.len() implies !sorted_map::text_before(
            (#[trigger] d[j]).addr,
            (#[trigger] d[i]).addr,
        ) by {
            assert(d[i] == bs[i] && d[j] == bs[j]);
        }
        lemma_without_repeats(d);
        let x = bs.last();
        if before.len() > 0 && before.last().addr != x.addr {
            assert(d.len() > 0);
            let y = d.last();
            assert(y == bs[bs.len() - 2]);
            assert(!sorted_map::text_before(x.addr, y.addr));
            sorted_map::lemma_text_before_total(x.addr, y.addr);
            assert forall|i: int, j: int| 0 <= i < j < r.len() implies sorted_map::text_before(
                (#[trigger] r[i]).addr,
                (#[trigger] r[j]).addr,
            ) by {
                if j == before.len() {
                    if i < before.len() - 1 {
                        assert(sorted_map::text_before(before[i].addr, before.last().addr));
                        sorted_map::lemma_text_before_transitive(r[i].addr, y.addr, x.addr);
                    }
                } else {
                    assert(r[i] == before[i] && r[j] == before[j]);
                }
            }
        }
        assert forall|a: Seq<char>| at_address(r, a) <==> #[trigger] at_address(bs, a) by {
            assert(at_address(before, a) <==> at_address(d, a));
            if at_address(bs, a) {
                let i = choose|i: int| 0 <= i < bs.len() && (#[trigger] bs[i]).addr == a;
                if i < d.len() {
                    assert(d[i].addr == a);
                    let k = choose|k: int| 0 <= k < before.len() && (#[trigger] before[k]).addr == a;
                    assert(r[k].addr == a);
                } else {
                    assert(r.last().addr == a);
                    assert(r[r.len() - 1].addr == a);
                }
            }
            if at_address(r, a) {
                let k = choose|k: int| 0 <= k < r.len() && (#[trigger] r[k]).addr == a;
                if k < before.len() {
                    assert(before[k].addr == a);
                    let i = choose|i: int| 0 <= i < d.len() && (#[trigger] d[i]).addr == a;
                    assert(bs[i].addr == a);
                } else {
                    assert(bs[bs.len() - 1].addr == a);
                }
            }
        }
    }
}

/// The backends of a lookup come in the order of their addresses, each address once,
/// and at just the addresses that were found.
pub proof fn lemma_settled(bs: Seq<BackendView>)
    ensures
        addresses_ascend(settled(bs)),
        forall|a: Seq<char>| #[trigger] at_address(settled(bs), a) <==> at_address(bs, a),
{
    assert forall|a: BackendView, b: BackendView| #[trigger] Backend::precedes(a, b) implies
        !Backend::precedes(b, a) by {
        sorted_map::lemma_text_before_total(a.addr, b.addr);
    }
    assert forall|a: BackendView, b: BackendView, c: BackendView|
        !#[trigger] Backend::precedes(b, a) && !#[trigger] Backend::precedes(c, b) implies
        !Backend::precedes(c, a) by {
        sorted_map::lemma_text_before_total(a.addr, b.addr);
        sorted_map::lemma_text_before_total(b.addr, c.addr);
        sorted_map::lemma_text_before_total(a.addr, c.addr);
        if Backend::precedes(c, a) {
            if a.addr != b.addr && b.addr != c.addr {
                sorted_map::lemma_text_before_transitive(a.addr, b.addr, c.addr);
            }
        }
    }
    ranking::lemma_sorted_in_order::<Backend>(bs);
    let t = ranking::sorted::<Backend>(bs);
    assert forall|i: int, j: int| 0 <= i < j < t.len() implies !sorted_map::text_before(
        (#[trigger] t[j]).addr,
        (#[trigger] t[i]).addr,
    ) by {
        assert(!Backend::precedes(t[j], t[i]));
    }
    lemma_without_repeats(t);
    ranking::lemma_sorted_keeps::<Backend>(bs);
    assert forall|a: Seq<char>| #[trigger] at_address(settled(bs), a) <==> at_address(bs, a) by {
        broadcast use vstd::seq_lib::group_to_multiset_ensures;

        assert(at_address(settled(bs), a) <==> at_address(t, a));
        if at_address(t, a) {
            let i = choose|i: int| 0 <= i < t.len() && (#[trigger] t[i]).addr == a;
            assert(t.contains(t[i]));
            assert(bs.to_multiset().count(t[i]) > 0);
            assert(bs.contains(t[i]));
        }
        if at_address(bs, a) {
            let i = choose|i: int| 0 <= i < bs.len() && (#[trigger] bs[i]).addr == a;
            assert(bs.contains(bs[i]));
            assert(t.to_multiset().count(bs[i]) > 0);
            assert(t.contains(bs[i]));
        }
    }
}

/// Every backend of a settled list is one of the list.
pub proof fn lemma_settled_from(bs: Seq<BackendView>, i: int)
    requires
        0 <= i < settled(bs).len(),
    ensures
        bs.contains(settled(bs)[i]),
{
    broadcast use vstd::seq_lib::group_to_multiset_ensures;

    let t = ranking::sorted::<Backend>(bs);
    ranking::lemma_sorted_keeps::<Backend>(bs);
    lemma_kept_from(t, i);
    let x = settled(bs)[i];
    assert(t.contains(x));
    assert(t.to_multiset().count(x) > 0);
    assert(bs.to_multiset().count(x) > 0);
}

/// What is left without repeats was there.
proof fn lemma_kept_from(bs: Seq<BackendView>, i: int)
    requires
        0 <= i < without_repeats(bs).len(),
    ensures
        bs.contains(without_repeats(bs)[i]),
    decreases bs.len(),
{
    let d = bs.drop_last();
    let before = without_repeats(d);
    let r = without_repeats(bs);
    if i < before.len() {
        lemma_kept_from(d, i);
        assert(r[i] == before[i]);
        let k = choose|k: int| 0 <= k < d.len() && d[k] == before[i];
        assert(bs[k] == r[i]);
    } else {
        assert(bs[bs.len() - 1] == r[i]);
    }
}

/// A lookup that finds addresses gives a backend at each of them and at no other, in
/// order, each once and of weight one; one that finds none changes nothing.
pub proof fn lemma_looked_up(addrs: Seq<Seq<char>>)
    ensures
        resolved(addrs) is None <==> addrs.len() == 0,
        resolved(addrs) matches Some(bs) ==> addresses_ascend(bs) && (forall|a: Seq<char>|
            #[trigger] at_address(bs, a) <==> addrs.contains(a)) && (forall|i: int|
            0 <= i < bs.len() ==> (#[trigger] bs[i]).weight == 1 && bs[i].activity_key is None),
{
    let ps = plain_backends(addrs);
    lemma_settled(ps);
    let bs = settled(ps);
    assert forall|a: Seq<char>| #[trigger] at_address(ps, a) <==> addrs.contains(a) by {
        if at_address(ps, a) {
            let i = choose|i: int| 0 <= i < ps.len() && (#[trigger] ps[i]).addr == a;
            assert(addrs[i] == a);
        }
        if addrs.contains(a) {
            let i = choose|i: int| 0 <= i < addrs.len() && addrs[i] == a;
            assert(ps[i].addr == a);
        }
    }
    assert forall|a: Seq<char>| #[trigger] at_address(bs, a) <==> addrs.contains(a) by {
        assert(at_address(bs, a) <==> at_address(ps, a));
    }
    assert forall|i: int| 0 <= i < bs.len() implies (#[trigger] bs[i]).weight == 1
        && bs[i].activity_key is None by {
        lemma_settled_from(ps, i);
        let k = choose|k: int| 0 <= k < ps.len() && ps[k] == bs[i];
    }
    if addrs.len() > 0 {
        assert(addrs.contains(addrs[0]));
        assert(at_address(bs, addrs[0]));
    }
    if bs.len() > 0 {
        assert(at_address(bs, bs[0].addr));
    }
}

} // verus!
