//! Backends that are looked up as records of a service.

use vstd::prelude::*;
use crate::proxy::dns_upstream;
use crate::proxy::dns_upstream::{settle, DynamicBackends};
use crate::proxy::upstream::{Backend, BackendView};
use crate::text;

verus! {

/// The backends that the last lookup of a service gave.
pub type SrvBackends = DynamicBackends;

/// The plain values of an [`SrvRecord`].
#[verifier::ext_equal]
pub struct SrvRecordView {
    pub target: Seq<char>,
    pub port: u16,
    pub priority: u16,
    pub weight: u16,
}

/// A record of a service.
#[derive(Debug, PartialEq, Eq)]
pub struct SrvRecord {
    /// The name of the host, which may end in a dot.
    pub target: String,
    pub port: u16,
    pub priority: u16,
    pub weight: u16,
}

impl DeepView for SrvRecord {
    type V = SrvRecordView;

    open spec fn deep_view(&self) -> SrvRecordView {
        SrvRecordView {
            target: self.target@,
            port: self.port,
            priority: self.priority,
            weight: self.weight,
        }
    }
}

/// The backend that a record stands for. It has a weight of at least one.
pub open spec fn backend_of(r: SrvRecordView) -> BackendView {
    BackendView {
        addr: text::trimmed_end(r.target, text::only('.')) + ":"@ + text::decimal(r.port as nat),
        weight: if r.weight == 0 {
            1
        } else {
            r.weight as u32
        },
        activity_key: None,
    }
}

/// The least priority number among the first `n` records.
pub open spec fn least_priority(rs: Seq<SrvRecordView>, n: int) -> u16
    decreases n,
{
    if n <= 0 || n > rs.len() {
        u16::MAX
    } else {
        let before = least_priority(rs, n - 1);
        if rs[n - 1].priority < before {
            rs[n - 1].priority
        } else {
            before
        }
    }
}

/// The backends of the records from `i` on that have the priority.
pub open spec fn preferred(rs: Seq<SrvRecordView>, priority: u16, i: int) -> Seq<BackendView>
    decreases rs.len() - i,
{
    if i < 0 || i >= rs.len() {
        seq![]
    } else if rs[i].priority == priority {
        seq![backend_of(rs[i])] + preferred(rs, priority, i + 1)
    } else {
        preferred(rs, priority, i + 1)
    }
}

/// What the records of a service become: the backends of the least priority number,
/// in the order of their addresses; none where there is no record, so that the
/// backends of an earlier lookup stay.
pub open spec fn resolved(rs: Seq<SrvRecordView>) -> Option<Seq<BackendView>> {
    let bs = dns_upstream::settled(preferred(rs, least_priority(rs, rs.len() as int), 0));
    if bs.len() == 0 {
        None
    } else {
        Some(bs)
    }
}

/// The backend that a record stands for.
fn read_record(r: &SrvRecord) -> (b: Backend)
    ensures
        b.deep_view() == backend_of(r.deep_view()),
{
    let host = text::trim_end_char(r.target.as_str(), '.');
    let addr = text::join3(host.as_str(), ":", text::number_text(r.port as u128).as_str());
    let weight: u32 = if r.weight == 0 {
        1
    } else {
        r.weight as u32
    };
    Backend { addr, weight, activity_key: None }
}

/// Takes over the records that a lookup gave. Where it gave none, or failed, the
/// backends stay as they are. Tells whether they were replaced.
pub fn resolve_and_update(found: Option<&Vec<SrvRecord>>, backends: &mut DynamicBackends) -> (r:
    bool)
    ensures
        match found {
            Some(rs) => match resolved(rs.deep_view()) {
                Some(bs) => r && final(backends).deep_view() == bs,
                None => !r && final(backends).deep_view() == old(backends).deep_view(),
            },
            None => !r && final(backends).deep_view() == old(backends).deep_view(),
        },
{
    let rs = match found {
        Some(rs) => rs,
        None => return false,
    };
    let ghost all = rs.deep_view();
    let mut least: u16 = u16::MAX;
    for i in 0..rs.len()
        invariant
            all == rs.deep_view(),
            least == least_priority(all, i as int),
    {
        assert(all[i as int] == rs@[i as int].deep_view());
        if rs[i].priority < least {
            least = rs[i].priority;
        }
    }
    let mut bs: Vec<Backend> = Vec::new();
    assert(bs.deep_view() + preferred(all, least, 0) =~= preferred(all, least, 0));
    for i in 0..rs.len()
        invariant
            all == rs.deep_view(),
            bs.deep_view() + preferred(all, least, i as int) == preferred(all, least, 0),
    {
        assert(all[i as int] == rs@[i as int].deep_view());
        if rs[i].priority == least {
            let ghost before = bs.deep_view();
            let b = read_record(&rs[i]);
            let ghost x = b.deep_view();
            bs.push(b);
            assert(bs.deep_view() =~= before.push(x));
            assert(bs.deep_view() + preferred(all, least, i + 1) =~= before + (seq![x]
                + preferred(all, least, i + 1)));
        }
    }
    assert(bs.deep_view() =~= bs.deep_view() + preferred(all, least, all.len() as int));
    let s = settle(&bs);
    if s.len() == 0 {
        return false;
    }
    backends.store(s);
    true
}

/// No record has a lesser priority number than the least, and some record has it.
proof fn lemma_least_priority(rs: Seq<SrvRecordView>, n: int)
    requires
        0 <= n <= rs.len(),
    ensures
        forall|i: int| 0 <= i < n ==> least_priority(rs, n) <= (#[trigger] rs[i]).priority,
        n > 0 ==> exists|i: int|
            0 <= i < n && (#[trigger] rs[i]).priority == least_priority(rs, n),
    decreases n,
{
    if n > 0 {
        lemma_least_priority(rs, n - 1);
        let before = least_priority(rs, n - 1);
        assert(rs[n - 1].priority == rs[n - 1].priority);
        if n > 1 && rs[n - 1].priority >= before {
            let i = choose|i: int| 0 <= i < n - 1 && (#[trigger] rs[i]).priority == before;
            assert(rs[i].priority == least_priority(rs, n));
        }
    }
}

/// The backends of a priority are those of the records that have it.
proof fn lemma_preferred(rs: Seq<SrvRecordView>, priority: u16, from: int)
    requires
        0 <= from,
    ensures
        forall|j: int|
            0 <= j < preferred(rs, priority, from).len() ==> stands_for_some(
                rs,
                priority,
                #[trigger] preferred(rs, priority, from)[j],
            ),
        forall|i: int|
            from <= i < rs.len() && (#[trigger] rs[i]).priority == priority ==> preferred(
                rs,
                priority,
                from,
            ).contains(backend_of(rs[i])),
    decreases rs.len() - from,
{
    if from < rs.len() {
        lemma_preferred(rs, priority, from + 1);
        let rest = preferred(rs, priority, from + 1);
        let all = preferred(rs, priority, from);
        if rs[from].priority == priority {
            assert(all[0] == backend_of(rs[from]));
            assert forall|j: int| 0 <= j < all.len() implies stands_for_some(
                rs,
                priority,
                #[trigger] all[j],
            ) by {
                if j > 0 {
                    assert(all[j] == rest[j - 1]);
                } else {
                    assert(rs[from].priority == priority && all[j] == backend_of(rs[from]));
                }
            }
            assert forall|i: int|
                from <= i < rs.len() && (#[trigger] rs[i]).priority == priority implies all.contains(
                backend_of(rs[i]),
            ) by {
                if i > from {
                    let k = choose|k: int| 0 <= k < rest.len() && rest[k] == backend_of(rs[i]);
                    assert(all[k + 1] == rest[k]);
                }
            }
        }
    }
}

/// The backend is that of some record with the priority.
pub open spec fn stands_for_some(
    rs: Seq<SrvRecordView>,
    priority: u16,
    b: BackendView,
) -> bool {
    exists|i: int|
        0 <= i < rs.len() && (#[trigger] rs[i]).priority == priority && b == backend_of(rs[i])
}

/// A lookup gives backends exactly where it finds records. Each is that of a record that
/// no record precedes in priority, and every such record has a backend at its address.
pub proof fn lemma_records_preferred(rs: Seq<SrvRecordView>)
    ensures
        resolved(rs) is None <==> rs.len() == 0,
        resolved(rs) matches Some(bs) ==> dns_upstream::addresses_ascend(bs) && (forall|j: int|
            0 <= j < bs.len() ==> of_first_priority(rs, #[trigger] bs[j])) && (forall|i: int|
            0 <= i < rs.len() && first_priority(rs, i) ==> #[trigger] dns_upstream::at_address(
                bs,
                backend_of(rs[i]).addr,
            )),
{
    let least = least_priority(rs, rs.len() as int);
    let ps = preferred(rs, least, 0);
    let bs = dns_upstream::settled(ps);
    lemma_least_priority(rs, rs.len() as int);
    lemma_preferred(rs, least, 0);
    dns_upstream::lemma_settled(ps);
    assert forall|j: int| 0 <= j < bs.len() implies of_first_priority(rs, #[trigger] bs[j]) by {
        dns_upstream::lemma_settled_from(ps, j);
        let k = choose|k: int| 0 <= k < ps.len() && ps[k] == bs[j];
        assert(stands_for_some(rs, least, ps[k]));
        let i = choose|i: int|
            0 <= i < rs.len() && (#[trigger] rs[i]).priority == least && ps[k] == backend_of(rs[i]);
        assert(first_priority(rs, i));
    }
    assert forall|i: int| 0 <= i < rs.len() && first_priority(rs, i) implies #[trigger]
        dns_upstream::at_address(bs, backend_of(rs[i]).addr) by {
        let m = choose|m: int| 0 <= m < rs.len() && (#[trigger] rs[m]).priority == least;
        assert(rs[i].priority <= rs[m].priority);
        assert(rs[i].priority == least);
        let k = choose|k: int| 0 <= k < ps.len() && ps[k] == backend_of(rs[i]);
        assert(ps[k].addr == backend_of(rs[i]).addr);
        assert(dns_upstream::at_address(ps, backend_of(rs[i]).addr));
    }
    if rs.len() > 0 {
        let m = choose|m: int| 0 <= m < rs.len() && (#[trigger] rs[m]).priority == least;
        assert(first_priority(rs, m));
        assert(dns_upstream::at_address(bs, backend_of(rs[m]).addr));
    }
    if bs.len() > 0 {
        assert(of_first_priority(rs, bs[0]));
    }
}

/// No record has a lesser priority number than this one.
pub open spec fn first_priority(rs: Seq<SrvRecordView>, i: int) -> bool {
    forall|m: int| 0 <= m < rs.len() ==> rs[i].priority <= (#[trigger] rs[m]).priority
}

/// The backend is that of a record that none precedes.
pub open spec fn of_first_priority(rs: Seq<SrvRecordView>, b: BackendView) -> bool {
    exists|i: int| 0 <= i < rs.len() && #[trigger] first_priority(rs, i) && b == backend_of(rs[i])
}

/// A backend has the host and the port of its record, without the dot at the end, and its
/// weight, which is at least one.
pub proof fn lemma_backend_of_record(host: Seq<char>, port: u16, priority: u16, weight: u16)
    requires
        host.len() > 0,
        host.last() != '.',
    ensures
        ({
            let r = SrvRecordView { target: host, port, priority, weight };
            let dotted = SrvRecordView { target: host.push('.'), port, priority, weight };
            &&& backend_of(r).addr == host + seq![':'] + text::decimal(port as nat)
            &&& backend_of(dotted).addr == backend_of(r).addr
            &&& weight > 0 ==> backend_of(r).weight == weight
            &&& weight == 0 ==> backend_of(r).weight == 1
        }),
{
    reveal_strlit(":");
    assert(":"@ =~= seq![':']);
    reveal_with_fuel(text::tail, 3);
    let p = text::only('.');
    let d = host.push('.');
    assert(text::tail(host, p, host.len() as int) == host.len());
    assert(host.take(host.len() as int) =~= host);
    assert(d.last() == '.' && d[d.len() - 2] == host.last());
    assert(text::tail(d, p, d.len() as int) == d.len() - 1);
    assert(d.take(d.len() - 1) =~= host);
}

} // verus!
