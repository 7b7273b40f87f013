//! Backends of a proxy, with their health and their connections.

use vstd::multiset::Multiset;
use vstd::prelude::*;
use crate::config::types::{ProxyConfig, ProxyConfigView, UpstreamConfigView};
use crate::data::Data;
use crate::proxy::dns_upstream::DynamicBackends;
use crate::table;
use crate::table::{fetch, new_table, store, Table};

verus! {

/// The plain values of a [`Backend`].
#[verifier::ext_equal]
pub struct BackendView {
    pub addr: Seq<char>,
    pub weight: u32,
    pub activity_key: Option<Seq<char>>,
}

/// A server that requests are handed on to.
#[derive(Debug, PartialEq, Eq)]
pub struct Backend {
    pub addr: String,
    pub weight: u32,
    pub activity_key: Option<String>,
}

impl DeepView for Backend {
    type V = BackendView;

    open spec fn deep_view(&self) -> BackendView {
        BackendView {
            addr: self.addr.deep_view(),
            weight: self.weight.deep_view(),
            activity_key: self.activity_key.deep_view(),
        }
    }
}

impl Data for Backend {
    fn duplicate(&self) -> (r: Backend) {
        Backend {
            addr: self.addr.duplicate(),
            weight: self.weight.duplicate(),
            activity_key: self.activity_key.duplicate(),
        }
    }

    fn same_as(&self, other: &Backend) -> (r: bool) {
        self.addr.same_as(&other.addr) && self.weight.same_as(&other.weight) && self.activity_key.same_as(&other.activity_key)
    }
}

impl Clone for Backend {
    fn clone(&self) -> (r: Backend)
        ensures
            r.deep_view() == self.deep_view(),
    {
        self.duplicate()
    }
}

/// A backend of a pool. Its health and its connections are those that the pool knows
/// of its address, so that all entries for an address show the same at any moment.
#[derive(Debug, PartialEq, Eq)]
pub struct BackendEntry {
    pub backend: Backend,
}

impl DeepView for BackendEntry {
    type V = BackendView;

    open spec fn deep_view(&self) -> BackendView {
        self.backend.deep_view()
    }
}

impl Data for BackendEntry {
    fn duplicate(&self) -> (r: BackendEntry) {
        BackendEntry { backend: self.backend.duplicate() }
    }

    fn same_as(&self, other: &BackendEntry) -> (r: bool) {
        self.backend.same_as(&other.backend)
    }
}

impl Clone for BackendEntry {
    fn clone(&self) -> (r: BackendEntry)
        ensures
            r.deep_view() == self.deep_view(),
    {
        self.duplicate()
    }
}

impl BackendEntry {
    /// Tells whether the backend is thought to be up.
    pub fn is_healthy(&self, pool: &UpstreamPool) -> (r: bool)
        ensures
            r == state_of(pool.deep_view(), self.deep_view().addr).0,
    {
        pool.state(self.backend.addr.as_str()).0
    }

    /// The number of open connections.
    pub fn conn_count(&self, pool: &UpstreamPool) -> (r: usize)
        ensures
            r == state_of(pool.deep_view(), self.deep_view().addr).1,
    {
        pool.state(self.backend.addr.as_str()).1
    }

    /// Marks the backend as up or down.
    pub fn set_healthy(&self, pool: &mut UpstreamPool, val: bool)
        ensures
            final(pool).deep_view() == marked(old(pool).deep_view(), self.deep_view().addr, val),
    {
        pool.mark(self.backend.addr.as_str(), val);
    }

    /// Counts a new connection to the backend.
    pub fn acquire_conn(&self, pool: &mut UpstreamPool) -> (g: ConnGuard)
        ensures
            g.deep_view() == Some(self.deep_view().addr),
            final(pool).deep_view() == connected(old(pool).deep_view(), self.deep_view().addr),
    {
        pool.connect(self.backend.addr.as_str());
        ConnGuard { addr: Some(self.backend.addr.clone()) }
    }
}

/// A backend with what is known of it at one moment.
#[verifier::ext_equal]
pub struct BackendStatus {
    pub backend: BackendView,
    pub healthy: bool,
    pub active_conns: usize,
}

/// The backends that stand for themselves at one moment.
pub type Entries = Seq<BackendStatus>;

/// Tells whether a backend is there and up.
pub open spec fn healthy(es: Entries, i: int) -> bool {
    0 <= i < es.len() && es[i].healthy
}

/// The sum of the open connections of the first `n` backends.
pub open spec fn conns_of(es: Entries, n: int) -> int
    decreases n,
{
    if n <= 0 || n > es.len() {
        0
    } else {
        conns_of(es, n - 1) + es[n - 1].active_conns
    }
}

/// The backends of a pool at one moment. What is known of them is read in the pool,
/// whenever it is asked for.
#[derive(Debug, PartialEq, Eq)]
pub struct BackendSnapshot {
    pub entries: Vec<BackendEntry>,
}

impl DeepView for BackendSnapshot {
    type V = Seq<BackendView>;

    open spec fn deep_view(&self) -> Seq<BackendView> {
        self.entries.deep_view()
    }
}

impl Clone for BackendSnapshot {
    fn clone(&self) -> (r: BackendSnapshot)
        ensures
            r.deep_view() == self.deep_view(),
    {
        BackendSnapshot { entries: self.entries.duplicate() }
    }
}

/// What a snapshot shows of its backends.
pub open spec fn shown(p: UpstreamPoolView, bs: Seq<BackendView>) -> Entries {
    Seq::new(bs.len(), |i: int| entry_of(p, bs[i]))
}

impl BackendSnapshot {
    /// The number of backends.
    pub fn len(&self) -> (r: usize)
        ensures
            r == self.deep_view().len(),
    {
        self.entries.len()
    }

    /// Tells whether there is no backend.
    pub fn is_empty(&self) -> (r: bool)
        ensures
            r == (self.deep_view().len() == 0),
    {
        self.entries.len() == 0
    }

    /// The backend at an index.
    pub fn get(&self, idx: usize) -> (r: Option<&BackendEntry>)
        ensures
            match r {
                Some(e) => idx < self.deep_view().len() && e.deep_view() == self.deep_view()[idx as int],
                None => idx >= self.deep_view().len(),
            },
    {
        if idx < self.entries.len() {
            assert(self.deep_view()[idx as int] == self.entries@[idx as int].deep_view());
            Some(&self.entries[idx])
        } else {
            None
        }
    }

    /// The backends.
    pub fn entries(&self) -> (r: &Vec<BackendEntry>)
        ensures
            r.deep_view() == self.deep_view(),
    {
        &self.entries
    }

    /// Tells whether one of the backends has the address.
    pub fn has(&self, addr: &str) -> (r: bool)
        ensures
            r == has_addr(self.deep_view(), addr@),
    {
        for i in 0..self.entries.len()
            invariant
                forall|k: int| 0 <= k < i ==> (#[trigger] self.deep_view()[k]).addr != addr@,
        {
            assert(self.deep_view()[i as int] == self.entries@[i as int].deep_view());
            if crate::text::same(self.entries[i].backend.addr.as_str(), addr) {
                return true;
            }
        }
        false
    }

    /// Tells whether the backend at an index is there and up.
    pub fn is_healthy(&self, pool: &UpstreamPool, idx: usize) -> (r: bool)
        ensures
            r == healthy(shown(pool.deep_view(), self.deep_view()), idx as int),
    {
        match self.get(idx) {
            Some(e) => e.is_healthy(pool),
            None => false,
        }
    }

    /// The number of open connections of the backend at an index; the greatest
    /// number where there is none.
    pub fn conn_count(&self, pool: &UpstreamPool, idx: usize) -> (r: usize)
        ensures
            r == (if idx < self.deep_view().len() {
                shown(pool.deep_view(), self.deep_view())[idx as int].active_conns
            } else {
                usize::MAX
            }),
    {
        match self.get(idx) {
            Some(e) => e.conn_count(pool),
            None => usize::MAX,
        }
    }

    /// The number of open connections of all backends.
    pub fn total_active_conns(&self, pool: &UpstreamPool) -> (r: u128)
        ensures
            r == conns_of(
                shown(pool.deep_view(), self.deep_view()),
                self.deep_view().len() as int,
            ),
    {
        let mut total: u128 = 0;
        let ghost es = shown(pool.deep_view(), self.deep_view());
        for i in 0..self.entries.len()
            invariant
                es == shown(pool.deep_view(), self.deep_view()),
                total == conns_of(es, i as int),
                total <= i * usize::MAX,
        {
            assert(self.deep_view()[i as int] == self.entries@[i as int].deep_view());
            assert(i * usize::MAX + usize::MAX == (i + 1) * usize::MAX) by (nonlinear_arith);
            assert((i + 1) * usize::MAX <= usize::MAX * usize::MAX) by (nonlinear_arith)
                requires
                    i + 1 <= usize::MAX,
            ;
            assert(usize::MAX * usize::MAX <= u128::MAX) by (nonlinear_arith)
                requires
                    usize::MAX <= 0xffff_ffff_ffff_ffff,
            ;
            total = total + self.entries[i].conn_count(pool) as u128;
        }
        total
    }

    /// Marks the backend at an index as up or down.
    ///
    /// Law: [`lemma_marked_in_every_snapshot`].
    pub fn set_healthy(&self, pool: &mut UpstreamPool, idx: usize, val: bool)
        ensures
            final(pool).deep_view() == (if idx < self.deep_view().len() {
                marked(old(pool).deep_view(), self.deep_view()[idx as int].addr, val)
            } else {
                old(pool).deep_view()
            }),
    {
        if let Some(e) = self.get(idx) {
            e.set_healthy(pool, val);
        }
    }

    /// Counts a new connection to the backend at an index.
    ///
    /// Law: [`lemma_counted_in_every_snapshot`].
    pub fn acquire_conn(&self, pool: &mut UpstreamPool, idx: usize) -> (g: ConnGuard)
        ensures
            (if idx < self.deep_view().len() {
                &&& g.deep_view() == Some(self.deep_view()[idx as int].addr)
                &&& final(pool).deep_view() == connected(
                    old(pool).deep_view(),
                    self.deep_view()[idx as int].addr,
                )
            } else {
                &&& g.deep_view() is None
                &&& final(pool).deep_view() == old(pool).deep_view()
            }),
    {
        match self.get(idx) {
            Some(e) => e.acquire_conn(pool),
            None => ConnGuard { addr: None },
        }
    }
}

/// A connection that has been counted. It is given back to the pool with
/// [`UpstreamPool::release_conn`] when it is closed.
#[derive(Debug, PartialEq, Eq)]
pub struct ConnGuard {
    addr: Option<String>,
}

impl DeepView for ConnGuard {
    type V = Option<Seq<char>>;

    closed spec fn deep_view(&self) -> Option<Seq<char>> {
        self.addr.deep_view()
    }
}

// ---------------------------------------------------------------------------
// The pool
// ---------------------------------------------------------------------------

/// The plain values of an [`UpstreamPool`].
#[verifier::ext_equal]
pub struct UpstreamPoolView {
    pub fixed: Seq<BackendView>,
    pub dns: Option<Seq<BackendView>>,
    pub srv: Option<Seq<BackendView>>,
    pub states: Map<Seq<char>, Seq<u128>>,
    pub max_connections: Option<usize>,
}

/// The backends of a proxy, those of its configuration and those that were looked
/// up, with what is known of each address.
pub struct UpstreamPool {
    static_backends: Vec<Backend>,
    states: Table,
    dns_backends: Option<DynamicBackends>,
    srv_backends: Option<DynamicBackends>,
    /// The greatest number of connections to all backends together.
    pub max_connections: Option<usize>,
}

impl DeepView for UpstreamPool {
    type V = UpstreamPoolView;

    closed spec fn deep_view(&self) -> UpstreamPoolView {
        UpstreamPoolView {
            fixed: self.static_backends.deep_view(),
            dns: self.dns_backends.deep_view(),
            srv: self.srv_backends.deep_view(),
            states: table::records(self.states),
            max_connections: self.max_connections,
        }
    }
}

/// Whether the backend at an address is up, and how many connections it has. One of
/// which nothing is known is up and has none.
pub open spec fn state_of(p: UpstreamPoolView, addr: Seq<char>) -> (bool, usize) {
    if p.states.contains_key(addr) && p.states[addr].len() == 2 {
        (p.states[addr][0] == 1, p.states[addr][1] as usize)
    } else {
        (true, 0)
    }
}

/// The pool with another state for an address.
pub open spec fn with_state(p: UpstreamPoolView, addr: Seq<char>, up: bool, conns: usize)
    -> UpstreamPoolView {
    UpstreamPoolView {
        states: p.states.insert(
            addr,
            seq![
                if up {
                    1u128
                } else {
                    0u128
                },
                conns as u128,
            ],
        ),
        ..p
    }
}

/// The pool with an address marked as up or down.
pub open spec fn marked(p: UpstreamPoolView, addr: Seq<char>, up: bool) -> UpstreamPoolView {
    with_state(p, addr, up, state_of(p, addr).1)
}

/// The pool with one more connection to an address.
pub open spec fn connected(p: UpstreamPoolView, addr: Seq<char>) -> UpstreamPoolView {
    with_state(p, addr, state_of(p, addr).0, state_of(p, addr).1.wrapping_add(1))
}

/// The pool with one connection less to an address.
pub open spec fn disconnected(p: UpstreamPoolView, addr: Seq<char>) -> UpstreamPoolView {
    with_state(p, addr, state_of(p, addr).0, state_of(p, addr).1.wrapping_sub(1))
}

/// Tells whether a backend has the address.
pub open spec fn has_addr(bs: Seq<BackendView>, addr: Seq<char>) -> bool {
    exists|i: int| 0 <= i < bs.len() && (#[trigger] bs[i]).addr == addr
}

/// The backends without those whose address an earlier one has.
pub open spec fn unique(bs: Seq<BackendView>) -> Seq<BackendView>
    decreases bs.len(),
{
    if bs.len() == 0 {
        seq![]
    } else {
        let before = unique(bs.drop_last());
        if has_addr(before, bs.last().addr) {
            before
        } else {
            before.push(bs.last())
        }
    }
}

/// All backends of a pool: those of the configuration, then those of the two kinds
/// of lookup.
pub open spec fn all_backends(p: UpstreamPoolView) -> Seq<BackendView> {
    p.fixed + listed(p.dns) + listed(p.srv)
}

/// A list that may be absent.
pub open spec fn listed(l: Option<Seq<BackendView>>) -> Seq<BackendView> {
    match l {
        Some(s) => s,
        None => seq![],
    }
}

/// A backend with what is known of its address.
pub open spec fn entry_of(p: UpstreamPoolView, b: BackendView) -> BackendStatus {
    BackendStatus {
        backend: b,
        healthy: state_of(p, b.addr).0,
        active_conns: state_of(p, b.addr).1,
    }
}

/// The backends of a pool, one for each address, with what is known of them.
pub open spec fn entries(p: UpstreamPoolView) -> Entries {
    shown(p, unique(all_backends(p)))
}

/// Tells whether one of the backends has the address.
pub open spec fn has_entry(es: Entries, addr: Seq<char>) -> bool {
    exists|i: int| 0 <= i < es.len() && (#[trigger] es[i]).backend.addr == addr
}

/// The backends that a configuration names.
pub open spec fn configured(us: Seq<UpstreamConfigView>) -> Seq<BackendView> {
    Seq::new(
        us.len(),
        |i: int|
            BackendView {
                addr: us[i].addr,
                weight: us[i].weight,
                activity_key: us[i].activity_key,
            },
    )
}

/// The pool of a proxy at its start.
pub open spec fn new_pool(c: ProxyConfigView) -> UpstreamPoolView {
    UpstreamPoolView {
        fixed: configured(c.upstreams),
        dns: if c.dynamic_upstreams is Some {
            Some(seq![])
        } else {
            None
        },
        srv: if c.srv_upstream is Some {
            Some(seq![])
        } else {
            None
        },
        states: Map::empty(),
        max_connections: c.max_connections,
    }
}

/// Appends copies of backends whose address is not there yet.
fn add_unique(out: &mut Vec<Backend>, more: &Vec<Backend>, Ghost(before): Ghost<Seq<BackendView>>)
    requires
        old(out).deep_view() == unique(before),
    ensures
        final(out).deep_view() == unique(before + more.deep_view()),
{
    let ghost m = more.deep_view();
    assert(before + m.take(0) =~= before);
    for i in 0..more.len()
        invariant
            m == more.deep_view(),
            out.deep_view() == unique(before + m.take(i as int)),
    {
        let ghost whole = before + m.take(i + 1);
        assert(whole.drop_last() =~= before + m.take(i as int));
        assert(whole.last() == more@[i as int].deep_view());
        let addr = more[i].addr.as_str();
        let mut found = false;
        for j in 0..out.len()
            invariant
                addr@ == more@[i as int].addr@,
                found == exists|k: int| 0 <= k < j && (#[trigger] out.deep_view()[k]).addr == addr@,
        {
            assert(out.deep_view()[j as int] == out@[j as int].deep_view());
            if crate::text::same(out[j].addr.as_str(), addr) {
                found = true;
            }
        }
        if !found {
            let ghost prev = out.deep_view();
            let b = more[i].duplicate();
            out.push(b);
            assert(out.deep_view() =~= prev.push(b.deep_view()));
        }
    }
    assert(m.take(m.len() as int) =~= m);
}

impl UpstreamPool {
    /// The pool of a proxy at its start. Looked up backends come later, by way of
    /// [`UpstreamPool::set_dns_backends`] and [`UpstreamPool::set_srv_backends`].
    pub fn from_config(config: &ProxyConfig) -> (p: UpstreamPool)
        ensures
            p.deep_view() == new_pool(config.deep_view()),
    {
        let mut static_backends: Vec<Backend> = Vec::new();
        for i in 0..config.upstreams.len()
            invariant
                static_backends@.len() == i,
                forall|k: int|
                    0 <= k < i ==> (#[trigger] static_backends@[k]).deep_view() == configured(
                        config.upstreams.deep_view(),
                    )[k],
        {
            let u = &config.upstreams[i];
            assert(config.upstreams.deep_view()[i as int] == u.deep_view());
            static_backends.push(
                Backend {
                    addr: u.addr.duplicate(),
                    weight: u.weight,
                    activity_key: u.activity_key.duplicate(),
                },
            );
        }
        assert(static_backends.deep_view() =~= configured(config.upstreams.deep_view()));
        let dns_backends = if config.dynamic_upstreams.is_some() {
            Some(DynamicBackends::new())
        } else {
            None
        };
        let srv_backends = if config.srv_upstream.is_some() {
            Some(DynamicBackends::new())
        } else {
            None
        };
        let states = new_table();
        assert(table::records(states) =~= Map::empty());
        UpstreamPool {
            static_backends,
            states,
            dns_backends,
            srv_backends,
            max_connections: config.max_connections,
        }
    }

    /// Takes over the backends that a lookup of addresses gave, where the pool has
    /// such a lookup.
    pub fn set_dns_backends(&mut self, backends: Vec<Backend>)
        ensures
            final(self).deep_view() == (UpstreamPoolView {
                dns: if old(self).deep_view().dns is Some {
                    Some(backends.deep_view())
                } else {
                    None
                },
                ..old(self).deep_view()
            }),
    {
        if self.dns_backends.is_some() {
            let mut d = DynamicBackends::new();
            d.store(backends);
            self.dns_backends = Some(d);
        }
    }

    /// Takes over the backends that a lookup of services gave, where the pool has
    /// such a lookup.
    pub fn set_srv_backends(&mut self, backends: Vec<Backend>)
        ensures
            final(self).deep_view() == (UpstreamPoolView {
                srv: if old(self).deep_view().srv is Some {
                    Some(backends.deep_view())
                } else {
                    None
                },
                ..old(self).deep_view()
            }),
    {
        if self.srv_backends.is_some() {
            let mut d = DynamicBackends::new();
            d.store(backends);
            self.srv_backends = Some(d);
        }
    }

    /// What is known of an address.
    fn state(&self, addr: &str) -> (r: (bool, usize))
        ensures
            r == state_of(self.deep_view(), addr@),
    {
        match fetch(&self.states, addr) {
            Some(v) => if v.len() == 2 {
                (v[0] == 1, v[1] as usize)
            } else {
                (true, 0)
            },
            None => (true, 0),
        }
    }

    /// Notes the state of an address.
    fn set_state(&mut self, addr: &str, up: bool, conns: usize)
        ensures
            final(self).deep_view() == with_state(old(self).deep_view(), addr@, up, conns),
    {
        let mut v: Vec<u128> = Vec::new();
        v.push(
            if up {
                1
            } else {
                0
            },
        );
        v.push(conns as u128);
        assert(v@ =~= seq![
            if up {
                1u128
            } else {
                0u128
            },
            conns as u128,
        ]);
        store(&mut self.states, addr, v);
    }

    /// Tells whether an address is thought to be up.
    pub fn is_up(&self, addr: &str) -> (r: bool)
        ensures
            r == state_of(self.deep_view(), addr@).0,
    {
        self.state(addr).0
    }

    /// Marks an address as up or down.
    pub fn mark(&mut self, addr: &str, up: bool)
        ensures
            final(self).deep_view() == marked(old(self).deep_view(), addr@, up),
    {
        let (_, conns) = self.state(addr);
        self.set_state(addr, up, conns);
    }

    /// Counts one more connection to an address.
    pub fn connect(&mut self, addr: &str)
        ensures
            final(self).deep_view() == connected(old(self).deep_view(), addr@),
    {
        let (up, conns) = self.state(addr);
        self.set_state(addr, up, conns.wrapping_add(1));
    }

    /// Gives back a connection.
    pub fn release_conn(&mut self, guard: ConnGuard)
        ensures
            final(self).deep_view() == (match guard.deep_view() {
                Some(addr) => disconnected(old(self).deep_view(), addr),
                None => old(self).deep_view(),
            }),
    {
        if let Some(addr) = guard.addr {
            let (up, conns) = self.state(addr.as_str());
            self.set_state(addr.as_str(), up, conns.wrapping_sub(1));
        }
    }

    /// The backends at this moment, one for each address.
    pub fn snapshot(&self) -> (s: BackendSnapshot)
        ensures
            s.deep_view() == unique(all_backends(self.deep_view())),
    {
        let mut backends: Vec<Backend> = Vec::new();
        let none: Vec<Backend> = Vec::new();
        let ghost p = self.deep_view();
        assert(none.deep_view() =~= seq![]);
        assert(backends.deep_view() =~= unique(seq![]));
        let ghost nothing = Seq::<BackendView>::empty();
        add_unique(&mut backends, &self.static_backends, Ghost(nothing));
        assert(nothing + p.fixed =~= p.fixed);
        let dns = match &self.dns_backends {
            Some(d) => d.load(),
            None => &none,
        };
        assert(dns.deep_view() == listed(p.dns));
        add_unique(&mut backends, dns, Ghost(p.fixed));
        let srv = match &self.srv_backends {
            Some(d) => d.load(),
            None => &none,
        };
        assert(srv.deep_view() == listed(p.srv));
        add_unique(&mut backends, srv, Ghost(p.fixed + listed(p.dns)));
        let mut out: Vec<BackendEntry> = Vec::new();
        let ghost u = unique(all_backends(p));
        for i in 0..backends.len()
            invariant
                backends.deep_view() == u,
                out@.len() == i,
                forall|k: int| 0 <= k < i ==> (#[trigger] out@[k]).deep_view() == u[k],
        {
            assert(backends.deep_view()[i as int] == backends@[i as int].deep_view());
            out.push(BackendEntry { backend: backends[i].duplicate() });
        }
        assert(out.deep_view() =~= u);
        BackendSnapshot { entries: out }
    }

    /// Tells whether the backend at an index is there and up.
    pub fn is_healthy(&self, idx: usize) -> (r: bool)
        ensures
            r == healthy(entries(self.deep_view()), idx as int),
    {
        self.snapshot().is_healthy(self, idx)
    }

    /// Marks the backend at an index as up or down.
    pub fn set_healthy(&mut self, idx: usize, val: bool)
        ensures
            final(self).deep_view() == (if idx < entries(old(self).deep_view()).len() {
                marked(
                    old(self).deep_view(),
                    entries(old(self).deep_view())[idx as int].backend.addr,
                    val,
                )
            } else {
                old(self).deep_view()
            }),
    {
        let s = self.snapshot();
        s.set_healthy(self, idx, val);
    }

    /// Counts a new connection to the backend at an index.
    pub fn acquire_conn(&mut self, idx: usize) -> (g: ConnGuard)
        ensures
            (if idx < entries(old(self).deep_view()).len() {
                let addr = entries(old(self).deep_view())[idx as int].backend.addr;
                &&& g.deep_view() == Some(addr)
                &&& final(self).deep_view() == connected(old(self).deep_view(), addr)
            } else {
                &&& g.deep_view() is None
                &&& final(self).deep_view() == old(self).deep_view()
            }),
    {
        let s = self.snapshot();
        s.acquire_conn(self, idx)
    }

    /// The number of open connections of the backend at an index; the greatest
    /// number where there is none.
    pub fn conn_count(&self, idx: usize) -> (r: usize)
        ensures
            r == (if idx < entries(self.deep_view()).len() {
                entries(self.deep_view())[idx as int].active_conns
            } else {
                usize::MAX
            }),
    {
        self.snapshot().conn_count(self, idx)
    }

    /// The number of open connections of all backends.
    pub fn total_active_conns(&self) -> (r: u128)
        ensures
            r == conns_of(entries(self.deep_view()), entries(self.deep_view()).len() as int),
    {
        self.snapshot().total_active_conns(self)
    }

    /// The greatest number of connections to all backends together.
    pub fn max_connections(&self) -> (r: Option<usize>)
        ensures
            r == self.deep_view().max_connections,
    {
        self.max_connections
    }

    /// The number of backends.
    pub fn len(&self) -> (r: usize)
        ensures
            r == entries(self.deep_view()).len(),
    {
        self.snapshot().len()
    }

    /// Tells whether there is no backend.
    pub fn is_empty(&self) -> (r: bool)
        ensures
            r == (entries(self.deep_view()).len() == 0),
    {
        self.snapshot().is_empty()
    }
}

// ---------------------------------------------------------------------------
// What holds of every pool
// ---------------------------------------------------------------------------

/// The first backend of each address is kept, and no other.
proof fn lemma_unique(bs: Seq<BackendView>)
    ensures
        forall|i: int, j: int|
            0 <= i < j < unique(bs).len() ==> (#[trigger] unique(bs)[i]).addr != (
            #[trigger] unique(bs)[j]).addr,
        forall|a: Seq<char>| #[trigger] has_addr(unique(bs), a) == has_addr(bs, a),
        forall|i: int|
            0 <= i < unique(bs).len() ==> exists|k: int|
                0 <= k < bs.len() && #[trigger] unique(bs)[i] == #[trigger] bs[k],
    decreases bs.len(),
{
    if bs.len() > 0 {
        let d = bs.drop_last();
        lemma_unique(d);
        let u = unique(d);
        assert forall|a: Seq<char>| #[trigger] has_addr(unique(bs), a) == has_addr(bs, a) by {
            assert(has_addr(u, a) == has_addr(d, a));
            if has_addr(bs, a) {
                let i = choose|i: int| 0 <= i < bs.len() && (#[trigger] bs[i]).addr == a;
                if i < d.len() {
                    assert(d[i].addr == a);
                    let k = choose|k: int| 0 <= k < u.len() && (#[trigger] u[k]).addr == a;
                    assert(unique(bs)[k].addr == a);
                } else if has_addr(u, bs.last().addr) {
                } else {
                    assert(unique(bs)[u.len() as int].addr == a);
                }
            }
            if has_addr(unique(bs), a) {
                let k = choose|k: int|
                    0 <= k < unique(bs).len() && (#[trigger] unique(bs)[k]).addr == a;
                if k < u.len() {
                    assert(u[k].addr == a);
                    let i = choose|i: int| 0 <= i < d.len() && (#[trigger] d[i]).addr == a;
                    assert(bs[i].addr == a);
                } else {
                    assert(bs[bs.len() - 1].addr == a);
                }
            }
        }
        assert forall|i: int| 0 <= i < unique(bs).len() implies exists|k: int|
            0 <= k < bs.len() && #[trigger] unique(bs)[i] == #[trigger] bs[k] by {
            if i < u.len() {
                assert(unique(bs)[i] == u[i]);
                let k = choose|k: int| 0 <= k < d.len() && #[trigger] u[i] == #[trigger] d[k];
                assert(bs[k] == d[k]);
            } else {
                assert(unique(bs)[i] == bs[bs.len() - 1]);
            }
        }
        assert forall|i: int, j: int| 0 <= i < j < unique(bs).len() implies (#[trigger] unique(
            bs,
        )[i]).addr != (#[trigger] unique(bs)[j]).addr by {
            if j < u.len() {
                assert(unique(bs)[i] == u[i] && unique(bs)[j] == u[j]);
            } else {
                assert(unique(bs)[i] == u[i]);
                assert(unique(bs)[j] == bs.last());
            }
        }
    }
}

/// A snapshot holds each address once, and an address exactly where some backend of
/// the pool has it.
pub proof fn lemma_snapshot_addresses(p: UpstreamPoolView)
    ensures
        forall|i: int, j: int|
            0 <= i < j < entries(p).len() ==> (#[trigger] entries(p)[i]).backend.addr != (
            #[trigger] entries(p)[j]).backend.addr,
        forall|b: int|
            0 <= b < all_backends(p).len() ==> exists|i: int|
                0 <= i < entries(p).len() && (#[trigger] entries(p)[i]).backend.addr == (
                #[trigger] all_backends(p)[b]).addr,
{
    let bs = all_backends(p);
    let u = unique(bs);
    lemma_unique(bs);
    assert forall|i: int, j: int| 0 <= i < j < entries(p).len() implies (#[trigger] entries(
        p,
    )[i]).backend.addr != (#[trigger] entries(p)[j]).backend.addr by {
        assert(u[i].addr != u[j].addr);
    }
    assert forall|b: int| 0 <= b < bs.len() implies exists|i: int|
        0 <= i < entries(p).len() && (#[trigger] entries(p)[i]).backend.addr == (
        #[trigger] bs[b]).addr by {
        assert(has_addr(bs, bs[b].addr));
        assert(has_addr(u, bs[b].addr));
        let i = choose|i: int| 0 <= i < u.len() && (#[trigger] u[i]).addr == bs[b].addr;
        assert(entries(p)[i].backend.addr == bs[b].addr);
    }
}

/// Marking an address changes the health of its backend alone, and what a lookup
/// brings changes what is known of no address.
pub proof fn lemma_state_by_address(p: UpstreamPoolView, addr: Seq<char>, up: bool)
    ensures
        forall|a: Seq<char>| #[trigger]
            state_of(marked(p, addr, up), a) == (if a == addr {
                (up, state_of(p, a).1)
            } else {
                state_of(p, a)
            }),
        entries(marked(p, addr, up)).len() == entries(p).len(),
        forall|i: int|
            0 <= i < entries(p).len() ==> (#[trigger] entries(marked(p, addr, up))[i]).backend
                == entries(p)[i].backend,
        forall|fixed: Seq<BackendView>, dns: Option<Seq<BackendView>>, srv: Option<Seq<BackendView>>, a: Seq<char>| #[trigger]
            state_of(UpstreamPoolView { fixed, dns, srv, ..p }, a) == state_of(p, a),
{
    assert(all_backends(marked(p, addr, up)) =~= all_backends(p));
}

/// A connection that was counted and given back leaves what is known of every
/// address as it was.
pub proof fn lemma_connection_returned(p: UpstreamPoolView, addr: Seq<char>)
    ensures
        state_of(connected(p, addr), addr).1 == state_of(p, addr).1.wrapping_add(1),
        forall|a: Seq<char>| #[trigger]
            state_of(disconnected(connected(p, addr), addr), a) == state_of(p, a),
{
}

/// Marking the backend at an index of a snapshot shows in every snapshot that has its
/// address, taken before or after: each shows the new health there, and everything
/// else as it was. Marking changes no count of connections.
pub proof fn lemma_marked_in_every_snapshot(
    p: UpstreamPoolView,
    bs: Seq<BackendView>,
    i: int,
    up: bool,
    other: Seq<BackendView>,
)
    requires
        0 <= i < bs.len(),
    ensures
        ({
            let q = marked(p, bs[i].addr, up);
            &&& shown(q, other).len() == other.len()
            &&& forall|k: int|
                0 <= k < other.len() ==> #[trigger] shown(q, other)[k] == (BackendStatus {
                    healthy: if other[k].addr == bs[i].addr {
                        up
                    } else {
                        shown(p, other)[k].healthy
                    },
                    ..shown(p, other)[k]
                })
            &&& unique(all_backends(q)) == unique(all_backends(p))
        }),
{
    assert(all_backends(marked(p, bs[i].addr, up)) =~= all_backends(p));
}

/// A connection that is counted at an index of a snapshot shows in every snapshot that
/// has its address, taken before or after, and in no other count; when it is given
/// back, every snapshot shows what it showed before.
pub proof fn lemma_counted_in_every_snapshot(
    p: UpstreamPoolView,
    bs: Seq<BackendView>,
    i: int,
    other: Seq<BackendView>,
)
    requires
        0 <= i < bs.len(),
    ensures
        ({
            let q = connected(p, bs[i].addr);
            &&& forall|k: int|
                0 <= k < other.len() ==> #[trigger] shown(q, other)[k] == (BackendStatus {
                    active_conns: if other[k].addr == bs[i].addr {
                        shown(p, other)[k].active_conns.wrapping_add(1)
                    } else {
                        shown(p, other)[k].active_conns
                    },
                    ..shown(p, other)[k]
                })
            &&& shown(disconnected(q, bs[i].addr), other) == shown(p, other)
            &&& unique(all_backends(q)) == unique(all_backends(p))
        }),
{
    let q = connected(p, bs[i].addr);
    assert(all_backends(q) =~= all_backends(p));
    lemma_connection_returned(p, bs[i].addr);
    assert(shown(disconnected(q, bs[i].addr), other) =~= shown(p, other));
}

/// Marking the backend at an index of a pool changes its health, and nothing else.
pub proof fn lemma_marked_alone(p: UpstreamPoolView, i: int, up: bool)
    requires
        0 <= i < entries(p).len(),
    ensures
        ({
            let q = marked(p, entries(p)[i].backend.addr, up);
            &&& healthy(entries(q), i) == up
            &&& forall|j: int|
                0 <= j < entries(p).len() && j != i ==> #[trigger] entries(q)[j] == entries(p)[j]
            &&& forall|j: int|
                0 <= j < entries(p).len() ==> (#[trigger] entries(q)[j]).active_conns == entries(
                    p,
                )[j].active_conns
        }),
{
    let u = unique(all_backends(p));
    lemma_marked_in_every_snapshot(p, u, i, up, u);
    lemma_snapshot_addresses(p);
    let q = marked(p, u[i].addr, up);
    assert forall|j: int| 0 <= j < entries(p).len() && j != i implies #[trigger] entries(q)[j]
        == entries(p)[j] by {
        assert(entries(p)[i].backend.addr == u[i].addr && entries(p)[j].backend.addr == u[j].addr);
        assert(shown(q, u)[j] == entries(q)[j]);
        if i < j {
            assert(entries(p)[i].backend.addr != entries(p)[j].backend.addr);
        } else {
            assert(entries(p)[j].backend.addr != entries(p)[i].backend.addr);
        }
    }
    assert(shown(q, u)[i] == entries(q)[i]);
}

// ---------------------------------------------------------------------------
// Connections over time
// ---------------------------------------------------------------------------

/// What happens to a pool.
pub enum PoolEvent {
    /// A guard for an address is taken.
    Taken(Seq<char>),
    /// A guard for an address is released.
    Released(Seq<char>),
    /// An address is marked as up or down.
    Marked(Seq<char>, bool),
    /// A lookup of addresses brings backends.
    Dns(Option<Seq<BackendView>>),
    /// A lookup of services brings backends.
    Srv(Option<Seq<BackendView>>),
}

/// A pool after what has happened to it.
pub open spec fn after(p: UpstreamPoolView, events: Seq<PoolEvent>) -> UpstreamPoolView
    decreases events.len(),
{
    if events.len() == 0 {
        p
    } else {
        let q = after(p, events.drop_last());
        match events.last() {
            PoolEvent::Taken(a) => connected(q, a),
            PoolEvent::Released(a) => disconnected(q, a),
            PoolEvent::Marked(a, up) => marked(q, a, up),
            PoolEvent::Dns(dns) => UpstreamPoolView { dns, ..q },
            PoolEvent::Srv(srv) => UpstreamPoolView { srv, ..q },
        }
    }
}

/// The addresses of the guards that were taken and not yet released.
pub open spec fn held(events: Seq<PoolEvent>) -> Multiset<Seq<char>>
    decreases events.len(),
{
    if events.len() == 0 {
        Multiset::empty()
    } else {
        let m = held(events.drop_last());
        match events.last() {
            PoolEvent::Taken(a) => m.insert(a),
            PoolEvent::Released(a) => m.remove(a),
            _ => m,
        }
    }
}

/// Only guards that were taken are released, and never are more held than can be
/// counted.
pub open spec fn well_used(events: Seq<PoolEvent>) -> bool
    decreases events.len(),
{
    events.len() == 0 || {
        &&& well_used(events.drop_last())
        &&& events.last() matches PoolEvent::Released(a) ==> held(
            events.drop_last(),
        ).contains(a)
        &&& held(events).len() <= usize::MAX
    }
}

/// The number of connections that is known of an address is the number of guards for
/// it that were taken and not yet released.
pub proof fn lemma_connections_by_address(p: UpstreamPoolView, events: Seq<PoolEvent>)
    requires
        well_used(events),
        forall|a: Seq<char>| (#[trigger] state_of(p, a)).1 == 0,
    ensures
        forall|a: Seq<char>|
            (#[trigger] state_of(after(p, events), a)).1 == held(events).count(a),
    decreases events.len(),
{
    broadcast use vstd::multiset::group_multiset_axioms;

    if events.len() > 0 {
        let before = events.drop_last();
        lemma_connections_by_address(p, before);
        let q = after(p, before);
        let m = held(before);
        assert forall|a: Seq<char>|
            (#[trigger] state_of(after(p, events), a)).1 == held(events).count(a) by {
            assert(state_of(q, a).1 == m.count(a));
            lemma_count_at_most(held(events), a);
        }
    }
}

/// A multiset holds nothing more often than it holds members.
proof fn lemma_count_at_most(m: Multiset<Seq<char>>, a: Seq<char>)
    ensures
        m.count(a) <= m.len(),
{
    broadcast use vstd::multiset::group_multiset_axioms;

    lemma_only(m.filter(|v: Seq<char>| v == a), a);
    assert(m.filter(|v: Seq<char>| v == a).subset_of(m));
    let rest = m.sub(m.filter(|v: Seq<char>| v == a));
    assert(rest.add(m.filter(|v: Seq<char>| v == a)) =~= m);
}

/// A multiset that holds one value only has as many members as that value occurs.
proof fn lemma_only(m: Multiset<Seq<char>>, a: Seq<char>)
    requires
        forall|v: Seq<char>| v != a ==> #[trigger] m.count(v) == 0,
    ensures
        m.len() == m.count(a),
    decreases m.count(a),
{
    broadcast use vstd::multiset::group_multiset_axioms;

    if m.count(a) == 0 {
        assert(m =~= Multiset::empty());
    } else {
        let rest = m.remove(a);
        lemma_only(rest, a);
        assert(rest.insert(a) =~= m);
    }
}

/// The members of a multiset that are addresses of the first `n` backends.
spec fn at_first(m: Multiset<Seq<char>>, es: Entries, n: int) -> Multiset<Seq<char>> {
    m.filter(|a: Seq<char>| exists|i: int| 0 <= i < n && (#[trigger] es[i]).backend.addr == a)
}

/// The connections of the first backends are as many as the members of a multiset
/// that counts them.
proof fn lemma_sum_of_counts(m: Multiset<Seq<char>>, es: Entries, n: int)
    requires
        0 <= n <= es.len(),
        forall|i: int, j: int|
            0 <= i < j < es.len() ==> (#[trigger] es[i]).backend.addr != (
            #[trigger] es[j]).backend.addr,
        forall|i: int|
            0 <= i < es.len() ==> (#[trigger] es[i]).active_conns == m.count(es[i].backend.addr),
    ensures
        conns_of(es, n) == at_first(m, es, n).len(),
    decreases n,
{
    broadcast use vstd::multiset::group_multiset_axioms;

    if n == 0 {
        assert(at_first(m, es, 0) =~= Multiset::empty());
    } else {
        lemma_sum_of_counts(m, es, n - 1);
        let a = es[n - 1].backend.addr;
        let last = m.filter(|v: Seq<char>| v == a);
        lemma_only(last, a);
        let before = at_first(m, es, n - 1);
        assert forall|v: Seq<char>| #[trigger]
            at_first(m, es, n).count(v) == before.add(last).count(v) by {
            if exists|i: int| 0 <= i < n - 1 && (#[trigger] es[i]).backend.addr == v {
                let i = choose|i: int| 0 <= i < n - 1 && (#[trigger] es[i]).backend.addr == v;
                assert(es[i].backend.addr != es[n - 1].backend.addr);
            }
        }
        assert(at_first(m, es, n) =~= before.add(last));
    }
}

/// The number of open connections of all backends of a pool is the number of guards
/// for them that were taken since its start and not yet released.
pub proof fn lemma_total_of_guards(c: ProxyConfigView, events: Seq<PoolEvent>)
    requires
        well_used(events),
    ensures
        ({
            let es = entries(after(new_pool(c), events));
            conns_of(es, es.len() as int) == held(events).filter(
                |a: Seq<char>| has_entry(es, a),
            ).len()
        }),
{
    broadcast use vstd::multiset::group_multiset_axioms;

    let p = after(new_pool(c), events);
    let es = entries(p);
    let m = held(events);
    lemma_connections_by_address(new_pool(c), events);
    lemma_snapshot_addresses(p);
    assert forall|i: int| 0 <= i < es.len() implies (#[trigger] es[i]).active_conns == m.count(
        es[i].backend.addr,
    ) by {
        assert(state_of(p, es[i].backend.addr).1 == m.count(es[i].backend.addr));
    }
    lemma_sum_of_counts(m, es, es.len() as int);
    assert(at_first(m, es, es.len() as int) =~= m.filter(|a: Seq<char>| has_entry(es, a)));
}

/// Backends of which no two have the same address are all kept, in their order.
proof fn lemma_distinct_kept(bs: Seq<BackendView>)
    requires
        forall|i: int, j: int|
            0 <= i < j < bs.len() ==> (#[trigger] bs[i]).addr != (#[trigger] bs[j]).addr,
    ensures
        unique(bs) == bs,
    decreases bs.len(),
{
    if bs.len() > 0 {
        let d = bs.drop_last();
        assert forall|i: int, j: int| 0 <= i < j < d.len() implies (#[trigger] d[i]).addr != (
        #[trigger] d[j]).addr by {
            assert(d[i] == bs[i] && d[j] == bs[j]);
        }
        lemma_distinct_kept(d);
        if has_addr(d, bs.last().addr) {
            let i = choose|i: int| 0 <= i < d.len() && (#[trigger] d[i]).addr == bs.last().addr;
            assert(bs[i].addr != bs[bs.len() - 1].addr);
        }
        assert(d.push(bs.last()) =~= bs);
    }
}

/// A pool begins with the backends of its configuration, in their order and with their
/// weights, all up and without connections, and with the limit of the configuration.
pub proof fn lemma_pool_at_start(c: ProxyConfigView, i: int)
    requires
        forall|a: int, b: int|
            0 <= a < b < c.upstreams.len() ==> (#[trigger] c.upstreams[a]).addr != (
            #[trigger] c.upstreams[b]).addr,
        0 <= i < c.upstreams.len(),
    ensures
        ({
            let es = entries(new_pool(c));
            &&& es.len() == c.upstreams.len()
            &&& es[i].backend.addr == c.upstreams[i].addr
            &&& es[i].backend.weight == c.upstreams[i].weight
            &&& es[i].healthy && es[i].active_conns == 0
            &&& new_pool(c).max_connections == c.max_connections
        }),
{
    let bs = configured(c.upstreams);
    let p = new_pool(c);
    assert(all_backends(p) =~= bs);
    assert forall|a: int, b: int| 0 <= a < b < bs.len() implies (#[trigger] bs[a]).addr != (
    #[trigger] bs[b]).addr by {
        assert(c.upstreams[a].addr != c.upstreams[b].addr);
    }
    lemma_distinct_kept(bs);
}

/// The backends that a lookup brought stand behind those of the configuration, unless one
/// of these has the same address.
pub proof fn lemma_lookups_behind(p: UpstreamPoolView, i: int)
    requires
        forall|a: int, b: int|
            0 <= a < b < all_backends(p).len() ==> (#[trigger] all_backends(p)[a]).addr != (
            #[trigger] all_backends(p)[b]).addr,
        0 <= i < p.fixed.len(),
    ensures
        entries(p).len() == p.fixed.len() + listed(p.dns).len() + listed(p.srv).len(),
        entries(p)[i].backend == p.fixed[i],
        forall|j: int|
            0 <= j < listed(p.dns).len() ==> entries(p)[p.fixed.len() + j].backend
                == #[trigger] listed(p.dns)[j],
{
    lemma_distinct_kept(all_backends(p));
    assert(all_backends(p)[i] == p.fixed[i]);
    assert forall|j: int| 0 <= j < listed(p.dns).len() implies entries(p)[p.fixed.len()
        + j].backend == #[trigger] listed(p.dns)[j] by {
        assert(all_backends(p)[p.fixed.len() + j] == listed(p.dns)[j]);
    }
}

} // verus!
