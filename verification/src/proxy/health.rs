//! Finding out which backends are up.

use vstd::prelude::*;
use crate::config::types::{
    HealthCheckConfig, HealthCheckConfigView, PassiveHealthConfig, PassiveHealthConfigView,
};
use crate::data::Data;
use crate::proxy::upstream;
use crate::proxy::upstream::{
    BackendSnapshot, BackendView, Entries, UpstreamPool, UpstreamPoolView,
};
use crate::sorted_map;
use crate::sorted_map::SortedMap;
use crate::table;
use crate::table::{erase, fetch, keys, new_table, store, Table};
use crate::text;
use crate::time::{Duration, Instant};

verus! {

// ---------------------------------------------------------------------------
// Probes
// ---------------------------------------------------------------------------

/// What a backend is asked for to find out whether it is up.
pub open spec fn check_uri(addr: Seq<char>, uri: Seq<char>) -> Seq<char> {
    let scheme = if text::begins(addr, "http://"@) || text::begins(addr, "https://"@) {
        ""@
    } else {
        "http://"@
    };
    let separator = if text::begins(uri, "/"@) {
        ""@
    } else {
        "/"@
    };
    scheme + addr + separator + uri
}

/// What a backend is asked for to find out whether it is up.
pub fn health_check_uri(addr: &str, uri: &str) -> (r: String)
    ensures
        r@ == check_uri(addr@, uri@),
{
    let scheme = if text::starts_with(addr, "http://") || text::starts_with(addr, "https://") {
        ""
    } else {
        "http://"
    };
    let separator = if text::starts_with(uri, "/") {
        ""
    } else {
        "/"
    };
    text::join3(text::join(scheme, addr).as_str(), separator, uri)
}

/// Probes in a row that ended the same way.
#[derive(Clone, Copy, Debug, PartialEq, Eq, Structural)]
pub struct HealthCheckCounters {
    pub consecutive_ok: u32,
    pub consecutive_fail: u32,
}

impl DeepView for HealthCheckCounters {
    type V = HealthCheckCounters;

    open spec fn deep_view(&self) -> HealthCheckCounters {
        *self
    }
}

/// Counts under the addresses of backends.
pub type Counts = Seq<(Seq<char>, HealthCheckCounters)>;

/// The counts of an address.
pub open spec fn counts_of(c: Counts, addr: Seq<char>) -> HealthCheckCounters {
    match sorted_map::lookup(c, addr) {
        Some(n) => n,
        None => HealthCheckCounters { consecutive_ok: 0, consecutive_fail: 0 },
    }
}

/// The counts after one more probe.
pub open spec fn probed(n: HealthCheckCounters, ok: bool) -> HealthCheckCounters {
    if ok {
        HealthCheckCounters {
            consecutive_ok: n.consecutive_ok.wrapping_add(1),
            consecutive_fail: 0,
        }
    } else {
        HealthCheckCounters {
            consecutive_ok: 0,
            consecutive_fail: n.consecutive_fail.wrapping_add(1),
        }
    }
}

/// Whether a backend is up after one more probe: it goes up after enough good ones
/// in a row and down after enough bad ones.
pub open spec fn up_after(
    up: bool,
    n: HealthCheckCounters,
    ok: bool,
    config: HealthCheckConfigView,
) -> bool {
    if ok {
        up || probed(n, ok).consecutive_ok >= config.healthy_threshold
    } else {
        up && probed(n, ok).consecutive_fail < config.unhealthy_threshold
    }
}

/// The pool after a probe of a backend.
pub open spec fn pool_probed(
    p: UpstreamPoolView,
    c: Counts,
    addr: Seq<char>,
    ok: bool,
    config: HealthCheckConfigView,
) -> UpstreamPoolView {
    let up = upstream::state_of(p, addr).0;
    let next = up_after(up, counts_of(c, addr), ok, config);
    if next != up {
        upstream::marked(p, addr, next)
    } else {
        p
    }
}

/// The counts from entry `i` on of addresses that backends still have.
pub open spec fn retained(c: Counts, bs: Seq<BackendView>, i: int) -> Counts
    decreases c.len() - i,
{
    if i < 0 || i >= c.len() {
        seq![]
    } else if upstream::has_addr(bs, c[i].0) {
        seq![c[i]] + retained(c, bs, i + 1)
    } else {
        retained(c, bs, i + 1)
    }
}

/// Decides from probes which backends are up. The probes themselves are made
/// elsewhere.
pub struct HealthChecker {
    pub config: HealthCheckConfig,
    pub counters: SortedMap<String, HealthCheckCounters>,
}

impl HealthChecker {
    /// The counts that are kept.
    pub open spec fn counts(&self) -> Counts {
        self.counters.deep_view()
    }

    /// A checker that has seen no probe.
    pub fn new(config: &HealthCheckConfig) -> (h: HealthChecker)
        ensures
            h.config.deep_view() == config.deep_view(),
            h.counts() == Counts::empty(),
    {
        let counters: SortedMap<String, HealthCheckCounters> = SortedMap::new();
        assert(counters.deep_view() =~= Counts::empty());
        HealthChecker { config: config.duplicate(), counters }
    }

    /// Begins a round of probes of the backends: what is known of addresses that
    /// none of them has is forgotten.
    pub fn begin_round(&mut self, snapshot: &BackendSnapshot)
        ensures
            final(self).counts() == retained(old(self).counts(), snapshot.deep_view(), 0),
            final(self).config == old(self).config,
    {
        let ghost c = self.counters.deep_view();
        let ghost es = snapshot.deep_view();
        let mut kept: Vec<(String, HealthCheckCounters)> = Vec::new();
        assert(kept.deep_view() + retained(c, es, 0) =~= retained(c, es, 0));
        for i in 0..self.counters.entries.len()
            invariant
                c == self.counters.deep_view(),
                es == snapshot.deep_view(),
                kept.deep_view() + retained(c, es, i as int) == retained(c, es, 0),
        {
            assert(c[i as int] == self.counters.entries@[i as int].deep_view());
            let e = &self.counters.entries[i];
            if snapshot.has(e.0.as_str()) {
                let ghost before = kept.deep_view();
                kept.push((e.0.clone(), e.1));
                assert(kept.deep_view() =~= before.push(c[i as int]));
                assert(kept.deep_view() + retained(c, es, i + 1) =~= before + (seq![c[i as int]]
                    + retained(c, es, i + 1)));
            }
        }
        assert(kept.deep_view() =~= kept.deep_view() + retained(c, es, c.len() as int));
        self.counters = SortedMap { entries: kept };
    }

    /// Takes over how a probe of a backend ended: it answered with success or it
    /// did not.
    pub fn record_probe(&mut self, pool: &mut UpstreamPool, addr: &str, ok: bool)
        ensures
            final(self).config == old(self).config,
            final(self).counts() == sorted_map::put::<String, HealthCheckCounters>(
                old(self).counts(),
                addr@,
                probed(counts_of(old(self).counts(), addr@), ok),
            ),
            final(pool).deep_view() == pool_probed(
                old(pool).deep_view(),
                old(self).counts(),
                addr@,
                ok,
                old(self).config.deep_view(),
            ),
    {
        let key = addr.to_owned();
        let mut n = match self.counters.get(&key) {
            Some(n) => *n,
            None => HealthCheckCounters { consecutive_ok: 0, consecutive_fail: 0 },
        };
        if ok {
            n.consecutive_fail = 0;
            n.consecutive_ok = n.consecutive_ok.wrapping_add(1);
            if n.consecutive_ok >= self.config.healthy_threshold && !pool.is_up(addr) {
                pool.mark(addr, true);
            }
        } else {
            n.consecutive_ok = 0;
            n.consecutive_fail = n.consecutive_fail.wrapping_add(1);
            if n.consecutive_fail >= self.config.unhealthy_threshold && pool.is_up(addr) {
                pool.mark(addr, false);
            }
        }
        self.counters.insert(key, n);
    }
}

/// Probes that all end badly do not take a backend down before there are as many as
/// the threshold, and take it down then.
pub proof fn lemma_down_at_threshold(n: HealthCheckCounters, config: HealthCheckConfigView)
    requires
        n.consecutive_fail < u32::MAX,
    ensures
        up_after(true, n, false, config) == (n.consecutive_fail + 1 < config.unhealthy_threshold),
        up_after(true, n, true, config),
        !up_after(false, n, false, config),
{
}

// ---------------------------------------------------------------------------
// Failures of requests
// ---------------------------------------------------------------------------

/// What is known of the failures of a backend.
#[verifier::ext_equal]
pub struct PassiveEntryView {
    /// When the failures were that still count, in nanoseconds.
    pub failures: Seq<u128>,
    /// Whether the backend was taken down for them.
    pub disabled: bool,
    /// When it was taken down.
    pub disabled_at: Option<u128>,
}

/// A record of a backend: whether it was taken down, whether the time is known, the
/// time, and the failures.
pub open spec fn entry_in(r: Seq<u128>) -> PassiveEntryView {
    if r.len() >= 3 {
        PassiveEntryView {
            failures: r.subrange(3, r.len() as int),
            disabled: r[0] == 1,
            disabled_at: if r[1] == 1 {
                Some(r[2])
            } else {
                None
            },
        }
    } else {
        PassiveEntryView { failures: seq![], disabled: false, disabled_at: None }
    }
}

/// What is known of an address.
pub open spec fn passive_of(m: Map<Seq<char>, Seq<u128>>, addr: Seq<char>) -> PassiveEntryView {
    if m.contains_key(addr) {
        entry_in(m[addr])
    } else {
        PassiveEntryView { failures: seq![], disabled: false, disabled_at: None }
    }
}

/// What a record says of a backend.
struct PassiveEntry {
    failures: Vec<u128>,
    disabled: bool,
    disabled_at: Option<u128>,
}

impl DeepView for PassiveEntry {
    type V = PassiveEntryView;

    closed spec fn deep_view(&self) -> PassiveEntryView {
        PassiveEntryView {
            failures: self.failures@,
            disabled: self.disabled,
            disabled_at: self.disabled_at,
        }
    }
}

/// The record of an entry.
pub open spec fn record_of(e: PassiveEntryView) -> Seq<u128> {
    seq![
        if e.disabled {
            1u128
        } else {
            0u128
        },
        if e.disabled_at is Some {
            1u128
        } else {
            0u128
        },
        match e.disabled_at {
            Some(t) => t,
            None => 0u128,
        },
    ] + e.failures
}

/// A record stands for the entry that it was made of.
pub proof fn lemma_record(e: PassiveEntryView)
    ensures
        entry_in(record_of(e)) == e,
{
    let r = record_of(e);
    assert(r.subrange(3, r.len() as int) =~= e.failures);
}

impl PassiveEntry {
    /// The record of the entry.
    fn record(&self) -> (r: Vec<u128>)
        ensures
            r@ == record_of(self.deep_view()),
    {
        let mut r: Vec<u128> = Vec::new();
        r.push(
            if self.disabled {
                1
            } else {
                0
            },
        );
        match self.disabled_at {
            Some(t) => {
                r.push(1);
                r.push(t);
            },
            None => {
                r.push(0);
                r.push(0);
            },
        }
        let ghost head = r@;
        assert(head + self.failures@.take(0) =~= head);
        for i in 0..self.failures.len()
            invariant
                r@ == head + self.failures@.take(i as int),
        {
            r.push(self.failures[i]);
            assert(self.failures@.take(i + 1) =~= self.failures@.take(i as int).push(
                self.failures@[i as int],
            ));
            assert(head + self.failures@.take(i + 1) =~= (head + self.failures@.take(
                i as int,
            )).push(self.failures@[i as int]));
        }
        assert(self.failures@.take(self.failures@.len() as int) =~= self.failures@);
        assert(r@ =~= record_of(self.deep_view()));
        r
    }
}

/// The times from `i` on that are less than `window` before `now`.
pub open spec fn recent(ts: Seq<u128>, now: Instant, window: nat, i: int) -> Seq<u128>
    decreases ts.len() - i,
{
    if i < 0 || i >= ts.len() {
        seq![]
    } else if now.after(Instant { nanos: ts[i] }) < window {
        seq![ts[i]] + recent(ts, now, window, i + 1)
    } else {
        recent(ts, now, window, i + 1)
    }
}

/// What is known of a backend after one more failure.
pub open spec fn after_failure(
    e: PassiveEntryView,
    now: Instant,
    config: PassiveHealthConfigView,
) -> PassiveEntryView {
    let failures = recent(e.failures.push(now.nanos), now, config.fail_window, 0);
    if failures.len() as u32 >= config.max_fails && !e.disabled {
        PassiveEntryView { failures, disabled: true, disabled_at: Some(now.nanos) }
    } else {
        PassiveEntryView { failures, ..e }
    }
}

/// Tells whether a backend that was taken down may be tried again.
pub open spec fn may_recover(
    e: PassiveEntryView,
    now: Instant,
    config: PassiveHealthConfigView,
) -> bool {
    e.disabled && match e.disabled_at {
        Some(t) => now.after(Instant { nanos: t }) >= config.cooldown,
        None => false,
    }
}

/// Takes backends down for a while whose requests fail too often.
pub struct PassiveHealthChecker {
    entries: Table,
    config: PassiveHealthConfig,
}

/// The plain values of a [`PassiveHealthChecker`].
#[verifier::ext_equal]
pub struct PassiveView {
    pub entries: Map<Seq<char>, Seq<u128>>,
    pub config: PassiveHealthConfigView,
}

impl DeepView for PassiveHealthChecker {
    type V = PassiveView;

    closed spec fn deep_view(&self) -> PassiveView {
        PassiveView { entries: table::records(self.entries), config: self.config.deep_view() }
    }
}

/// The checker after a failure of a backend.
pub open spec fn failure_noted(h: PassiveView, addr: Seq<char>, now: Instant) -> PassiveView {
    PassiveView {
        entries: h.entries.insert(
            addr,
            record_of(after_failure(passive_of(h.entries, addr), now, h.config)),
        ),
        ..h
    }
}

/// The pool after a failure of a backend: the backend is marked as down where this
/// failure is the one too many.
pub open spec fn pool_after_failure(
    p: UpstreamPoolView,
    h: PassiveView,
    addr: Seq<char>,
    now: Instant,
) -> UpstreamPoolView {
    let e = passive_of(h.entries, addr);
    if !e.disabled && after_failure(e, now, h.config).disabled {
        upstream::marked(p, addr, false)
    } else {
        p
    }
}

/// The record of a backend after a check whether it may be tried again.
pub open spec fn checked(r: Seq<u128>, now: Instant, config: PassiveHealthConfigView) -> Seq<u128> {
    if may_recover(entry_in(r), now, config) {
        record_of(PassiveEntryView { failures: seq![], disabled: false, disabled_at: None })
    } else {
        r
    }
}

/// The checker after a check of all backends: addresses that none of them has are
/// forgotten, and those that may be tried again start anew.
pub open spec fn recovered(h: PassiveView, es: Entries, now: Instant) -> PassiveView {
    PassiveView {
        entries: Map::new(
            |k: Seq<char>| h.entries.contains_key(k) && upstream::has_entry(es, k),
            |k: Seq<char>| checked(h.entries[k], now, h.config),
        ),
        ..h
    }
}

/// The pool after a check of the backends from `i` on: those that may be tried
/// again are marked as up.
pub open spec fn revived(
    p: UpstreamPoolView,
    h: PassiveView,
    es: Entries,
    now: Instant,
    i: int,
) -> UpstreamPoolView
    decreases es.len() - i,
{
    if i < 0 || i >= es.len() {
        p
    } else {
        let addr = es[i].backend.addr;
        if may_recover(passive_of(h.entries, addr), now, h.config) {
            revived(upstream::marked(p, addr, true), h, es, now, i + 1)
        } else {
            revived(p, h, es, now, i + 1)
        }
    }
}

impl PassiveHealthChecker {
    /// A checker that knows of no failure.
    pub fn new(config: &PassiveHealthConfig) -> (h: PassiveHealthChecker)
        ensures
            h.deep_view() == (PassiveView {
                entries: Map::empty(),
                config: config.deep_view(),
            }),
    {
        let entries = new_table();
        assert(table::records(entries) =~= Map::empty());
        PassiveHealthChecker { entries, config: config.duplicate() }
    }

    /// What is known of an address.
    fn entry_for(&self, addr: &str) -> (e: PassiveEntry)
        ensures
            e.deep_view() == passive_of(self.deep_view().entries, addr@),
    {
        if let Some(r) = fetch(&self.entries, addr) {
            if r.len() >= 3 {
                let mut failures: Vec<u128> = Vec::new();
                for i in 3..r.len()
                    invariant
                        r@.len() >= 3,
                        failures@ == r@.subrange(3, i as int),
                {
                    failures.push(r[i]);
                    assert(r@.subrange(3, i + 1) =~= r@.subrange(3, i as int).push(r@[i as int]));
                }
                return PassiveEntry {
                    failures,
                    disabled: r[0] == 1,
                    disabled_at: if r[1] == 1 {
                        Some(r[2])
                    } else {
                        None
                    },
                };
            }
        }
        let failures: Vec<u128> = Vec::new();
        assert(failures@ =~= seq![]);
        PassiveEntry { failures, disabled: false, disabled_at: None }
    }

    /// Notes a failure of a backend. Too many within the window take it down.
    pub fn record_failure(&mut self, pool: &mut UpstreamPool, addr: &str, now: Instant)
        ensures
            final(self).deep_view() == failure_noted(old(self).deep_view(), addr@, now),
            final(pool).deep_view() == pool_after_failure(
                old(pool).deep_view(),
                old(self).deep_view(),
                addr@,
                now,
            ),
    {
        let mut e = self.entry_for(addr);
        e.failures.push(now.nanos);
        let window: u128 = self.config.fail_window.as_nanos();
        let ghost ts = e.failures@;
        let mut kept: Vec<u128> = Vec::new();
        assert(kept@ + recent(ts, now, window as nat, 0) =~= recent(ts, now, window as nat, 0));
        for i in 0..e.failures.len()
            invariant
                ts == e.failures@,
                kept@ + recent(ts, now, window as nat, i as int) == recent(
                    ts,
                    now,
                    window as nat,
                    0,
                ),
        {
            let t: u128 = e.failures[i];
            if now.nanos_since(Instant { nanos: t }) < window {
                let ghost before = kept@;
                kept.push(t);
                assert(kept@ + recent(ts, now, window as nat, i + 1) =~= before + (seq![t]
                    + recent(ts, now, window as nat, i + 1)));
            }
        }
        assert(kept@ =~= kept@ + recent(ts, now, window as nat, ts.len() as int));
        e.failures = kept;
        if e.failures.len() as u32 >= self.config.max_fails && !e.disabled {
            e.disabled = true;
            e.disabled_at = Some(now.nanos);
            pool.mark(addr, false);
        }
        store(&mut self.entries, addr, e.record());
    }

    /// Forgets addresses that no backend has.
    fn forget(&mut self, snapshot: &BackendSnapshot)
        ensures
            final(self).deep_view().config == old(self).deep_view().config,
            forall|k: Seq<char>| #[trigger]
                final(self).deep_view().entries.contains_key(k) <==> old(self).deep_view().entries.contains_key(k) && upstream::has_addr(
                    snapshot.deep_view(),
                    k,
                ),
            forall|k: Seq<char>| #[trigger]
                final(self).deep_view().entries.contains_key(k) ==> final(self).deep_view().entries[k] == old(self).deep_view().entries[k],
    {
        let ks = keys(&self.entries);
        let ghost m = table::records(self.entries);
        let ghost es = snapshot.deep_view();
        for i in 0..ks.len()
            invariant
                es == snapshot.deep_view(),
                self.config == old(self).config,
                forall|k: Seq<char>| #[trigger]
                    table::records(self.entries).contains_key(k) <==> m.contains_key(k) && !(
                    !upstream::has_addr(es, k) && ks.deep_view().take(i as int).contains(k)),
                forall|k: Seq<char>| #[trigger]
                    table::records(self.entries).contains_key(k) ==> table::records(
                        self.entries,
                    )[k] == m[k],
        {
            let ghost before = table::records(self.entries);
            let ghost x = ks@[i as int]@;
            assert(ks.deep_view().take(i + 1) =~= ks.deep_view().take(i as int).push(x));
            if !snapshot.has(ks[i].as_str()) {
                erase(&mut self.entries, ks[i].as_str());
            }
            assert forall|k: Seq<char>| #[trigger]
                table::records(self.entries).contains_key(k) <==> m.contains_key(k) && !(
                !upstream::has_addr(es, k) && ks.deep_view().take(i + 1).contains(k)) by {
                let a = ks.deep_view().take(i as int);
                let b = a.push(x);
                assert(before.contains_key(k) <==> m.contains_key(k) && !(!upstream::has_addr(
                    es,
                    k,
                ) && a.contains(k)));
                if b.contains(k) && k != x {
                    let j = choose|j: int| 0 <= j < b.len() && b[j] == k;
                    assert(a[j] == k);
                }
                if a.contains(k) {
                    let j = choose|j: int| 0 <= j < a.len() && a[j] == k;
                    assert(b[j] == k);
                }
                assert(b[a.len() as int] == x);
            }
        }
        assert(ks.deep_view().take(ks.deep_view().len() as int) =~= ks.deep_view());
    }

    /// Lets backends that were taken down long enough ago be tried again.
    pub fn maybe_recover(&mut self, pool: &mut UpstreamPool, now: Instant)
        ensures
            final(self).deep_view() == recovered(
                old(self).deep_view(),
                upstream::entries(old(pool).deep_view()),
                now,
            ),
            final(pool).deep_view() == revived(
                old(pool).deep_view(),
                old(self).deep_view(),
                upstream::entries(old(pool).deep_view()),
                now,
                0,
            ),
    {
        let snapshot = pool.snapshot();
        let ghost es = upstream::entries(pool.deep_view());
        let ghost h = self.deep_view();
        self.forget(&snapshot);
        proof {
            assert forall|k: Seq<char>| #[trigger]
                upstream::has_entry(es, k) == upstream::has_addr(snapshot.deep_view(), k) by {
                let bs = snapshot.deep_view();
                if upstream::has_entry(es, k) {
                    let j = choose|j: int| 0 <= j < es.len() && (#[trigger] es[j]).backend.addr == k;
                    assert(bs[j].addr == k);
                }
                if upstream::has_addr(bs, k) {
                    let j = choose|j: int| 0 <= j < bs.len() && (#[trigger] bs[j]).addr == k;
                    assert(es[j].backend.addr == k);
                }
            }
        }
        let cooldown: u128 = self.config.cooldown.as_nanos();
        proof {
            upstream::lemma_snapshot_addresses(pool.deep_view());
            assert forall|j: int|
                0 <= j < es.len() && h.entries.contains_key(
                    (#[trigger] es[j]).backend.addr,
                ) implies self.deep_view().entries[es[j].backend.addr]
                == h.entries[es[j].backend.addr] by {
                assert(upstream::has_entry(es, es[j].backend.addr));
                assert(self.deep_view().entries.contains_key(es[j].backend.addr));
            }
        }
        let n = snapshot.len();
        for i in 0..n
            invariant
                n == es.len(),
                n == snapshot.deep_view().len(),
                forall|j: int|
                    0 <= j < es.len() ==> (#[trigger] es[j]).backend == snapshot.deep_view()[j],
                cooldown == h.config.cooldown,
                self.deep_view().config == h.config,
                forall|a: int, b: int|
                    0 <= a < b < es.len() ==> (#[trigger] es[a]).backend.addr != (
                    #[trigger] es[b]).backend.addr,
                revived(old(pool).deep_view(), h, es, now, 0) == revived(
                    pool.deep_view(),
                    h,
                    es,
                    now,
                    i as int,
                ),
                forall|k: Seq<char>| #[trigger]
                    self.deep_view().entries.contains_key(k) <==> h.entries.contains_key(k)
                        && upstream::has_entry(es, k),
                forall|j: int|
                    0 <= j < i && h.entries.contains_key((#[trigger] es[j]).backend.addr)
                        ==> self.deep_view().entries[es[j].backend.addr] == checked(
                        h.entries[es[j].backend.addr],
                        now,
                        h.config,
                    ),
                forall|j: int|
                    i <= j < es.len() && h.entries.contains_key((#[trigger] es[j]).backend.addr)
                        ==> self.deep_view().entries[es[j].backend.addr]
                        == h.entries[es[j].backend.addr],
        {
            let ghost before = self.deep_view().entries;
            assert(es[i as int].backend == snapshot.entries@[i as int].deep_view());
            let addr = snapshot.entries[i].backend.addr.as_str();
            assert(upstream::has_entry(es, addr@));
            assert(before.contains_key(addr@) == h.entries.contains_key(addr@));
            let e = self.entry_for(addr);
            assert(e.deep_view() == passive_of(h.entries, addr@));
            let ready = match e.disabled_at {
                Some(t) => e.disabled && now.nanos_since(Instant { nanos: t }) >= cooldown,
                None => false,
            };
            if ready {
                let fresh = PassiveEntry {
                    failures: Vec::new(),
                    disabled: false,
                    disabled_at: None,
                };
                assert(fresh.deep_view() =~= PassiveEntryView {
                    failures: seq![],
                    disabled: false,
                    disabled_at: None,
                });
                store(&mut self.entries, addr, fresh.record());
                pool.mark(addr, true);
            }
        }
        proof {
            let goal = recovered(h, es, now).entries;
            let got = self.deep_view().entries;
            assert forall|k: Seq<char>| goal.contains_key(k) implies goal[k] == got[k] by {
                let j = choose|j: int| 0 <= j < es.len() && (#[trigger] es[j]).backend.addr == k;
                assert(es[j].backend.addr == k);
            }
            assert(goal =~= got);
        }
    }

    /// Tells whether an address has been taken down for its failures.
    pub fn is_disabled(&self, addr: &str) -> (r: bool)
        ensures
            r == passive_of(self.deep_view().entries, addr@).disabled,
    {
        self.entry_for(addr).disabled
    }
}

/// With a threshold of one, the first failure takes a backend down; after the
/// cooldown it may be tried again, and not before.
pub proof fn lemma_disabled_until_cooldown(
    e: PassiveEntryView,
    now: Instant,
    later: Instant,
    config: PassiveHealthConfigView,
)
    requires
        !e.disabled,
        after_failure(e, now, config).disabled,
    ensures
        may_recover(after_failure(e, now, config), later, config) == (later.after(now)
            >= config.cooldown),
{
}

/// A failure counts for as long as it lies within the window: fewer failures than
/// the threshold in the window never take a backend down.
pub proof fn lemma_few_failures_do_not_disable(
    e: PassiveEntryView,
    now: Instant,
    config: PassiveHealthConfigView,
)
    requires
        !e.disabled,
        recent(e.failures.push(now.nanos), now, config.fail_window, 0).len() < config.max_fails,
    ensures
        !after_failure(e, now, config).disabled,
{
}

/// The counts after so many probes in a row that ended the same way.
pub open spec fn probed_times(n: HealthCheckCounters, ok: bool, times: nat) -> HealthCheckCounters
    decreases times,
{
    if times == 0 {
        n
    } else {
        probed(probed_times(n, ok, (times - 1) as nat), ok)
    }
}

/// A backend that was up goes down with as many bad probes in a row as the threshold says
/// and not with fewer; one that was down comes up with as many good ones as that threshold
/// says and not with fewer. A probe that ends otherwise begins the count anew.
pub proof fn lemma_thresholds(
    n: HealthCheckCounters,
    times: nat,
    config: HealthCheckConfigView,
)
    requires
        times < u32::MAX,
    ensures
        n.consecutive_fail == 0 ==> probed_times(n, false, times).consecutive_fail == times
            && up_after(true, probed_times(n, false, times), false, config) == (times + 1
            < config.unhealthy_threshold),
        n.consecutive_ok == 0 ==> probed_times(n, true, times).consecutive_ok == times && up_after(
            false,
            probed_times(n, true, times),
            true,
            config,
        ) == (times + 1 >= config.healthy_threshold),
        probed(n, true).consecutive_fail == 0,
        probed(n, false).consecutive_ok == 0,
        up_after(true, n, true, config),
        !up_after(false, n, false, config),
    decreases times,
{
    if times > 0 {
        lemma_thresholds(n, (times - 1) as nat, config);
    }
}

/// A probe changes what is known of its backend alone: whether it is up is what the probe
/// makes it, its connections stay, and so does everything else.
pub proof fn lemma_probe_of_one(
    p: UpstreamPoolView,
    c: Counts,
    addr: Seq<char>,
    ok: bool,
    config: HealthCheckConfigView,
    other: Seq<char>,
)
    ensures
        ({
            let q = pool_probed(p, c, addr, ok, config);
            &&& upstream::state_of(q, addr).0 == up_after(
                upstream::state_of(p, addr).0,
                counts_of(c, addr),
                ok,
                config,
            )
            &&& upstream::state_of(q, addr).1 == upstream::state_of(p, addr).1
            &&& other != addr ==> upstream::state_of(q, other) == upstream::state_of(p, other)
            &&& q.fixed == p.fixed && q.dns == p.dns && q.srv == p.srv
        }),
{
    upstream::lemma_state_by_address(p, addr, true);
    upstream::lemma_state_by_address(p, addr, false);
}

/// The failures that count are those within the window, in their order.
pub proof fn lemma_recent(ts: Seq<u128>, now: Instant, window: nat, i: int, t: u128)
    requires
        0 <= i,
    ensures
        recent(ts, now, window, i).contains(t) <==> now.after(Instant { nanos: t }) < window
            && exists|j: int| i <= j < ts.len() && #[trigger] ts[j] == t,
        i <= ts.len() && (forall|j: int|
            i <= j < ts.len() ==> now.after(Instant { nanos: #[trigger] ts[j] }) < window) ==> recent(
            ts,
            now,
            window,
            i,
        ) == ts.skip(i),
        i <= ts.len() && (forall|j: int|
            i <= j < ts.len() ==> now.after(Instant { nanos: #[trigger] ts[j] }) >= window)
            ==> recent(ts, now, window, i).len() == 0,
    decreases ts.len() - i,
{
    if i < ts.len() {
        lemma_recent(ts, now, window, i + 1, t);
        let rest = recent(ts, now, window, i + 1);
        let all = recent(ts, now, window, i);
        if now.after(Instant { nanos: ts[i] }) < window {
            assert(all[0] == ts[i]);
            if rest.contains(t) {
                let k = choose|k: int| 0 <= k < rest.len() && rest[k] == t;
                assert(all[k + 1] == t);
            }
            if all.contains(t) && ts[i] != t {
                let k = choose|k: int| 0 <= k < all.len() && all[k] == t;
                assert(rest[k - 1] == t);
            }
            assert(seq![ts[i]] + ts.skip(i + 1) =~= ts.skip(i));
        }
    } else if i == ts.len() {
        assert(ts.skip(i) =~= seq![]);
    }
}

/// As many failures within the window as are allowed take a backend down, and failures
/// that lie further back do not count.
pub proof fn lemma_failures_take_down(
    e: PassiveEntryView,
    now: Instant,
    config: PassiveHealthConfigView,
)
    requires
        !e.disabled,
        e.failures.len() < u32::MAX,
        config.fail_window > 0,
    ensures
        (forall|j: int|
            0 <= j < e.failures.len() ==> now.after(Instant { nanos: #[trigger] e.failures[j] })
                < config.fail_window) ==> after_failure(e, now, config).disabled == (
        e.failures.len() + 1 >= config.max_fails),
        (forall|j: int|
            0 <= j < e.failures.len() ==> now.after(Instant { nanos: #[trigger] e.failures[j] })
                >= config.fail_window) ==> after_failure(e, now, config).disabled == (1
            >= config.max_fails),
        after_failure(e, now, config).disabled ==> after_failure(e, now, config).disabled_at
            == Some(now.nanos),
{
    let ts = e.failures.push(now.nanos);
    let w = config.fail_window;
    if forall|j: int|
        0 <= j < e.failures.len() ==> now.after(Instant { nanos: #[trigger] e.failures[j] }) < w {
        assert forall|j: int| 0 <= j < ts.len() implies now.after(
            Instant { nanos: #[trigger] ts[j] },
        ) < w by {
            if j < e.failures.len() {
                assert(ts[j] == e.failures[j]);
            }
        }
        lemma_recent(ts, now, w, 0, now.nanos);
        assert(ts.skip(0) =~= ts);
    }
    if forall|j: int|
        0 <= j < e.failures.len() ==> now.after(Instant { nanos: #[trigger] e.failures[j] }) >= w {
        lemma_last_recent(e.failures, now, w, 0);
    }
}

/// Where all but the last time lie too far back the last one alone counts.
proof fn lemma_last_recent(fs: Seq<u128>, now: Instant, window: nat, i: int)
    requires
        0 <= i <= fs.len(),
        window > 0,
        forall|j: int|
            0 <= j < fs.len() ==> now.after(Instant { nanos: #[trigger] fs[j] }) >= window,
    ensures
        recent(fs.push(now.nanos), now, window, i) == seq![now.nanos],
    decreases fs.len() - i,
{
    let ts = fs.push(now.nanos);
    if i < fs.len() {
        assert(ts[i] == fs[i]);
        lemma_last_recent(fs, now, window, i + 1);
    } else {
        assert(recent(ts, now, window, i + 1) =~= seq![]);
        assert(recent(ts, now, window, i) =~= seq![now.nanos]);
    }
}

/// A failure that takes a backend down marks it so in the pool, and marks no other; one
/// that does not leaves the pool as it is.
pub proof fn lemma_taken_down_in_pool(
    p: UpstreamPoolView,
    h: PassiveView,
    addr: Seq<char>,
    now: Instant,
    other: Seq<char>,
)
    ensures
        ({
            let e = passive_of(h.entries, addr);
            let q = pool_after_failure(p, h, addr, now);
            let g = failure_noted(h, addr, now);
            &&& !e.disabled && after_failure(e, now, h.config).disabled ==> !upstream::state_of(
                q,
                addr,
            ).0
            &&& e.disabled || !after_failure(e, now, h.config).disabled ==> q == p
            &&& other != addr ==> upstream::state_of(q, other) == upstream::state_of(p, other)
                && passive_of(g.entries, other) == passive_of(h.entries, other)
            &&& passive_of(g.entries, addr) == after_failure(e, now, h.config)
            &&& g.config == h.config
        }),
{
    upstream::lemma_state_by_address(p, addr, false);
    lemma_record(after_failure(passive_of(h.entries, addr), now, h.config));
}

/// A backend that was taken down is up again, with no failures, once the cooldown is over,
/// and stays down until then; what was not taken down stays as it is.
pub proof fn lemma_up_after_cooldown(
    p: UpstreamPoolView,
    h: PassiveView,
    now: Instant,
    addr: Seq<char>,
)
    requires
        upstream::has_entry(upstream::entries(p), addr),
        h.entries.contains_key(addr),
    ensures
        ({
            let es = upstream::entries(p);
            let e = passive_of(h.entries, addr);
            let q = revived(p, h, es, now, 0);
            let g = recovered(h, es, now);
            let over = e.disabled && (e.disabled_at matches Some(t) && now.after(
                Instant { nanos: t },
            ) >= h.config.cooldown);
            &&& over ==> upstream::state_of(q, addr).0 && !passive_of(g.entries, addr).disabled
                && passive_of(g.entries, addr).failures.len() == 0
            &&& !over ==> upstream::state_of(q, addr) == upstream::state_of(p, addr) && passive_of(
                g.entries,
                addr,
            ) == e
            &&& g.config == h.config
        }),
{
    let es = upstream::entries(p);
    lemma_revived(p, h, es, now, 0, addr);
    lemma_record(PassiveEntryView { failures: seq![], disabled: false, disabled_at: None });
    let n = choose|n: int| 0 <= n < es.len() && (#[trigger] es[n]).backend.addr == addr;
    assert(es[n].backend.addr == addr);
}

/// Which addresses a check of the backends from `i` on marks as up.
proof fn lemma_revived(
    p: UpstreamPoolView,
    h: PassiveView,
    es: Entries,
    now: Instant,
    i: int,
    addr: Seq<char>,
)
    requires
        0 <= i,
    ensures
        upstream::state_of(revived(p, h, es, now, i), addr) == (if may_recover(
            passive_of(h.entries, addr),
            now,
            h.config,
        ) && exists|j: int| i <= j < es.len() && (#[trigger] es[j]).backend.addr == addr {
            (true, upstream::state_of(p, addr).1)
        } else {
            upstream::state_of(p, addr)
        }),
    decreases es.len() - i,
{
    if i < es.len() {
        let a = es[i].backend.addr;
        if may_recover(passive_of(h.entries, a), now, h.config) {
            upstream::lemma_state_by_address(p, a, true);
            lemma_revived(upstream::marked(p, a, true), h, es, now, i + 1, addr);
        } else {
            lemma_revived(p, h, es, now, i + 1, addr);
        }
    }
}

/// A backend is asked by HTTP where its address names no scheme, and there is one slash
/// between the address and what is asked for.
pub proof fn lemma_check_uri(addr: Seq<char>, uri: Seq<char>)
    requires
        !text::begins(addr, "http://"@),
        !text::begins(addr, "https://"@),
    ensures
        uri.len() > 0 && uri[0] == '/' ==> check_uri(addr, uri) == "http://"@ + addr + uri,
        uri.len() == 0 || uri[0] != '/' ==> check_uri(addr, uri) == "http://"@ + addr + seq!['/']
            + uri,
        check_uri("http://"@ + addr, seq!['/'] + uri) == "http://"@ + addr + seq!['/'] + uri,
        check_uri("https://"@ + addr, seq!['/'] + uri) == "https://"@ + addr + seq!['/'] + uri,
{
    reveal_strlit("/");
    reveal_strlit("");
    assert("/"@ =~= seq!['/']);
    if uri.len() > 0 {
        assert(uri.subrange(0, 1)[0] == uri[0]);
        if uri[0] == '/' {
            assert(uri.subrange(0, 1) =~= "/"@);
        }
    }
    assert("http://"@ + addr + ""@ + uri =~= "http://"@ + addr + uri);
    text::lemma_after_prefix("http://"@, addr);
    text::lemma_after_prefix("https://"@, addr);
    text::lemma_after_prefix("/"@, uri);
    assert(""@ + ("http://"@ + addr) + ""@ + (seq!['/'] + uri) =~= "http://"@ + addr + seq!['/']
        + uri);
    assert(""@ + ("https://"@ + addr) + ""@ + (seq!['/'] + uri) =~= "https://"@ + addr + seq!['/']
        + uri);
}

/// A round of probes keeps the counts of the addresses that are still there, as they are and
/// in their order, and forgets exactly the others.
pub proof fn lemma_counts_of_present(c: Counts, bs: Seq<BackendView>, x: (Seq<char>, HealthCheckCounters))
    ensures
        retained(c, bs, 0).contains(x) <==> c.contains(x) && exists|i: int|
            0 <= i < bs.len() && (#[trigger] bs[i]).addr == x.0,
        (forall|i: int| 0 <= i < c.len() ==> upstream::has_addr(bs, (#[trigger] c[i]).0))
            ==> retained(c, bs, 0) == c,
{
    lemma_retained(c, bs, 0, x);
    assert(c.skip(0) =~= c);
}

/// What is kept of the counts from `i` on.
proof fn lemma_retained(
    c: Counts,
    bs: Seq<BackendView>,
    i: int,
    x: (Seq<char>, HealthCheckCounters),
)
    requires
        0 <= i <= c.len(),
    ensures
        retained(c, bs, i).contains(x) <==> c.skip(i).contains(x) && upstream::has_addr(bs, x.0),
        (forall|k: int| i <= k < c.len() ==> upstream::has_addr(bs, (#[trigger] c[k]).0))
            ==> retained(c, bs, i) == c.skip(i),
    decreases c.len() - i,
{
    if i < c.len() {
        lemma_retained(c, bs, i + 1, x);
        let rest = c.skip(i + 1);
        let kept = retained(c, bs, i + 1);
        assert(c.skip(i) =~= seq![c[i]] + rest);
        lemma_with_first(c[i], rest, x);
        lemma_with_first(c[i], kept, x);
    } else {
        assert(c.skip(i) =~= Seq::empty());
    }
}

/// What one with others behind it holds.
proof fn lemma_with_first<A>(a: A, s: Seq<A>, x: A)
    ensures
        (seq![a] + s).contains(x) <==> a == x || s.contains(x),
{
    let all = seq![a] + s;
    assert(all[0] == a);
    if s.contains(x) {
        let k = choose|k: int| 0 <= k < s.len() && s[k] == x;
        assert(all[k + 1] == x);
    }
    if all.contains(x) && a != x {
        let k = choose|k: int| 0 <= k < all.len() && all[k] == x;
        assert(s[k - 1] == x);
    }
}

} // verus!
