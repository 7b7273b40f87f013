//! Requests that are under way, counted by target.

use vstd::prelude::*;
use crate::table;
use crate::table::{fetch, new_table, store, Table};

verus! {

/// Counts the requests that are under way for each target.
pub struct BackendActivityTracker {
    counts: Table,
}

impl DeepView for BackendActivityTracker {
    type V = Map<Seq<char>, Seq<u128>>;

    closed spec fn deep_view(&self) -> Map<Seq<char>, Seq<u128>> {
        table::records(self.counts)
    }
}

/// The number of requests under way for a key.
pub open spec fn active_of(m: Map<Seq<char>, Seq<u128>>, key: Seq<char>) -> usize {
    if m.contains_key(key) && m[key].len() == 1 {
        m[key][0] as usize
    } else {
        0
    }
}

/// The counts with another number under a key.
pub open spec fn counted(
    m: Map<Seq<char>, Seq<u128>>,
    key: Seq<char>,
    n: usize,
) -> Map<Seq<char>, Seq<u128>> {
    m.insert(key, seq![n as u128])
}

/// A request that has been counted. It is given back with
/// [`BackendActivityTracker::release`] when it is done.
#[derive(Debug, PartialEq, Eq)]
pub struct BackendActivityGuard {
    key: String,
}

impl DeepView for BackendActivityGuard {
    type V = Seq<char>;

    closed spec fn deep_view(&self) -> Seq<char> {
        self.key@
    }
}

impl Default for BackendActivityTracker {
    fn default() -> (t: BackendActivityTracker)
        ensures
            t.deep_view().is_empty(),
    {
        BackendActivityTracker { counts: new_table() }
    }
}

impl BackendActivityTracker {
    /// Notes a number under a key.
    fn set(&mut self, key: &str, n: usize)
        ensures
            final(self).deep_view() == counted(old(self).deep_view(), key@, n),
    {
        let mut v: Vec<u128> = Vec::new();
        v.push(n as u128);
        assert(v@ =~= seq![n as u128]);
        store(&mut self.counts, key, v);
    }

    /// Counts a request for a key.
    pub fn acquire(&mut self, key: &str) -> (g: BackendActivityGuard)
        ensures
            g.deep_view() == key@,
            final(self).deep_view() == counted(
                old(self).deep_view(),
                key@,
                active_of(old(self).deep_view(), key@).wrapping_add(1),
            ),
    {
        let n = self.active(key);
        self.set(key, n.wrapping_add(1));
        BackendActivityGuard { key: key.to_owned() }
    }

    /// Gives back a request that is done.
    pub fn release(&mut self, guard: BackendActivityGuard)
        ensures
            final(self).deep_view() == counted(
                old(self).deep_view(),
                guard.deep_view(),
                active_of(old(self).deep_view(), guard.deep_view()).wrapping_sub(1),
            ),
    {
        let n = self.active(guard.key.as_str());
        self.set(guard.key.as_str(), n.wrapping_sub(1));
    }

    /// The number of requests under way for a key.
    pub fn active(&self, key: &str) -> (n: usize)
        ensures
            n == active_of(self.deep_view(), key@),
    {
        match fetch(&self.counts, key) {
            Some(v) => if v.len() == 1 {
                v[0] as usize
            } else {
                0
            },
            None => 0,
        }
    }
}

/// A request that was counted and given back leaves every count as it was; until
/// then it is counted once, and no other key is.
pub proof fn lemma_activity(m: Map<Seq<char>, Seq<u128>>, key: Seq<char>)
    ensures
        ({
            let n = active_of(m, key);
            let held = counted(m, key, n.wrapping_add(1));
            &&& active_of(held, key) == n.wrapping_add(1)
            &&& forall|k: Seq<char>| k != key ==> #[trigger] active_of(held, k) == active_of(m, k)
            &&& forall|k: Seq<char>| #[trigger]
                active_of(counted(held, key, active_of(held, key).wrapping_sub(1)), k) == active_of(
                    m,
                    k,
                )
        }),
{
}

} // verus!
