//! How many requests an address may make.

use vstd::prelude::*;
use crate::message;
use crate::message::{Headers, Response, ResponseView};
use crate::table;
use crate::table::{erase, fetch, keys, new_table, store, Table};
use crate::text;
use crate::time::{Duration, Instant};

verus! {

/// The buckets of the addresses: what is left in each, and when it was last filled.
pub type Buckets = Map<Seq<char>, Seq<u128>>;

/// When a bucket was last filled.
pub open spec fn filled_at(m: Buckets, ip: Seq<char>) -> Instant {
    Instant {
        nanos: if m[ip].len() == 2 {
            m[ip][1]
        } else {
            0
        },
    }
}

/// The bucket of an address was filled less than two windows ago.
pub open spec fn fresh(m: Buckets, ip: Seq<char>, now: Instant, window: nat) -> bool {
    now.after(filled_at(m, ip)) < 2 * window
}

/// The buckets that are left are the fresh ones, as they were.
pub open spec fn only_fresh(before: Buckets, after: Buckets, now: Instant, window: nat) -> bool {
    &&& forall|k: Seq<char>| #[trigger]
        after.contains_key(k) <==> before.contains_key(k) && fresh(before, k, now, window)
    &&& forall|k: Seq<char>| #[trigger] after.contains_key(k) ==> after[k] == before[k]
}

/// What is left in the bucket of an address, and the nanoseconds since it was filled.
pub open spec fn bucket_of(m: Buckets, ip: Seq<char>, now: Instant) -> Option<(u64, u128)> {
    if m.contains_key(ip) && m[ip].len() == 2 {
        Some((m[ip][0] as u64, now.after(filled_at(m, ip)) as u128))
    } else {
        None
    }
}

/// The buckets with what is left in that of an address.
pub open spec fn filled(m: Buckets, ip: Seq<char>, left: u64, now: Instant) -> Buckets {
    m.insert(ip, seq![left as u128, now.nanos])
}

/// The plain values of a [`RateLimitHoop`].
#[verifier::ext_equal]
pub struct RateLimitView {
    pub buckets: Buckets,
    pub max_tokens: u64,
    pub burst: u64,
    pub window: nat,
}

/// Keeps a bucket of tokens for every address. A request takes one, and they come back
/// at the rate of `max_tokens` in a window, up to `burst`.
///
/// What is left in a bucket is a number of 64 bits that is handed over as it is.
pub struct RateLimitHoop {
    buckets: Table,
    max_tokens: u64,
    burst: u64,
    window: Duration,
}

impl DeepView for RateLimitHoop {
    type V = RateLimitView;

    closed spec fn deep_view(&self) -> RateLimitView {
        RateLimitView {
            buckets: table::records(self.buckets),
            max_tokens: self.max_tokens,
            burst: self.burst,
            window: self.window.total(),
        }
    }
}

/// The most requests at once: as many as in a window where nothing else is said.
pub open spec fn most_at_once(burst: Option<u64>, max: u64) -> u64 {
    match burst {
        Some(b) => b,
        None => max,
    }
}

impl RateLimitHoop {
    /// Lets an address make so many requests in a window, and at most `burst` at once; as
    /// many as in a window where that is not said.
    pub fn new(window: Duration, max_requests: u64, burst: Option<u64>) -> (h: RateLimitHoop)
        ensures
            h.deep_view().buckets.is_empty(),
            h.deep_view().max_tokens == max_requests,
            h.deep_view().burst == most_at_once(burst, max_requests),
            h.deep_view().window == window.total(),
    {
        RateLimitHoop {
            buckets: new_table(),
            max_tokens: max_requests,
            burst: match burst {
                Some(b) => b,
                None => max_requests,
            },
            window,
        }
    }

    /// The requests in a window.
    pub fn max_tokens(&self) -> (r: u64)
        ensures
            r == self.deep_view().max_tokens,
    {
        self.max_tokens
    }

    /// The most requests at once.
    pub fn burst(&self) -> (r: u64)
        ensures
            r == self.deep_view().burst,
    {
        self.burst
    }

    /// The window.
    pub fn window(&self) -> (r: Duration)
        ensures
            r.total() == self.deep_view().window,
    {
        self.window
    }

    /// What is left in the bucket of an address, and the nanoseconds since it was filled.
    pub fn bucket(&self, ip: &str, now: Instant) -> (r: Option<(u64, u128)>)
        ensures
            r == bucket_of(self.deep_view().buckets, ip@, now),
    {
        match fetch(&self.buckets, ip) {
            Some(v) => if v.len() == 2 {
                Some((v[0] as u64, now.nanos_since(Instant { nanos: v[1] })))
            } else {
                None
            },
            None => None,
        }
    }

    /// Notes what is left in the bucket of an address.
    pub fn refill(&mut self, ip: &str, left: u64, now: Instant)
        ensures
            final(self).deep_view() == (RateLimitView {
                buckets: filled(old(self).deep_view().buckets, ip@, left, now),
                ..old(self).deep_view()
            }),
    {
        let mut record: Vec<u128> = Vec::new();
        record.push(left as u128);
        record.push(now.nanos);
        assert(record@ =~= seq![left as u128, now.nanos]);
        store(&mut self.buckets, ip, record);
    }

    /// Tells whether the bucket of an address was filled less than two windows ago.
    fn is_fresh(&self, ip: &str, now: Instant) -> (r: bool)
        requires
            self.deep_view().buckets.contains_key(ip@),
        ensures
            r == fresh(self.deep_view().buckets, ip@, now, self.deep_view().window),
    {
        let at: u128 = match fetch(&self.buckets, ip) {
            Some(v) => if v.len() == 2 {
                v[1]
            } else {
                0
            },
            None => 0,
        };
        let elapsed: u128 = now.nanos_since(Instant { nanos: at });
        let window: u128 = self.window.as_nanos();
        elapsed < window || elapsed - window < window
    }

    /// Removes the buckets that were not filled for two windows.
    pub fn cleanup_expired(&mut self, now: Instant)
        ensures
            only_fresh(
                old(self).deep_view().buckets,
                final(self).deep_view().buckets,
                now,
                old(self).deep_view().window,
            ),
            final(self).deep_view() == (RateLimitView {
                buckets: final(self).deep_view().buckets,
                ..old(self).deep_view()
            }),
    {
        let all = keys(&self.buckets);
        let ghost before = self.deep_view();
        let ghost ks = all.deep_view();
        proof {
            assert forall|j: int| 0 <= j < ks.len() implies before.buckets.contains_key(
                #[trigger] ks[j],
            ) by {
                assert(ks.contains(ks[j]));
            }
        }
        for i in 0..all.len()
            invariant
                ks == all.deep_view(),
                ks.no_duplicates(),
                self.deep_view() == (RateLimitView {
                    buckets: self.deep_view().buckets,
                    ..before
                }),
                forall|k: Seq<char>| #[trigger]
                    ks.contains(k) <==> before.buckets.contains_key(k),
                forall|k: Seq<char>| #[trigger]
                    self.deep_view().buckets.contains_key(k) ==> before.buckets.contains_key(k)
                        && self.deep_view().buckets[k] == before.buckets[k],
                forall|j: int|
                    0 <= j < ks.len() ==> (self.deep_view().buckets.contains_key(
                        #[trigger] ks[j],
                    ) <==> (j >= i || fresh(before.buckets, ks[j], now, before.window))),
        {
            let k = all[i].as_str();
            assert(ks[i as int] == k@);
            assert(self.deep_view().buckets.contains_key(ks[i as int]));
            let ghost held = self.deep_view().buckets;
            if !self.is_fresh(k, now) {
                erase(&mut self.buckets, k);
                assert forall|j: int| 0 <= j < ks.len() && j != i implies ks[j] != k@ by {}
            }
        }
        proof {
            let after = self.deep_view().buckets;
            assert forall|k: Seq<char>| #[trigger]
                after.contains_key(k) <==> before.buckets.contains_key(k) && fresh(
                    before.buckets,
                    k,
                    now,
                    before.window,
                ) by {
                if before.buckets.contains_key(k) {
                    assert(ks.contains(k));
                    let j = choose|j: int| 0 <= j < ks.len() && ks[j] == k;
                    assert(after.contains_key(ks[j]) <==> fresh(
                        before.buckets,
                        ks[j],
                        now,
                        before.window,
                    ));
                }
            }
        }
    }

    /// The answer to a request that finds no token.
    pub fn refuse(retry_after: u64) -> (r: Response)
        ensures
            r.deep_view() == too_many(retry_after),
    {
        let mut headers = Headers::new();
        let value = text::number_text(retry_after as u128);
        headers.append("retry-after", message::utf8(value.as_str()));
        proof {
            reveal_strlit("retry-after");
            assert(text::lowered("retry-after"@) =~= "retry-after"@);
            assert(headers.deep_view() =~= too_many(retry_after).headers);
        }
        Response { status: 429, headers, body: message::utf8("Too Many Requests") }
    }
}

/// The answer to a request that finds no token.
pub open spec fn too_many(retry_after: u64) -> ResponseView {
    ResponseView {
        status: 429,
        headers: seq![
            ("retry-after"@, vstd::utf8::encode_utf8(text::decimal(retry_after as nat))),
        ],
        body: vstd::utf8::encode_utf8("Too Many Requests"@),
    }
}

/// What was noted of a bucket is found again, with the time since then; the buckets of
/// other addresses stay as they are.
pub proof fn lemma_bucket_read_back(
    m: Buckets,
    ip: Seq<char>,
    left: u64,
    then: Instant,
    now: Instant,
    other: Seq<char>,
)
    requires
        then.nanos <= now.nanos,
    ensures
        bucket_of(filled(m, ip, left, then), ip, now) == Some(
            (left, (now.nanos - then.nanos) as u128),
        ),
        other != ip ==> bucket_of(filled(m, ip, left, then), other, now) == bucket_of(m, other, now),
        bucket_of(Map::empty(), ip, now) is None,
{
}

/// A bucket stays exactly for two windows after it was filled, and stays as it is.
pub proof fn lemma_buckets_kept_for_two_windows(
    m: Buckets,
    ip: Seq<char>,
    left: u64,
    then: Instant,
    after: Buckets,
    now: Instant,
    window: nat,
)
    requires
        then.nanos <= now.nanos,
        only_fresh(filled(m, ip, left, then), after, now, window),
    ensures
        now.nanos - then.nanos < 2 * window ==> bucket_of(after, ip, now) == Some(
            (left, (now.nanos - then.nanos) as u128),
        ),
        now.nanos - then.nanos >= 2 * window ==> bucket_of(after, ip, now) is None,
{
    let before = filled(m, ip, left, then);
    assert(before.contains_key(ip) && before[ip] == seq![left as u128, then.nanos]);
    assert(after.contains_key(ip) <==> fresh(before, ip, now, window));
    if after.contains_key(ip) {
        assert(after[ip] == before[ip]);
    }
}

/// A request that finds no token is told when to come again.
pub proof fn lemma_told_when_to_come_again(secs: u64)
    ensures
        too_many(secs).status == 429,
        message::value_of(too_many(secs).headers, "retry-after"@) == Some(
            vstd::utf8::encode_utf8(text::decimal(secs as nat)),
        ),
{
    reveal_strlit("retry-after");
    assert(text::lowered("retry-after"@) =~= "retry-after"@);
    reveal_with_fuel(message::value_from, 2);
}

/// The most requests at once are what is said, or as many as in a window.
pub proof fn lemma_most_at_once(b: u64, max: u64)
    ensures
        most_at_once(Some(b), max) == b,
        most_at_once(None, max) == max,
{
}

} // verus!
