//! Answers that are kept for later requests.

use vstd::prelude::*;
use crate::cache_control;
use crate::cache_control::{build_vary_key, parse_cache_control};
use crate::config::types::{CacheConfig, CacheConfigView};
use crate::data::Data;
use crate::message;
use crate::message::{
    bytes_of, field_value, Fields, Headers, Request, RequestView, Response, ResponseView,
};
use crate::text;
use crate::time::{Duration, Instant};

verus! {

/// The plain values of a [`CacheKey`].
#[verifier::ext_equal]
pub struct CacheKeyView {
    pub host: Seq<char>,
    pub method: Seq<char>,
    pub path: Seq<char>,
    pub vary_key: Seq<char>,
}

/// What an answer is kept under. `vary_key` holds the values of the fields that the
/// answer depends on.
#[derive(Debug, PartialEq, Eq)]
pub struct CacheKey {
    pub host: String,
    pub method: String,
    pub path: String,
    pub vary_key: String,
}

impl DeepView for CacheKey {
    type V = CacheKeyView;

    open spec fn deep_view(&self) -> CacheKeyView {
        CacheKeyView {
            host: self.host.deep_view(),
            method: self.method.deep_view(),
            path: self.path.deep_view(),
            vary_key: self.vary_key.deep_view(),
        }
    }
}

impl Data for CacheKey {
    fn duplicate(&self) -> (r: CacheKey) {
        CacheKey {
            host: self.host.duplicate(),
            method: self.method.duplicate(),
            path: self.path.duplicate(),
            vary_key: self.vary_key.duplicate(),
        }
    }

    fn same_as(&self, other: &CacheKey) -> (r: bool) {
        self.host.same_as(&other.host) && self.method.same_as(&other.method) && self.path.same_as(&other.path) && self.vary_key.same_as(&other.vary_key)
    }
}

impl Clone for CacheKey {
    fn clone(&self) -> (r: CacheKey)
        ensures
            r.deep_view() == self.deep_view(),
    {
        self.duplicate()
    }
}

/// The plain values of a [`CacheEntry`].
#[verifier::ext_equal]
pub struct CacheEntryView {
    pub status: u16,
    pub headers: Fields,
    pub body: Seq<u8>,
    pub inserted_at: Instant,
    pub max_age: nat,
    pub etag: Option<Seq<char>>,
    pub last_modified: Option<Seq<char>>,
}

/// An answer that is kept.
#[derive(Debug)]
pub struct CacheEntry {
    pub status: u16,
    pub headers: Headers,
    pub body: Vec<u8>,
    pub inserted_at: Instant,
    pub max_age: Duration,
    pub etag: Option<String>,
    pub last_modified: Option<String>,
}

impl DeepView for CacheEntry {
    type V = CacheEntryView;

    open spec fn deep_view(&self) -> CacheEntryView {
        CacheEntryView {
            status: self.status,
            headers: self.headers.deep_view(),
            body: self.body@,
            inserted_at: self.inserted_at,
            max_age: self.max_age.deep_view(),
            etag: self.etag.deep_view(),
            last_modified: self.last_modified.deep_view(),
        }
    }
}

/// Tells whether an answer may still be used.
pub open spec fn fresh(e: CacheEntryView, now: Instant) -> bool {
    now.after(e.inserted_at) < e.max_age
}

/// For how many seconds an answer has been kept.
pub open spec fn age(e: CacheEntryView, now: Instant) -> nat {
    now.after(e.inserted_at) / 1_000_000_000
}

impl CacheEntry {
    /// Tells whether the answer may still be used.
    pub fn is_fresh(&self, now: Instant) -> (r: bool)
        ensures
            r == fresh(self.deep_view(), now),
    {
        now.nanos_since(self.inserted_at) < self.max_age.as_nanos()
    }

    /// For how many seconds the answer has been kept.
    pub fn age_secs(&self, now: Instant) -> (r: u128)
        ensures
            r == age(self.deep_view(), now),
    {
        now.nanos_since(self.inserted_at) / 1_000_000_000
    }

    /// The same answer once more.
    fn copy(&self) -> (e: CacheEntry)
        ensures
            e.deep_view() == self.deep_view(),
    {
        CacheEntry {
            status: self.status,
            headers: self.headers.clone(),
            body: bytes_of(&self.body),
            inserted_at: self.inserted_at,
            max_age: self.max_age,
            etag: self.etag.duplicate(),
            last_modified: self.last_modified.duplicate(),
        }
    }
}

// ---------------------------------------------------------------------------
// The store
// ---------------------------------------------------------------------------

/// Answers under their keys, the one that was used last at the end.
pub type Kept = Seq<(CacheKeyView, CacheEntryView)>;

/// The place of a key from `i` on.
pub open spec fn place(s: Kept, k: CacheKeyView, i: int) -> Option<int>
    decreases s.len() - i,
{
    if i < 0 || i >= s.len() {
        None
    } else if s[i].0 == k {
        Some(i)
    } else {
        place(s, k, i + 1)
    }
}

/// No key stands twice.
pub open spec fn keys_distinct(s: Kept) -> bool {
    forall|i: int, j: int| 0 <= i < j < s.len() ==> (#[trigger] s[i]).0 != (#[trigger] s[j]).0
}

/// What is kept after a key was asked for, and the answer under it. One that may be
/// used becomes the one used last; one that may not goes.
pub open spec fn got(s: Kept, k: CacheKeyView, now: Instant) -> (Kept, Option<CacheEntryView>) {
    match place(s, k, 0) {
        Some(i) => if fresh(s[i].1, now) {
            (s.remove(i).push(s[i]), Some(s[i].1))
        } else {
            (s.remove(i), None)
        },
        None => (s, None),
    }
}

/// How many answers go so that one more can be kept: those that were not used for
/// longest, until there are fewer than allowed.
pub open spec fn evicted(kept: int, others: int, max: int) -> int {
    if kept < max {
        0
    } else if kept - max + 1 < others {
        kept - max + 1
    } else {
        others
    }
}

/// What is kept without a key.
pub open spec fn without(s: Kept, k: CacheKeyView) -> Kept {
    match place(s, k, 0) {
        Some(i) => s.remove(i),
        None => s,
    }
}

/// What is kept after one more answer.
pub open spec fn kept_with(s: Kept, max: int, k: CacheKeyView, e: CacheEntryView) -> Kept {
    let others = without(s, k);
    others.skip(evicted(s.len() as int, others.len() as int, max)).push((k, e))
}

/// Answers that are kept, up to a number.
pub struct CacheStore {
    entries: Vec<(CacheKey, CacheEntry)>,
    max_entries: usize,
}

impl CacheStore {
    /// What is kept.
    pub closed spec fn kept(&self) -> Kept {
        self.entries.deep_view()
    }

    /// How many answers may be kept.
    pub closed spec fn max(&self) -> int {
        self.max_entries as int
    }

    /// A store without answers.
    pub fn new(max_entries: usize) -> (s: CacheStore)
        ensures
            s.kept() == Kept::empty(),
            s.max() == max_entries,
    {
        let entries: Vec<(CacheKey, CacheEntry)> = Vec::new();
        assert(entries.deep_view() =~= Kept::empty());
        CacheStore { entries, max_entries }
    }

    /// The place of a key.
    fn find(&self, key: &CacheKey) -> (r: Option<usize>)
        ensures
            match r {
                Some(i) => i < self.entries@.len() && place(self.kept(), key.deep_view(), 0)
                    == Some(i as int),
                None => place(self.kept(), key.deep_view(), 0) is None,
            },
    {
        for i in 0..self.entries.len()
            invariant
                place(self.kept(), key.deep_view(), 0) == place(
                    self.kept(),
                    key.deep_view(),
                    i as int,
                ),
        {
            assert(self.kept()[i as int] == self.entries@[i as int].deep_view());
            if self.entries[i].0.same_as(key) {
                return Some(i);
            }
        }
        None
    }

    /// The answer under a key, where there is one that may be used. It becomes the
    /// one used last.
    pub fn get(&mut self, key: &CacheKey, now: Instant) -> (r: Option<CacheEntry>)
        ensures
            (final(self).kept(), r.deep_view()) == got(old(self).kept(), key.deep_view(), now),
            final(self).max() == old(self).max(),
    {
        let i = match self.find(key) {
            Some(i) => i,
            None => return None,
        };
        let ghost before = self.entries.deep_view();
        let found = self.entries.remove(i);
        assert(found.deep_view() == before[i as int]);
        assert(self.entries.deep_view() =~= before.remove(i as int));
        if !found.1.is_fresh(now) {
            return None;
        }
        let r = found.1.copy();
        let ghost rest = self.entries.deep_view();
        self.entries.push(found);
        assert(self.entries.deep_view() =~= rest.push(before[i as int]));
        Some(r)
    }

    /// Keeps an answer. Where there are too many, those go that were not used for
    /// longest.
    pub fn insert(&mut self, key: CacheKey, entry: CacheEntry)
        ensures
            final(self).kept() == kept_with(
                old(self).kept(),
                old(self).max(),
                key.deep_view(),
                entry.deep_view(),
            ),
            final(self).max() == old(self).max(),
    {
        let ghost s = self.entries.deep_view();
        let mut count: usize = self.entries.len();
        if let Some(i) = self.find(&key) {
            self.entries.remove(i);
            assert(self.entries.deep_view() =~= s.remove(i as int));
        }
        let ghost others = self.entries.deep_view();
        assert(others == without(s, key.deep_view()));
        let ghost n = evicted(s.len() as int, others.len() as int, self.max());
        assert(others.skip(0) =~= others);
        while count >= self.max_entries && self.entries.len() > 0
            invariant
                self.max_entries == old(self).max_entries,
                n == evicted(s.len() as int, others.len() as int, self.max()),
                others.len() <= s.len(),
                0 <= s.len() - count <= n,
                count <= s.len(),
                self.entries.deep_view() == others.skip(s.len() - count),
                self.entries@.len() == others.len() - (s.len() - count),
            decreases self.entries@.len(),
        {
            let ghost k = s.len() - count;
            let ghost prev = self.entries.deep_view();
            self.entries.remove(0);
            assert(self.entries.deep_view() =~= prev.remove(0));
            assert(prev.remove(0) =~= others.skip(k + 1));
            count = count - 1;
        }
        let ghost rest = self.entries.deep_view();
        let ghost x = (key.deep_view(), entry.deep_view());
        self.entries.push((key, entry));
        assert(self.entries.deep_view() =~= rest.push(x));
    }

    /// The keys for what is asked for, whatever fields the answers depend on.
    fn keys_for(&self, base: &CacheKey) -> (r: Vec<CacheKey>)
        ensures
            r.deep_view() == candidates(self.kept(), base.deep_view(), 0),
    {
        let ghost s = self.kept();
        let ghost b = base.deep_view();
        let mut out: Vec<CacheKey> = Vec::new();
        assert(out.deep_view() + candidates(s, b, 0) =~= candidates(s, b, 0));
        for i in 0..self.entries.len()
            invariant
                s == self.kept(),
                b == base.deep_view(),
                out.deep_view() + candidates(s, b, i as int) == candidates(s, b, 0),
        {
            let k = &self.entries[i].0;
            assert(s[i as int] == self.entries@[i as int].deep_view());
            if k.host.same_as(&base.host) && k.method.same_as(&base.method) && k.path.same_as(
                &base.path,
            ) {
                let ghost before = out.deep_view();
                out.push(k.duplicate());
                assert(out.deep_view() =~= before.push(s[i as int].0));
                assert(out.deep_view() + candidates(s, b, i + 1) =~= before + (seq![s[i as int].0]
                    + candidates(s, b, i + 1)));
            }
        }
        assert(out.deep_view() =~= out.deep_view() + candidates(s, b, s.len() as int));
        out
    }

    /// The answer for what is asked for with the fields of a request.
    pub fn lookup(&mut self, base: &CacheKey, headers: &Headers, now: Instant) -> (r: Option<
        CacheEntry,
    >)
        ensures
            (final(self).kept(), r.deep_view()) == looked_up(
                old(self).kept(),
                base.deep_view(),
                headers.deep_view(),
                now,
            ),
            final(self).max() == old(self).max(),
    {
        if let Some(e) = self.get(base, now) {
            return Some(e);
        }
        let keys = self.keys_for(base);
        let ghost ks = keys.deep_view();
        let ghost start = self.kept();
        for i in 0..keys.len()
            invariant
                ks == keys.deep_view(),
                self.max() == old(self).max(),
                looked_up(old(self).kept(), base.deep_view(), headers.deep_view(), now) == scanned(
                    start,
                    ks,
                    0,
                    headers.deep_view(),
                    now,
                ),
                scanned(start, ks, 0, headers.deep_view(), now) == scanned(
                    self.kept(),
                    ks,
                    i as int,
                    headers.deep_view(),
                    now,
                ),
        {
            assert(ks[i as int] == keys@[i as int].deep_view());
            if let Some(e) = self.get(&keys[i], now) {
                let vary = build_vary_key(&e.headers, headers);
                if text::same(keys[i].vary_key.as_str(), vary.as_str()) {
                    return Some(e);
                }
            }
        }
        None
    }
}

/// The keys from place `i` on for what is asked for.
pub open spec fn candidates(s: Kept, base: CacheKeyView, i: int) -> Seq<CacheKeyView>
    decreases s.len() - i,
{
    if i < 0 || i >= s.len() {
        seq![]
    } else if s[i].0.host == base.host && s[i].0.method == base.method && s[i].0.path
        == base.path {
        seq![s[i].0] + candidates(s, base, i + 1)
    } else {
        candidates(s, base, i + 1)
    }
}

/// What is kept after the keys from `i` on were asked for, and the first answer
/// whose fields fit those of a request.
pub open spec fn scanned(
    s: Kept,
    keys: Seq<CacheKeyView>,
    i: int,
    req: Fields,
    now: Instant,
) -> (Kept, Option<CacheEntryView>)
    decreases keys.len() - i,
{
    if i < 0 || i >= keys.len() {
        (s, None)
    } else {
        let (t, r) = got(s, keys[i], now);
        match r {
            Some(e) if keys[i].vary_key == cache_control::vary_key(e.headers, req) => (t, Some(e)),
            _ => scanned(t, keys, i + 1, req, now),
        }
    }
}

/// What is kept after a request, and the answer for it: one that depends on no
/// field, or one whose fields fit.
pub open spec fn looked_up(s: Kept, base: CacheKeyView, req: Fields, now: Instant) -> (
    Kept,
    Option<CacheEntryView>,
) {
    let (t, r) = got(s, base, now);
    match r {
        Some(e) => (t, Some(e)),
        None => scanned(t, candidates(t, base, 0), 0, req, now),
    }
}

// ---------------------------------------------------------------------------
// Requests
// ---------------------------------------------------------------------------

/// The key of a request without the fields that an answer may depend on.
pub open spec fn base_key(req: RequestView) -> CacheKeyView {
    CacheKeyView {
        host: message::field_or(req.headers, "host"@, ""@),
        method: req.method,
        path: match req.uri.path_and_query {
            Some(p) => p,
            None => req.uri.path(),
        },
        vary_key: ""@,
    }
}

/// The key that an answer to a request is kept under: that of the request, with the
/// values of the fields that the answer depends on.
pub open spec fn key_for(req: RequestView, answer: Fields) -> CacheKeyView {
    CacheKeyView { vary_key: cache_control::vary_key(answer, req.headers), ..base_key(req) }
}

/// Two keys are for the same target, whatever fields the answers depend on.
pub open spec fn same_target(a: CacheKeyView, b: CacheKeyView) -> bool {
    a.host == b.host && a.method == b.method && a.path == b.path
}

/// Fields with a mark that tells how the cache was used.
pub open spec fn with_mark(h: Fields, mark: Seq<char>) -> Fields {
    message::fields_with(h, "X-Cache"@, vstd::utf8::encode_utf8(mark))
}

/// Fields with the age of an answer.
pub open spec fn with_age(h: Fields, e: CacheEntryView, now: Instant) -> Fields {
    message::fields_with(h, "age"@, vstd::utf8::encode_utf8(text::decimal(age(e, now))))
}

/// Tells whether the client says that it has the answer already, by its tag.
pub open spec fn same_tag(e: CacheEntryView, req: Fields) -> bool {
    match (message::field_of(req, "if-none-match"@), e.etag) {
        (Some(a), Some(b)) => text::trimmed_of(a, '"') == text::trimmed_of(b, '"'),
        _ => false,
    }
}

/// Tells whether the client says that it has the answer already, by its date.
pub open spec fn same_date(e: CacheEntryView, req: Fields) -> bool {
    match (message::field_of(req, "if-modified-since"@), e.last_modified) {
        (Some(a), Some(b)) => a == b,
        _ => false,
    }
}

/// What a client is answered out of the cache.
pub open spec fn hit(e: CacheEntryView, req: Fields, now: Instant) -> ResponseView {
    if same_tag(e, req) {
        let tag = e.etag->0;
        let h = if message::is_field_value(tag) {
            message::fields_with(seq![], "etag"@, vstd::utf8::encode_utf8(tag))
        } else {
            seq![]
        };
        ResponseView { status: 304, headers: with_mark(with_age(h, e, now), "HIT"@), body: seq![] }
    } else if same_date(e, req) {
        ResponseView {
            status: 304,
            headers: with_mark(with_age(seq![], e, now), "HIT"@),
            body: seq![],
        }
    } else {
        ResponseView {
            status: e.status,
            headers: with_mark(with_age(e.headers, e, now), "HIT"@),
            body: e.body,
        }
    }
}

/// Statuses of answers that may be kept.
pub open spec fn keepable_status(status: u16) -> bool {
    status == 200 || status == 301 || status == 302 || status == 304
}

/// For how long an answer may be kept; not at all where it sets a cookie or says
/// so.
pub open spec fn keep_for(status: u16, headers: Fields, config: CacheConfigView) -> Option<nat> {
    let c = cache_control::cache_control(message::field_or(headers, "cache-control"@, ""@));
    if !keepable_status(status) || message::value_of(headers, "set-cookie"@) is Some
        || c.no_store {
        None
    } else {
        let n = match (c.s_maxage, c.max_age) {
            (Some(n), _) => n,
            (None, Some(n)) => n,
            (None, None) => config.default_max_age,
        };
        if n == 0 {
            None
        } else {
            Some(n)
        }
    }
}

/// The answer as it is kept.
pub open spec fn entry_for(
    status: u16,
    headers: Fields,
    body: Seq<u8>,
    max_age: nat,
    now: Instant,
) -> CacheEntryView {
    CacheEntryView {
        status,
        headers,
        body,
        inserted_at: now,
        max_age,
        etag: message::field_of(headers, "etag"@),
        last_modified: message::field_of(headers, "last-modified"@),
    }
}

/// What is done with a request.
#[derive(Debug)]
pub enum CacheStep {
    /// It is none that could be answered out of the cache: it goes on, and its
    /// answer is left as it is.
    Pass,
    /// It goes on; its answer is marked as not from the cache and not kept.
    Bypass,
    /// It is answered out of the cache.
    Answer(Response),
    /// It goes on; its answer may be kept.
    Fetch,
}

/// The plain values of a [`CacheStep`].
pub enum CacheStepView {
    Pass,
    Bypass,
    Answer(ResponseView),
    Fetch,
}

impl DeepView for CacheStep {
    type V = CacheStepView;

    open spec fn deep_view(&self) -> CacheStepView {
        match self {
            CacheStep::Pass => CacheStepView::Pass,
            CacheStep::Bypass => CacheStepView::Bypass,
            CacheStep::Answer(a) => CacheStepView::Answer(a.deep_view()),
            CacheStep::Fetch => CacheStepView::Fetch,
        }
    }
}

/// What is kept after a request, and what is done with the request.
pub open spec fn begun(s: Kept, req: RequestView, now: Instant) -> (Kept, CacheStepView) {
    let said = cache_control::cache_control(message::field_or(req.headers, "cache-control"@, ""@));
    let (t, e) = looked_up(s, base_key(req), req.headers, now);
    if req.method != "GET"@ && req.method != "HEAD"@ {
        (s, CacheStepView::Pass)
    } else if said.no_store {
        (s, CacheStepView::Bypass)
    } else if e is Some && !said.no_cache {
        (t, CacheStepView::Answer(hit(e->0, req.headers, now)))
    } else {
        (t, CacheStepView::Fetch)
    }
}

/// What is kept after an answer came, and the answer with its mark: one whose body is
/// longer than `limit` is not kept.
pub open spec fn completed(
    s: Kept,
    max: int,
    limit: int,
    req: RequestView,
    a: ResponseView,
    max_age: nat,
    now: Instant,
) -> (Kept, ResponseView) {
    if a.body.len() > limit {
        (s, ResponseView { headers: with_mark(a.headers, "BYPASS"@), ..a })
    } else {
        (
            kept_with(
                s,
                max,
                key_for(req, a.headers),
                entry_for(a.status, a.headers, a.body, max_age, now),
            ),
            ResponseView { headers: with_mark(a.headers, "MISS"@), ..a },
        )
    }
}

/// Keeps answers in memory.
///
/// Answers to `GET` and `HEAD` with some statuses are kept, for as long as their
/// `Cache-Control` field says. Answers that set a cookie are not kept. An answer
/// that depends on fields of the request is used only for requests with the same
/// values of those fields. A request that has the answer already is told so.
pub struct CacheHoop {
    pub config: CacheConfig,
    pub store: CacheStore,
}

impl CacheHoop {
    /// A cache without answers.
    pub fn new(config: &CacheConfig) -> (c: CacheHoop)
        ensures
            c.config.deep_view() == config.deep_view(),
            c.store.kept() == Kept::empty(),
            c.store.max() == config.max_entries,
    {
        CacheHoop { config: config.duplicate(), store: CacheStore::new(config.max_entries) }
    }

    /// The key of a request.
    fn key_of(request: &Request) -> (k: CacheKey)
        ensures
            k.deep_view() == base_key(request.deep_view()),
    {
        let path = match &request.uri.path_and_query {
            Some(p) => p.clone(),
            None => request.uri.path(),
        };
        CacheKey {
            host: request.headers.text_or("host", ""),
            method: request.method.clone(),
            path,
            vary_key: "".to_owned(),
        }
    }

    /// Begins with a request.
    ///
    /// Laws: [`lemma_answer_fits`], [`lemma_answer_read_back`] and
    /// [`lemma_other_values_not_answered`].
    pub fn begin(&mut self, request: &Request, now: Instant) -> (r: CacheStep)
        ensures
            final(self).config == old(self).config,
            final(self).store.max() == old(self).store.max(),
            (final(self).store.kept(), r.deep_view()) == begun(
                old(self).store.kept(),
                request.deep_view(),
                now,
            ),
    {
        if !text::same(request.method.as_str(), "GET") && !text::same(
            request.method.as_str(),
            "HEAD",
        ) {
            return CacheStep::Pass;
        }
        let said = parse_cache_control(request.headers.text_or("cache-control", "").as_str());
        if said.no_store {
            return CacheStep::Bypass;
        }
        let key = CacheHoop::key_of(request);
        match self.store.lookup(&key, &request.headers, now) {
            Some(e) => if said.no_cache {
                CacheStep::Fetch
            } else {
                CacheStep::Answer(CacheHoop::answer(&e, &request.headers, now))
            },
            None => CacheStep::Fetch,
        }
    }

    /// Adds the age of an answer and the mark of a hit.
    fn mark_hit(h: &mut Headers, e: &CacheEntry, now: Instant)
        ensures
            final(h).deep_view() == with_mark(
                with_age(old(h).deep_view(), e.deep_view(), now),
                "HIT"@,
            ),
    {
        h.insert("age", message::utf8(text::number_text(e.age_secs(now)).as_str()));
        h.insert("X-Cache", message::utf8("HIT"));
    }

    /// Answers a client out of the cache.
    fn answer(e: &CacheEntry, headers: &Headers, now: Instant) -> (r: Response)
        ensures
            r.deep_view() == hit(e.deep_view(), headers.deep_view(), now),
    {
        let none: Vec<u8> = Vec::new();
        assert(none@ =~= seq![]);
        if let Some(a) = headers.text("if-none-match") {
            if let Some(b) = &e.etag {
                let (x, y) = (text::trim_char(a.as_str(), '"'), text::trim_char(b.as_str(), '"'));
                if text::same(x.as_str(), y.as_str()) {
                    let mut h = Headers::new();
                    if let Some(v) = field_value(b.as_str()) {
                        h.insert("etag", v);
                    }
                    CacheHoop::mark_hit(&mut h, e, now);
                    return Response { status: 304, headers: h, body: none };
                }
            }
        }
        if let Some(a) = headers.text("if-modified-since") {
            if let Some(b) = &e.last_modified {
                if text::same(a.as_str(), b.as_str()) {
                    let mut h = Headers::new();
                    CacheHoop::mark_hit(&mut h, e, now);
                    return Response { status: 304, headers: h, body: none };
                }
            }
        }
        let mut h = e.headers.clone();
        CacheHoop::mark_hit(&mut h, e, now);
        Response { status: e.status, headers: h, body: bytes_of(&e.body) }
    }

    /// Decides by the head of an answer for how long it may be kept.
    pub fn keep_time(&self, status: u16, headers: &Headers) -> (r: Option<Duration>)
        ensures
            r.deep_view() == keep_for(status, headers.deep_view(), self.config.deep_view()),
    {
        if !(status == 200 || status == 301 || status == 302 || status == 304) {
            return None;
        }
        if headers.contains_key("set-cookie") {
            return None;
        }
        let said = parse_cache_control(headers.text_or("cache-control", "").as_str());
        if said.no_store {
            return None;
        }
        let n = match said.s_maxage {
            Some(n) => n,
            None => match said.max_age {
                Some(n) => n,
                None => self.config.default_max_age,
            },
        };
        if n.is_zero() {
            None
        } else {
            Some(n)
        }
    }

    /// Marks an answer that is not kept.
    pub fn bypass(headers: &mut Headers)
        ensures
            final(headers).deep_view() == with_mark(old(headers).deep_view(), "BYPASS"@),
    {
        headers.insert("X-Cache", message::utf8("BYPASS"));
    }

    /// Keeps an answer, unless its body is too large, and marks it.
    pub fn complete(
        &mut self,
        request: &Request,
        response: Response,
        max_age: Duration,
        now: Instant,
    ) -> (r: Response)
        ensures
            final(self).config == old(self).config,
            final(self).store.max() == old(self).store.max(),
            (final(self).store.kept(), r.deep_view()) == completed(
                old(self).store.kept(),
                old(self).store.max(),
                old(self).config.max_entry_size as int,
                request.deep_view(),
                response.deep_view(),
                max_age.deep_view(),
                now,
            ),
    {
        let mut response = response;
        if response.body.len() > self.config.max_entry_size {
            response.headers.insert("X-Cache", message::utf8("BYPASS"));
            return response;
        }
        let mut key = CacheHoop::key_of(request);
        key.vary_key = build_vary_key(&response.headers, &request.headers);
        let entry = CacheEntry {
            status: response.status,
            headers: response.headers.clone(),
            body: bytes_of(&response.body),
            inserted_at: now,
            max_age,
            etag: response.headers.text("etag"),
            last_modified: response.headers.text("last-modified"),
        };
        self.store.insert(key, entry);
        response.headers.insert("X-Cache", message::utf8("MISS"));
        response
    }
}

// ---------------------------------------------------------------------------
// What holds of every cache
// ---------------------------------------------------------------------------

/// A key stands at the first place that has it.
proof fn lemma_place(s: Kept, k: CacheKeyView, i: int)
    requires
        0 <= i,
    ensures
        match place(s, k, i) {
            Some(j) => i <= j < s.len() && s[j].0 == k && forall|n: int|
                i <= n < j ==> (#[trigger] s[n]).0 != k,
            None => forall|n: int| i <= n < s.len() ==> (#[trigger] s[n]).0 != k,
        },
    decreases s.len() - i,
{
    if i < s.len() && s[i].0 != k {
        lemma_place(s, k, i + 1);
    }
}

/// Asking for a key and keeping an answer leave every key once, and never more
/// answers than allowed; the last answer is kept even where none may be.
pub proof fn lemma_store_bounded(s: Kept, max: int, k: CacheKeyView, e: CacheEntryView, now: Instant)
    requires
        keys_distinct(s),
        0 <= max,
    ensures
        keys_distinct(got(s, k, now).0),
        got(s, k, now).0.len() <= s.len(),
        keys_distinct(kept_with(s, max, k, e)),
        s.len() <= max || s.len() <= 1 ==> kept_with(s, max, k, e).len() <= max || kept_with(
            s,
            max,
            k,
            e,
        ).len() <= 1,
{
    lemma_place(s, k, 0);
    let g = got(s, k, now).0;
    assert(keys_distinct(g)) by {
        if let Some(i) = place(s, k, 0) {
            let r = s.remove(i);
            assert forall|a: int, b: int| 0 <= a < b < r.len() implies (#[trigger] r[a]).0 != (
            #[trigger] r[b]).0 by {
                let x = if a < i {
                    a
                } else {
                    a + 1
                };
                let y = if b < i {
                    b
                } else {
                    b + 1
                };
                assert(r[a] == s[x] && r[b] == s[y]);
                assert(s[x].0 != s[y].0);
            }
            assert forall|a: int| 0 <= a < r.len() implies (#[trigger] r[a]).0 != k by {
                let x = if a < i {
                    a
                } else {
                    a + 1
                };
                assert(r[a] == s[x]);
                if x < i {
                    assert(s[x].0 != s[i].0);
                } else {
                    assert(s[i].0 != s[x].0);
                }
            }
        }
    }
    let others = without(s, k);
    assert(keys_distinct(others) && forall|a: int|
        0 <= a < others.len() ==> (#[trigger] others[a]).0 != k) by {
        if let Some(i) = place(s, k, 0) {
            assert forall|a: int, b: int| 0 <= a < b < others.len() implies (
            #[trigger] others[a]).0 != (#[trigger] others[b]).0 by {
                let x = if a < i {
                    a
                } else {
                    a + 1
                };
                let y = if b < i {
                    b
                } else {
                    b + 1
                };
                assert(others[a] == s[x] && others[b] == s[y]);
                assert(s[x].0 != s[y].0);
            }
            assert forall|a: int| 0 <= a < others.len() implies (#[trigger] others[a]).0 != k by {
                let x = if a < i {
                    a
                } else {
                    a + 1
                };
                assert(others[a] == s[x]);
                if x < i {
                    assert(s[x].0 != s[i].0);
                } else {
                    assert(s[i].0 != s[x].0);
                }
            }
        }
    }
    let n = evicted(s.len() as int, others.len() as int, max);
    let left = others.skip(n);
    let all = left.push((k, e));
    assert forall|a: int, b: int| 0 <= a < b < all.len() implies (#[trigger] all[a]).0 != (
    #[trigger] all[b]).0 by {
        assert(all[a] == others[a + n]);
        if b < left.len() {
            assert(all[b] == others[b + n]);
        }
    }
}

/// An answer that was kept is found under its key for as long as it is fresh, and
/// not afterwards.
pub proof fn lemma_kept_then_got(
    s: Kept,
    max: int,
    k: CacheKeyView,
    e: CacheEntryView,
    now: Instant,
)
    requires
        keys_distinct(s),
        0 <= max,
    ensures
        got(kept_with(s, max, k, e), k, now).1 == (if fresh(e, now) {
            Some(e)
        } else {
            None
        }),
{
    lemma_store_bounded(s, max, k, e, now);
    let t = kept_with(s, max, k, e);
    lemma_place(t, k, 0);
    let n = t.len() - 1;
    assert(t[n] == (k, e));
    let p = place(t, k, 0)->0;
    if p < n {
        assert(t[p].0 != t[n].0);
    }
}

/// Every candidate is a key that is kept for the target, and every such key is one.
proof fn lemma_candidates(s: Kept, base: CacheKeyView, i: int)
    requires
        0 <= i,
    ensures
        forall|n: int|
            0 <= n < candidates(s, base, i).len() ==> same_target(
                #[trigger] candidates(s, base, i)[n],
                base,
            ),
        forall|j: int|
            i <= j < s.len() && same_target((#[trigger] s[j]).0, base) ==> candidates(
                s,
                base,
                i,
            ).contains(s[j].0),
    decreases s.len() - i,
{
    if i < s.len() {
        lemma_candidates(s, base, i + 1);
        let rest = candidates(s, base, i + 1);
        let all = candidates(s, base, i);
        assert forall|n: int| 0 <= n < all.len() implies same_target(#[trigger] all[n], base) by {
            if same_target(s[i].0, base) {
                if n > 0 {
                    assert(all[n] == rest[n - 1]);
                }
            } else {
                assert(all[n] == rest[n]);
            }
        }
        assert forall|j: int| i <= j < s.len() && same_target((#[trigger] s[j]).0, base) implies
            all.contains(s[j].0) by {
            if j == i {
                assert(all[0] == s[i].0);
            } else {
                let n = choose|n: int| 0 <= n < rest.len() && rest[n] == s[j].0;
                if same_target(s[i].0, base) {
                    assert(all[n + 1] == s[j].0);
                } else {
                    assert(all[n] == s[j].0);
                }
            }
        }
    }
}

/// Asking for a key brings nothing in, and takes nothing away that is kept under
/// another key.
proof fn lemma_got_keeps(s: Kept, k: CacheKeyView, now: Instant)
    ensures
        forall|m: int|
            0 <= m < got(s, k, now).0.len() ==> s.contains(#[trigger] got(s, k, now).0[m]),
        forall|m: int|
            0 <= m < s.len() && (#[trigger] s[m]).0 != k ==> got(s, k, now).0.contains(s[m]),
        got(s, k, now).1 matches Some(e) ==> fresh(e, now) && s.contains((k, e)),
{
    lemma_place(s, k, 0);
    let t = got(s, k, now).0;
    if let Some(i) = place(s, k, 0) {
        let r = s.remove(i);
        assert forall|m: int| 0 <= m < t.len() implies s.contains(#[trigger] t[m]) by {
            if m < r.len() {
                let x = if m < i {
                    m
                } else {
                    m + 1
                };
                assert(t[m] == s[x]);
            } else {
                assert(t[m] == s[i]);
            }
        }
        assert forall|m: int| 0 <= m < s.len() && (#[trigger] s[m]).0 != k implies t.contains(
            s[m],
        ) by {
            let x = if m < i {
                m
            } else {
                m - 1
            };
            assert(r[x] == s[m]);
            assert(t[x] == s[m]);
        }
        assert(s[i] == (k, s[i].1));
    } else {
        assert forall|m: int| 0 <= m < t.len() implies s.contains(#[trigger] t[m]) by {
            assert(t[m] == s[m]);
        }
    }
}

/// A scan gives an answer only where it is fresh, is kept under one of the keys, and
/// the fields that it depends on have, in this request, the values that this key holds.
proof fn lemma_scan_fits(s: Kept, keys: Seq<CacheKeyView>, i: int, req: Fields, now: Instant)
    requires
        0 <= i,
    ensures
        scanned(s, keys, i, req, now).1 matches Some(e) ==> fresh(e, now) && exists|n: int|
            i <= n < keys.len() && #[trigger] keys[n].vary_key == cache_control::vary_key(
                e.headers,
                req,
            ) && s.contains((keys[n], e)),
    decreases keys.len() - i,
{
    if i < keys.len() {
        let (t, r) = got(s, keys[i], now);
        lemma_got_keeps(s, keys[i], now);
        lemma_scan_fits(t, keys, i + 1, req, now);
        if let Some(e) = scanned(t, keys, i + 1, req, now).1 {
            let n = choose|n: int|
                i + 1 <= n < keys.len() && #[trigger] keys[n].vary_key == cache_control::vary_key(
                    e.headers,
                    req,
                ) && t.contains((keys[n], e));
            let m = choose|m: int| 0 <= m < t.len() && t[m] == (keys[n], e);
            assert(s.contains(t[m]));
        }
        if let Some(e) = r {
            if keys[i].vary_key == cache_control::vary_key(e.headers, req) {
                assert(keys[i].vary_key == cache_control::vary_key(e.headers, req) && s.contains(
                    (keys[i], e),
                ));
            }
        }
    }
}

/// A scan gives an answer where a fresh one is kept under one of the keys and fits.
proof fn lemma_scan_finds(
    s: Kept,
    keys: Seq<CacheKeyView>,
    i: int,
    req: Fields,
    now: Instant,
    n: int,
    e: CacheEntryView,
)
    requires
        0 <= i <= n < keys.len(),
        keys_distinct(s),
        s.contains((keys[n], e)),
        fresh(e, now),
        keys[n].vary_key == cache_control::vary_key(e.headers, req),
    ensures
        scanned(s, keys, i, req, now).1 is Some,
    decreases keys.len() - i,
{
    let k = keys[n];
    let m = choose|m: int| 0 <= m < s.len() && s[m] == (k, e);
    lemma_place(s, keys[i], 0);
    if keys[i] == k {
        let p = place(s, k, 0)->0;
        if p < m {
            assert(s[p].0 != s[m].0);
        }
        assert(got(s, k, now).1 == Some(e));
    } else {
        let t = got(s, keys[i], now).0;
        lemma_got_keeps(s, keys[i], now);
        lemma_store_bounded(s, 0, keys[i], e, now);
        assert(t.contains(s[m]));
        lemma_scan_finds(t, keys, i + 1, req, now, n, e);
    }
}

/// A request gets an answer out of the cache only where it is fresh and kept for the
/// target of the request, and either does not depend on fields or has, in the key that
/// it is kept under, the values that these fields have in this request.
pub proof fn lemma_answer_fits(s: Kept, base: CacheKeyView, req: Fields, now: Instant)
    ensures
        looked_up(s, base, req, now).1 matches Some(e) ==> fresh(e, now) && exists|k: CacheKeyView|
            #[trigger] s.contains((k, e)) && same_target(k, base) && (k == base || k.vary_key
                == cache_control::vary_key(e.headers, req)),
{
    let (t, r) = got(s, base, now);
    lemma_got_keeps(s, base, now);
    match r {
        Some(e) => {
            assert(s.contains((base, e)));
        },
        None => {
            let keys = candidates(t, base, 0);
            lemma_scan_fits(t, keys, 0, req, now);
            if let Some(e) = scanned(t, keys, 0, req, now).1 {
                let n = choose|n: int|
                    0 <= n < keys.len() && #[trigger] keys[n].vary_key == cache_control::vary_key(
                        e.headers,
                        req,
                    ) && t.contains((keys[n], e));
                lemma_candidates(t, base, 0);
                let m = choose|m: int| 0 <= m < t.len() && t[m] == (keys[n], e);
                assert(s.contains(t[m]));
            }
        },
    }
}

/// An answer that depends on no field of one request depends on none of any.
proof fn lemma_no_vary(answer: Fields, a: Fields, b: Fields)
    requires
        cache_control::vary_key(answer, a) == ""@,
    ensures
        cache_control::vary_key(answer, b) == ""@,
{
    cache_control::lemma_empty_vary_key(answer, a);
}

/// A request for the target that an answer was kept for, with the same values of the
/// fields that the answer depends on, is answered out of the cache for as long as the
/// answer is fresh, and with this answer where no other is kept for the target.
pub proof fn lemma_answer_read_back(
    s: Kept,
    max: int,
    first: RequestView,
    e: CacheEntryView,
    second: RequestView,
    now: Instant,
)
    requires
        keys_distinct(s),
        0 <= max,
        base_key(second) == base_key(first),
        cache_control::vary_key(e.headers, second.headers) == cache_control::vary_key(
            e.headers,
            first.headers,
        ),
        fresh(e, now),
    ensures
        ({
            let k = key_for(first, e.headers);
            let r = looked_up(
                kept_with(s, max, k, e),
                base_key(second),
                second.headers,
                now,
            ).1;
            &&& r matches Some(x) && fresh(x, now)
            &&& (forall|n: int|
                0 <= n < s.len() && same_target((#[trigger] s[n]).0, k) ==> s[n].0 == k) ==> r
                == Some(e)
        }),
{
    let k = key_for(first, e.headers);
    let base = base_key(second);
    let all = kept_with(s, max, k, e);
    let req = second.headers;
    lemma_store_bounded(s, max, k, e, now);
    assert(all.last() == (k, e));
    assert(all.contains(all[all.len() - 1]));
    lemma_got_keeps(all, base, now);
    let (t, r) = got(all, base, now);
    if k == base {
        lemma_kept_then_got(s, max, k, e, now);
    } else if r is None {
        lemma_store_bounded(all, max, base, e, now);
        assert(t.contains(all[all.len() - 1]));
        let keys = candidates(t, base, 0);
        lemma_candidates(t, base, 0);
        let m = choose|m: int| 0 <= m < t.len() && t[m] == (k, e);
        assert(keys.contains(t[m].0));
        let n = choose|n: int| 0 <= n < keys.len() && keys[n] == k;
        lemma_scan_finds(t, keys, 0, req, now, n, e);
    }
    lemma_answer_fits(all, base, req, now);
    if forall|n: int| 0 <= n < s.len() && same_target((#[trigger] s[n]).0, k) ==> s[n].0 == k {
        let x = looked_up(all, base, req, now).1->0;
        let q = choose|q: CacheKeyView| #[trigger]
            all.contains((q, x)) && same_target(q, base) && (q == base || q.vary_key
                == cache_control::vary_key(x.headers, req));
        let m = choose|m: int| 0 <= m < all.len() && all[m] == (q, x);
        lemma_kept_from(s, max, k, e);
        if m < all.len() - 1 {
            let j = choose|j: int| 0 <= j < s.len() && s[j] == all[m];
            assert(s[j].0 == k);
            assert(all[m].0 != all[all.len() - 1].0);
        }
    }
}

/// What is kept besides the last answer was kept before, under other keys.
proof fn lemma_kept_from(s: Kept, max: int, k: CacheKeyView, e: CacheEntryView)
    requires
        0 <= max,
    ensures
        forall|m: int|
            0 <= m < kept_with(s, max, k, e).len() - 1 ==> s.contains(
                #[trigger] kept_with(s, max, k, e)[m],
            ),
{
    let all = kept_with(s, max, k, e);
    let others = without(s, k);
    let n = evicted(s.len() as int, others.len() as int, max);
    lemma_place(s, k, 0);
    assert forall|m: int| 0 <= m < all.len() - 1 implies s.contains(#[trigger] all[m]) by {
        assert(all[m] == others[m + n]);
        match place(s, k, 0) {
            Some(i) => {
                let x = if m + n < i {
                    m + n
                } else {
                    m + n + 1
                };
                assert(others[m + n] == s[x]);
            },
            None => {
                assert(others[m + n] == s[m + n]);
            },
        }
    }
}

/// A request for the target that an answer was kept for, with other values of the
/// fields that the answer depends on, is not answered with it: what it is answered with
/// is kept under another key, and where nothing else is kept for the target it is not
/// answered out of the cache at all.
pub proof fn lemma_other_values_not_answered(
    s: Kept,
    max: int,
    first: RequestView,
    e: CacheEntryView,
    second: RequestView,
    now: Instant,
)
    requires
        keys_distinct(s),
        0 <= max,
        base_key(second) == base_key(first),
        cache_control::vary_key(e.headers, second.headers) != cache_control::vary_key(
            e.headers,
            first.headers,
        ),
    ensures
        ({
            let k = key_for(first, e.headers);
            let all = kept_with(s, max, k, e);
            let r = looked_up(all, base_key(second), second.headers, now).1;
            &&& r matches Some(x) ==> exists|q: CacheKeyView| #[trigger]
                s.contains((q, x)) && q != k && same_target(q, k)
            &&& (forall|n: int|
                0 <= n < s.len() && same_target((#[trigger] s[n]).0, k) ==> s[n].0 == k) ==> r is None
        }),
{
    let k = key_for(first, e.headers);
    let base = base_key(second);
    let all = kept_with(s, max, k, e);
    let req = second.headers;
    lemma_store_bounded(s, max, k, e, now);
    lemma_answer_fits(all, base, req, now);
    lemma_kept_from(s, max, k, e);
    if let Some(x) = looked_up(all, base, req, now).1 {
        let q = choose|q: CacheKeyView| #[trigger]
            all.contains((q, x)) && same_target(q, base) && (q == base || q.vary_key
                == cache_control::vary_key(x.headers, req));
        let m = choose|m: int| 0 <= m < all.len() && all[m] == (q, x);
        if m == all.len() - 1 {
            if q == base {
                assert(cache_control::vary_key(e.headers, first.headers) == ""@);
                lemma_no_vary(e.headers, first.headers, req);
            }
            assert(false);
        }
        assert(s.contains(all[m]));
        assert(all[m].0 != all[all.len() - 1].0);
        assert(s.contains((q, x)) && q != k && same_target(q, k));
        let j = choose|j: int| 0 <= j < s.len() && s[j] == (q, x);
        assert(s[j].0 == q);
    }
}

/// Requests that ask for different things have different keys: those with one key have
/// the same method, the same host, and the same path and query where both have one.
pub proof fn lemma_key_tells_target(a: RequestView, b: RequestView)
    requires
        base_key(a) == base_key(b),
    ensures
        a.method == b.method,
        message::field_of(a.headers, "host"@) is Some && message::field_of(b.headers, "host"@) is Some
            ==> message::field_of(a.headers, "host"@) == message::field_of(b.headers, "host"@),
        a.uri.path_and_query is Some && b.uri.path_and_query is Some ==> a.uri.path_and_query
            == b.uri.path_and_query,
{
}

/// Requests that ask for the same thing have the same key, whatever else they carry.
pub proof fn lemma_same_target_same_key(a: RequestView, b: RequestView)
    requires
        a.method == b.method,
        message::field_of(a.headers, "host"@) == message::field_of(b.headers, "host"@),
        a.uri.path_and_query == b.uri.path_and_query,
        a.uri.path_and_query is Some,
    ensures
        base_key(a) == base_key(b),
{
}

/// An answer that was kept for one request answers another only where both have the same
/// method, the same host, and the same path and query: an answer that was not kept
/// before comes out of the cache for such a request alone.
pub proof fn lemma_answered_for_same_request(
    s: Kept,
    max: int,
    first: RequestView,
    e: CacheEntryView,
    second: RequestView,
    now: Instant,
)
    requires
        0 <= max,
        forall|n: int| 0 <= n < s.len() ==> (#[trigger] s[n]).1 != e,
        looked_up(
            kept_with(s, max, key_for(first, e.headers), e),
            base_key(second),
            second.headers,
            now,
        ).1 == Some(e),
    ensures
        first.method == second.method,
        message::field_or(first.headers, "host"@, ""@) == message::field_or(
            second.headers,
            "host"@,
            ""@,
        ),
        first.uri.path_and_query is Some && second.uri.path_and_query is Some
            ==> first.uri.path_and_query == second.uri.path_and_query,
        now.after(e.inserted_at) < e.max_age,
{
    let k = key_for(first, e.headers);
    let all = kept_with(s, max, k, e);
    lemma_answer_fits(all, base_key(second), second.headers, now);
    let q = choose|q: CacheKeyView| #[trigger]
        all.contains((q, e)) && same_target(q, base_key(second)) && (q == base_key(second)
            || q.vary_key == cache_control::vary_key(e.headers, second.headers));
    let m = choose|m: int| 0 <= m < all.len() && all[m] == (q, e);
    lemma_kept_from(s, max, k, e);
    if m < all.len() - 1 {
        assert(s.contains(all[m]));
        let j = choose|j: int| 0 <= j < s.len() && s[j] == all[m];
        assert(s[j].1 != e);
    }
}

/// The answers that were used last are kept: one more answer under a new key drops the
/// one that was not used for longest where the cache is full, and none where it is not;
/// an answer under a key that is kept already takes the place of the old one. The new
/// answer stands last.
pub proof fn lemma_least_recently_used_goes(
    s: Kept,
    max: int,
    k: CacheKeyView,
    e: CacheEntryView,
)
    requires
        0 < max,
        s.len() <= max,
        forall|n: int| 0 <= n < s.len() ==> (#[trigger] s[n]).0 != k,
    ensures
        s.len() < max ==> kept_with(s, max, k, e) == s.push((k, e)),
        s.len() == max ==> kept_with(s, max, k, e) == s.drop_first().push((k, e)),
        kept_with(s, max, k, e).last() == (k, e),
{
    lemma_place(s, k, 0);
    assert(s.skip(0) =~= s);
    assert(s.skip(1) =~= s.drop_first());
}

/// An answer that is used becomes the one that was used last, and the others keep their
/// order; one whose time is over goes.
pub proof fn lemma_used_last(s: Kept, i: int, now: Instant)
    requires
        keys_distinct(s),
        0 <= i < s.len(),
    ensures
        now.after(s[i].1.inserted_at) < s[i].1.max_age ==> got(s, s[i].0, now) == (
            s.remove(i).push(s[i]),
            Some(s[i].1),
        ),
        now.after(s[i].1.inserted_at) >= s[i].1.max_age ==> got(s, s[i].0, now) == (
            s.remove(i),
            None::<CacheEntryView>,
        ),
{
    lemma_place(s, s[i].0, 0);
    let j = place(s, s[i].0, 0)->0;
    if j < i {
        assert(s[j].0 != s[i].0);
    }
}

/// A client that does not say what it has gets the kept status and body, every kept
/// field, and for how many seconds the answer has been kept.
pub proof fn lemma_hit_is_what_was_kept(
    e: CacheEntryView,
    req: Fields,
    now: Instant,
    q: Seq<char>,
    secs: nat,
)
    requires
        message::field_of(req, "if-none-match"@) is None,
        message::field_of(req, "if-modified-since"@) is None,
        text::lowered(q) != text::lowered("age"@),
        text::lowered(q) != text::lowered("X-Cache"@),
        now.nanos >= e.inserted_at.nanos + secs * 1_000_000_000,
        now.nanos < e.inserted_at.nanos + (secs + 1) * 1_000_000_000,
    ensures
        hit(e, req, now).status == e.status,
        hit(e, req, now).body == e.body,
        message::value_of(hit(e, req, now).headers, q) == message::value_of(e.headers, q),
        message::value_of(hit(e, req, now).headers, "age"@) == Some(
            vstd::utf8::encode_utf8(text::decimal(secs)),
        ),
        message::value_of(hit(e, req, now).headers, "x-cache"@) == Some(
            vstd::utf8::encode_utf8("HIT"@),
        ),
{
    reveal_strlit("age");
    reveal_strlit("X-Cache");
    reveal_strlit("x-cache");
    let aged = with_age(e.headers, e, now);
    let (age_text, mark) = (
        vstd::utf8::encode_utf8(text::decimal(age(e, now))),
        vstd::utf8::encode_utf8("HIT"@),
    );
    assert(age(e, now) == secs) by {
        let d = now.after(e.inserted_at);
        assert(secs * 1_000_000_000 <= d < (secs + 1) * 1_000_000_000);
        vstd::arithmetic::div_mod::lemma_fundamental_div_mod_converse(
            d as int,
            1_000_000_000,
            secs as int,
            d - secs * 1_000_000_000,
        );
    }
    message::lemma_fields_with(e.headers, "age"@, age_text, q);
    message::lemma_fields_with(e.headers, "age"@, age_text, "age"@);
    message::lemma_fields_with(aged, "X-Cache"@, mark, q);
    message::lemma_fields_with(aged, "X-Cache"@, mark, "age"@);
    message::lemma_fields_with(aged, "X-Cache"@, mark, "x-cache"@);
    assert(text::lowered("age"@).len() == 3 && text::lowered("X-Cache"@).len() == 7);
    assert(text::lowered("X-Cache"@) =~= text::lowered("x-cache"@));
}

/// A client that says by its tag, or by its date, that it has the kept answer is told so
/// and gets no body; one with another tag and no date gets the answer itself.
pub proof fn lemma_client_has_answer(e: CacheEntryView, req: Fields, now: Instant)
    ensures
        message::field_of(req, "if-none-match"@) is Some && e.etag == message::field_of(
            req,
            "if-none-match"@,
        ) ==> hit(e, req, now).status == 304 && hit(e, req, now).body.len() == 0,
        message::field_of(req, "if-modified-since"@) is Some && e.last_modified
            == message::field_of(req, "if-modified-since"@) ==> hit(e, req, now).status == 304
            && hit(e, req, now).body.len() == 0,
        (message::field_of(req, "if-none-match"@) matches Some(t) ==> e.etag is None || (
        text::trimmed_of(t, '"') != text::trimmed_of(e.etag->0, '"'))) && (message::field_of(
            req,
            "if-modified-since"@,
        ) matches Some(t) ==> e.last_modified != Some(t)) ==> hit(e, req, now).status == e.status
            && hit(e, req, now).body == e.body,
{
}

/// An answer is kept for as long as it says: shared caches go by `s-maxage`, else by
/// `max-age`, and where it says neither the configured time holds.
pub proof fn lemma_kept_for_what_it_says(
    status: u16,
    headers: Fields,
    config: CacheConfigView,
    n: nat,
)
    requires
        status == 200 || status == 301 || status == 302 || status == 304,
        message::value_of(headers, "set-cookie"@) is None,
        !cache_control::cache_control(
            message::field_or(headers, "cache-control"@, ""@),
        ).no_store,
        n > 0,
    ensures
        ({
            let said = cache_control::cache_control(
                message::field_or(headers, "cache-control"@, ""@),
            );
            let r = keep_for(status, headers, config);
            &&& said.s_maxage == Some(n) ==> r == Some(n)
            &&& said.s_maxage is None && said.max_age == Some(n) ==> r == Some(n)
            &&& said.s_maxage is None && said.max_age is None && config.default_max_age == n ==> r
                == Some(n)
            &&& said.s_maxage == Some(0nat) ==> r is None
            &&& said.s_maxage is None && said.max_age == Some(0nat) ==> r is None
        }),
{
}

/// A request is answered out of the cache only where it is a `GET` or a `HEAD` and asks
/// neither for nothing to be stored nor for a new answer; one of another method leaves
/// what is kept as it is, as does one that asks for nothing to be stored.
pub proof fn lemma_who_is_answered(s: Kept, req: RequestView, now: Instant)
    ensures
        ({
            let said = cache_control::cache_control(
                message::field_or(req.headers, "cache-control"@, ""@),
            );
            let asks = req.method == "GET"@ || req.method == "HEAD"@;
            let (t, step) = begun(s, req, now);
            &&& step is Pass <==> !asks
            &&& step is Bypass <==> asks && said.no_store
            &&& step is Answer ==> asks && !said.no_store && !said.no_cache
            &&& step is Pass || step is Bypass ==> t == s
            &&& asks && !said.no_store && !said.no_cache && looked_up(
                s,
                base_key(req),
                req.headers,
                now,
            ).1 is Some ==> step is Answer
        }),
{
}

/// A second request like the first is answered with what was kept for the first, with
/// the same status and the same body, for as long as the answer may be kept; an answer
/// whose body is too large changes nothing. Either way the first client gets the status
/// and the body as they came.
pub proof fn lemma_second_request_answered(
    s: Kept,
    max: int,
    limit: int,
    req: RequestView,
    a: ResponseView,
    max_age: nat,
    then: Instant,
    now: Instant,
)
    requires
        keys_distinct(s),
        0 < max,
        forall|n: int| 0 <= n < s.len() ==> !same_target((#[trigger] s[n]).0, base_key(req)),
        req.method == "GET"@,
        !cache_control::cache_control(
            message::field_or(req.headers, "cache-control"@, ""@),
        ).no_store,
        !cache_control::cache_control(
            message::field_or(req.headers, "cache-control"@, ""@),
        ).no_cache,
        message::field_of(req.headers, "if-none-match"@) is None,
        message::field_of(req.headers, "if-modified-since"@) is None,
        then.nanos <= now.nanos < then.nanos + max_age,
    ensures
        ({
            let (t, first) = completed(s, max, limit, req, a, max_age, then);
            &&& first.status == a.status && first.body == a.body
            &&& a.body.len() > limit ==> t == s
            &&& a.body.len() <= limit ==> (begun(t, req, now).1 matches CacheStepView::Answer(r)
                && r.status == a.status && r.body == a.body)
        }),
{
    let e = entry_for(a.status, a.headers, a.body, max_age, then);
    let k = key_for(req, a.headers);
    assert forall|n: int| 0 <= n < s.len() && same_target((#[trigger] s[n]).0, k) implies s[n].0
        == k by {
        assert(!same_target(s[n].0, base_key(req)));
    }
    lemma_answer_read_back(s, max, req, e, req, now);
}

/// Answers that set a cookie, or that say that they must not be stored, are not
/// kept.
pub proof fn lemma_not_kept(status: u16, headers: Fields, config: CacheConfigView)
    requires
        message::value_of(headers, "set-cookie"@) is Some || cache_control::cache_control(
            message::field_or(headers, "cache-control"@, ""@),
        ).no_store || !keepable_status(status),
    ensures
        keep_for(status, headers, config) is None,
{
}

/// What is kept is the whole of an answer or a word that it stands elsewhere or is unchanged;
/// that something went wrong is never kept.
pub proof fn lemma_failures_not_kept(status: u16, headers: Fields, config: CacheConfigView)
    ensures
        !(200 <= status < 400) ==> keep_for(status, headers, config) is None,
        200 < status < 300 ==> keep_for(status, headers, config) is None,
        303 <= status < 400 && status != 304 || status == 300 ==> keep_for(
            status,
            headers,
            config,
        ) is None,
{
}

/// Whether an answer of a status that may be kept is kept depends on its fields alone.
pub proof fn lemma_kept_alike(a: u16, b: u16, headers: Fields, config: CacheConfigView)
    requires
        a == 200,
        b == 301 || b == 302 || b == 304,
    ensures
        keep_for(a, headers, config) == keep_for(b, headers, config),
{
}

} // verus!
