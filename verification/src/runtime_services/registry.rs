//! The state that the server works from.

use vstd::prelude::*;
use super::types::{RuntimeService, RuntimeServiceView, RuntimeState, RuntimeStateView};
use crate::data::Data;
use crate::sorted_map;
use crate::text;
use crate::time::Duration;

verus! {

/// Holds the current state of the runtime services.
#[derive(Debug, PartialEq, Eq)]
pub struct RuntimeServiceRegistry {
    pub state: RuntimeState,
}

impl DeepView for RuntimeServiceRegistry {
    type V = RuntimeStateView;

    open spec fn deep_view(&self) -> RuntimeStateView {
        self.state.deep_view()
    }
}

impl Default for RuntimeServiceRegistry {
    fn default() -> (r: RuntimeServiceRegistry)
        ensures
            r.deep_view() == (RuntimeStateView { version: 1, revision: 0, services: seq![] }),
    {
        RuntimeServiceRegistry { state: RuntimeState::default() }
    }
}

impl RuntimeServiceRegistry {
    /// A copy of the state.
    pub fn snapshot(&self) -> (r: RuntimeState)
        ensures
            r.deep_view() == self.deep_view(),
    {
        self.state.duplicate()
    }

    /// Puts another state in place of the one that is held.
    pub fn replace(&mut self, state: RuntimeState)
        ensures
            final(self).deep_view() == state.deep_view(),
    {
        self.state = state;
    }

    /// The services in the order of their ids.
    pub fn list(&self) -> (r: Vec<RuntimeService>)
        ensures
            r.deep_view() == self.deep_view().services.map_values(
                |e: (Seq<char>, RuntimeServiceView)| e.1,
            ),
    {
        self.state.list_services()
    }

    /// The service with the id.
    pub fn get(&self, id: &str) -> (r: Option<RuntimeService>)
        ensures
            r.deep_view() == sorted_map::lookup(self.deep_view().services, id@),
    {
        self.state.get_service(id)
    }
}

/// The key under which the requests of a target are counted.
pub open spec fn activity_key(
    service: Seq<char>,
    route: Seq<char>,
    group: Seq<char>,
    target: Seq<char>,
) -> Seq<char> {
    service + "/"@ + route + "/"@ + group + "/"@ + target
}

/// The key under which the requests of a target are counted.
pub fn runtime_target_activity_key(
    service_id: &str,
    route_id: &str,
    group_id: &str,
    target_id: &str,
) -> (r: String)
    ensures
        r@ == activity_key(service_id@, route_id@, group_id@, target_id@),
{
    let mut out = service_id.to_owned();
    out.append("/");
    out.append(route_id);
    out.append("/");
    out.append(group_id);
    out.append("/");
    out.append(target_id);
    out
}

/// `n` times `k`, but at most the largest number.
pub open spec fn capped(n: nat, k: nat) -> nat {
    if n * k <= u64::MAX {
        n * k
    } else {
        u64::MAX as nat
    }
}

/// `n` times `k`, but at most the largest number.
fn times(n: u64, k: u64) -> (r: u64)
    ensures
        r == capped(n as nat, k as nat),
{
    match n.checked_mul(k) {
        Some(p) => p,
        None => u64::MAX,
    }
}

/// The number of leading digits.
pub open spec fn digits(t: Seq<char>) -> int {
    text::lead(t, |c: char| text::is_digit(c), 0)
}

/// The nanoseconds that a text stands for, or what is wrong with it: a number, and
/// behind it nothing or `s` for seconds, `ms` for milliseconds, `m` for minutes or
/// `h` for hours.
pub open spec fn span_of(input: Seq<char>) -> Result<nat, Seq<char>> {
    let t = text::trimmed(input);
    let suffix = text::trimmed(t.skip(digits(t)));
    if t.len() == 0 {
        Err("duration must not be empty"@)
    } else {
        match text::number(t.take(digits(t)), u64::MAX as nat) {
            None => Err("invalid duration value '"@ + input + "'"@),
            Some(n) => if suffix.len() == 0 || suffix == "s"@ {
                Ok(n * 1_000_000_000)
            } else if suffix == "ms"@ {
                Ok(n * 1_000_000)
            } else if suffix == "m"@ {
                Ok(capped(n, 60) * 1_000_000_000)
            } else if suffix == "h"@ {
                Ok(capped(n, 3600) * 1_000_000_000)
            } else {
                Err("unsupported duration suffix '"@ + suffix + "'"@)
            },
        }
    }
}

/// Reads a duration of the runtime state.
pub fn parse_duration(input: &str) -> (r: Result<Duration, String>)
    ensures
        crate::data::outcome(r) == span_of(input@),
{
    let t = text::trim(input);
    if t.as_str().is_empty() {
        return Err("duration must not be empty".to_owned());
    }
    let v = text::chars(t.as_str());
    let ghost p = |c: char| text::is_digit(c);
    let mut i: usize = 0;
    while i < v.len() && '0' <= v[i] && v[i] <= '9'
        invariant
            p == (|c: char| text::is_digit(c)),
            i <= v.len(),
            v@ == t@,
            text::lead(t@, p, 0) == text::lead(t@, p, i as int),
        decreases v.len() - i,
    {
        i = i + 1;
    }
    let number = text::string_of(v.as_slice(), 0, i);
    let suffix = text::string_of(v.as_slice(), i, v.len());
    assert(number@ =~= t@.take(digits(t@)));
    assert(suffix@ =~= t@.skip(digits(t@)));
    let suffix = text::trim(suffix.as_str());
    let value: u64 = match text::parse_number(number.as_str(), u64::MAX) {
        Some(n) => n,
        None => return Err(text::join3("invalid duration value '", input, "'")),
    };
    if suffix.as_str().is_empty() || text::same(suffix.as_str(), "s") {
        Ok(Duration::from_secs(value))
    } else if text::same(suffix.as_str(), "ms") {
        Ok(Duration::from_millis(value))
    } else if text::same(suffix.as_str(), "m") {
        Ok(Duration::from_secs(times(value, 60)))
    } else if text::same(suffix.as_str(), "h") {
        Ok(Duration::from_secs(times(value, 3600)))
    } else {
        Err(text::join3("unsupported duration suffix '", suffix.as_str(), "'"))
    }
}

/// Targets have different keys, as long as no id holds a slash.
pub proof fn lemma_keys_differ(
    s: Seq<char>,
    r: Seq<char>,
    g: Seq<char>,
    t: Seq<char>,
    a: Seq<char>,
    b: Seq<char>,
    c: Seq<char>,
    d: Seq<char>,
)
    requires
        !s.contains('/') && !r.contains('/') && !g.contains('/'),
        !a.contains('/') && !b.contains('/') && !c.contains('/'),
        activity_key(s, r, g, t) == activity_key(a, b, c, d),
    ensures
        s == a,
        r == b,
        g == c,
        t == d,
{
    reveal_strlit("/");
    assert("/"@ =~= seq!['/']);
    let (x1, y1) = (g + seq!['/'] + t, c + seq!['/'] + d);
    let (x2, y2) = (r + seq!['/'] + x1, b + seq!['/'] + y1);
    assert(activity_key(s, r, g, t) =~= s + seq!['/'] + x2);
    assert(activity_key(a, b, c, d) =~= a + seq!['/'] + y2);
    text::lemma_cut_at(s, '/', x2);
    text::lemma_cut_at(a, '/', y2);
    text::lemma_cut_at(r, '/', x1);
    text::lemma_cut_at(b, '/', y1);
    text::lemma_cut_at(g, '/', t);
    text::lemma_cut_at(c, '/', d);
}

/// A number is that of seconds, alone or with an `s` behind it, of milliseconds with `ms`,
/// of minutes with `m` and of hours with `h`.
pub proof fn lemma_spans(n: u32)
    ensures
        span_of(text::decimal(n as nat)) == Ok::<nat, Seq<char>>((n * 1_000_000_000) as nat),
        span_of(text::decimal(n as nat) + seq!['s']) == Ok::<nat, Seq<char>>(
            (n * 1_000_000_000) as nat,
        ),
        span_of(text::decimal(n as nat) + seq!['m', 's']) == Ok::<nat, Seq<char>>(
            (n * 1_000_000) as nat,
        ),
        span_of(text::decimal(n as nat) + seq!['m']) == Ok::<nat, Seq<char>>(
            (n * 60_000_000_000) as nat,
        ),
        span_of(text::decimal(n as nat) + seq!['h']) == Ok::<nat, Seq<char>>(
            (n * 3_600_000_000_000) as nat,
        ),
        span_of(text::decimal(n as nat) + seq!['d']) is Err,
        span_of(Seq::empty()) is Err,
{
    reveal_strlit("s");
    reveal_strlit("ms");
    reveal_strlit("m");
    reveal_strlit("h");
    assert("s"@ =~= seq!['s'] && "ms"@ =~= seq!['m', 's'] && "m"@ =~= seq!['m'] && "h"@ =~= seq![
        'h',
    ]);
    lemma_span_parts(n, seq![]);
    lemma_span_parts(n, seq!['s']);
    lemma_span_parts(n, seq!['m', 's']);
    lemma_span_parts(n, seq!['m']);
    lemma_span_parts(n, seq!['h']);
    lemma_span_parts(n, seq!['d']);
    let d = text::decimal(n as nat);
    assert(d + Seq::<char>::empty() =~= d);
    assert(seq!['d'][0] == 'd' && seq!['s'][0] == 's' && seq!['m'][0] == 'm' && seq!['h'][0]
        == 'h' && seq!['m', 's'].len() == 2);
    text::lemma_trimmed_fixed(Seq::empty());
}

/// The number and the suffix of a span.
proof fn lemma_span_parts(n: u32, suffix: Seq<char>)
    requires
        suffix.len() > 0 ==> !text::is_digit(suffix[0]) && !text::is_space(suffix[0])
            && !text::is_space(suffix.last()),
    ensures
        ({
            let t = text::decimal(n as nat) + suffix;
            &&& text::trimmed(t) == t
            &&& t.len() > 0
            &&& text::number(t.take(digits(t)), u64::MAX as nat) == Some(n as nat)
            &&& text::trimmed(t.skip(digits(t))) == suffix
        }),
{
    let d = text::decimal(n as nat);
    let t = d + suffix;
    text::lemma_decimal_value(n as nat);
    assert(text::is_digit(d[0]) && text::is_digit(d.last()));
    assert(t[0] == d[0]);
    if suffix.len() > 0 {
        assert(t.last() == suffix.last());
    } else {
        assert(t =~= d);
    }
    text::lemma_trimmed_fixed(t);
    text::lemma_trimmed_fixed(suffix);
    let p = |c: char| text::is_digit(c);
    text::lemma_lead(t, p, 0);
    let k = digits(t);
    if k < d.len() {
        assert(t[k] == d[k] && text::is_digit(d[k]));
    }
    if k > d.len() {
        assert(p(t[d.len() as int]));
        assert(t[d.len() as int] == suffix[0]);
    }
    assert(t.take(k) =~= d);
    assert(t.skip(k) =~= suffix);
}

} // verus!
