//! Measures of the requests that were served, in the text format of Prometheus.

use vstd::prelude::*;
use crate::encoding;
use crate::encoding::{percent_decode, percent_encode};
use crate::message;
use crate::message::{Fields, Headers};
use crate::table;
use crate::table::{fetch, keys, new_table, store, Table};
use crate::text;
use crate::time::Duration;

verus! {

/// The plain values of [`Metrics`].
#[verifier::ext_equal]
pub struct MetricsView {
    /// One number for each host, method and status: the requests.
    pub requests: Map<Seq<char>, Seq<u128>>,
    /// Two numbers for each host and method: the microseconds and the requests.
    pub durations: Map<Seq<char>, Seq<u128>>,
    pub active: u64,
}

/// Counts of requests, the time they took, and the connections that are open.
pub struct Metrics {
    requests: Table,
    durations: Table,
    active: u64,
}

impl DeepView for Metrics {
    type V = MetricsView;

    closed spec fn deep_view(&self) -> MetricsView {
        MetricsView {
            requests: table::records(self.requests),
            durations: table::records(self.durations),
            active: self.active,
        }
    }
}

/// The key for the requests to a host with a method.
pub open spec fn pair_key(host: Seq<char>, method: Seq<char>) -> Seq<char> {
    encoding::percent_encoded(host) + " "@ + encoding::percent_encoded(method)
}

/// The key for the requests to a host with a method that had a status.
pub open spec fn full_key(host: Seq<char>, method: Seq<char>, status: u16) -> Seq<char> {
    pair_key(host, method) + " "@ + text::decimal(status as nat)
}

/// The number at a place of a record.
pub open spec fn number_at(m: Map<Seq<char>, Seq<u128>>, key: Seq<char>, i: int) -> u64 {
    if m.contains_key(key) && i < m[key].len() {
        m[key][i] as u64
    } else {
        0
    }
}

/// The parts of a key.
pub open spec fn part(key: Seq<char>, i: int) -> Seq<char> {
    text::pieces(key, ' ')[i]
}

/// Every key has the parts that it is made of.
pub open spec fn keys_of(m: Map<Seq<char>, Seq<u128>>, n: nat) -> bool {
    forall|k: Seq<char>| #[trigger] m.contains_key(k) ==> text::pieces(k, ' ').len() == n
}

impl MetricsView {
    /// The keys are those of requests.
    pub open spec fn wf(self) -> bool {
        keys_of(self.requests, 3) && keys_of(self.durations, 2)
    }

    /// The measures after one more request.
    pub open spec fn recorded(
        self,
        host: Seq<char>,
        method: Seq<char>,
        status: u16,
        nanos: nat,
    ) -> MetricsView {
        let (full, pair) = (full_key(host, method, status), pair_key(host, method));
        MetricsView {
            requests: self.requests.insert(
                full,
                seq![number_at(self.requests, full, 0).wrapping_add(1) as u128],
            ),
            durations: self.durations.insert(
                pair,
                seq![
                    number_at(self.durations, pair, 0).wrapping_add((nanos / 1000) as u64) as u128,
                    number_at(self.durations, pair, 1).wrapping_add(1) as u128,
                ],
            ),
            active: self.active,
        }
    }
}

/// An escaped text has no spaces.
proof fn lemma_no_spaces(b: Seq<u8>, i: int)
    ensures
        !encoding::escaped(b, i).contains(' '),
    decreases b.len() - i,
{
    if 0 <= i < b.len() {
        lemma_no_spaces(b, i + 1);
        let (e, r) = (encoding::escaped_byte(b[i]), encoding::escaped(b, i + 1));
        assert forall|j: int| 0 <= j < (e + r).len() implies (e + r)[j] != ' ' by {
            if j < e.len() {
                assert((e + r)[j] == e[j]);
            } else {
                assert((e + r)[j] == r[j - e.len()]);
            }
        }
    }
}

/// The parts of a key are the host, the method and the status, written without
/// spaces.
proof fn lemma_key_parts(host: Seq<char>, method: Seq<char>, status: u16)
    ensures
        text::pieces(pair_key(host, method), ' ') == seq![
            encoding::percent_encoded(host),
            encoding::percent_encoded(method),
        ],
        text::pieces(full_key(host, method, status), ' ') == seq![
            encoding::percent_encoded(host),
            encoding::percent_encoded(method),
            text::decimal(status as nat),
        ],
{
    let (h, m, s) = (
        encoding::percent_encoded(host),
        encoding::percent_encoded(method),
        text::decimal(status as nat),
    );
    lemma_no_spaces(vstd::utf8::encode_utf8(host), 0);
    lemma_no_spaces(vstd::utf8::encode_utf8(method), 0);
    text::lemma_decimal_value(status as nat);
    assert(!s.contains(' ')) by {
        if s.contains(' ') {
            let i = choose|i: int| 0 <= i < s.len() && s[i] == ' ';
            assert(text::is_digit(s[i]));
        }
    }
    reveal_strlit(" ");
    assert(" "@ =~= seq![' ']);
    let (two, three) = (seq![h, m], seq![h, m, s]);
    reveal_with_fuel(text::joined, 4);
    assert(two.drop_last() =~= seq![h]);
    assert(three.drop_last() =~= two);
    assert(text::joined(seq![h], seq![' ']) =~= h);
    assert(text::joined(two, seq![' ']) =~= pair_key(host, method));
    assert(text::joined(three, seq![' ']) =~= full_key(host, method, status));
    text::lemma_pieces_of_joined(two, ' ');
    text::lemma_pieces_of_joined(three, ' ');
}

/// Six digits behind the point.
pub open spec fn fraction(n: nat) -> Seq<char> {
    text::decimal(1_000_000 + n % 1_000_000).skip(1)
}

/// Microseconds as seconds.
pub open spec fn seconds(micros: u64) -> Seq<char> {
    text::decimal(micros as nat / 1_000_000) + "."@ + fraction(micros as nat)
}

/// Writes microseconds as seconds.
fn seconds_text(micros: u64) -> (r: String)
    ensures
        r@ == seconds(micros),
{
    let mut out = text::number_text((micros / 1_000_000) as u128);
    out.append(".");
    let digits = text::chars(text::number_text((1_000_000 + micros % 1_000_000) as u128).as_str());
    proof {
        text::lemma_decimal_value(1_000_000 + micros as nat % 1_000_000);
    }
    let tail = text::string_of(digits.as_slice(), 1, digits.len());
    assert(tail@ =~= fraction(micros as nat));
    out.append(tail.as_str());
    out
}

/// The line for the requests with a key.
pub open spec fn request_line(k: Seq<char>, n: u64) -> Seq<char> {
    "gatel_requests_total{host=\""@ + encoding::percent_decoded(part(k, 0)) + "\",method=\""@
        + encoding::percent_decoded(part(k, 1)) + "\",status=\""@ + part(k, 2) + "\"} "@
        + text::decimal(n as nat) + "\n"@
}

/// The labels of a host and a method.
pub open spec fn labels(k: Seq<char>) -> Seq<char> {
    "{host=\""@ + encoding::percent_decoded(part(k, 0)) + "\",method=\""@
        + encoding::percent_decoded(part(k, 1)) + "\"} "@
}

/// The lines for the time that the requests with a key took.
pub open spec fn duration_line(k: Seq<char>, micros: u64, n: u64) -> Seq<char> {
    "gatel_request_duration_seconds_sum"@ + labels(k) + seconds(micros)
        + "\ngatel_request_duration_seconds_count"@ + labels(k) + text::decimal(n as nat) + "\n"@
}

/// The lines for the requests with the keys from `i` on.
pub open spec fn request_lines(
    m: Map<Seq<char>, Seq<u128>>,
    ks: Seq<Seq<char>>,
    i: int,
) -> Seq<char>
    decreases ks.len() - i,
{
    if i < 0 || i >= ks.len() {
        seq![]
    } else {
        request_line(ks[i], number_at(m, ks[i], 0)) + request_lines(m, ks, i + 1)
    }
}

/// The lines for the times of the keys from `i` on.
pub open spec fn duration_lines(
    m: Map<Seq<char>, Seq<u128>>,
    ks: Seq<Seq<char>>,
    i: int,
) -> Seq<char>
    decreases ks.len() - i,
{
    if i < 0 || i >= ks.len() {
        seq![]
    } else {
        duration_line(ks[i], number_at(m, ks[i], 0), number_at(m, ks[i], 1)) + duration_lines(
            m,
            ks,
            i + 1,
        )
    }
}

/// The measures in the text format of Prometheus, with the keys in the given orders.
pub open spec fn prometheus(v: MetricsView, rs: Seq<Seq<char>>, ds: Seq<Seq<char>>) -> Seq<char> {
    "# HELP gatel_requests_total Total number of HTTP requests.\n# TYPE gatel_requests_total counter\n"@
        + request_lines(v.requests, rs, 0)
        + "# HELP gatel_request_duration_seconds Total request processing time in seconds.\n# TYPE gatel_request_duration_seconds histogram\n"@
        + duration_lines(v.durations, ds, 0)
        + "# HELP gatel_active_connections Current number of active connections.\n# TYPE gatel_active_connections gauge\ngatel_active_connections "@
        + text::decimal(v.active as nat) + "\n"@
}

/// The keys of a table, each once.
pub open spec fn lists_keys(m: Map<Seq<char>, Seq<u128>>, ks: Seq<Seq<char>>) -> bool {
    &&& ks.no_duplicates()
    &&& forall|k: Seq<char>| #[trigger] ks.contains(k) <==> m.contains_key(k)
}

/// The text is that of the measures, with the keys in some order.
pub open spec fn renders(v: MetricsView, t: Seq<char>) -> bool {
    exists|rs: Seq<Seq<char>>, ds: Seq<Seq<char>>| #[trigger]
        lists_keys(v.requests, rs) && #[trigger] lists_keys(v.durations, ds) && t == prometheus(
            v,
            rs,
            ds,
        )
}

/// The number at a place of a record.
fn read_number(t: &Table, key: &str, i: usize) -> (n: u64)
    ensures
        n == number_at(table::records(*t), key@, i as int),
{
    match fetch(t, key) {
        Some(v) => if i < v.len() {
            v[i] as u64
        } else {
            0
        },
        None => 0,
    }
}

fn write_request(k: &str, n: u64) -> (r: String)
    requires
        text::pieces(k@, ' ').len() == 3,
    ensures
        r@ == request_line(k@, n),
{
    let p = text::split(k, ' ');
    assert(forall|i: int| 0 <= i < 3 ==> #[trigger] p@[i]@ == p.deep_view()[i]);
    let mut out = "gatel_requests_total{host=\"".to_owned();
    out.append(percent_decode(p[0].as_str()).as_str());
    out.append("\",method=\"");
    out.append(percent_decode(p[1].as_str()).as_str());
    out.append("\",status=\"");
    out.append(p[2].as_str());
    out.append("\"} ");
    out.append(text::number_text(n as u128).as_str());
    out.append("\n");
    out
}

fn write_duration(k: &str, micros: u64, n: u64) -> (r: String)
    requires
        text::pieces(k@, ' ').len() == 2,
    ensures
        r@ == duration_line(k@, micros, n),
{
    let p = text::split(k, ' ');
    assert(forall|i: int| 0 <= i < 2 ==> #[trigger] p@[i]@ == p.deep_view()[i]);
    let mut l = "{host=\"".to_owned();
    l.append(percent_decode(p[0].as_str()).as_str());
    l.append("\",method=\"");
    l.append(percent_decode(p[1].as_str()).as_str());
    l.append("\"} ");
    let mut out = "gatel_request_duration_seconds_sum".to_owned();
    out.append(l.as_str());
    out.append(seconds_text(micros).as_str());
    out.append("\ngatel_request_duration_seconds_count");
    out.append(l.as_str());
    out.append(text::number_text(n as u128).as_str());
    out.append("\n");
    out
}

impl Metrics {
    /// Measures of no request.
    pub fn new() -> (m: Metrics)
        ensures
            m.deep_view().requests.is_empty(),
            m.deep_view().durations.is_empty(),
            m.deep_view().active == 0,
            m.deep_view().wf(),
    {
        Metrics { requests: new_table(), durations: new_table(), active: 0 }
    }

    /// Counts a request that is done.
    pub fn record_request(&mut self, host: &str, method: &str, status: u16, duration: Duration)
        requires
            old(self).deep_view().wf(),
        ensures
            final(self).deep_view() == old(self).deep_view().recorded(
                host@,
                method@,
                status,
                duration.total(),
            ),
            final(self).deep_view().wf(),
    {
        let mut pair = percent_encode(host);
        pair.append(" ");
        pair.append(percent_encode(method).as_str());
        let mut full = pair.clone();
        full.append(" ");
        full.append(text::number_text(status as u128).as_str());
        proof {
            lemma_key_parts(host@, method@, status);
        }
        let n = read_number(&self.requests, full.as_str(), 0);
        let mut record: Vec<u128> = Vec::new();
        record.push(n.wrapping_add(1) as u128);
        assert(record@ =~= seq![n.wrapping_add(1) as u128]);
        store(&mut self.requests, full.as_str(), record);
        let micros = duration.as_micros() as u64;
        let sum = read_number(&self.durations, pair.as_str(), 0);
        let count = read_number(&self.durations, pair.as_str(), 1);
        let mut record: Vec<u128> = Vec::new();
        record.push(sum.wrapping_add(micros) as u128);
        record.push(count.wrapping_add(1) as u128);
        assert(record@ =~= seq![
            sum.wrapping_add(micros) as u128,
            count.wrapping_add(1) as u128,
        ]);
        store(&mut self.durations, pair.as_str(), record);
    }

    /// Counts a connection that was opened.
    pub fn inc_active_connections(&mut self)
        ensures
            final(self).deep_view() == (MetricsView {
                active: old(self).deep_view().active.wrapping_add(1),
                ..old(self).deep_view()
            }),
    {
        self.active = self.active.wrapping_add(1);
    }

    /// Counts a connection that was closed.
    pub fn dec_active_connections(&mut self)
        ensures
            final(self).deep_view() == (MetricsView {
                active: old(self).deep_view().active.wrapping_sub(1),
                ..old(self).deep_view()
            }),
    {
        self.active = self.active.wrapping_sub(1);
    }

    /// The connections that are open.
    pub fn active_connections(&self) -> (n: u64)
        ensures
            n == self.deep_view().active,
    {
        self.active
    }

    /// Writes the measures with the keys in the given orders.
    pub fn render_in_order(&self, requests: &Vec<String>, durations: &Vec<String>) -> (r: String)
        requires
            self.deep_view().wf(),
            forall|k: Seq<char>| #[trigger]
                requests.deep_view().contains(k) ==> self.deep_view().requests.contains_key(k),
            forall|k: Seq<char>| #[trigger]
                durations.deep_view().contains(k) ==> self.deep_view().durations.contains_key(k),
        ensures
            r@ == prometheus(self.deep_view(), requests.deep_view(), durations.deep_view()),
    {
        let ghost (rs, ds) = (requests.deep_view(), durations.deep_view());
        let ghost v = self.deep_view();
        let mut out =
            "# HELP gatel_requests_total Total number of HTTP requests.\n# TYPE gatel_requests_total counter\n".to_owned();
        let ghost start = out@;
        for i in 0..requests.len()
            invariant
                rs == requests.deep_view(),
                v == self.deep_view(),
                v.wf(),
                forall|k: Seq<char>| #[trigger] rs.contains(k) ==> v.requests.contains_key(k),
                out@ + request_lines(v.requests, rs, i as int) == start + request_lines(
                    v.requests,
                    rs,
                    0,
                ),
        {
            let k = requests[i].as_str();
            assert(rs[i as int] == k@);
            assert(rs.contains(k@));
            let line = write_request(k, read_number(&self.requests, k, 0));
            let ghost before = out@;
            out.append(line.as_str());
            assert(out@ + request_lines(v.requests, rs, i + 1) =~= before + (line@ + request_lines(
                v.requests,
                rs,
                i + 1,
            )));
        }
        assert(out@ + request_lines(v.requests, rs, rs.len() as int) =~= out@);
        out.append(
            "# HELP gatel_request_duration_seconds Total request processing time in seconds.\n# TYPE gatel_request_duration_seconds histogram\n",
        );
        let ghost start = out@;
        for i in 0..durations.len()
            invariant
                ds == durations.deep_view(),
                v == self.deep_view(),
                v.wf(),
                forall|k: Seq<char>| #[trigger] ds.contains(k) ==> v.durations.contains_key(k),
                out@ + duration_lines(v.durations, ds, i as int) == start + duration_lines(
                    v.durations,
                    ds,
                    0,
                ),
        {
            let k = durations[i].as_str();
            assert(ds[i as int] == k@);
            assert(ds.contains(k@));
            let sum = read_number(&self.durations, k, 0);
            let count = read_number(&self.durations, k, 1);
            let line = write_duration(k, sum, count);
            let ghost before = out@;
            out.append(line.as_str());
            assert(out@ + duration_lines(v.durations, ds, i + 1) =~= before + (line@
                + duration_lines(v.durations, ds, i + 1)));
        }
        assert(out@ + duration_lines(v.durations, ds, ds.len() as int) =~= out@);
        out.append(
            "# HELP gatel_active_connections Current number of active connections.\n# TYPE gatel_active_connections gauge\ngatel_active_connections ",
        );
        out.append(text::number_text(self.active as u128).as_str());
        out.append("\n");
        out
    }

    /// Writes the measures in the text format of Prometheus. The keys come in an
    /// order that is not fixed.
    pub fn render_prometheus(&self) -> (r: String)
        requires
            self.deep_view().wf(),
        ensures
            renders(self.deep_view(), r@),
    {
        let rs = keys(&self.requests);
        let ds = keys(&self.durations);
        let r = self.render_in_order(&rs, &ds);
        proof {
            assert(lists_keys(self.deep_view().requests, rs.deep_view()));
            assert(lists_keys(self.deep_view().durations, ds.deep_view()));
        }
        r
    }
}

impl Default for Metrics {
    fn default() -> (m: Metrics)
        ensures
            m.deep_view().requests.is_empty(),
            m.deep_view().durations.is_empty(),
            m.deep_view().active == 0,
            m.deep_view().wf(),
    {
        Metrics::new()
    }
}

/// The host and method by which a request is counted.
pub struct MetricsHoop {
    pub host: String,
    pub method: String,
}

impl MetricsHoop {
    /// Notes that a request came in, and what it is counted by.
    pub fn begin(metrics: &mut Metrics, headers: &Headers, method: &str) -> (h: MetricsHoop)
        ensures
            h.host@ == message::field_or(headers.deep_view(), "host"@, "unknown"@),
            h.method@ == method@,
            final(metrics).deep_view() == (MetricsView {
                active: old(metrics).deep_view().active.wrapping_add(1),
                ..old(metrics).deep_view()
            }),
    {
        metrics.inc_active_connections();
        MetricsHoop { host: headers.text_or("host", "unknown"), method: method.to_owned() }
    }

    /// Notes that a request is done. Where no status was set, it is that of success.
    pub fn finish(self, metrics: &mut Metrics, status: Option<u16>, elapsed: Duration)
        requires
            old(metrics).deep_view().wf(),
        ensures
            final(metrics).deep_view() == (MetricsView {
                active: old(metrics).deep_view().active.wrapping_sub(1),
                ..old(metrics).deep_view()
            }).recorded(
                self.host@,
                self.method@,
                match status {
                    Some(s) => s,
                    None => 200,
                },
                elapsed.total(),
            ),
            final(metrics).deep_view().wf(),
    {
        metrics.dec_active_connections();
        let status: u16 = match status {
            Some(s) => s,
            None => 200,
        };
        metrics.record_request(self.host.as_str(), self.method.as_str(), status, elapsed);
    }
}

/// The line for a host, a method and a status names just these.
pub proof fn lemma_request_line(host: Seq<char>, method: Seq<char>, status: u16, n: u64)
    ensures
        request_line(full_key(host, method, status), n) == "gatel_requests_total{host=\""@ + host
            + "\",method=\""@ + method + "\",status=\""@ + text::decimal(status as nat) + "\"} "@
            + text::decimal(n as nat) + "\n"@,
        labels(pair_key(host, method)) == "{host=\""@ + host + "\",method=\""@ + method + "\"} "@,
{
    lemma_key_parts(host, method, status);
    encoding::lemma_percent_round_trip(host);
    encoding::lemma_percent_round_trip(method);
}

/// A request adds one to the number for its host, method and status, and leaves the
/// numbers for all others as they are.
pub proof fn lemma_counted_once(
    v: MetricsView,
    host: Seq<char>,
    method: Seq<char>,
    status: u16,
    nanos: nat,
    other_host: Seq<char>,
    other_method: Seq<char>,
    other_status: u16,
)
    ensures
        ({
            let k = full_key(other_host, other_method, other_status);
            let same = host == other_host && method == other_method && status == other_status;
            number_at(v.recorded(host, method, status, nanos).requests, k, 0) == (if same {
                number_at(v.requests, k, 0).wrapping_add(1)
            } else {
                number_at(v.requests, k, 0)
            })
        }),
{
    lemma_key_parts(host, method, status);
    lemma_key_parts(other_host, other_method, other_status);
    encoding::lemma_percent_round_trip(host);
    encoding::lemma_percent_round_trip(method);
    encoding::lemma_percent_round_trip(other_host);
    encoding::lemma_percent_round_trip(other_method);
    text::lemma_decimal_value(status as nat);
    text::lemma_decimal_value(other_status as nat);
    let k = full_key(host, method, status);
    let q = full_key(other_host, other_method, other_status);
    if k == q {
        let (a, b) = (text::pieces(k, ' '), text::pieces(q, ' '));
        assert(a[0] == b[0] && a[1] == b[1] && a[2] == b[2]);
    }
}

/// A request adds the time that it took, in microseconds, and one to the number for its
/// host and method, and leaves those for all others as they are. The number of open
/// connections stays.
pub proof fn lemma_time_added(
    v: MetricsView,
    host: Seq<char>,
    method: Seq<char>,
    status: u16,
    nanos: nat,
    other_host: Seq<char>,
    other_method: Seq<char>,
)
    requires
        nanos / 1000 <= u64::MAX,
    ensures
        ({
            let w = v.recorded(host, method, status, nanos);
            let k = pair_key(other_host, other_method);
            let same = host == other_host && method == other_method;
            &&& w.active == v.active
            &&& same ==> number_at(w.durations, k, 0) == number_at(v.durations, k, 0).wrapping_add(
                (nanos / 1000) as u64,
            ) && number_at(w.durations, k, 1) == number_at(v.durations, k, 1).wrapping_add(1)
            &&& !same ==> number_at(w.durations, k, 0) == number_at(v.durations, k, 0)
                && number_at(w.durations, k, 1) == number_at(v.durations, k, 1)
        }),
{
    lemma_key_parts(host, method, 0);
    lemma_key_parts(other_host, other_method, 0);
    encoding::lemma_percent_round_trip(host);
    encoding::lemma_percent_round_trip(method);
    encoding::lemma_percent_round_trip(other_host);
    encoding::lemma_percent_round_trip(other_method);
    let (a, b) = (pair_key(host, method), pair_key(other_host, other_method));
    if a == b {
        let p = text::pieces(a, ' ');
        assert(p[0] == encoding::percent_encoded(host) && p[0] == encoding::percent_encoded(
            other_host,
        ));
        assert(p[1] == encoding::percent_encoded(method) && p[1] == encoding::percent_encoded(
            other_method,
        ));
    }
}

/// Microseconds are written as seconds with six places behind the point.
pub proof fn lemma_seconds_written(s: u32, micros: u32)
    requires
        micros < 1_000_000,
    ensures
        seconds((s * 1_000_000 + micros) as u64) == text::decimal(s as nat) + seq!['.'] + fraction(
            micros as nat,
        ),
        text::value(fraction(micros as nat)) == micros,
        fraction(micros as nat).len() == 6,
{
    reveal_strlit(".");
    assert("."@ =~= seq!['.']);
    let n = (s * 1_000_000 + micros) as u64;
    assert(n as nat / 1_000_000 == s && n as nat % 1_000_000 == micros) by {
        vstd::arithmetic::div_mod::lemma_fundamental_div_mod_converse(
            n as int,
            1_000_000,
            s as int,
            micros as int,
        );
    }
    let m = 1_000_000 + micros as nat;
    let d = text::decimal(m);
    lemma_seven_digits(m);
    text::lemma_decimal_value(m);
    lemma_without_first(d, d.len() as int);
    assert(d.take(7) =~= d);
    assert(d.skip(1) =~= d.subrange(1, 7));
}

/// A number from one million to below two million has seven digits, the first a one.
proof fn lemma_seven_digits(m: nat)
    requires
        1_000_000 <= m < 2_000_000,
    ensures
        text::decimal(m).len() == 7,
        text::decimal(m)[0] == '1',
{
    reveal_with_fuel(text::decimal, 8);
    assert(text::decimal(1) =~= seq!['1']);
    assert(m / 10 / 10 / 10 / 10 / 10 / 10 == 1);
}

/// The value of digits without the leading one.
proof fn lemma_without_first(d: Seq<char>, n: int)
    requires
        d.len() == 7,
        d[0] == '1',
        1 <= n <= 7,
        forall|i: int| 0 <= i < d.len() ==> text::is_digit(#[trigger] d[i]),
    ensures
        text::value(d.take(n)) == text::value(d.subrange(1, n)) + (if n == 1 {
            1
        } else if n == 2 {
            10
        } else if n == 3 {
            100
        } else if n == 4 {
            1_000
        } else if n == 5 {
            10_000
        } else if n == 6 {
            100_000
        } else {
            1_000_000int
        }),
    decreases n,
{
    reveal_with_fuel(text::value, 2);
    if n == 1 {
        assert(d.take(1).drop_last() =~= seq![]);
        assert(d.take(1).last() == '1');
        assert(d.subrange(1, 1) =~= seq![]);
    } else {
        lemma_without_first(d, n - 1);
        assert(d.take(n).drop_last() =~= d.take(n - 1));
        assert(d.subrange(1, n).drop_last() =~= d.subrange(1, n - 1));
        assert(d.take(n).last() == d[n - 1]);
        assert(d.subrange(1, n).last() == d[n - 1]);
    }
}

/// The measures show for every key the time that its requests took in all, and how many they
/// were.
pub proof fn lemma_times_shown(m: Map<Seq<char>, Seq<u128>>, ks: Seq<Seq<char>>, j: int)
    requires
        0 <= j < ks.len(),
    ensures
        text::contains(
            duration_lines(m, ks, 0),
            "gatel_request_duration_seconds_sum"@ + labels(ks[j]) + seconds(number_at(m, ks[j], 0))
                + "\n"@,
        ),
        text::contains(
            duration_lines(m, ks, 0),
            "gatel_request_duration_seconds_count"@ + labels(ks[j]) + text::decimal(
                number_at(m, ks[j], 1) as nat,
            ) + "\n"@,
        ),
{
    lemma_times_from(m, ks, 0, j);
}

/// What the lines from `i` on show.
proof fn lemma_times_from(m: Map<Seq<char>, Seq<u128>>, ks: Seq<Seq<char>>, i: int, j: int)
    requires
        0 <= i <= j < ks.len(),
    ensures
        text::contains(
            duration_lines(m, ks, i),
            "gatel_request_duration_seconds_sum"@ + labels(ks[j]) + seconds(number_at(m, ks[j], 0))
                + "\n"@,
        ),
        text::contains(
            duration_lines(m, ks, i),
            "gatel_request_duration_seconds_count"@ + labels(ks[j]) + text::decimal(
                number_at(m, ks[j], 1) as nat,
            ) + "\n"@,
        ),
    decreases j - i,
{
    let sum = "gatel_request_duration_seconds_sum"@ + labels(ks[j]) + seconds(
        number_at(m, ks[j], 0),
    ) + "\n"@;
    let count = "gatel_request_duration_seconds_count"@ + labels(ks[j]) + text::decimal(
        number_at(m, ks[j], 1) as nat,
    ) + "\n"@;
    let line = duration_line(ks[i], number_at(m, ks[i], 0), number_at(m, ks[i], 1));
    let rest = duration_lines(m, ks, i + 1);
    let e = Seq::<char>::empty();
    if i < j {
        lemma_times_from(m, ks, i + 1, j);
        text::lemma_contains_within(line, rest, e, sum);
        text::lemma_contains_within(line, rest, e, count);
        assert(line + rest + e =~= line + rest);
    } else {
        reveal_strlit("\n");
        reveal_strlit("gatel_request_duration_seconds_count");
        reveal_strlit("\ngatel_request_duration_seconds_count");
        assert("\ngatel_request_duration_seconds_count"@ =~= "\n"@
            + "gatel_request_duration_seconds_count"@);
        assert(line =~= sum + count);
        text::lemma_contains_put(e, sum, count + rest);
        text::lemma_contains_put(sum, count, rest);
        assert(e + sum + (count + rest) =~= line + rest);
        assert(sum + count + rest =~= line + rest);
    }
}

} // verus!
