//! Lines for the log of requests, and when and how its files are rotated.

use vstd::prelude::*;
use crate::http_date;
use crate::http_date::{unix_to_date, write_two_digits, CivilTime};
use crate::message;
use crate::message::{ClientAddr, ClientView, Fields, Headers, Uri, UriView};
use crate::placeholder;
use crate::text;
use crate::time::{Duration, SystemTime};

verus! {

/// The format of a line where none is set.
pub open spec fn default_format() -> Seq<char> {
    "{client_ip} - [{timestamp}] \"{method} {path}\" {status} {latency_ms}ms"@
}

/// What a line of the log speaks of.
#[verifier::ext_equal]
pub struct EntryView {
    pub client: ClientView,
    pub method: Seq<char>,
    pub path: Seq<char>,
    pub path_and_query: Seq<char>,
    pub status: u16,
    pub latency: nat,
    pub headers: Fields,
    pub content_length: Option<u64>,
    pub at: u64,
}

/// What a line of the log speaks of: a request and its answer.
pub struct LogEntry<'a> {
    pub client: &'a ClientAddr,
    pub method: &'a str,
    pub path: &'a str,
    pub path_and_query: &'a str,
    pub status: u16,
    pub latency: Duration,
    /// The fields of the request.
    pub headers: &'a Headers,
    pub content_length: Option<u64>,
    pub at: SystemTime,
}

impl<'a> DeepView for LogEntry<'a> {
    type V = EntryView;

    open spec fn deep_view(&self) -> EntryView {
        EntryView {
            client: self.client.deep_view(),
            method: self.method@,
            path: self.path@,
            path_and_query: self.path_and_query@,
            status: self.status,
            latency: self.latency.total(),
            headers: self.headers.deep_view(),
            content_length: self.content_length,
            at: self.at.secs,
        }
    }
}

/// A time such as `1994-11-06T08:49:37Z`.
pub open spec fn timestamp(t: CivilTime) -> Seq<char> {
    text::decimal(t.year as nat) + "-"@ + http_date::two_digits(t.month as nat) + "-"@
        + http_date::two_digits(t.day as nat) + "T"@ + http_date::two_digits(t.hour as nat) + ":"@
        + http_date::two_digits(t.minute as nat) + ":"@ + http_date::two_digits(t.second as nat)
        + "Z"@
}

/// Writes the time of a number of seconds since the epoch.
pub fn write_timestamp(secs: u64) -> (r: String)
    ensures
        r@ == timestamp(http_date::date_at(secs)),
{
    let t = unix_to_date(secs);
    proof {
        http_date::lemma_date_at(secs);
        http_date::lemma_date_unique(t, http_date::date_at(secs));
    }
    let mut out = text::number_text(t.year as u128);
    out.append("-");
    out.append(write_two_digits(t.month).as_str());
    out.append("-");
    out.append(write_two_digits(t.day).as_str());
    out.append("T");
    out.append(write_two_digits(t.hour).as_str());
    out.append(":");
    out.append(write_two_digits(t.minute).as_str());
    out.append(":");
    out.append(write_two_digits(t.second).as_str());
    out.append("Z");
    out
}

/// A number, or a dash where there is none.
pub open spec fn number_or_dash(n: Option<u64>) -> Seq<char> {
    match n {
        Some(n) => text::decimal(n as nat),
        None => "-"@,
    }
}

/// A format with the placeholders of fixed names filled in, one name after the
/// other.
pub open spec fn filled(format: Seq<char>, e: EntryView) -> Seq<char> {
    let s = text::replaced(format, "{client_ip}"@, e.client.ip_text);
    let s = text::replaced(s, "{client_port}"@, text::decimal(e.client.port as nat));
    let s = text::replaced(s, "{method}"@, e.method);
    let s = text::replaced(s, "{path}"@, e.path);
    let s = text::replaced(s, "{path_and_query}"@, e.path_and_query);
    let s = text::replaced(s, "{status}"@, text::decimal(e.status as nat));
    let s = text::replaced(s, "{latency_ms}"@, text::decimal(e.latency / 1_000_000));
    let s = text::replaced(s, "{host}"@, message::field_or(e.headers, "host"@, "-"@));
    let s = text::replaced(s, "{timestamp}"@, timestamp(http_date::date_at(e.at)));
    let s = text::replaced(s, "{content_length}"@, number_or_dash(e.content_length));
    text::replaced(s, "{user_agent}"@, message::field_or(e.headers, "user-agent"@, "-"@))
}

/// Fills in the placeholders of fixed names.
pub fn fill(format: &str, e: &LogEntry) -> (r: String)
    ensures
        r@ == filled(format@, e.deep_view()),
{
    let s = text::replace(format, "{client_ip}", e.client.ip_text.as_str());
    let s = text::replace(
        s.as_str(),
        "{client_port}",
        text::number_text(e.client.port as u128).as_str(),
    );
    let s = text::replace(s.as_str(), "{method}", e.method);
    let s = text::replace(s.as_str(), "{path}", e.path);
    let s = text::replace(s.as_str(), "{path_and_query}", e.path_and_query);
    let s = text::replace(s.as_str(), "{status}", text::number_text(e.status as u128).as_str());
    let s = text::replace(
        s.as_str(),
        "{latency_ms}",
        text::number_text(e.latency.as_millis()).as_str(),
    );
    let s = text::replace(s.as_str(), "{host}", e.headers.text_or("host", "-").as_str());
    let s = text::replace(s.as_str(), "{timestamp}", write_timestamp(e.at.secs).as_str());
    let length = match e.content_length {
        Some(n) => text::number_text(n as u128),
        None => "-".to_owned(),
    };
    let s = text::replace(s.as_str(), "{content_length}", length.as_str());
    text::replace(s.as_str(), "{user_agent}", e.headers.text_or("user-agent", "-").as_str())
}

/// The text with the first placeholder for a field, wherever it stands, replaced by
/// the value of the field or a dash; nothing where no such placeholder is left.
pub open spec fn header_filled(s: Seq<char>, h: Fields) -> Option<Seq<char>> {
    match text::first_at(s, "{header:"@, 0) {
        None => None,
        Some(i) => match text::char_at(s, '}', i) {
            None => None,
            Some(j) => Some(
                text::replaced(
                    s,
                    s.subrange(i, j + 1),
                    message::field_or(h, s.subrange(i + 8, j), "-"@),
                ),
            ),
        },
    }
}

/// The text after at most `n` placeholders for fields were filled in.
pub open spec fn headers_filled(s: Seq<char>, h: Fields, n: nat) -> Seq<char>
    decreases n,
{
    match header_filled(s, h) {
        None => s,
        Some(t) => if n == 0 {
            s
        } else {
            headers_filled(t, h, (n - 1) as nat)
        },
    }
}

/// No placeholder for a field is left after `n` of them were filled in.
pub open spec fn settles(s: Seq<char>, h: Fields, n: nat) -> bool {
    header_filled(headers_filled(s, h, n), h) is None
}

/// Fills in the first placeholder for a field.
fn fill_header(s: &str, h: &Headers) -> (r: Option<String>)
    ensures
        r.deep_view() == header_filled(s@, h.deep_view()),
{
    let v = text::chars(s);
    let p = text::chars("{header:");
    let i: usize = match text::find_in(v.as_slice(), p.as_slice(), 0) {
        Some(i) => i,
        None => return None,
    };
    proof {
        text::lemma_first_at(s@, "{header:"@, 0);
    }
    let j: usize = match text::find_char_in(v.as_slice(), '}', i) {
        Some(j) => j,
        None => return None,
    };
    proof {
        reveal_strlit("{header:");
        text::lemma_char_at(s@, '}', i as int);
        let q = "{header:"@;
        assert(q.len() == 8);
        if j < i + 8 {
            assert(s@.subrange(i as int, i + 8)[j - i] == q[j - i]);
            assert(q[0] != '}' && q[1] != '}' && q[2] != '}' && q[3] != '}' && q[4] != '}'
                && q[5] != '}' && q[6] != '}' && q[7] != '}');
        }
    }
    let placeholder = text::string_of(v.as_slice(), i, j + 1);
    let name = text::string_of(v.as_slice(), i + 8, j);
    Some(text::replace(s, placeholder.as_str(), h.text_or(name.as_str(), "-").as_str()))
}

/// Fills in the placeholders for fields, as long as there are any.
pub fn fill_headers(s: &str, h: &Headers) -> (r: String)
    requires
        exists|n: nat| settles(s@, h.deep_view(), n),
    ensures
        exists|n: nat| #[trigger]
            settles(s@, h.deep_view(), n) && r@ == headers_filled(s@, h.deep_view(), n),
{
    let ghost f = h.deep_view();
    let ghost all = choose|n: nat| settles(s@, f, n);
    let ghost mut n: nat = all;
    let mut out = s.to_owned();
    loop
        invariant
            f == h.deep_view(),
            settles(s@, f, all),
            settles(out@, f, n),
            headers_filled(out@, f, n) == headers_filled(s@, f, all),
        decreases n,
    {
        match fill_header(out.as_str(), h) {
            Some(t) => {
                assert(n > 0);
                out = t;
                proof {
                    n = (n - 1) as nat;
                }
            },
            None => {
                return out;
            },
        }
    }
}

/// Fills in the placeholders for fields, unless that takes more steps than the limit.
pub fn fill_headers_within(s: &str, h: &Headers, limit: usize) -> (r: Option<String>)
    ensures
        match r {
            Some(t) => settles(s@, h.deep_view(), limit as nat) && t@ == headers_filled(
                s@,
                h.deep_view(),
                limit as nat,
            ),
            None => !settles(s@, h.deep_view(), limit as nat),
        },
{
    let ghost f = h.deep_view();
    let mut out = s.to_owned();
    let mut left: usize = limit;
    loop
        invariant
            f == h.deep_view(),
            headers_filled(out@, f, left as nat) == headers_filled(s@, f, limit as nat),
        decreases left,
    {
        match fill_header(out.as_str(), h) {
            Some(t) => {
                if left == 0 {
                    return None;
                }
                out = t;
                left = left - 1;
            },
            None => {
                return Some(out);
            },
        }
    }
}

/// Writes a line of the log in the given format.
pub fn format_log_line(format: &str, e: &LogEntry) -> (r: String)
    requires
        exists|n: nat| settles(filled(format@, e.deep_view()), e.deep_view().headers, n),
    ensures
        exists|n: nat| #[trigger]
            settles(filled(format@, e.deep_view()), e.deep_view().headers, n) && r@
                == headers_filled(filled(format@, e.deep_view()), e.deep_view().headers, n),
{
    let s = fill(format, e);
    fill_headers(s.as_str(), e.headers)
}

/// A file of the log: where it is, how long it is, and when it is rotated.
#[derive(Debug, PartialEq, Eq)]
pub struct RotatingLogWriter {
    pub path: String,
    pub current_size: u64,
    pub max_size: Option<u64>,
    pub max_keep: Option<usize>,
}

/// What is done with one of the files of a log. The file in use has the number zero,
/// and a higher number stands for an older file.
#[derive(Clone, Copy, Debug, PartialEq, Eq, Structural)]
pub enum RotationStep {
    Remove(usize),
    Rename { from: usize, to: usize },
}

/// The path of the file with the number.
pub open spec fn numbered(base: Seq<char>, n: usize) -> Seq<char> {
    if n == 0 {
        base
    } else {
        base + "."@ + text::decimal(n as nat)
    }
}

/// The path of the file with the number, such as `/var/log/access.log.1`.
pub fn rotated_path(base: &str, n: usize) -> (r: String)
    ensures
        r@ == numbered(base@, n),
{
    if n == 0 {
        base.to_owned()
    } else {
        text::join3(base, ".", text::number_text(n as u128).as_str())
    }
}

/// What is done with the files from the number `n` down to the one in use: each is
/// given the next number, or removed where that is beyond the number of files to keep.
pub open spec fn steps_down(n: nat, keep: usize) -> Seq<RotationStep>
    decreases n,
{
    let step = if n >= keep {
        RotationStep::Remove(n as usize)
    } else {
        RotationStep::Rename { from: n as usize, to: (n + 1) as usize }
    };
    if n == 0 {
        seq![step]
    } else {
        seq![step] + steps_down((n - 1) as nat, keep)
    }
}

/// What is done to rotate the files up to the number `highest`.
pub open spec fn rotation(highest: usize, keep: Option<usize>) -> Seq<RotationStep> {
    match keep {
        Some(0) => seq![],
        Some(k) => steps_down(highest as nat, k),
        None => steps_down(highest as nat, usize::MAX),
    }
}

/// Lists what is done with the files from the number `highest` down.
fn rotation_steps(highest: usize, keep: usize) -> (r: Vec<RotationStep>)
    requires
        keep > 0,
    ensures
        r@ == steps_down(highest as nat, keep),
{
    let mut steps: Vec<RotationStep> = Vec::new();
    let mut n: usize = highest;
    assert(steps@ + steps_down(n as nat, keep) =~= steps_down(highest as nat, keep));
    loop
        invariant
            n <= highest,
            steps@ + steps_down(n as nat, keep) == steps_down(highest as nat, keep),
        decreases n,
    {
        let ghost before = steps@;
        let step = if n >= keep {
            RotationStep::Remove(n)
        } else {
            RotationStep::Rename { from: n, to: n + 1 }
        };
        steps.push(step);
        if n == 0 {
            assert(steps@ =~= before + seq![step]);
            return steps;
        }
        assert(steps@ + steps_down((n - 1) as nat, keep) =~= before + (seq![step] + steps_down(
            (n - 1) as nat,
            keep,
        )));
        n = n - 1;
    }
}

/// A number of bytes more makes a file longer than it may be.
pub open spec fn goes_beyond(size: u64, len: usize, max: Option<u64>) -> bool {
    match max {
        Some(m) => size + len > m,
        None => false,
    }
}

impl RotatingLogWriter {
    /// A log in the file at the path, which holds a number of bytes already.
    pub fn open(
        path: String,
        current_size: u64,
        max_size: Option<u64>,
        max_keep: Option<usize>,
    ) -> (w: RotatingLogWriter)
        ensures
            w == (RotatingLogWriter { path, current_size, max_size, max_keep }),
    {
        RotatingLogWriter { path, current_size, max_size, max_keep }
    }

    /// Tells whether the files are to be rotated before a number of bytes is written.
    pub fn must_rotate(&self, len: usize) -> (r: bool)
        ensures
            r == goes_beyond(self.current_size, len, self.max_size),
    {
        match self.max_size {
            Some(max) => self.current_size as u128 + len as u128 > max as u128,
            None => false,
        }
    }

    /// The number of files to keep besides the one in use.
    pub fn keep(&self) -> (r: usize)
        ensures
            r == (match self.max_keep {
                Some(k) => k,
                None => usize::MAX,
            }),
    {
        match self.max_keep {
            Some(k) => k,
            None => usize::MAX,
        }
    }

    /// What is done to rotate the files, where those with the numbers up to `highest`
    /// exist.
    pub fn rotate(&mut self, highest: usize) -> (r: Vec<RotationStep>)
        ensures
            r@ == rotation(highest, old(self).max_keep),
            *final(self) == (RotatingLogWriter { current_size: 0, ..*old(self) }),
    {
        self.current_size = 0;
        let keep = self.keep();
        if keep == 0 {
            let steps: Vec<RotationStep> = Vec::new();
            assert(steps@ =~= seq![]);
            steps
        } else {
            rotation_steps(highest, keep)
        }
    }

    /// Notes that a number of bytes was written.
    pub fn wrote(&mut self, len: usize)
        requires
            old(self).current_size + len <= u64::MAX,
        ensures
            *final(self) == (RotatingLogWriter {
                current_size: (old(self).current_size + len) as u64,
                ..*old(self)
            }),
    {
        self.current_size = self.current_size + len as u64;
    }
}

/// The files after a step.
pub open spec fn after_step<A>(files: Map<int, A>, s: RotationStep) -> Map<int, A> {
    match s {
        RotationStep::Remove(n) => files.remove(n as int),
        RotationStep::Rename { from, to } => files.remove(from as int).insert(
            to as int,
            files[from as int],
        ),
    }
}

/// The files after the steps from `i` on.
pub open spec fn after_steps<A>(files: Map<int, A>, s: Seq<RotationStep>, i: int) -> Map<int, A>
    decreases s.len() - i,
{
    if i < 0 || i >= s.len() {
        files
    } else {
        after_steps(after_step(files, s[i]), s, i + 1)
    }
}

/// Exactly the files up to the number exist.
pub open spec fn files_up_to<A>(files: Map<int, A>, n: int) -> bool {
    forall|i: int| #[trigger] files.contains_key(i) <==> 0 <= i <= n
}

/// The steps behind the first are those of the numbers below.
proof fn lemma_steps_tail<A>(files: Map<int, A>, s: Seq<RotationStep>, t: Seq<RotationStep>, i: int)
    requires
        s.len() == t.len() + 1,
        0 <= i <= t.len(),
        forall|k: int| 0 <= k < t.len() ==> s[k + 1] == #[trigger] t[k],
    ensures
        after_steps(files, s, i + 1) == after_steps(files, t, i),
    decreases t.len() - i,
{
    if i < t.len() {
        assert(s[i + 1] == t[i]);
        lemma_steps_tail(after_step(files, t[i]), s, t, i + 1);
    }
}

/// From the number `n` down, each file gets the next number or is removed.
proof fn lemma_steps_down<A>(files: Map<int, A>, n: nat, keep: usize)
    requires
        n <= keep,
        keep > 0,
        forall|i: int| 0 <= i <= n ==> #[trigger] files.contains_key(i),
        !files.contains_key(n + 1int),
    ensures
        ({
            let f = after_steps(files, steps_down(n, keep), 0);
            &&& !f.contains_key(0)
            &&& forall|i: int|
                #![trigger f.contains_key(i)]
                #![trigger f[i]]
                1 <= i <= n + 1 && i <= keep ==> f.contains_key(i) && f[i] == files[i - 1]
            &&& n == keep ==> !f.contains_key(n + 1int)
            &&& forall|i: int|
                #![trigger f.contains_key(i)]
                #![trigger f[i]]
                i < 0 || i > n + 1 ==> f.contains_key(i) == files.contains_key(i) && (
                f.contains_key(i) ==> f[i] == files[i])
        }),
    decreases n,
{
    let s = steps_down(n, keep);
    let g = after_step(files, s[0]);
    if n == 0 {
        assert(s =~= seq![RotationStep::Rename { from: 0, to: 1 }]);
        assert(after_steps(files, s, 0) == after_steps(g, s, 1));
        assert(after_steps(g, s, 1) == g);
    } else {
        let t = steps_down((n - 1) as nat, keep);
        assert(s == seq![s[0]] + t);
        assert(forall|k: int| 0 <= k < t.len() ==> s[k + 1] == #[trigger] t[k]);
        lemma_steps_tail(g, s, t, 0);
        assert(!g.contains_key(n as int));
        lemma_steps_down(g, (n - 1) as nat, keep);
        let f = after_steps(g, t, 0);
        assert(f == after_steps(files, s, 0));
        assert forall|i: int| 1 <= i <= n + 1 && i <= keep implies f.contains_key(i) && f[i]
            == files[i - 1] by {
            let v = f[i];
            if i == n + 1 {
                assert(s[0] == RotationStep::Rename { from: n as usize, to: (n + 1) as usize });
                assert(g[i] == files[n as int]);
            } else {
                assert(v == g[i - 1]);
                assert(g[i - 1] == files[i - 1]);
            }
        }
        assert(f.contains_key(n + 1int) == g.contains_key(n + 1int));
    }
}

/// A rotation gives the file in use the number one and every older file the next
/// number. Nothing stays at the place of the file in use, and no file has a number
/// beyond those to keep.
pub proof fn lemma_rotation<A>(files: Map<int, A>, highest: usize, max_keep: Option<usize>)
    requires
        files_up_to(files, highest as int),
        max_keep != Some(0usize),
        highest <= (match max_keep {
            Some(k) => k,
            None => usize::MAX,
        }),
    ensures
        ({
            let keep = match max_keep {
                Some(k) => k,
                None => usize::MAX,
            };
            let f = after_steps(files, rotation(highest, max_keep), 0);
            &&& forall|i: int| #[trigger]
                f.contains_key(i) <==> 1 <= i <= highest + 1 && i <= keep
            &&& forall|i: int| #[trigger] f.contains_key(i) ==> f[i] == files[i - 1]
        }),
{
    let keep = match max_keep {
        Some(k) => k,
        None => usize::MAX,
    };
    lemma_steps_down(files, highest as nat, keep);
}

/// Where the log of requests goes and how its lines look.
#[derive(Debug, PartialEq, Eq)]
pub struct LoggingHoop {
    pub log_file: Option<RotatingLogWriter>,
    pub error_log_file: Option<RotatingLogWriter>,
    pub format: Option<String>,
}

/// At least so many placeholders for fields are filled in.
pub const MAX_HEADER_STEPS: usize = 10_000;

/// The number of opening braces in a text.
pub open spec fn braces(s: Seq<char>) -> nat
    decreases s.len(),
{
    if s.len() == 0 {
        0
    } else {
        braces(s.drop_last()) + (if s.last() == '{' {
            1nat
        } else {
            0
        })
    }
}

/// The number of placeholders for fields that are filled in at most: as many as there
/// can be in the text itself, and some more for those that come from fields.
pub open spec fn header_steps(s: Seq<char>) -> nat {
    if braces(s) > MAX_HEADER_STEPS {
        braces(s)
    } else {
        MAX_HEADER_STEPS as nat
    }
}

/// No field reads as a text with an opening brace, so that none holds a placeholder or
/// a part of one that opens it.
pub open spec fn plain_fields(h: Fields) -> bool {
    forall|name: Seq<char>| !(#[trigger] message::field_or(h, name, "-"@)).contains('{')
}

/// The braces of two texts in a row.
proof fn lemma_braces_add(a: Seq<char>, b: Seq<char>)
    ensures
        braces(a + b) == braces(a) + braces(b),
    decreases b.len(),
{
    if b.len() == 0 {
        assert(a + b =~= a);
    } else {
        lemma_braces_add(a, b.drop_last());
        assert((a + b).drop_last() =~= a + b.drop_last());
    }
}

proof fn lemma_no_braces(s: Seq<char>)
    requires
        !s.contains('{'),
    ensures
        braces(s) == 0,
    decreases s.len(),
{
    if s.len() > 0 {
        assert forall|i: int| 0 <= i < s.drop_last().len() implies s.drop_last()[i] != '{' by {
            assert(s.contains(s[i]));
        }
        assert(s.contains(s.last()));
        lemma_no_braces(s.drop_last());
    }
}

/// Replacing a text that begins with a brace by one that has none leaves fewer braces,
/// where it occurs.
proof fn lemma_braces_replaced(s: Seq<char>, p: Seq<char>, by: Seq<char>, i: int)
    requires
        0 <= i <= s.len(),
        p.len() > 0,
        p[0] == '{',
        !by.contains('{'),
    ensures
        braces(text::replaced_from(s, p, by, i)) <= braces(s.skip(i)),
        text::first_at(s, p, i) is Some ==> braces(text::replaced_from(s, p, by, i)) < braces(
            s.skip(i),
        ),
    decreases s.len() - i,
{
    text::lemma_first_at(s, p, i);
    if let Some(j) = text::first_at(s, p, i) {
        lemma_braces_replaced(s, p, by, j + p.len());
        lemma_no_braces(by);
        let (a, rest) = (s.subrange(i, j), s.skip(j + p.len()));
        assert(s.skip(i) =~= a + p + rest);
        lemma_braces_add(a + p, rest);
        lemma_braces_add(a, p);
        lemma_braces_add(a + by, text::replaced_from(s, p, by, j + p.len()));
        lemma_braces_add(a, by);
        assert(p =~= seq![p[0]] + p.skip(1));
        lemma_braces_add(seq![p[0]], p.skip(1));
        assert(seq![p[0]].drop_last() =~= Seq::<char>::empty());
    }
}

/// Where no field reads as a text with a brace, every placeholder that is filled in
/// leaves fewer braces.
proof fn lemma_fewer_braces(s: Seq<char>, h: Fields)
    requires
        plain_fields(h),
    ensures
        header_filled(s, h) matches Some(t) ==> braces(t) < braces(s),
{
    reveal_strlit("{header:");
    let q = "{header:"@;
    text::lemma_first_at(s, q, 0);
    if let Some(i) = text::first_at(s, q, 0) {
        text::lemma_char_at(s, '}', i);
        if let Some(j) = text::char_at(s, '}', i) {
            let p = s.subrange(i, j + 1);
            let by = message::field_or(h, s.subrange(i + 8, j), "-"@);
            assert(s.subrange(i, i + 8)[0] == q[0]);
            assert(p[0] == '{');
            text::lemma_first_at(s, p, 0);
            assert(text::occurs_at(s, p, i));
            lemma_braces_replaced(s, p, by, 0);
            assert(s.skip(0) =~= s);
        }
    }
}

/// Where no field reads as a text with a brace, all placeholders for fields are filled
/// in after at most as many steps as there are braces, so that a line is always
/// written.
pub proof fn lemma_plain_fields_settle(s: Seq<char>, h: Fields, n: nat)
    requires
        plain_fields(h),
        braces(s) <= n,
    ensures
        settles(s, h, n),
    decreases n,
{
    lemma_fewer_braces(s, h);
    if let Some(t) = header_filled(s, h) {
        lemma_plain_fields_settle(t, h, (n - 1) as nat);
    }
}

/// Counts the opening braces.
fn count_braces(s: &str) -> (r: usize)
    ensures
        r == braces(s@),
{
    let v = text::chars(s);
    let mut n: usize = 0;
    for i in 0..v.len()
        invariant
            v@ == s@,
            n == braces(s@.take(i as int)),
            n <= i,
    {
        let ghost t = s@.take(i + 1);
        assert(t.drop_last() =~= s@.take(i as int));
        assert(t.last() == v@[i as int]);
        if v[i] == '{' {
            n = n + 1;
        }
    }
    assert(s@.take(s@.len() as int) =~= s@);
    n
}

/// The format of a log.
pub open spec fn format_of(f: Option<Seq<char>>) -> Seq<char> {
    match f {
        Some(f) => f,
        None => default_format(),
    }
}

/// What the log says of a request and its answer.
pub open spec fn entry(
    client: ClientView,
    method: Seq<char>,
    uri: UriView,
    headers: Fields,
    status: Option<u16>,
    answer: Fields,
    latency: nat,
    at: u64,
) -> EntryView {
    EntryView {
        client,
        method,
        path: uri.path(),
        path_and_query: match uri.path_and_query {
            Some(p) => p,
            None => uri.path(),
        },
        status: match status {
            Some(s) => s,
            None => 200,
        },
        latency,
        headers,
        content_length: content_length(answer),
        at,
    }
}

/// The length that an answer announces.
pub open spec fn content_length(h: Fields) -> Option<u64> {
    match message::field_of(h, "content-length"@) {
        Some(t) => match text::number(t, u64::MAX as nat) {
            Some(n) => Some(n as u64),
            None => None,
        },
        None => None,
    }
}

impl LoggingHoop {
    /// A log without files.
    pub fn new() -> (r: LoggingHoop)
        ensures
            r == (LoggingHoop { log_file: None, error_log_file: None, format: None }),
    {
        LoggingHoop { log_file: None, error_log_file: None, format: None }
    }

    /// A log in a file.
    pub fn with_rotating_writer(writer: RotatingLogWriter, format: Option<String>) -> (r:
        LoggingHoop)
        ensures
            r == (LoggingHoop { log_file: Some(writer), error_log_file: None, format }),
    {
        LoggingHoop { log_file: Some(writer), error_log_file: None, format }
    }

    /// A log in a file, and one for errors in another.
    pub fn with_files(
        access_writer: RotatingLogWriter,
        error_writer: RotatingLogWriter,
        format: Option<String>,
    ) -> (r: LoggingHoop)
        ensures
            r == (LoggingHoop {
                log_file: Some(access_writer),
                error_log_file: Some(error_writer),
                format,
            }),
    {
        LoggingHoop { log_file: Some(access_writer), error_log_file: Some(error_writer), format }
    }

    /// The line for a request and its answer, where the log has a file. Where no field
    /// of the request reads as a text with an opening brace, it is always written. Where
    /// one does, filling in may never end: then nothing is written once as many
    /// placeholders were filled in as the text has braces, and [`MAX_HEADER_STEPS`] at
    /// least.
    ///
    /// Law: [`lemma_plain_fields_settle`].
    pub fn line(
        &self,
        client: &ClientAddr,
        method: &str,
        uri: &Uri,
        headers: &Headers,
        status: Option<u16>,
        answer: &Headers,
        latency: Duration,
        at: SystemTime,
    ) -> (r: Option<String>)
        ensures
            ({
                let e = entry(
                    client.deep_view(),
                    method@,
                    uri.deep_view(),
                    headers.deep_view(),
                    status,
                    answer.deep_view(),
                    latency.total(),
                    at.secs,
                );
                let s = filled(format_of(self.format.deep_view()), e);
                let n = header_steps(s);
                &&& self.log_file is Some && plain_fields(headers.deep_view()) ==> r is Some
                &&& match r {
                    Some(t) => self.log_file is Some && settles(s, headers.deep_view(), n) && t@
                        == headers_filled(s, headers.deep_view(), n),
                    None => self.log_file is None || !settles(s, headers.deep_view(), n),
                }
            }),
    {
        if self.log_file.is_none() {
            return None;
        }
        let path = uri.path();
        let path_and_query = match &uri.path_and_query {
            Some(p) => p.clone(),
            None => path.clone(),
        };
        let status: u16 = match status {
            Some(s) => s,
            None => 200,
        };
        let content_length: Option<u64> = match answer.text("content-length") {
            Some(t) => text::parse_number(t.as_str(), u64::MAX),
            None => None,
        };
        let e = LogEntry {
            client,
            method,
            path: path.as_str(),
            path_and_query: path_and_query.as_str(),
            status,
            latency,
            headers,
            content_length,
            at,
        };
        let format = match &self.format {
            Some(f) => f.as_str(),
            None => "{client_ip} - [{timestamp}] \"{method} {path}\" {status} {latency_ms}ms",
        };
        let s = fill(format, &e);
        let held: usize = count_braces(s.as_str());
        let steps: usize = if held > MAX_HEADER_STEPS {
            held
        } else {
            MAX_HEADER_STEPS
        };
        proof {
            if plain_fields(headers.deep_view()) {
                lemma_plain_fields_settle(s@, headers.deep_view(), steps as nat);
            }
        }
        fill_headers_within(s.as_str(), headers, steps)
    }
}

impl Default for LoggingHoop {
    fn default() -> (r: LoggingHoop)
        ensures
            r == (LoggingHoop { log_file: None, error_log_file: None, format: None }),
    {
        LoggingHoop::new()
    }
}

/// What the placeholders of a format stand for, in the order in which they are filled in.
pub open spec fn log_values(e: EntryView) -> Seq<(Seq<char>, Seq<char>)> {
    seq![
        ("client_ip"@, e.client.ip_text),
        ("client_port"@, text::decimal(e.client.port as nat)),
        ("method"@, e.method),
        ("path"@, e.path),
        ("path_and_query"@, e.path_and_query),
        ("status"@, text::decimal(e.status as nat)),
        ("latency_ms"@, text::decimal(e.latency / 1_000_000)),
        ("host"@, message::field_or(e.headers, "host"@, "-"@)),
        ("timestamp"@, timestamp(http_date::date_at(e.at))),
        ("content_length"@, number_or_dash(e.content_length)),
        ("user_agent"@, message::field_or(e.headers, "user-agent"@, "-"@)),
    ]
}

/// A format is filled in with these values, one after the other.
proof fn lemma_filled_by_values(format: Seq<char>, e: EntryView)
    ensures
        filled(format, e) == placeholder::expanded(format, log_values(e), 0),
{
    reveal_strlit("{");
    reveal_strlit("}");
    reveal_strlit("{client_ip}");
    reveal_strlit("client_ip");
    reveal_strlit("{client_port}");
    reveal_strlit("client_port");
    reveal_strlit("{method}");
    reveal_strlit("method");
    reveal_strlit("{path}");
    reveal_strlit("path");
    reveal_strlit("{path_and_query}");
    reveal_strlit("path_and_query");
    reveal_strlit("{status}");
    reveal_strlit("status");
    reveal_strlit("{latency_ms}");
    reveal_strlit("latency_ms");
    reveal_strlit("{host}");
    reveal_strlit("host");
    reveal_strlit("{timestamp}");
    reveal_strlit("timestamp");
    reveal_strlit("{content_length}");
    reveal_strlit("content_length");
    reveal_strlit("{user_agent}");
    reveal_strlit("user_agent");
    assert(placeholder::placeholder("client_ip"@) =~= "{client_ip}"@);
    assert(placeholder::placeholder("client_port"@) =~= "{client_port}"@);
    assert(placeholder::placeholder("method"@) =~= "{method}"@);
    assert(placeholder::placeholder("path"@) =~= "{path}"@);
    assert(placeholder::placeholder("path_and_query"@) =~= "{path_and_query}"@);
    assert(placeholder::placeholder("status"@) =~= "{status}"@);
    assert(placeholder::placeholder("latency_ms"@) =~= "{latency_ms}"@);
    assert(placeholder::placeholder("host"@) =~= "{host}"@);
    assert(placeholder::placeholder("timestamp"@) =~= "{timestamp}"@);
    assert(placeholder::placeholder("content_length"@) =~= "{content_length}"@);
    assert(placeholder::placeholder("user_agent"@) =~= "{user_agent}"@);
    reveal_with_fuel(placeholder::expanded, 12);
    let v = log_values(e);
    assert(v.len() == 11);
}

/// A placeholder of a format is replaced by what it stands for: the address and the port of
/// the client, the method, the path with the query or without, the status, the milliseconds
/// that the answer took, the host, the time, the length of the answer or the client's
/// program. What stands around it stays.
pub proof fn lemma_format_filled(e: EntryView, k: int, a: Seq<char>, b: Seq<char>)
    requires
        0 <= k < 11,
        !a.contains('{') && !b.contains('{'),
        !log_values(e)[k].1.contains('{'),
    ensures
        filled(a + placeholder::placeholder(log_values(e)[k].0) + b, e) == a + log_values(e)[k].1
            + b,
{
    let v = log_values(e);
    lemma_filled_by_values(a + placeholder::placeholder(v[k].0) + b, e);
    lemma_names_apart(e);
    placeholder::lemma_placeholder_filled(v, 0, k, a, b);
}

/// The names of the placeholders differ and hold no braces.
proof fn lemma_names_apart(e: EntryView)
    ensures
        forall|j: int|
            0 <= j < 11 ==> !(#[trigger] log_values(e)[j]).0.contains('{')
                && !log_values(e)[j].0.contains('}'),
        forall|i: int, j: int|
            0 <= i < j < 11 ==> (#[trigger] log_values(e)[i]).0 != (#[trigger] log_values(e)[j]).0,
{
    reveal_strlit("client_ip");
    reveal_strlit("client_port");
    reveal_strlit("method");
    reveal_strlit("path");
    reveal_strlit("path_and_query");
    reveal_strlit("status");
    reveal_strlit("latency_ms");
    reveal_strlit("host");
    reveal_strlit("timestamp");
    reveal_strlit("content_length");
    reveal_strlit("user_agent");
    let v = log_values(e);
    assert(v[0].0.len() == 9 && v[1].0.len() == 11 && v[2].0.len() == 6 && v[3].0.len() == 4
        && v[4].0.len() == 14 && v[5].0.len() == 6 && v[6].0.len() == 10 && v[7].0.len() == 4
        && v[8].0.len() == 9 && v[9].0.len() == 14 && v[10].0.len() == 10);
    assert(v[0].0[0] == 'c' && v[8].0[0] == 't');
    assert(v[2].0[0] == 'm' && v[5].0[0] == 's');
    assert(v[3].0[0] == 'p' && v[7].0[0] == 'h');
    assert(v[4].0[0] == 'p' && v[9].0[0] == 'c');
    assert(v[6].0[0] == 'l' && v[10].0[0] == 'u');
    assert forall|i: int, j: int| 0 <= i < j < 11 implies (#[trigger] v[i]).0 != (
    #[trigger] v[j]).0 by {
        if v[i].0.len() == v[j].0.len() {
            assert(v[i].0[0] != v[j].0[0]);
        }
    }
    assert forall|j: int| 0 <= j < 11 implies !(#[trigger] v[j]).0.contains('{')
        && !v[j].0.contains('}') by {
        let n = v[j].0;
        assert forall|m: int| 0 <= m < n.len() implies n[m] != '{' && n[m] != '}' by {}
    }
}

/// Files are rotated exactly where a limit is set and what is to be written would go beyond
/// it.
pub proof fn lemma_rotated_at_limit(size: u64, len: usize, max: u64)
    ensures
        goes_beyond(size, len, Some(max)) <==> size + len > max,
        !goes_beyond(size, len, None),
{
}

} // verus!
