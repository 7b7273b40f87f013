//! Values of the configuration that are written as texts.

use vstd::prelude::*;
use crate::config::document;
use crate::config::document::{Node, NodeView};
use crate::config::error;
use crate::config::error::{invalid_value, ConfigError, ConfigErrorView};
use crate::data;
use crate::net;
use crate::net::SocketAddr;
use crate::sorted_map;
use crate::sorted_map::SortedMap;
use crate::text;
use crate::time::Duration;

verus! {

/// Nanoseconds of a number of units that are `secs` seconds each, where the
/// seconds can be counted.
pub open spec fn span(n: Option<nat>, secs: nat) -> Option<nat> {
    match n {
        Some(n) if n * secs <= u64::MAX => Some(n * secs * 1_000_000_000),
        _ => None,
    }
}

/// The span of time that a text such as `30s`, `1m`, `2h` or `45` stands for.
pub open spec fn duration(s: Seq<char>) -> Result<nat, ConfigErrorView> {
    let t = text::trimmed(s);
    let (n, secs, detail) = match text::before_suffix(t, "s"@) {
        Some(p) => (p, 1nat, "invalid seconds: "@ + t),
        None => match text::before_suffix(t, "m"@) {
            Some(p) => (p, 60nat, "invalid minutes: "@ + t),
            None => match text::before_suffix(t, "h"@) {
                Some(p) => (p, 3600nat, "invalid hours: "@ + t),
                None => (t, 1nat, "expected duration like '30s', '1m', got: "@ + t),
            },
        },
    };
    match span(text::number(n, u64::MAX as nat), secs) {
        Some(d) => Ok(d),
        None => Err(error::invalid("duration"@, detail)),
    }
}

/// The span of a number of units, or what is wrong with it.
fn read_span(n: &str, secs: u64, words: &str, t: &str) -> (r: Result<Duration, ConfigError>)
    requires
        secs <= 3600,
    ensures
        data::outcome(r) == (match span(text::number(n@, u64::MAX as nat), secs as nat) {
            Some(d) => Ok(d),
            None => Err(error::invalid("duration"@, words@ + t@)),
        }),
{
    if let Some(k) = text::parse_number(n, u64::MAX) {
        assert(k * secs <= u64::MAX * 3600) by (nonlinear_arith)
            requires
                k <= u64::MAX,
                secs <= 3600,
        ;
        let total: u128 = k as u128 * secs as u128;
        if total <= u64::MAX as u128 {
            return Ok(Duration::from_secs(total as u64));
        }
    }
    Err(invalid_value("duration", text::join(words, t)))
}

/// The span of time that a text such as `30s`, `1m`, `2h` or `45` stands for. More
/// seconds than can be counted are no span.
pub fn parse_duration(s: &str) -> (r: Result<Duration, ConfigError>)
    ensures
        data::outcome(r) == duration(s@),
{
    let t = text::trim(s);
    let t = t.as_str();
    match text::strip_suffix(t, "s") {
        Some(p) => read_span(p.as_str(), 1, "invalid seconds: ", t),
        None => match text::strip_suffix(t, "m") {
            Some(p) => read_span(p.as_str(), 60, "invalid minutes: ", t),
            None => match text::strip_suffix(t, "h") {
                Some(p) => read_span(p.as_str(), 3600, "invalid hours: ", t),
                None => read_span(t, 1, "expected duration like '30s', '1m', got: ", t),
            },
        },
    }
}

/// The span that a text stands for, or so many seconds where there is no text.
pub open spec fn duration_or(t: Option<Seq<char>>, secs: nat) -> Result<nat, ConfigErrorView> {
    match t {
        Some(s) => duration(s),
        None => Ok(secs * 1_000_000_000),
    }
}

/// The span that a text stands for, or so many seconds where there is no text.
pub fn read_duration_or(t: Option<String>, secs: u64) -> (r: Result<Duration, ConfigError>)
    ensures
        data::outcome(r) == duration_or(t.deep_view(), secs as nat),
{
    match t {
        Some(s) => parse_duration(s.as_str()),
        None => Ok(Duration::from_secs(secs)),
    }
}

/// The address that a text such as `:8080` or `0.0.0.0:8080` stands for.
pub open spec fn listen_addr(s: Seq<char>) -> Result<SocketAddr, ConfigErrorView> {
    let t = text::trimmed(s);
    let full = if text::begins(t, ":"@) {
        "0.0.0.0"@ + t
    } else {
        t
    };
    match net::socket_of(full) {
        Some(a) => Ok(a),
        None => Err(error::invalid("address"@, "invalid socket address: "@ + full)),
    }
}

/// The address that a text such as `:8080` or `0.0.0.0:8080` stands for.
pub fn parse_listen_addr(s: &str) -> (r: Result<SocketAddr, ConfigError>)
    ensures
        data::outcome(r) == listen_addr(s@),
{
    let t = text::trim(s);
    let full = if text::starts_with(t.as_str(), ":") {
        text::join("0.0.0.0", t.as_str())
    } else {
        t
    };
    match net::parse_socket(full.as_str()) {
        Some(a) => Ok(a),
        None => Err(
            invalid_value("address", text::join("invalid socket address: ", full.as_str())),
        ),
    }
}

// ---------------------------------------------------------------------------
// Lists in a text
// ---------------------------------------------------------------------------

/// The parts from `i` on that hold more than space, without the space round them.
pub open spec fn filled(p: Seq<Seq<char>>, i: int) -> Seq<Seq<char>>
    decreases p.len() - i,
{
    if i < 0 || i >= p.len() {
        seq![]
    } else if text::trimmed(p[i]).len() > 0 {
        seq![text::trimmed(p[i])] + filled(p, i + 1)
    } else {
        filled(p, i + 1)
    }
}

/// The words in the parts from `i` on, where blanks stand between words.
pub open spec fn words_from(p: Seq<Seq<char>>, i: int) -> Seq<Seq<char>>
    decreases p.len() - i,
{
    if i < 0 || i >= p.len() {
        seq![]
    } else {
        filled(text::pieces(p[i], ' '), 0) + words_from(p, i + 1)
    }
}

/// The words of a text, where blanks and commas stand between words.
pub open spec fn words(s: Seq<char>) -> Seq<Seq<char>> {
    words_from(text::pieces(s, ','), 0)
}

/// The words of the texts from `i` on.
pub open spec fn all_words(t: Seq<Seq<char>>, i: int) -> Seq<Seq<char>>
    decreases t.len() - i,
{
    if i < 0 || i >= t.len() {
        seq![]
    } else {
        words(t[i]) + all_words(t, i + 1)
    }
}

/// Appends the parts that hold more than space.
fn add_filled(out: &mut Vec<String>, p: &Vec<String>)
    ensures
        final(out).deep_view() == old(out).deep_view() + filled(p.deep_view(), 0),
{
    let ghost ps = p.deep_view();
    let ghost all = out.deep_view() + filled(ps, 0);
    for i in 0..p.len()
        invariant
            ps == p.deep_view(),
            out.deep_view() + filled(ps, i as int) == all,
    {
        assert(ps[i as int] == p@[i as int]@);
        let t = text::trim(p[i].as_str());
        if !t.as_str().is_empty() {
            let ghost before = out.deep_view();
            let ghost x = t@;
            out.push(t);
            assert(out.deep_view() =~= before.push(x));
            assert(out.deep_view() + filled(ps, i + 1) =~= before + (seq![x] + filled(ps, i + 1)));
        }
    }
    assert(out.deep_view() =~= out.deep_view() + filled(ps, ps.len() as int));
}

/// Appends the words of a text.
fn add_words(out: &mut Vec<String>, s: &str)
    ensures
        final(out).deep_view() == old(out).deep_view() + words(s@),
{
    let p = text::split(s, ',');
    let ghost ps = p.deep_view();
    let ghost all = out.deep_view() + words_from(ps, 0);
    for i in 0..p.len()
        invariant
            ps == p.deep_view(),
            out.deep_view() + words_from(ps, i as int) == all,
    {
        assert(ps[i as int] == p@[i as int]@);
        let ghost before = out.deep_view();
        let q = text::split(p[i].as_str(), ' ');
        add_filled(out, &q);
        assert(out.deep_view() + words_from(ps, i + 1) =~= before + (filled(
            text::pieces(ps[i as int], ' '),
            0,
        ) + words_from(ps, i + 1)));
    }
    assert(out.deep_view() =~= out.deep_view() + words_from(ps, ps.len() as int));
}

/// Appends the words of the texts.
pub fn add_all_words(out: &mut Vec<String>, t: &Vec<String>)
    ensures
        final(out).deep_view() == old(out).deep_view() + all_words(t.deep_view(), 0),
{
    let ghost ts = t.deep_view();
    let ghost all = out.deep_view() + all_words(ts, 0);
    for i in 0..t.len()
        invariant
            ts == t.deep_view(),
            out.deep_view() + all_words(ts, i as int) == all,
    {
        assert(ts[i as int] == t@[i as int]@);
        let ghost before = out.deep_view();
        add_words(out, t[i].as_str());
        assert(out.deep_view() + all_words(ts, i + 1) =~= before + (words(ts[i as int])
            + all_words(ts, i + 1)));
    }
    assert(out.deep_view() =~= out.deep_view() + all_words(ts, ts.len() as int));
}

// ---------------------------------------------------------------------------
// Maps
// ---------------------------------------------------------------------------

/// Texts under texts, in the order of their keys.
pub type TextMap = Seq<(Seq<char>, Seq<char>)>;

/// A map with a text put under a key.
pub open spec fn put(m: TextMap, k: Seq<char>, v: Seq<char>) -> TextMap {
    sorted_map::put::<String, Seq<char>>(m, k, v)
}

/// A map with the pairs from `i` on put into it, one after the other.
pub open spec fn put_all(m: TextMap, p: Seq<(Seq<char>, Seq<char>)>, i: int) -> TextMap
    decreases p.len() - i,
{
    if i < 0 || i >= p.len() {
        m
    } else {
        put_all(put(m, p[i].0, p[i].1), p, i + 1)
    }
}

/// The map that the `env` nodes of a block make up.
pub open spec fn environment(ns: Seq<NodeView>) -> TextMap {
    put_all(seq![], document::all_pairs(ns, "env"@, 0), 0)
}

/// The map that the `env` nodes of a block make up.
pub fn environment_of(ns: &Vec<Node>) -> (m: SortedMap<String, String>)
    ensures
        m.deep_view() == environment(ns.deep_view()),
{
    let p = document::pairs_of(ns, "env");
    let mut m: SortedMap<String, String> = SortedMap::new();
    let ghost ps = p.deep_view();
    assert(m.deep_view() =~= seq![]);
    for i in 0..p.len()
        invariant
            ps == p.deep_view(),
            put_all(m.deep_view(), ps, i as int) == put_all(seq![], ps, 0),
    {
        assert(ps[i as int] == (p@[i as int].0@, p@[i as int].1@));
        m.insert(p[i].0.clone(), p[i].1.clone());
    }
    m
}

/// A map as the texts of a `header-up` or `header-down` node change it: two texts
/// set a field, one text that starts with `-` takes a field away.
pub open spec fn header_rule(m: TextMap, t: Seq<Seq<char>>) -> TextMap {
    if t.len() >= 2 {
        put(m, t[0], t[1])
    } else if t.len() == 1 && text::begins(t[0], "-"@) {
        put(m, t[0], ""@)
    } else {
        m
    }
}

/// Applies the texts of a `header-up` or `header-down` node to a map.
pub fn add_header_rule(m: &mut SortedMap<String, String>, t: &Vec<String>)
    ensures
        final(m).deep_view() == header_rule(old(m).deep_view(), t.deep_view()),
{
    assert(forall|i: int| 0 <= i < t@.len() ==> #[trigger] t.deep_view()[i] == t@[i]@);
    if t.len() >= 2 {
        m.insert(t[0].clone(), t[1].clone());
    } else if t.len() == 1 && text::starts_with(t[0].as_str(), "-") {
        m.insert(t[0].clone(), "".to_owned());
    }
}

/// The digits of a whole number, with a sign where it is less than nothing.
pub open spec fn int_text(i: i128) -> Seq<char> {
    if i < 0 {
        "-"@ + text::decimal((-i) as nat)
    } else {
        text::decimal(i as nat)
    }
}

/// The digits of a whole number, with a sign where it is less than nothing.
pub fn write_int(i: i128) -> (r: String)
    ensures
        r@ == int_text(i),
{
    if i < 0 {
        let n: u128 = (-(i + 1)) as u128 + 1;
        text::join("-", text::number_text(n).as_str())
    } else {
        text::number_text(i as u128)
    }
}

/// A number stands for so many seconds, alone or with an `s` behind it, for minutes with
/// an `m` and for hours with an `h`; white space around it does not count.
pub proof fn lemma_durations(n: u32)
    ensures
        duration(text::decimal(n as nat)) == Ok::<nat, ConfigErrorView>(
            (n * 1_000_000_000) as nat,
        ),
        duration(text::decimal(n as nat).push('s')) == Ok::<nat, ConfigErrorView>(
            (n * 1_000_000_000) as nat,
        ),
        duration(text::decimal(n as nat).push('m')) == Ok::<nat, ConfigErrorView>(
            (n * 60_000_000_000) as nat,
        ),
        duration(text::decimal(n as nat).push('h')) == Ok::<nat, ConfigErrorView>(
            (n * 3_600_000_000_000) as nat,
        ),
        duration(text::decimal(n as nat).push('d')) is Err,
{
    reveal_strlit("s");
    reveal_strlit("m");
    reveal_strlit("h");
    let d = text::decimal(n as nat);
    text::lemma_decimal_value(n as nat);
    assert(text::is_digit(d[0]) && text::is_digit(d.last()));
    text::lemma_trimmed_fixed(d);
    lemma_last_char(d, 's');
    lemma_last_char(d, 'm');
    lemma_last_char(d, 'h');
    assert("s"@ =~= seq!['s'] && "m"@ =~= seq!['m'] && "h"@ =~= seq!['h']);
    lemma_unit(d, 's');
    lemma_unit(d, 'm');
    lemma_unit(d, 'h');
    lemma_unit(d, 'd');
    lemma_last_char(d.push('m'), 's');
    lemma_last_char(d.push('h'), 's');
    lemma_last_char(d.push('h'), 'm');
    lemma_last_char(d.push('d'), 's');
    lemma_last_char(d.push('d'), 'm');
    lemma_last_char(d.push('d'), 'h');
    let x = d.push('d');
    assert(x.last() == 'd' && !text::is_digit('d'));
    assert(text::number(x, u64::MAX as nat) is None) by {
        assert(x[0] == d[0]);
        assert(!text::is_digit(x[x.len() - 1]));
    }
}

/// A text with a unit behind it.
proof fn lemma_unit(d: Seq<char>, c: char)
    requires
        d.len() > 0,
        !text::is_space(d[0]),
        !text::is_space(c),
    ensures
        text::trimmed(d.push(c)) == d.push(c),
        text::before_suffix(d.push(c), seq![c]) == Some(d),
{
    let t = d.push(c);
    assert(t[0] == d[0] && t.last() == c);
    text::lemma_trimmed_fixed(t);
    text::lemma_before_suffix(d, seq![c]);
    assert(d + seq![c] =~= t);
}

/// A text that ends otherwise has no such suffix.
proof fn lemma_last_char(s: Seq<char>, c: char)
    requires
        s.len() > 0,
        s.last() != c,
    ensures
        text::before_suffix(s, seq![c]) is None,
{
    if text::ends(s, seq![c]) {
        assert(s.subrange(s.len() - 1, s.len() as int)[0] == s.last());
    }
}

/// A port behind a colon alone stands for this port of all addresses.
pub proof fn lemma_listen_everywhere(port: u16)
    ensures
        listen_addr(seq![':'] + text::decimal(port as nat)) == Ok::<SocketAddr, ConfigErrorView>(
            SocketAddr { ip: net::IpAddr::V4(0), port },
        ),
{
    reveal_strlit(":");
    reveal_strlit("0.0.0.0");
    let d = text::decimal(port as nat);
    let t = seq![':'] + d;
    text::lemma_decimal_value(port as nat);
    assert(text::is_digit(d.last()));
    assert(t[0] == ':' && t.last() == d.last());
    text::lemma_trimmed_fixed(t);
    assert(t.subrange(0, 1) =~= ":"@);
    net::lemma_dotted_address(0, 0, 0, 0);
    let z = text::decimal(0);
    assert(z =~= seq!['0']);
    let parts = seq![z, z, z, z];
    reveal_with_fuel(text::joined, 5);
    assert(parts.drop_last() =~= seq![z, z, z]);
    assert(parts.drop_last().drop_last() =~= seq![z, z]);
    assert(parts.drop_last().drop_last().drop_last() =~= seq![z]);
    let all = text::joined(parts, seq!['.']);
    assert(all =~= seq!['0', '.', '0', '.', '0', '.', '0']);
    assert("0.0.0.0"@ =~= all);
    assert(!all.contains(':')) by {
        assert forall|i: int| 0 <= i < all.len() implies all[i] != ':' by {}
    }
    net::lemma_address_with_port(all, 0, port);
    assert("0.0.0.0"@ + t =~= all + seq![':'] + d);
}

/// Two texts set a field, and one that begins with a dash takes a field away; the last
/// rule for a name counts, and rules for other names stay.
pub proof fn lemma_header_rule(m: TextMap, name: Seq<char>, value: Seq<char>, other: Seq<char>)
    requires
        sorted_map::ascending::<String, Seq<char>>(m),
    ensures
        sorted_map::lookup(header_rule(m, seq![name, value]), name) == Some(value),
        other != name ==> sorted_map::lookup(header_rule(m, seq![name, value]), other)
            == sorted_map::lookup(m, other),
        name.len() > 0 && name[0] == '-' ==> sorted_map::lookup(header_rule(m, seq![name]), name)
            == Some(Seq::<char>::empty()),
        name.len() == 0 || name[0] != '-' ==> header_rule(m, seq![name]) == m,
        header_rule(m, seq![]) == m,
{
    reveal_strlit("-");
    reveal_strlit("");
    assert(""@ =~= Seq::<char>::empty());
    let two = seq![name, value];
    let one = seq![name];
    assert(two[0] == name && two[1] == value && one[0] == name);
    sorted_map::lemma_put::<String, Seq<char>>(m, name, value);
    sorted_map::lemma_put::<String, Seq<char>>(m, name, ""@);
    if name.len() > 0 {
        assert(name.subrange(0, 1)[0] == name[0]);
        if name[0] == '-' {
            assert(name.subrange(0, 1) =~= "-"@);
        }
    }
}

/// A span that is too great to be counted in seconds is refused, in whatever unit it is given.
pub proof fn lemma_great_durations(n: nat)
    ensures
        n > u64::MAX ==> duration(text::decimal(n)) is Err,
        n > u64::MAX ==> duration(text::decimal(n).push('s')) is Err,
        n * 60 > u64::MAX ==> duration(text::decimal(n).push('m')) is Err,
        n * 3600 > u64::MAX ==> duration(text::decimal(n).push('h')) is Err,
{
    reveal_strlit("s");
    reveal_strlit("m");
    reveal_strlit("h");
    let d = text::decimal(n);
    text::lemma_decimal_value(n);
    assert(text::is_digit(d[0]) && text::is_digit(d.last()));
    text::lemma_trimmed_fixed(d);
    lemma_last_char(d, 's');
    lemma_last_char(d, 'm');
    lemma_last_char(d, 'h');
    assert("s"@ =~= seq!['s'] && "m"@ =~= seq!['m'] && "h"@ =~= seq!['h']);
    lemma_unit(d, 's');
    lemma_unit(d, 'm');
    lemma_unit(d, 'h');
    lemma_last_char(d.push('m'), 's');
    lemma_last_char(d.push('h'), 's');
    lemma_last_char(d.push('h'), 'm');
}

} // verus!
