//! IP addresses, socket addresses and address ranges, with their text forms.

use vstd::prelude::*;
use crate::text;

verus! {

/// An IP address: the 32 bits of version 4 or the 128 bits of version 6.
#[derive(Clone, Copy, Debug, PartialEq, Eq, Structural)]
pub enum IpAddr {
    V4(u32),
    V6(u128),
}

impl DeepView for IpAddr {
    type V = IpAddr;

    open spec fn deep_view(&self) -> IpAddr {
        *self
    }
}

/// An IP address and a port.
#[derive(Clone, Copy, Debug, PartialEq, Eq, Structural)]
pub struct SocketAddr {
    pub ip: IpAddr,
    pub port: u16,
}

impl DeepView for SocketAddr {
    type V = SocketAddr;

    open spec fn deep_view(&self) -> SocketAddr {
        *self
    }
}

// ---------------------------------------------------------------------------
// Version 4
// ---------------------------------------------------------------------------

/// `s` writes a byte in decimal, without needless leading zeros.
pub open spec fn octet(s: Seq<char>) -> bool {
    &&& 0 < s.len() <= 3
    &&& text::all_digits(s)
    &&& (s.len() > 1 ==> s[0] != '0')
    &&& text::value(s) <= 255
}

/// The version 4 address that four bytes write.
pub open spec fn quad(p: Seq<Seq<char>>) -> nat {
    ((text::value(p[0]) * 256 + text::value(p[1])) * 256 + text::value(p[2])) * 256 + text::value(p[3])
}

/// The version 4 address that `s` writes: four bytes between dots.
pub open spec fn v4_of(s: Seq<char>) -> Option<u32> {
    let p = text::pieces(s, '.');
    if p.len() == 4 && octet(p[0]) && octet(p[1]) && octet(p[2]) && octet(p[3]) {
        Some(quad(p) as u32)
    } else {
        None
    }
}

/// Reads one byte of a version 4 address.
fn parse_octet(s: &str) -> (r: Option<u8>)
    ensures
        match r {
            Some(n) => octet(s@) && text::value(s@) == n,
            None => !octet(s@),
        },
{
    let v = text::chars(s);
    if v.len() == 0 || v.len() > 3 || v[0] == '+' || (v.len() > 1 && v[0] == '0') {
        proof {
            if v@.len() > 0 && v@[0] == '+' {
                assert(!text::is_digit(s@[0]));
            }
        }
        return None;
    }
    match text::parse_number(s, 255) {
        Some(n) => Some(n as u8),
        None => None,
    }
}

/// Reads a version 4 address.
fn parse_v4(s: &str) -> (r: Option<u32>)
    ensures
        r == v4_of(s@),
{
    let p = text::split(s, '.');
    let ghost pv = text::pieces(s@, '.');
    assert(p.deep_view() == pv);
    if p.len() != 4 {
        return None;
    }
    assert(p@[0]@ == pv[0] && p@[1]@ == pv[1] && p@[2]@ == pv[2] && p@[3]@ == pv[3]);
    let a = parse_octet(p[0].as_str());
    let b = parse_octet(p[1].as_str());
    let c = parse_octet(p[2].as_str());
    let d = parse_octet(p[3].as_str());
    match (a, b, c, d) {
        (Some(a), Some(b), Some(c), Some(d)) => {
            Some(((a as u32 * 256 + b as u32) * 256 + c as u32) * 256 + d as u32)
        },
        _ => None,
    }
}

// ---------------------------------------------------------------------------
// Version 6
// ---------------------------------------------------------------------------

/// The value of a hexadecimal digit.
pub open spec fn hex_digit(c: char) -> Option<nat> {
    if '0' <= c <= '9' {
        Some((c as nat - '0' as nat) as nat)
    } else if 'a' <= c <= 'f' {
        Some((c as nat - 'a' as nat + 10) as nat)
    } else if 'A' <= c <= 'F' {
        Some((c as nat - 'A' as nat + 10) as nat)
    } else {
        None
    }
}

/// The number that the hexadecimal digits of `s` write.
pub open spec fn hex_value(s: Seq<char>) -> Option<nat>
    decreases s.len(),
{
    if s.len() == 0 {
        Some(0)
    } else {
        match (hex_value(s.drop_last()), hex_digit(s.last())) {
            (Some(n), Some(d)) => Some(n * 16 + d),
            _ => None,
        }
    }
}

/// The group of 16 bits that `s` writes in one to four hexadecimal digits.
pub open spec fn group(s: Seq<char>) -> Option<nat> {
    if 0 < s.len() <= 4 {
        hex_value(s)
    } else {
        None
    }
}

/// The groups that the pieces `p` write. The last piece may be a version 4
/// address where `v4` allows it; it makes two groups.
pub open spec fn groups(p: Seq<Seq<char>>, v4: bool) -> Option<Seq<nat>>
    decreases p.len(),
{
    if p.len() == 0 {
        Some(seq![])
    } else {
        match groups(p.drop_last(), false) {
            None => None,
            Some(g) => match group(p.last()) {
                Some(n) => Some(g.push(n)),
                None => match v4_of(p.last()) {
                    Some(a) if v4 => Some(g.push(a as nat / 0x1_0000).push(a as nat % 0x1_0000)),
                    _ => None,
                },
            },
        }
    }
}

/// The groups that `s` writes between colons; none where `s` is empty.
pub open spec fn groups_of(s: Seq<char>, v4: bool) -> Option<Seq<nat>> {
    if s.len() == 0 {
        Some(seq![])
    } else {
        groups(text::pieces(s, ':'), v4)
    }
}

/// The number that the groups `g` make, the first one on top.
pub open spec fn assembled(g: Seq<nat>) -> nat
    decreases g.len(),
{
    if g.len() == 0 {
        0
    } else {
        assembled(g.drop_last()) * 0x1_0000 + g.last()
    }
}

/// `n` groups of zeros.
pub open spec fn zeros(n: int) -> Seq<nat> {
    Seq::new(n as nat, |i: int| 0nat)
}

/// The version 6 address that `s` writes: eight groups, or fewer around one
/// `::`, which stands for the zeros that are left out.
pub open spec fn v6_of(s: Seq<char>) -> Option<u128> {
    match text::first_at(s, seq![':', ':'], 0) {
        None => match groups_of(s, true) {
            Some(g) if g.len() == 8 => Some(assembled(g) as u128),
            _ => None,
        },
        Some(i) => match (groups_of(s.take(i), false), groups_of(s.skip(i + 2), true)) {
            (Some(a), Some(b)) if a.len() + b.len() <= 7 => Some(
                assembled(a + zeros(8 - a.len() - b.len()) + b) as u128,
            ),
            _ => None,
        },
    }
}

/// A hexadecimal number has at most four bits for each digit.
proof fn lemma_hex_bound(s: Seq<char>)
    requires
        s.len() <= 4,
    ensures
        hex_value(s) matches Some(n) ==> n < (if s.len() == 0 {
            1int
        } else if s.len() == 1 {
            0x10
        } else if s.len() == 2 {
            0x100
        } else if s.len() == 3 {
            0x1000
        } else {
            0x1_0000
        }),
    decreases s.len(),
{
    if s.len() > 0 {
        lemma_hex_bound(s.drop_last());
    }
}

/// Reads one group of a version 6 address.
fn parse_group(s: &str) -> (r: Option<u16>)
    ensures
        match r {
            Some(n) => group(s@) == Some(n as nat),
            None => group(s@) is None,
        },
{
    let v = text::chars(s);
    if v.len() == 0 || v.len() > 4 {
        return None;
    }
    let mut n: u32 = 0;
    for i in 0..v.len()
        invariant
            v@ == s@,
            0 < v@.len() <= 4,
            hex_value(s@.take(i as int)) == Some(n as nat),
    {
        let c: char = v[i];
        let d: u32 = if '0' <= c && c <= '9' {
            (c as u8 - '0' as u8) as u32
        } else if 'a' <= c && c <= 'f' {
            (c as u8 - 'a' as u8) as u32 + 10
        } else if 'A' <= c && c <= 'F' {
            (c as u8 - 'A' as u8) as u32 + 10
        } else {
            proof {
                assert(hex_value(s@.take(i + 1)) is None) by {
                    assert(s@.take(i + 1).last() == c);
                }
                lemma_hex_prefix(s@, i + 1);
            }
            return None;
        };
        proof {
            lemma_hex_bound(s@.take(i as int));
            assert(s@.take(i + 1).drop_last() =~= s@.take(i as int));
            assert(s@.take(i + 1).last() == c);
        }
        n = n * 16 + d;
    }
    proof {
        assert(s@.take(s@.len() as int) =~= s@);
        lemma_hex_bound(s@);
    }
    Some(n as u16)
}

/// A text with a prefix that is no hexadecimal number is none either.
proof fn lemma_hex_prefix(s: Seq<char>, n: int)
    requires
        0 <= n <= s.len(),
        hex_value(s.take(n)) is None,
    ensures
        hex_value(s) is None,
    decreases s.len(),
{
    if n < s.len() {
        assert(s.drop_last().take(n) =~= s.take(n));
        lemma_hex_prefix(s.drop_last(), n);
    } else {
        assert(s.take(n) =~= s);
    }
}

/// The groups of a longer list are those of a shorter one and more.
proof fn lemma_groups_prefix(p: Seq<Seq<char>>, n: int, v4: bool)
    requires
        0 <= n < p.len(),
        groups(p.take(n + 1), v4 && n + 1 == p.len()) is None,
    ensures
        groups(p, v4) is None,
    decreases p.len(),
{
    if n + 1 < p.len() {
        assert(p.drop_last().take(n + 1) =~= p.take(n + 1));
        lemma_groups_prefix(p.drop_last(), n, false);
    } else {
        assert(p.take(n + 1) =~= p);
    }
}

/// The groups as numbers.
pub open spec fn numbers(v: Seq<u16>) -> Seq<nat> {
    v.map_values(|x: u16| x as nat)
}

/// Reads the groups between colons.
fn parse_groups(s: &str, v4: bool) -> (r: Option<Vec<u16>>)
    ensures
        match r {
            Some(g) => groups_of(s@, v4) == Some(numbers(g@)),
            None => groups_of(s@, v4) is None,
        },
{
    let mut g: Vec<u16> = Vec::new();
    if s.is_empty() {
        assert(numbers(g@) =~= seq![]);
        return Some(g);
    }
    let p = text::split(s, ':');
    let ghost pv = text::pieces(s@, ':');
    assert(pv.take(0) =~= seq![]);
    assert(numbers(g@) =~= seq![]);
    let n: usize = p.len();
    for i in 0..n
        invariant
            s@.len() > 0,
            n == p.len(),
            p.deep_view() == pv,
            pv == text::pieces(s@, ':'),
            groups(pv.take(i as int), v4 && i == n) == Some(numbers(g@)),
            i < n ==> groups(pv.take(i as int), false) == Some(numbers(g@)),
    {
        let piece: &str = p[i].as_str();
        let ghost before = numbers(g@);
        proof {
            assert(piece@ == pv[i as int]);
            assert(pv.take(i + 1).drop_last() =~= pv.take(i as int));
            assert(pv.take(i + 1).last() == piece@);
        }
        match parse_group(piece) {
            Some(x) => {
                g.push(x);
                assert(numbers(g@) =~= before.push(x as nat));
            },
            None => {
                let last: bool = v4 && i + 1 == n;
                match parse_v4(piece) {
                    Some(a) if last => {
                        let (hi, lo): (u16, u16) = ((a / 0x1_0000) as u16, (a % 0x1_0000) as u16);
                        g.push(hi);
                        g.push(lo);
                        assert(numbers(g@) =~= before.push(hi as nat).push(lo as nat));
                    },
                    _ => {
                        proof {
                            lemma_groups_prefix(pv, i as int, v4);
                        }
                        return None;
                    },
                }
            },
        }
    }
    assert(pv.take(n as int) =~= pv);
    Some(g)
}

/// The number that eight groups make.
fn assemble(g: &Vec<u16>) -> (r: u128)
    requires
        g@.len() <= 8,
    ensures
        r == assembled(numbers(g@)),
{
    let mut r: u128 = 0;
    let ghost all = numbers(g@);
    let ghost mut bound: nat = 1;
    for i in 0..g.len()
        invariant
            g@.len() <= 8,
            all == numbers(g@),
            r == assembled(all.take(i as int)),
            r < bound,
            bound == (if i == 0 {
                1nat
            } else if i == 1 {
                0x1_0000
            } else if i == 2 {
                0x1_0000_0000
            } else if i == 3 {
                0x1_0000_0000_0000
            } else if i == 4 {
                0x1_0000_0000_0000_0000
            } else if i == 5 {
                0x1_0000_0000_0000_0000_0000
            } else if i == 6 {
                0x1_0000_0000_0000_0000_0000_0000
            } else if i == 7 {
                0x1_0000_0000_0000_0000_0000_0000_0000
            } else {
                0x1_0000_0000_0000_0000_0000_0000_0000_0000nat
            }),
    {
        proof {
            assert(all.take(i + 1).drop_last() =~= all.take(i as int));
            assert(all.take(i + 1).last() == g@[i as int] as nat);
            bound = bound * 0x1_0000;
        }
        r = r * 0x1_0000 + g[i] as u128;
    }
    assert(all.take(all.len() as int) =~= all);
    r
}

/// Reads a version 6 address.
fn parse_v6(s: &str) -> (r: Option<u128>)
    ensures
        r == v6_of(s@),
{
    let v = text::chars(s);
    let sep: Vec<char> = vec![':', ':'];
    assert(sep@ =~= seq![':', ':']);
    match text::find_in(&v, &sep, 0) {
        None => match parse_groups(s, true) {
            Some(g) => {
                if g.len() == 8 {
                    Some(assemble(&g))
                } else {
                    None
                }
            },
            None => None,
        },
        Some(i) => {
            let head = text::string_of(&v, 0, i);
            let end = text::string_of(&v, i + 2, v.len());
            assert(head@ =~= s@.take(i as int));
            assert(end@ =~= s@.skip(i + 2));
            match (parse_groups(head.as_str(), false), parse_groups(end.as_str(), true)) {
                (Some(a), Some(b)) => {
                    if a.len() > 7 || b.len() > 7 || a.len() + b.len() > 7 {
                        return None;
                    }
                    let mut all: Vec<u16> = Vec::new();
                    for k in 0..a.len()
                        invariant
                            all@ == a@.take(k as int),
                    {
                        all.push(a[k]);
                    }
                    let missing: usize = 8 - a.len() - b.len();
                    for k in 0..missing
                        invariant
                            all@ == a@ + Seq::new(k as nat, |j: int| 0u16),
                    {
                        all.push(0);
                    }
                    for k in 0..b.len()
                        invariant
                            all@ == a@ + Seq::new(missing as nat, |j: int| 0u16) + b@.take(k as int),
                    {
                        all.push(b[k]);
                    }
                    assert(b@.take(b@.len() as int) =~= b@);
                    assert(numbers(all@) =~= numbers(a@) + zeros(8 - a@.len() - b@.len()) + numbers(b@));
                    Some(assemble(&all))
                },
                _ => None,
            }
        },
    }
}

// ---------------------------------------------------------------------------
// Addresses
// ---------------------------------------------------------------------------

/// The IP address that `s` writes.
pub open spec fn ip_of(s: Seq<char>) -> Option<IpAddr> {
    match v4_of(s) {
        Some(a) => Some(IpAddr::V4(a)),
        None => match v6_of(s) {
            Some(a) => Some(IpAddr::V6(a)),
            None => None,
        },
    }
}

/// Reads an IP address.
pub fn parse_ip(s: &str) -> (r: Option<IpAddr>)
    ensures
        r == ip_of(s@),
{
    match parse_v4(s) {
        Some(a) => Some(IpAddr::V4(a)),
        None => match parse_v6(s) {
            Some(a) => Some(IpAddr::V6(a)),
            None => None,
        },
    }
}

/// The number that `s` writes in decimal digits alone.
pub open spec fn plain_number(s: Seq<char>, max: nat) -> Option<nat> {
    if s.len() > 0 && text::all_digits(s) && text::value(s) <= max {
        Some(text::value(s))
    } else {
        None
    }
}

/// Reads decimal digits alone.
fn parse_plain(s: &str, max: u64) -> (r: Option<u64>)
    ensures
        match r {
            Some(n) => plain_number(s@, max as nat) == Some(n as nat),
            None => plain_number(s@, max as nat) is None,
        },
{
    let v = text::chars(s);
    if v.len() > 0 && v[0] == '+' {
        assert(!text::is_digit(s@[0]));
        return None;
    }
    text::parse_number(s, max)
}

/// The version 6 address inside brackets, perhaps with a numeric scope after a
/// percent sign.
pub open spec fn scoped_v6(s: Seq<char>) -> Option<u128> {
    match text::cut(s, '%') {
        None => v6_of(s),
        Some((a, scope)) => if plain_number(scope, u32::MAX as nat) is Some {
            v6_of(a)
        } else {
            None
        },
    }
}

/// The socket address that `s` writes: `1.2.3.4:port` or `[v6]:port`.
pub open spec fn socket_of(s: Seq<char>) -> Option<SocketAddr> {
    if s.len() > 0 && s[0] == '[' {
        match text::cut(s.skip(1), ']') {
            Some((a, rest)) => match (scoped_v6(a), text::after_prefix(rest, seq![':'])) {
                (Some(ip), Some(p)) => match plain_number(p, u16::MAX as nat) {
                    Some(port) => Some(SocketAddr { ip: IpAddr::V6(ip), port: port as u16 }),
                    None => None,
                },
                _ => None,
            },
            None => None,
        }
    } else {
        match text::cut(s, ':') {
            Some((a, p)) => match (v4_of(a), plain_number(p, u16::MAX as nat)) {
                (Some(ip), Some(port)) => Some(SocketAddr { ip: IpAddr::V4(ip), port: port as u16 }),
                _ => None,
            },
            None => None,
        }
    }
}

/// Reads a version 6 address with its scope.
fn parse_scoped_v6(s: &str) -> (r: Option<u128>)
    ensures
        r == scoped_v6(s@),
{
    match text::split_once(s, '%') {
        None => parse_v6(s),
        Some((a, scope)) => {
            if parse_plain(scope.as_str(), u32::MAX as u64).is_some() {
                parse_v6(a.as_str())
            } else {
                None
            }
        },
    }
}

/// Reads a socket address.
pub fn parse_socket(s: &str) -> (r: Option<SocketAddr>)
    ensures
        r == socket_of(s@),
{
    let v = text::chars(s);
    if v.len() > 0 && v[0] == '[' {
        let inner = text::string_of(&v, 1, v.len());
        assert(inner@ =~= s@.skip(1));
        match text::split_once(inner.as_str(), ']') {
            Some((a, rest)) => {
                let colon = text::string_of(&vec![':'], 0, 1);
                assert(colon@ =~= seq![':']);
                match (parse_scoped_v6(a.as_str()), text::strip_prefix(rest.as_str(), colon.as_str())) {
                    (Some(ip), Some(p)) => match parse_plain(p.as_str(), u16::MAX as u64) {
                        Some(port) => Some(SocketAddr { ip: IpAddr::V6(ip), port: port as u16 }),
                        None => None,
                    },
                    _ => None,
                }
            },
            None => None,
        }
    } else {
        match text::split_once(s, ':') {
            Some((a, p)) => match (parse_v4(a.as_str()), parse_plain(p.as_str(), u16::MAX as u64)) {
                (Some(ip), Some(port)) => Some(SocketAddr { ip: IpAddr::V4(ip), port: port as u16 }),
                _ => None,
            },
            None => None,
        }
    }
}

// ---------------------------------------------------------------------------
// Ranges
// ---------------------------------------------------------------------------

/// The first `prefix` bits of two version 4 addresses agree.
pub open spec fn same_v4_prefix(a: u32, b: u32, prefix: nat) -> bool {
    prefix == 0 || (prefix <= 32 && a >> (32 - prefix) as u32 == b >> (32 - prefix) as u32)
}

/// The first `prefix` bits of two version 6 addresses agree.
pub open spec fn same_v6_prefix(a: u128, b: u128, prefix: nat) -> bool {
    prefix == 0 || (prefix <= 128 && a >> (128 - prefix) as u128 == b >> (128 - prefix) as u128)
}

/// Compares the first bits of two version 4 addresses.
pub fn v4_prefix_matches(a: u32, b: u32, prefix: u32) -> (r: bool)
    requires
        prefix <= 32,
    ensures
        r == same_v4_prefix(a, b, prefix as nat),
{
    prefix == 0 || a >> (32 - prefix) == b >> (32 - prefix)
}

/// Compares the first bits of two version 6 addresses.
pub fn v6_prefix_matches(a: u128, b: u128, prefix: u32) -> (r: bool)
    requires
        prefix <= 128,
    ensures
        r == same_v6_prefix(a, b, prefix as nat),
{
    if prefix == 0 {
        return true;
    }
    let shift: u128 = 128 - prefix as u128;
    a >> shift == b >> shift
}

/// The version 4 address that a version 6 address of the form `::ffff:a.b.c.d`
/// stands for.
pub open spec fn mapped_v4(a: u128) -> Option<u32> {
    if a / 0x1_0000_0000 == 0xffff {
        Some((a % 0x1_0000_0000) as u32)
    } else {
        None
    }
}

/// `mapped_v4` as code.
pub fn to_ipv4_mapped(a: u128) -> (r: Option<u32>)
    ensures
        r == mapped_v4(a),
{
    if a / 0x1_0000_0000 == 0xffff {
        Some((a % 0x1_0000_0000) as u32)
    } else {
        None
    }
}

// ---------------------------------------------------------------------------
// What holds of every address
// ---------------------------------------------------------------------------

/// Four bytes between dots are the address of which they are the bytes, the first one on
/// top.
pub proof fn lemma_dotted_address(a: u8, b: u8, c: u8, d: u8)
    ensures
        ({
            let s = text::joined(
                seq![
                    text::decimal(a as nat),
                    text::decimal(b as nat),
                    text::decimal(c as nat),
                    text::decimal(d as nat),
                ],
                seq!['.'],
            );
            let n = ((a * 256 + b) * 256 + c) * 256 + d;
            v4_of(s) == Some(n as u32) && ip_of(s) == Some(IpAddr::V4(n as u32)) && n <= u32::MAX
        }),
{
    let p = seq![
        text::decimal(a as nat),
        text::decimal(b as nat),
        text::decimal(c as nat),
        text::decimal(d as nat),
    ];
    lemma_byte_text(a);
    lemma_byte_text(b);
    lemma_byte_text(c);
    lemma_byte_text(d);
    assert forall|i: int| 0 <= i < p.len() implies !(#[trigger] p[i]).contains('.') by {}
    text::lemma_pieces_of_joined(p, '.');
}

/// A byte that is written in decimal is one of an address.
proof fn lemma_byte_text(n: u8)
    ensures
        octet(text::decimal(n as nat)),
        text::value(text::decimal(n as nat)) == n,
        !text::decimal(n as nat).contains('.'),
        !text::decimal(n as nat).contains(':'),
{
    let s = text::decimal(n as nat);
    text::lemma_decimal_value(n as nat);
    text::lemma_decimal_short(n as nat);
    assert forall|i: int| 0 <= i < s.len() implies s[i] != '.' && s[i] != ':' by {
        assert(text::is_digit(s[i]));
    }
}

/// An address of the fourth version and a port between a colon are an address with a
/// port.
pub proof fn lemma_address_with_port(s: Seq<char>, ip: u32, port: u16)
    requires
        v4_of(s) == Some(ip),
        !s.contains(':'),
        s.len() > 0 && s[0] != '[',
    ensures
        socket_of(s + seq![':'] + text::decimal(port as nat)) == Some(
            SocketAddr { ip: IpAddr::V4(ip), port },
        ),
{
    let p = text::decimal(port as nat);
    text::lemma_decimal_value(port as nat);
    text::lemma_cut_at(s, ':', p);
    assert((s + seq![':'] + p)[0] == s[0]);
}

/// Addresses agree in so many bits exactly where they lie in the same block of addresses
/// that the other bits tell apart; all agree in none, and those that agree in all are the
/// same.
pub proof fn lemma_same_block(a: u32, b: u32, n: nat)
    requires
        n <= 32,
    ensures
        same_v4_prefix(a, b, n) <==> a as nat / vstd::arithmetic::power2::pow2((32 - n) as nat)
            == b as nat / vstd::arithmetic::power2::pow2((32 - n) as nat),
        same_v4_prefix(a, b, 0),
        same_v4_prefix(a, b, 32) <==> a == b,
{
    lemma_block(a, b, n);
    lemma_block(a, b, 32);
    vstd::arithmetic::power2::lemma2_to64();
    assert((32 - 32) as nat == 0);
    assert(a as nat / 1 == a && b as nat / 1 == b);
}

/// The block of an address.
proof fn lemma_block(a: u32, b: u32, n: nat)
    requires
        n <= 32,
    ensures
        same_v4_prefix(a, b, n) <==> a as nat / vstd::arithmetic::power2::pow2((32 - n) as nat)
            == b as nat / vstd::arithmetic::power2::pow2((32 - n) as nat),
{
    let k = (32 - n) as u32;
    if n == 0 {
        vstd::arithmetic::power2::lemma2_to64();
        assert(a as nat / 0x1_0000_0000 == 0 && b as nat / 0x1_0000_0000 == 0);
    } else {
        vstd::bits::lemma_u32_shr_is_div(a, k);
        vstd::bits::lemma_u32_shr_is_div(b, k);
    }
}

/// Addresses of the sixth version that agree in so many bits agree in fewer; all agree in
/// none, and those that agree in all are the same.
pub proof fn lemma_shorter_prefix(a: u128, b: u128, n: nat, m: nat)
    requires
        m <= n <= 128,
        same_v6_prefix(a, b, n),
    ensures
        same_v6_prefix(a, b, m),
        n == 128 ==> a == b,
{
    if m > 0 {
        let (k, l) = ((128 - n) as nat, (128 - m) as nat);
        vstd::bits::lemma_u128_shr_is_div(a, k as u128);
        vstd::bits::lemma_u128_shr_is_div(b, k as u128);
        vstd::bits::lemma_u128_shr_is_div(a, l as u128);
        vstd::bits::lemma_u128_shr_is_div(b, l as u128);
        let d = (l - k) as nat;
        vstd::arithmetic::power2::lemma_pow2_pos(k);
        vstd::arithmetic::power2::lemma_pow2_pos(d);
        vstd::arithmetic::power2::lemma_pow2_adds(k, d);
        let (x, y) = (
            vstd::arithmetic::power2::pow2(k) as int,
            vstd::arithmetic::power2::pow2(d) as int,
        );
        vstd::arithmetic::div_mod::lemma_div_denominator(a as int, x, y);
        vstd::arithmetic::div_mod::lemma_div_denominator(b as int, x, y);
        assert(k + d == l);
    }
    if n == 128 {
        assert(a >> 0u128 == a) by (bit_vector);
        assert(b >> 0u128 == b) by (bit_vector);
    }
}

/// An address of the sixth version stands for one of the fourth exactly where it is that
/// address with the mark before it.
pub proof fn lemma_mapped_address(a: u128, b: u32)
    ensures
        mapped_v4(a) == Some(b) <==> a == 0xffff_0000_0000 + b,
{
    vstd::arithmetic::div_mod::lemma_fundamental_div_mod(a as int, 0x1_0000_0000);
    if a == 0xffff_0000_0000 + b {
        vstd::arithmetic::div_mod::lemma_fundamental_div_mod_converse(
            a as int,
            0x1_0000_0000,
            0xffff,
            b as int,
        );
    }
}

/// What is written in hexadecimal digits holds neither dots nor colons.
proof fn lemma_hexadecimal_digits(s: Seq<char>)
    requires
        hex_value(s) is Some,
    ensures
        forall|i: int| 0 <= i < s.len() ==> hex_digit(#[trigger] s[i]) is Some,
        !s.contains(':'),
        !s.contains('.'),
    decreases s.len(),
{
    if s.len() > 0 {
        lemma_hexadecimal_digits(s.drop_last());
        assert forall|i: int| 0 <= i < s.len() implies hex_digit(#[trigger] s[i]) is Some by {
            if i < s.len() - 1 {
                assert(s.drop_last()[i] == s[i]);
            }
        }
    }
    if s.contains(':') {
        let i = choose|i: int| 0 <= i < s.len() && s[i] == ':';
        assert(hex_digit(s[i]) is Some);
    }
    if s.contains('.') {
        let i = choose|i: int| 0 <= i < s.len() && s[i] == '.';
        assert(hex_digit(s[i]) is Some);
    }
}

/// Eight groups make the number that has them as its parts of sixteen bits.
proof fn lemma_eight_groups(a: nat, b: nat, c: nat, d: nat, e: nat, f: nat, g: nat, h: nat)
    ensures
        assembled(seq![a, b, c, d, e, f, g, h]) == ((((((a * 0x1_0000 + b) * 0x1_0000 + c)
            * 0x1_0000 + d) * 0x1_0000 + e) * 0x1_0000 + f) * 0x1_0000 + g) * 0x1_0000 + h,
{
    let s = Seq::<nat>::empty();
    let s1 = s.push(a);
    let s2 = s1.push(b);
    let s3 = s2.push(c);
    let s4 = s3.push(d);
    let s5 = s4.push(e);
    let s6 = s5.push(f);
    let s7 = s6.push(g);
    assert(assembled(s) == 0);
    lemma_one_more_group(s, a);
    lemma_one_more_group(s1, b);
    lemma_one_more_group(s2, c);
    lemma_one_more_group(s3, d);
    lemma_one_more_group(s4, e);
    lemma_one_more_group(s5, f);
    lemma_one_more_group(s6, g);
    lemma_one_more_group(s7, h);
    assert(s7.push(h) =~= seq![a, b, c, d, e, f, g, h]);
}

/// One more group stands below the others.
proof fn lemma_one_more_group(s: Seq<nat>, n: nat)
    ensures
        assembled(s.push(n)) == assembled(s) * 0x1_0000 + n,
{
    assert(s.push(n).drop_last() =~= s);
}

/// A text of one group holds it alone.
proof fn lemma_one_group(a: Seq<char>, v4: bool)
    requires
        group(a) is Some,
    ensures
        groups_of(a, v4) == Some(seq![group(a)->0]),
        !a.contains(':'),
        group(a)->0 < 0x1_0000,
{
    lemma_hex_bound(a);
    lemma_hexadecimal_digits(a);
    let p = seq![a];
    assert forall|i: int| 0 <= i < p.len() implies !(#[trigger] p[i]).contains(':') by {}
    text::lemma_pieces_of_joined(p, ':');
    assert(text::joined(p, seq![':']) == a);
    assert(p.drop_last() =~= Seq::<Seq<char>>::empty());
    assert(groups(p.drop_last(), false) == Some(Seq::<nat>::empty()));
    assert(Seq::<nat>::empty().push(group(a)->0) =~= seq![group(a)->0]);
}

/// Two colons in an address of the sixth version stand for the zeros that are left out:
/// between two groups, before one, behind one, and alone.
pub proof fn lemma_shortened_address(a: Seq<char>, b: Seq<char>, x: nat, y: nat)
    requires
        group(a) == Some(x),
        group(b) == Some(y),
    ensures
        v6_of(a + seq![':', ':'] + b) == Some((x * 0x1_0000_0000_0000_0000_0000_0000_0000 + y) as u128),
        v6_of(seq![':', ':'] + b) == Some(y as u128),
        v6_of(a + seq![':', ':']) == Some((x * 0x1_0000_0000_0000_0000_0000_0000_0000) as u128),
        v6_of(seq![':', ':']) == Some(0u128),
        x < 0x1_0000,
        y < 0x1_0000,
{
    let m = seq![':', ':'];
    let e = Seq::<char>::empty();
    let n = Seq::<nat>::empty();
    lemma_one_group(a, false);
    lemma_one_group(b, true);
    assert(groups_of(e, false) == Some(n) && groups_of(e, true) == Some(n));
    lemma_around_colons(a, b, seq![x], seq![y]);
    lemma_around_colons(e, b, n, seq![y]);
    lemma_around_colons(a, e, seq![x], n);
    lemma_around_colons(e, e, n, n);
    assert(e + m + b =~= m + b);
    assert(a + m + e =~= a + m);
    assert(e + m + e =~= m);
    lemma_filled_up(x, y);
}

/// Zeros fill up what is left between, before and behind groups.
proof fn lemma_filled_up(x: nat, y: nat)
    ensures
        assembled(seq![x] + zeros(6) + seq![y]) == x * 0x1_0000_0000_0000_0000_0000_0000_0000 + y,
        assembled(Seq::empty() + zeros(7) + seq![y]) == y,
        assembled(seq![x] + zeros(7) + Seq::empty()) == x
            * 0x1_0000_0000_0000_0000_0000_0000_0000,
        assembled(Seq::empty() + zeros(8) + Seq::empty()) == 0,
{
    let n = Seq::<nat>::empty();
    lemma_eight_groups(x, 0, 0, 0, 0, 0, 0, y);
    lemma_eight_groups(0, 0, 0, 0, 0, 0, 0, y);
    lemma_eight_groups(x, 0, 0, 0, 0, 0, 0, 0);
    lemma_eight_groups(0, 0, 0, 0, 0, 0, 0, 0);
    assert(seq![x] + zeros(6) + seq![y] =~= seq![x, 0, 0, 0, 0, 0, 0, y]);
    assert(n + zeros(7) + seq![y] =~= seq![0, 0, 0, 0, 0, 0, 0, y]);
    assert(seq![x] + zeros(7) + n =~= seq![x, 0, 0, 0, 0, 0, 0, 0]);
    assert(n + zeros(8) + n =~= seq![0, 0, 0, 0, 0, 0, 0, 0]);
}

/// The groups on both sides of two colons, with zeros between.
proof fn lemma_around_colons(a: Seq<char>, b: Seq<char>, ga: Seq<nat>, gb: Seq<nat>)
    requires
        !a.contains(':'),
        groups_of(a, false) == Some(ga),
        groups_of(b, true) == Some(gb),
        ga.len() + gb.len() <= 7,
    ensures
        v6_of(a + seq![':', ':'] + b) == Some(
            assembled(ga + zeros(8 - ga.len() - gb.len()) + gb) as u128,
        ),
{
    lemma_cut_at_colons(a, b);
}

/// Two colons behind a text without any are the first ones.
proof fn lemma_cut_at_colons(a: Seq<char>, b: Seq<char>)
    requires
        !a.contains(':'),
    ensures
        text::first_at(a + seq![':', ':'] + b, seq![':', ':'], 0) == Some(a.len() as int),
        (a + seq![':', ':'] + b).take(a.len() as int) == a,
        (a + seq![':', ':'] + b).skip(a.len() as int + 2) == b,
{
    let m = seq![':', ':'];
    let s = a + m + b;
    text::lemma_first_where_put(a, m, b);
    assert(s.take(a.len() as int) =~= a);
    assert(s.skip(a.len() as int + 2) =~= b);
}

/// Groups between colons read as those groups.
proof fn lemma_groups_read(p: Seq<Seq<char>>, g: Seq<nat>, v4: bool)
    requires
        p.len() == g.len(),
        forall|i: int| 0 <= i < p.len() ==> group(#[trigger] p[i]) == Some(g[i]),
    ensures
        groups(p, v4) == Some(g),
    decreases p.len(),
{
    if p.len() == 0 {
        assert(g =~= seq![]);
    } else {
        let q = p.drop_last();
        let h = g.drop_last();
        assert forall|i: int| 0 <= i < q.len() implies group(#[trigger] q[i]) == Some(h[i]) by {
            assert(q[i] == p[i]);
        }
        lemma_groups_read(q, h, false);
        assert(group(p[p.len() - 1]) == Some(g[g.len() - 1]));
        assert(h.push(g.last()) =~= g);
    }
}

/// Groups between colons have no colon at their ends, nor two in a row.
proof fn lemma_single_colons(p: Seq<Seq<char>>)
    requires
        p.len() > 0,
        forall|i: int| 0 <= i < p.len() ==> (#[trigger] p[i]).len() > 0 && !p[i].contains(':'),
    ensures
        ({
            let s = text::joined(p, seq![':']);
            &&& s.len() > 0 && s[0] != ':' && s.last() != ':'
            &&& forall|i: int| 0 <= i < s.len() - 1 ==> !(#[trigger] s[i] == ':' && s[i + 1] == ':')
        }),
    decreases p.len(),
{
    let s = text::joined(p, seq![':']);
    let x = p.last();
    assert(x == p[p.len() - 1]);
    assert(x.contains(x[0]) && x.contains(x.last()));
    if p.len() == 1 {
        assert(s =~= x);
        assert forall|i: int| 0 <= i < s.len() - 1 implies !(#[trigger] s[i] == ':' && s[i + 1] == ':') by {
            assert(x.contains(x[i]));
        }
    } else {
        let q = p.drop_last();
        assert forall|i: int| 0 <= i < q.len() implies (#[trigger] q[i]).len() > 0 && !q[i].contains(
            ':',
        ) by {
            assert(q[i] == p[i]);
        }
        lemma_single_colons(q);
        let t = text::joined(q, seq![':']);
        assert(s =~= t + seq![':'] + x);
        assert(s.last() == x.last());
        assert(s[0] == t[0]);
        assert forall|i: int| 0 <= i < s.len() - 1 implies !(#[trigger] s[i] == ':' && s[i + 1] == ':') by {
            if i < t.len() - 1 {
                assert(s[i] == t[i] && s[i + 1] == t[i + 1]);
            } else if i == t.len() - 1 {
                assert(s[i] == t.last());
            } else {
                assert(s[i + 1] == x[i - t.len()]);
                assert(x.contains(x[i - t.len()]));
            }
        }
    }
}

/// Eight groups between colons are the address of which they are the parts, the first one on
/// top.
pub proof fn lemma_full_address(p: Seq<Seq<char>>, g: Seq<nat>)
    requires
        p.len() == 8,
        g.len() == 8,
        forall|i: int| 0 <= i < 8 ==> group(#[trigger] p[i]) == Some(g[i]),
    ensures
        v6_of(text::joined(p, seq![':'])) == Some(
            (((((((g[0] * 0x1_0000 + g[1]) * 0x1_0000 + g[2]) * 0x1_0000 + g[3]) * 0x1_0000 + g[4])
                * 0x1_0000 + g[5]) * 0x1_0000 + g[6]) * 0x1_0000 + g[7]) as u128,
        ),
{
    let s = text::joined(p, seq![':']);
    let m = seq![':', ':'];
    assert forall|i: int| 0 <= i < p.len() implies (#[trigger] p[i]).len() > 0 && !p[i].contains(
        ':',
    ) by {
        lemma_one_group(p[i], true);
    }
    lemma_single_colons(p);
    text::lemma_pieces_of_joined(p, ':');
    lemma_groups_read(p, g, true);
    text::lemma_first_at(s, m, 0);
    if let Some(i) = text::first_at(s, m, 0) {
        assert(s.subrange(i, i + 2)[0] == m[0] && s.subrange(i, i + 2)[1] == m[1]);
        assert(s[i] == ':' && s[i + 1] == ':');
    }
    lemma_eight_groups(g[0], g[1], g[2], g[3], g[4], g[5], g[6], g[7]);
    assert(g =~= seq![g[0], g[1], g[2], g[3], g[4], g[5], g[6], g[7]]);
}

/// Every digit of a group counts sixteen times what stands behind it.
pub proof fn lemma_group_digit(s: Seq<char>, c: char)
    requires
        0 < s.len() < 4,
        group(s) is Some,
    ensures
        '0' <= c <= '9' ==> group(s.push(c)) == Some((group(s)->0 * 16 + (c as u32 - 48)) as nat),
        'a' <= c <= 'f' ==> group(s.push(c)) == Some((group(s)->0 * 16 + (c as u32 - 87)) as nat),
        'A' <= c <= 'F' ==> group(s.push(c)) == Some((group(s)->0 * 16 + (c as u32 - 55)) as nat),
        c > 'f' || c < '0' ==> group(s.push(c)) is None,
{
    assert(s.push(c).drop_last() =~= s);
}

} // verus!
