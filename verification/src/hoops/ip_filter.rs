//! Requests by the address that they come from.

use vstd::prelude::*;
use crate::message;
use crate::message::{ClientAddr, ClientView, Fields, Headers, Response, ResponseView};
use crate::net;
use crate::net::IpAddr;
use crate::text;

verus! {

/// A range of addresses, such as `10.0.0.0/8`.
#[derive(Clone, Copy, Debug, PartialEq, Eq, Structural)]
pub struct CidrRange {
    pub addr: IpAddr,
    pub prefix_len: u8,
}

/// The longest prefix of an address.
pub open spec fn full_prefix(addr: IpAddr) -> u8 {
    match addr {
        IpAddr::V4(_) => 32,
        IpAddr::V6(_) => 128,
    }
}

/// The range that a text stands for. An address alone is a range of its own.
pub open spec fn range_of(s: Seq<char>) -> Option<CidrRange> {
    let t = text::trimmed(s);
    match text::cut(t, '/') {
        Some((a, p)) => match (net::ip_of(a), text::number(p, u8::MAX as nat)) {
            (Some(addr), Some(n)) if n <= full_prefix(addr) => Some(
                CidrRange { addr, prefix_len: n as u8 },
            ),
            _ => None,
        },
        None => match net::ip_of(t) {
            Some(addr) => Some(CidrRange { addr, prefix_len: full_prefix(addr) }),
            None => None,
        },
    }
}

/// The address is in the range. An address of the sixth version that stands for one of
/// the fourth is taken as that.
pub open spec fn in_range(r: CidrRange, ip: IpAddr) -> bool {
    match (r.addr, ip) {
        (IpAddr::V4(n), IpAddr::V4(a)) => net::same_v4_prefix(a, n, r.prefix_len as nat),
        (IpAddr::V6(n), IpAddr::V6(a)) => net::same_v6_prefix(a, n, r.prefix_len as nat),
        (IpAddr::V4(n), IpAddr::V6(a)) => match net::mapped_v4(a) {
            Some(m) => net::same_v4_prefix(m, n, r.prefix_len as nat),
            None => false,
        },
        (IpAddr::V6(_), IpAddr::V4(_)) => false,
    }
}

impl CidrRange {
    /// The prefix is no longer than the address.
    pub open spec fn wf(&self) -> bool {
        self.prefix_len <= full_prefix(self.addr)
    }

    /// Reads a range, such as `192.168.1.0/24` or `10.0.0.1`.
    pub fn parse(s: &str) -> (r: Option<CidrRange>)
        ensures
            r == range_of(s@),
            r matches Some(c) ==> c.wf(),
    {
        let t = text::trim(s);
        match text::split_once(t.as_str(), '/') {
            Some((a, p)) => match (
                net::parse_ip(a.as_str()),
                text::parse_number(p.as_str(), u8::MAX as u64),
            ) {
                (Some(addr), Some(n)) => {
                    let max: u64 = match addr {
                        IpAddr::V4(_) => 32,
                        IpAddr::V6(_) => 128,
                    };
                    if n <= max {
                        Some(CidrRange { addr, prefix_len: n as u8 })
                    } else {
                        None
                    }
                },
                _ => None,
            },
            None => match net::parse_ip(t.as_str()) {
                Some(addr) => {
                    let prefix_len: u8 = match addr {
                        IpAddr::V4(_) => 32,
                        IpAddr::V6(_) => 128,
                    };
                    Some(CidrRange { addr, prefix_len })
                },
                None => None,
            },
        }
    }

    /// Tells whether an address is in the range.
    pub fn contains(&self, ip: &IpAddr) -> (r: bool)
        requires
            self.wf(),
        ensures
            r == in_range(*self, *ip),
    {
        match (self.addr, *ip) {
            (IpAddr::V4(n), IpAddr::V4(a)) => net::v4_prefix_matches(a, n, self.prefix_len as u32),
            (IpAddr::V6(n), IpAddr::V6(a)) => net::v6_prefix_matches(a, n, self.prefix_len as u32),
            (IpAddr::V4(n), IpAddr::V6(a)) => match net::to_ipv4_mapped(a) {
                Some(m) => net::v4_prefix_matches(m, n, self.prefix_len as u32),
                None => false,
            },
            (IpAddr::V6(_), IpAddr::V4(_)) => false,
        }
    }
}

/// The ranges that the texts from `i` on stand for. Other texts are passed over.
pub open spec fn ranges_of(v: Seq<Seq<char>>, i: int) -> Seq<CidrRange>
    decreases v.len() - i,
{
    if i < 0 || i >= v.len() {
        seq![]
    } else {
        match range_of(v[i]) {
            Some(r) => seq![r] + ranges_of(v, i + 1),
            None => ranges_of(v, i + 1),
        }
    }
}

/// The address is in one of the ranges.
pub open spec fn in_one(rs: Seq<CidrRange>, ip: IpAddr) -> bool {
    exists|i: int| 0 <= i < rs.len() && in_range(#[trigger] rs[i], ip)
}

/// Every range is sound.
pub open spec fn all_wf(rs: Seq<CidrRange>) -> bool {
    forall|i: int| 0 <= i < rs.len() ==> (#[trigger] rs[i]).wf()
}

/// Reads ranges.
fn read_ranges(v: &Vec<String>) -> (r: Vec<CidrRange>)
    ensures
        r@ == ranges_of(v.deep_view(), 0),
        all_wf(r@),
{
    let ghost s = v.deep_view();
    let mut out: Vec<CidrRange> = Vec::new();
    assert(out@ + ranges_of(s, 0) =~= ranges_of(s, 0));
    for i in 0..v.len()
        invariant
            s == v.deep_view(),
            all_wf(out@),
            out@ + ranges_of(s, i as int) == ranges_of(s, 0),
    {
        assert(s[i as int] == v@[i as int]@);
        if let Some(c) = CidrRange::parse(v[i].as_str()) {
            let ghost before = out@;
            out.push(c);
            assert(out@ + ranges_of(s, i + 1) =~= before + (seq![c] + ranges_of(s, i + 1)));
        }
    }
    assert(out@ + ranges_of(s, s.len() as int) =~= out@);
    out
}

/// Tells whether an address is in one of the ranges.
fn is_in_one(rs: &Vec<CidrRange>, ip: &IpAddr) -> (r: bool)
    requires
        all_wf(rs@),
    ensures
        r == in_one(rs@, *ip),
{
    for i in 0..rs.len()
        invariant
            all_wf(rs@),
            forall|j: int| 0 <= j < i ==> !in_range(#[trigger] rs@[j], *ip),
    {
        if rs[i].contains(ip) {
            return true;
        }
    }
    false
}

/// Lets requests through by the address that they come from.
///
/// An address in one of the ranges to deny is turned away. Where a list of ranges to
/// allow was given, so is one that is in none of them, and an entry of the list that
/// is no range lets nobody in.
pub struct IpFilterHoop {
    allow: Vec<CidrRange>,
    /// Whether a list of ranges to allow was given.
    allow_given: bool,
    deny: Vec<CidrRange>,
    use_forwarded_for: bool,
}

/// The address may come in: it is not to be denied, and where a list of ranges to
/// allow was given, it is in one of them.
pub open spec fn permitted(
    allow: Seq<CidrRange>,
    deny: Seq<CidrRange>,
    given: bool,
    ip: IpAddr,
) -> bool {
    !in_one(deny, ip) && (!given || in_one(allow, ip))
}

/// The address that a request is taken to come from: where asked for, the first in the
/// field `x-forwarded-for`, if it is one; else that of the client.
pub open spec fn effective_ip(h: Fields, client: IpAddr, forwarded: bool) -> IpAddr {
    if !forwarded {
        client
    } else {
        match message::field_of(h, "x-forwarded-for"@) {
            Some(t) => match net::ip_of(text::trimmed(text::before(t, ','))) {
                Some(ip) => ip,
                None => client,
            },
            None => client,
        }
    }
}

/// A list to allow restricts who may come in where it holds anything, be it a range or not.
pub open spec fn is_restricted(allow: Seq<Seq<char>>) -> bool {
    allow.len() > 0
}

/// The answer to a request that may come in or not: nothing where it may.
pub open spec fn filter_answer(permitted: bool) -> Option<ResponseView> {
    if permitted {
        None
    } else {
        Some(message::plain_response(403, "Forbidden"@))
    }
}

impl IpFilterHoop {
    /// The ranges to allow.
    pub closed spec fn allowed(&self) -> Seq<CidrRange> {
        self.allow@
    }

    /// The ranges to deny.
    pub closed spec fn denied(&self) -> Seq<CidrRange> {
        self.deny@
    }

    /// A list of ranges to allow was given.
    pub closed spec fn restricted(&self) -> bool {
        self.allow_given
    }

    /// The address that the field `x-forwarded-for` says counts.
    pub closed spec fn forwarded(&self) -> bool {
        self.use_forwarded_for
    }

    /// Every range is sound.
    pub open spec fn wf(&self) -> bool {
        all_wf(self.allowed()) && all_wf(self.denied())
    }

    /// The filter with the ranges. Texts that are no ranges are passed over; a list to
    /// allow that holds nothing else lets nobody in.
    pub fn new(allow: &Vec<String>, deny: &Vec<String>, use_forwarded_for: bool) -> (h:
        IpFilterHoop)
        ensures
            h.allowed() == ranges_of(allow.deep_view(), 0),
            h.denied() == ranges_of(deny.deep_view(), 0),
            h.restricted() == is_restricted(allow.deep_view()),
            h.forwarded() == use_forwarded_for,
            h.wf(),
    {
        IpFilterHoop {
            allow: read_ranges(allow),
            allow_given: allow.len() > 0,
            deny: read_ranges(deny),
            use_forwarded_for,
        }
    }

    /// Tells whether an address may come in.
    pub fn is_allowed(&self, ip: &IpAddr) -> (r: bool)
        requires
            self.wf(),
        ensures
            r == permitted(self.allowed(), self.denied(), self.restricted(), *ip),
    {
        if is_in_one(&self.deny, ip) {
            return false;
        }
        !self.allow_given || is_in_one(&self.allow, ip)
    }

    /// The answer to a request that is turned away; nothing where it is let through.
    pub fn handle(&self, headers: &Headers, client: &ClientAddr) -> (r: Option<Response>)
        requires
            self.wf(),
        ensures
            r.deep_view() == filter_answer(
                permitted(
                    self.allowed(),
                    self.denied(),
                    self.restricted(),
                    effective_ip(headers.deep_view(), client.ip, self.forwarded()),
                ),
            ),
    {
        let mut ip = client.ip;
        if self.use_forwarded_for {
            if let Some(t) = headers.text("x-forwarded-for") {
                let first = text::trim(text::before_char(t.as_str(), ',').as_str());
                if let Some(a) = net::parse_ip(first.as_str()) {
                    ip = a;
                }
            }
        }
        if self.is_allowed(&ip) {
            None
        } else {
            Some(Response::plain(403, "Forbidden"))
        }
    }
}

/// An address to deny is turned away, whether it is to be allowed or not; and where
/// a list of ranges to allow was given, so is every address in none of them.
pub proof fn lemma_deny_first(
    allow: Seq<CidrRange>,
    deny: Seq<CidrRange>,
    given: bool,
    ip: IpAddr,
)
    ensures
        in_one(deny, ip) ==> !permitted(allow, deny, given, ip),
        given && permitted(allow, deny, given, ip) ==> in_one(allow, ip),
        !given && !in_one(deny, ip) ==> permitted(allow, deny, given, ip),
{
}

/// A list to allow that was given but holds no range lets nobody in.
pub proof fn lemma_unread_list_denies(
    allow: Seq<Seq<char>>,
    deny: Seq<CidrRange>,
    ip: IpAddr,
)
    requires
        allow.len() > 0,
        forall|i: int| 0 <= i < allow.len() ==> range_of(#[trigger] allow[i]) is None,
    ensures
        !permitted(ranges_of(allow, 0), deny, true, ip),
{
    lemma_no_ranges(allow, 0);
}

/// Texts that are no ranges give none.
proof fn lemma_no_ranges(v: Seq<Seq<char>>, i: int)
    requires
        0 <= i,
        forall|k: int| i <= k < v.len() ==> range_of(#[trigger] v[k]) is None,
    ensures
        ranges_of(v, i).len() == 0,
    decreases v.len() - i,
{
    if i < v.len() {
        lemma_no_ranges(v, i + 1);
    }
}

/// A text of an address and a prefix stands for the range of them, one of an address alone
/// for the address; white space around it does not count.
pub proof fn lemma_range_read(s: Seq<char>, n: u8)
    requires
        net::ip_of(s) is Some,
        !s.contains('/'),
        s.len() > 0,
        !text::is_space(s[0]) && !text::is_space(s.last()),
    ensures
        range_of(s) == Some(
            CidrRange { addr: net::ip_of(s)->0, prefix_len: full_prefix(net::ip_of(s)->0) },
        ),
        range_of(s + seq!['/'] + text::decimal(n as nat)) == (if n <= full_prefix(
            net::ip_of(s)->0,
        ) {
            Some(CidrRange { addr: net::ip_of(s)->0, prefix_len: n })
        } else {
            None
        }),
{
    let d = text::decimal(n as nat);
    let t = s + seq!['/'] + d;
    text::lemma_decimal_value(n as nat);
    assert(text::is_digit(d.last()));
    assert(t[0] == s[0] && t.last() == d.last());
    text::lemma_trimmed_fixed(s);
    text::lemma_trimmed_fixed(t);
    text::lemma_cut_at(s, '/', d);
}

/// An address is in a range exactly where it lies in the block of addresses that agree with
/// that of the range in the bits of the prefix; the range of an address alone holds just
/// this address, and a range without a prefix holds all of its version.
pub proof fn lemma_addresses_of_range(n: u32, a: u32, prefix: u8)
    requires
        prefix <= 32,
    ensures
        ({
            let r = CidrRange { addr: IpAddr::V4(n), prefix_len: prefix };
            let size = vstd::arithmetic::power2::pow2((32 - prefix) as nat);
            let mapped = (0xffff_0000_0000 + a) as u128;
            &&& in_range(r, IpAddr::V4(a)) <==> a as nat / size == n as nat / size
            &&& prefix == 0 ==> in_range(r, IpAddr::V4(a))
            &&& prefix == 32 ==> (in_range(r, IpAddr::V4(a)) <==> a == n)
            &&& in_range(r, IpAddr::V6(mapped)) <==> in_range(r, IpAddr::V4(a))
        }),
{
    net::lemma_same_block(a, n, prefix as nat);
    let mapped = (0xffff_0000_0000 + a) as u128;
    assert(mapped / 0x1_0000_0000 == 0xffff && mapped % 0x1_0000_0000 == a);
}

/// The ranges of a list are those that its texts stand for: an address is in one of them
/// exactly where it is in that of some text.
pub proof fn lemma_ranges_of_list(v: Seq<Seq<char>>, i: int, ip: IpAddr)
    requires
        0 <= i,
    ensures
        in_one(ranges_of(v, i), ip) <==> exists|j: int|
            i <= j < v.len() && text_covers(#[trigger] v[j], ip),
    decreases v.len() - i,
{
    if i < v.len() {
        lemma_ranges_of_list(v, i + 1, ip);
        let rest = ranges_of(v, i + 1);
        let all = ranges_of(v, i);
        if let Some(r) = range_of(v[i]) {
            assert(all[0] == r);
            if in_one(rest, ip) {
                let j = choose|j: int| 0 <= j < rest.len() && in_range(#[trigger] rest[j], ip);
                assert(all[j + 1] == rest[j]);
            }
            if in_one(all, ip) {
                let j = choose|j: int| 0 <= j < all.len() && in_range(#[trigger] all[j], ip);
                if j > 0 {
                    assert(all[j] == rest[j - 1]);
                } else {
                    assert(text_covers(v[i], ip));
                }
            }
            if text_covers(v[i], ip) {
                assert(in_range(all[0], ip));
            }
        }
    }
}

/// The text stands for a range that holds the address.
pub open spec fn text_covers(s: Seq<char>, ip: IpAddr) -> bool {
    range_of(s) matches Some(r) && in_range(r, ip)
}

/// Where forwarded addresses count, a request comes from the first address in the field,
/// whatever follows it; where they do not, or the field holds none first, it comes from the
/// client's.
pub proof fn lemma_first_forwarded(
    h: Fields,
    client: IpAddr,
    first: Seq<char>,
    rest: Seq<char>,
)
    requires
        !first.contains(','),
    ensures
        effective_ip(h, client, false) == client,
        message::field_of(h, "x-forwarded-for"@) is None ==> effective_ip(h, client, true)
            == client,
        message::field_of(h, "x-forwarded-for"@) == Some(first) || message::field_of(
            h,
            "x-forwarded-for"@,
        ) == Some(first + seq![','] + rest) ==> effective_ip(h, client, true) == (
        match net::ip_of(text::trimmed(first)) {
            Some(ip) => ip,
            None => client,
        }),
{
    text::lemma_cut_at(first, ',', rest);
}

/// An address comes in exactly where no text of the list to deny stands for a range that
/// holds it, and the list to allow is empty or one of its texts stands for such a range;
/// any other address is answered with 403.
pub proof fn lemma_who_comes_in(allow: Seq<Seq<char>>, deny: Seq<Seq<char>>, ip: IpAddr)
    ensures
        ({
            let p = permitted(ranges_of(allow, 0), ranges_of(deny, 0), is_restricted(allow), ip);
            &&& p <==> (forall|j: int|
                0 <= j < deny.len() ==> !text_covers(#[trigger] deny[j], ip)) && (allow.len() == 0
                || exists|j: int| 0 <= j < allow.len() && text_covers(#[trigger] allow[j], ip))
            &&& p <==> filter_answer(p) is None
            &&& !p ==> (filter_answer(p) matches Some(r) && r.status == 403)
        }),
{
    lemma_ranges_of_list(allow, 0, ip);
    lemma_ranges_of_list(deny, 0, ip);
}

} // verus!
