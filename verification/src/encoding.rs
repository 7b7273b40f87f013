//! Encodings of texts and bytes.

use vstd::prelude::*;
use crate::bytes;
use crate::message;
use crate::text;

verus! {

// ---------------------------------------------------------------------------
// Percent signs
// ---------------------------------------------------------------------------

/// The value of a hexadecimal digit.
pub open spec fn hex_value(b: u8) -> Option<u8> {
    if 48 <= b <= 57 {
        Some((b - 48) as u8)
    } else if 97 <= b <= 102 {
        Some((b - 87) as u8)
    } else if 65 <= b <= 70 {
        Some((b - 55) as u8)
    } else {
        None
    }
}

/// The value of a hexadecimal digit.
fn hex_val(byte: u8) -> (r: Option<u8>)
    ensures
        r == hex_value(byte),
        r matches Some(v) ==> v < 16,
{
    if 48 <= byte && byte <= 57 {
        Some(byte - 48)
    } else if 97 <= byte && byte <= 102 {
        Some(byte - 87)
    } else if 65 <= byte && byte <= 70 {
        Some(byte - 55)
    } else {
        None
    }
}

/// The byte that a percent sign and two digits at `i` stand for.
pub open spec fn escape_at(b: Seq<u8>, i: int) -> Option<u8> {
    if 0 <= i && i + 2 < b.len() && b[i] == 37 {
        match (hex_value(b[i + 1]), hex_value(b[i + 2])) {
            (Some(h), Some(l)) => Some((h * 16 + l) as u8),
            _ => None,
        }
    } else {
        None
    }
}

/// The bytes from `i` on, with what percent signs stand for in their place.
pub open spec fn unescaped(b: Seq<u8>, i: int) -> Seq<u8>
    decreases b.len() - i,
{
    if i < 0 || i >= b.len() {
        seq![]
    } else {
        match escape_at(b, i) {
            Some(x) => seq![x] + unescaped(b, i + 3),
            None => seq![b[i]] + unescaped(b, i + 1),
        }
    }
}

/// A text with what percent signs stand for in their place; the text itself where
/// that would be none.
pub open spec fn percent_decoded(s: Seq<char>) -> Seq<char> {
    let b = unescaped(vstd::utf8::encode_utf8(s), 0);
    if vstd::utf8::valid_utf8(b) {
        vstd::utf8::decode_utf8(b)
    } else {
        s
    }
}

/// Puts what percent signs stand for in their place.
pub fn percent_decode(input: &str) -> (r: String)
    ensures
        r@ == percent_decoded(input@),
{
    let v = message::utf8(input);
    let ghost b = v@;
    let mut out: Vec<u8> = Vec::new();
    let mut i: usize = 0;
    assert(out@ + unescaped(b, 0) =~= unescaped(b, 0));
    while i < v.len()
        invariant
            b == v@,
            i <= v.len(),
            out@ + unescaped(b, i as int) == unescaped(b, 0),
        decreases v.len() - i,
    {
        let ghost before = out@;
        let mut step: usize = 1;
        let mut x: u8 = v[i];
        if x == 37 && v.len() - i > 2 {
            if let Some(h) = hex_val(v[i + 1]) {
                if let Some(l) = hex_val(v[i + 2]) {
                    x = h * 16 + l;
                    step = 3;
                }
            }
        }
        out.push(x);
        assert(out@ + unescaped(b, i + step) =~= before + (seq![x] + unescaped(b, i + step)));
        i = i + step;
    }
    assert(out@ =~= out@ + unescaped(b, b.len() as int));
    match bytes::utf8_text(out.as_slice()) {
        Some(s) => s,
        None => input.to_owned(),
    }
}

/// Bytes that need no percent sign.
pub open spec fn plain_byte(b: u8) -> bool {
    48 <= b <= 57 || 65 <= b <= 90 || 97 <= b <= 122 || b == 45 || b == 46 || b == 95 || b == 126
}

/// The capital hexadecimal digit of a number below sixteen.
pub open spec fn upper_digit(n: int) -> char {
    if n < 10 {
        (n + 48) as char
    } else {
        (n + 55) as char
    }
}

/// A byte as itself or as a percent sign and two digits.
pub open spec fn escaped_byte(b: u8) -> Seq<char> {
    if plain_byte(b) {
        seq![b as char]
    } else {
        seq!['%', upper_digit(b as int / 16), upper_digit(b as int % 16)]
    }
}

/// The bytes from `i` on with percent signs.
pub open spec fn escaped(b: Seq<u8>, i: int) -> Seq<char>
    decreases b.len() - i,
{
    if i < 0 || i >= b.len() {
        seq![]
    } else {
        escaped_byte(b[i]) + escaped(b, i + 1)
    }
}

/// A text with percent signs for all but letters, digits and `-._~`.
pub open spec fn percent_encoded(s: Seq<char>) -> Seq<char> {
    escaped(vstd::utf8::encode_utf8(s), 0)
}

/// The capital hexadecimal digit of a number below sixteen.
fn digit_of(n: u8) -> (c: char)
    requires
        n < 16,
    ensures
        c == upper_digit(n as int),
{
    if n < 10 {
        (n + 48) as char
    } else {
        (n + 55) as char
    }
}

/// Puts percent signs for all but letters, digits and `-._~`.
pub fn percent_encode(input: &str) -> (r: String)
    ensures
        r@ == percent_encoded(input@),
{
    let v = message::utf8(input);
    let ghost b = v@;
    let mut out = String::new();
    assert(out@ + escaped(b, 0) =~= escaped(b, 0));
    for i in 0..v.len()
        invariant
            b == v@,
            out@ + escaped(b, i as int) == escaped(b, 0),
    {
        let x: u8 = v[i];
        let ghost before = out@;
        if (48 <= x && x <= 57) || (65 <= x && x <= 90) || (97 <= x && x <= 122) || x == 45 || x
            == 46 || x == 95 || x == 126 {
            out.push(x as char);
        } else {
            out.push('%');
            out.push(digit_of(x / 16));
            out.push(digit_of(x % 16));
        }
        assert(out@ =~= before + escaped_byte(x));
        assert(out@ + escaped(b, i + 1) =~= before + (escaped_byte(x) + escaped(b, i + 1)));
    }
    assert(out@ =~= out@ + escaped(b, b.len() as int));
    out
}

/// What was written with percent signs holds only ASCII characters.
proof fn lemma_escaped_ascii(b: Seq<u8>, i: int)
    ensures
        vstd::utf8::is_ascii_chars(escaped(b, i)),
    decreases b.len() - i,
{
    if 0 <= i < b.len() {
        lemma_escaped_ascii(b, i + 1);
    }
}

/// The bytes of a text of ASCII characters.
pub open spec fn ascii_bytes(s: Seq<char>) -> Seq<u8> {
    s.map_values(|c: char| c as u8)
}

/// Percent signs that were written at the front are read at the front.
proof fn lemma_unescaped_shift(a: Seq<u8>, b: Seq<u8>, i: int)
    requires
        0 <= i <= b.len(),
    ensures
        unescaped(a + b, a.len() + i) == unescaped(b, i),
    decreases b.len() - i,
{
    let all = a + b;
    if i < b.len() {
        assert(all[a.len() + i] == b[i]);
        if i + 1 < b.len() {
            assert(all[a.len() + i + 1] == b[i + 1]);
        }
        if i + 2 < b.len() {
            assert(all[a.len() + i + 2] == b[i + 2]);
        }
        assert(escape_at(all, a.len() + i) == escape_at(b, i));
        if escape_at(b, i) is Some {
            lemma_unescaped_shift(a, b, i + 3);
        } else {
            lemma_unescaped_shift(a, b, i + 1);
        }
    }
}

/// Bytes that were written with percent signs are read as themselves.
proof fn lemma_escaped_read_back(b: Seq<u8>, i: int)
    requires
        0 <= i <= b.len(),
    ensures
        unescaped(ascii_bytes(escaped(b, i)), 0) == b.skip(i),
    decreases b.len() - i,
{
    if i < b.len() {
        lemma_escaped_read_back(b, i + 1);
        let head = ascii_bytes(escaped_byte(b[i]));
        let rest = ascii_bytes(escaped(b, i + 1));
        let all = ascii_bytes(escaped(b, i));
        assert(all =~= head + rest);
        lemma_unescaped_shift(head, rest, 0);
        assert(b.skip(i) =~= seq![b[i]] + b.skip(i + 1));
        if plain_byte(b[i]) {
            assert(head =~= seq![b[i]]);
            assert(all[0] == b[i]);
            assert(escape_at(all, 0) is None);
        } else {
            let (h, l) = (b[i] as int / 16, b[i] as int % 16);
            assert(all[0] == 37 && all[1] == upper_digit(h) as u8 && all[2] == upper_digit(l) as u8);
            assert(hex_value(all[1]) == Some(h as u8));
            assert(hex_value(all[2]) == Some(l as u8));
            assert(escape_at(all, 0) == Some(b[i]));
        }
    } else {
        assert(escaped(b, i) =~= seq![]);
        assert(b.skip(i) =~= seq![]);
    }
}

/// A text that was written with percent signs is read as itself.
pub proof fn lemma_percent_round_trip(s: Seq<char>)
    ensures
        percent_decoded(percent_encoded(s)) == s,
{
    let b = vstd::utf8::encode_utf8(s);
    let e = escaped(b, 0);
    lemma_escaped_ascii(b, 0);
    vstd::utf8::is_ascii_chars_encode_utf8(e);
    assert(vstd::utf8::encode_utf8(e) =~= ascii_bytes(e));
    lemma_escaped_read_back(b, 0);
    assert(b.skip(0) =~= b);
    vstd::utf8::encode_utf8_valid_utf8(s);
    vstd::utf8::encode_utf8_decode_utf8(s);
}

// ---------------------------------------------------------------------------
// Base64
// ---------------------------------------------------------------------------

/// The number that a character of Base64 stands for.
pub open spec fn sextet(b: u8) -> Option<int> {
    if 65 <= b <= 90 {
        Some(b - 65)
    } else if 97 <= b <= 122 {
        Some(b - 71)
    } else if 48 <= b <= 57 {
        Some(b + 4)
    } else if b == 43 {
        Some(62)
    } else if b == 47 {
        Some(63)
    } else {
        None
    }
}

/// The number that a character of Base64 stands for.
fn read_sextet(b: u8) -> (r: Option<u8>)
    ensures
        match r {
            Some(v) => v < 64 && sextet(b) == Some(v as int),
            None => sextet(b) is None,
        },
{
    if 65 <= b && b <= 90 {
        Some(b - 65)
    } else if 97 <= b && b <= 122 {
        Some(b - 71)
    } else if 48 <= b && b <= 57 {
        Some(b + 4)
    } else if b == 43 {
        Some(62)
    } else if b == 47 {
        Some(63)
    } else {
        None
    }
}

/// The bytes that numbers below 64 stand for, from `i` on: three for every four,
/// and what is whole of the rest.
pub open spec fn joined_sextets(v: Seq<u8>, i: int) -> Seq<u8>
    decreases v.len() - i,
{
    if i < 0 || i + 2 > v.len() {
        seq![]
    } else {
        let a = (v[i] * 4 + v[i + 1] / 16) as u8;
        if i + 2 == v.len() {
            seq![a]
        } else {
            let b = ((v[i + 1] % 16) * 16 + v[i + 2] / 4) as u8;
            if i + 3 == v.len() {
                seq![a, b]
            } else {
                let c = ((v[i + 2] % 4) * 64 + v[i + 3]) as u8;
                seq![a, b, c] + joined_sextets(v, i + 4)
            }
        }
    }
}

/// The numbers of the characters before the first `=`, where each is one.
pub open spec fn sextets(b: Seq<u8>, n: int) -> Option<Seq<u8>>
    decreases n,
{
    if n <= 0 || n > b.len() {
        Some(seq![])
    } else {
        match (sextets(b, n - 1), sextet(b[n - 1])) {
            (Some(v), Some(x)) => Some(v.push(x as u8)),
            _ => None,
        }
    }
}

/// The place of the first `=` from `i` on, or the end.
pub open spec fn padding_at(b: Seq<u8>, i: int) -> int
    decreases b.len() - i,
{
    if i < 0 || i >= b.len() || b[i] == 61 {
        i
    } else {
        padding_at(b, i + 1)
    }
}

/// The bytes that a text in Base64 stands for. Signs of padding stand at the end,
/// at most two, and only where they fill up the last four characters.
pub open spec fn base64_decoded(s: Seq<char>) -> Option<Seq<u8>> {
    let b = vstd::utf8::encode_utf8(text::trimmed(s));
    let n = padding_at(b, 0);
    let padding = b.len() - n;
    match sextets(b, n) {
        Some(v) => if padding > 2 || (exists|k: int| n <= k < b.len() && b[k] != 61) || b.len() % 4
            == 1 || (padding > 0 && b.len() % 4 != 0) {
            None
        } else {
            Some(joined_sextets(v, 0))
        },
        None => None,
    }
}

/// The place of the first sign of padding lies in or at the end of the bytes.
proof fn lemma_padding_at(b: Seq<u8>, i: int)
    requires
        0 <= i <= b.len(),
    ensures
        i <= padding_at(b, i) <= b.len(),
        padding_at(b, i) < b.len() ==> b[padding_at(b, i)] == 61,
    decreases b.len() - i,
{
    if i < b.len() && b[i] != 61 {
        lemma_padding_at(b, i + 1);
    }
}

/// A character that is none spoils what comes after it.
proof fn lemma_sextets_fail(b: Seq<u8>, i: int, n: int)
    requires
        0 <= i <= n <= b.len(),
        sextets(b, i) is None,
    ensures
        sextets(b, n) is None,
    decreases n,
{
    if i < n {
        lemma_sextets_fail(b, i, n - 1);
    }
}

/// The bytes that a text in Base64 stands for.
pub fn base64_decode(input: &str) -> (r: Option<Vec<u8>>)
    ensures
        match r {
            Some(v) => base64_decoded(input@) == Some(v@),
            None => base64_decoded(input@) is None,
        },
{
    let t = text::trim(input);
    let v = message::utf8(t.as_str());
    let ghost b = v@;
    let mut data: Vec<u8> = Vec::new();
    let mut i: usize = 0;
    assert(data@ =~= seq![]);
    while i < v.len() && v[i] != 61
        invariant
            b == v@,
            b == vstd::utf8::encode_utf8(text::trimmed(input@)),
            i <= v.len(),
            data@.len() == i,
            sextets(b, i as int) == Some(data@),
            padding_at(b, 0) == padding_at(b, i as int),
        decreases v.len() - i,
    {
        match read_sextet(v[i]) {
            Some(x) => {
                data.push(x);
            },
            None => {
                proof {
                    lemma_padding_at(b, i as int);
                    assert(padding_at(b, i as int) == padding_at(b, i + 1));
                    lemma_padding_at(b, i + 1);
                    assert(sextets(b, i + 1) is None);
                    lemma_sextets_fail(b, i + 1, padding_at(b, 0));
                }
                return None;
            },
        }
        i = i + 1;
    }
    let n = i;
    assert(padding_at(b, 0) == n);
    if v.len() - n > 2 {
        return None;
    }
    while i < v.len()
        invariant
            b == v@,
            b == vstd::utf8::encode_utf8(text::trimmed(input@)),
            n <= i <= v.len(),
            padding_at(b, 0) == n,
            sextets(b, n as int) == Some(data@),
            forall|k: int| n <= k < i ==> b[k] == 61,
        decreases v.len() - i,
    {
        if v[i] != 61 {
            assert(b[i as int] != 61);
            return None;
        }
        i = i + 1;
    }
    if v.len() % 4 == 1 || (v.len() > n && v.len() % 4 != 0) {
        return None;
    }
    proof {
        lemma_sextets_small(b, n as int);
    }
    Some(join_sextets(&data))
}

/// Joins numbers below 64 to bytes.
fn join_sextets(data: &Vec<u8>) -> (out: Vec<u8>)
    requires
        forall|j: int| 0 <= j < data@.len() ==> #[trigger] data@[j] < 64,
    ensures
        out@ == joined_sextets(data@, 0),
{
    let mut out: Vec<u8> = Vec::new();
    let mut k: usize = 0;
    let ghost d = data@;
    assert(out@ + joined_sextets(d, 0) =~= joined_sextets(d, 0));
    while data.len() - k >= 2
        invariant
            d == data@,
            forall|j: int| 0 <= j < d.len() ==> #[trigger] d[j] < 64,
            k <= data.len(),
            out@ + joined_sextets(d, k as int) == joined_sextets(d, 0),
        decreases data.len() - k,
    {
        let ghost before = out@;
        let left: usize = data.len() - k;
        assert(d[k as int] < 64 && d[k + 1] < 64);
        out.push(data[k] * 4 + data[k + 1] / 16);
        if left >= 3 {
            assert(d[k + 2] < 64);
            out.push((data[k + 1] % 16) * 16 + data[k + 2] / 4);
        }
        if left >= 4 {
            assert(d[k + 3] < 64);
            out.push((data[k + 2] % 4) * 64 + data[k + 3]);
            assert(out@ =~= before + seq![
                (d[k as int] * 4 + d[k + 1] / 16) as u8,
                ((d[k + 1] % 16) * 16 + d[k + 2] / 4) as u8,
                ((d[k + 2] % 4) * 64 + d[k + 3]) as u8,
            ]);
            assert(out@ + joined_sextets(d, k + 4) =~= before + joined_sextets(d, k as int));
            k = k + 4;
        } else {
            assert(out@ =~= before + joined_sextets(d, k as int));
            assert(joined_sextets(d, d.len() as int) =~= seq![]);
            assert(out@ + joined_sextets(d, d.len() as int) =~= out@);
            k = data.len();
        }
    }
    assert(joined_sextets(d, k as int) =~= seq![]);
    assert(out@ =~= out@ + seq![]);
    out
}

/// The numbers of the characters from `i` on up to the first `=`. Line ends and
/// spaces are passed over.
pub open spec fn relaxed_sextets(b: Seq<u8>, i: int) -> Option<Seq<u8>>
    decreases b.len() - i,
{
    if i < 0 || i >= b.len() || b[i] == 61 {
        Some(seq![])
    } else {
        match (sextet(b[i]), relaxed_sextets(b, i + 1)) {
            (Some(x), Some(rest)) => Some(seq![x as u8] + rest),
            (None, rest) => if b[i] == 10 || b[i] == 13 || b[i] == 32 {
                rest
            } else {
                None
            },
            (_, None) => None,
        }
    }
}

/// The bytes that a text in Base64 stands for, where it may have line ends and spaces
/// in it and nothing behind the first `=` counts.
pub open spec fn base64_relaxed(s: Seq<char>) -> Option<Seq<u8>> {
    match relaxed_sextets(vstd::utf8::encode_utf8(text::trimmed(s)), 0) {
        Some(v) => Some(joined_sextets(v, 0)),
        None => None,
    }
}

/// Decodes Base64 with line ends and spaces in it, up to the first `=`.
pub fn base64_decode_relaxed(input: &str) -> (r: Option<Vec<u8>>)
    ensures
        match r {
            Some(v) => base64_relaxed(input@) == Some(v@),
            None => base64_relaxed(input@) is None,
        },
{
    let v = message::utf8(text::trim(input).as_str());
    let ghost b = v@;
    let ghost all = relaxed_sextets(b, 0);
    let mut data: Vec<u8> = Vec::new();
    let mut i: usize = 0;
    proof {
        if let Some(x) = all {
            assert(data@ + x =~= x);
        }
    }
    while i < v.len() && v[i] != 61
        invariant
            b == v@,
            b == vstd::utf8::encode_utf8(text::trimmed(input@)),
            all == relaxed_sextets(b, 0),
            i <= v.len(),
            forall|j: int| 0 <= j < data@.len() ==> #[trigger] data@[j] < 64,
            match (all, relaxed_sextets(b, i as int)) {
                (Some(x), Some(rest)) => x == data@ + rest,
                (None, None) => true,
                _ => false,
            },
        decreases v.len() - i,
    {
        let ghost before = data@;
        match read_sextet(v[i]) {
            Some(x) => {
                data.push(x);
                proof {
                    if let Some(rest) = relaxed_sextets(b, i + 1) {
                        assert(data@ + rest =~= before + (seq![x] + rest));
                    }
                }
            },
            None => {
                if v[i] != 10 && v[i] != 13 && v[i] != 32 {
                    return None;
                }
            },
        }
        i = i + 1;
    }
    assert(data@ + Seq::<u8>::empty() =~= data@);
    Some(join_sextets(&data))
}

/// The numbers of characters are below 64.
proof fn lemma_sextets_small(b: Seq<u8>, n: int)
    ensures
        sextets(b, n) matches Some(v) ==> forall|j: int| 0 <= j < v.len() ==> #[trigger] v[j] < 64,
    decreases n,
{
    if 0 < n <= b.len() {
        lemma_sextets_small(b, n - 1);
    }
}

/// The character of Base64 for a number below 64.
pub open spec fn base64_char(n: u8) -> char {
    if n < 26 {
        (n + 65) as char
    } else if n < 52 {
        (n + 71) as char
    } else if n < 62 {
        (n - 4) as char
    } else if n == 62 {
        '+'
    } else {
        '/'
    }
}

/// The numbers below 64 that bytes from `i` on are made of: four for every three bytes.
pub open spec fn sextets_of(b: Seq<u8>, i: int) -> Seq<u8>
    decreases b.len() - i,
{
    if i < 0 || i >= b.len() {
        seq![]
    } else if i + 1 == b.len() {
        seq![(b[i] / 4) as u8, (b[i] % 4 * 16) as u8]
    } else if i + 2 == b.len() {
        seq![
            (b[i] / 4) as u8,
            (b[i] % 4 * 16 + b[i + 1] / 16) as u8,
            (b[i + 1] % 16 * 4) as u8,
        ]
    } else {
        seq![
            (b[i] / 4) as u8,
            (b[i] % 4 * 16 + b[i + 1] / 16) as u8,
            (b[i + 1] % 16 * 4 + b[i + 2] / 64) as u8,
            (b[i + 2] % 64) as u8,
        ] + sextets_of(b, i + 3)
    }
}

/// Bytes in Base64, filled up with `=` to a multiple of four characters.
pub open spec fn base64_encoded(b: Seq<u8>) -> Seq<char> {
    let v = sextets_of(b, 0);
    v.map_values(|n: u8| base64_char(n)) + Seq::new(((4 - v.len() % 4) % 4) as nat, |k: int| '=')
}

/// A number is read back from its character.
proof fn lemma_base64_char(n: u8)
    requires
        n < 64,
    ensures
        sextet(base64_char(n) as u8) == Some(n as int),
        (base64_char(n) as u8) as char == base64_char(n),
        base64_char(n) as u8 != 61,
        (base64_char(n) as u32) < 128,
        !text::is_space(base64_char(n)),
{
}

/// The numbers are below 64, and put together they are the bytes.
proof fn lemma_sextets_of(b: Seq<u8>, i: int)
    requires
        0 <= i <= b.len(),
    ensures
        forall|k: int| 0 <= k < sextets_of(b, i).len() ==> #[trigger] sextets_of(b, i)[k] < 64,
        joined_sextets(sextets_of(b, i), 0) == b.skip(i),
        sextets_of(b, i).len() % 4 != 1,
        sextets_of(b, i).len() % 4 == (if (b.len() - i) % 3 == 0 {
            0int
        } else {
            (b.len() - i) % 3 + 1
        }),
    decreases b.len() - i,
{
    let v = sextets_of(b, i);
    if i >= b.len() {
        assert(b.skip(i) =~= seq![]);
    } else if i + 1 == b.len() {
        let x = b[i];
        assert(v[0] == (x / 4) as u8 && v[1] == (x % 4 * 16) as u8);
        assert((v[0] * 4 + v[1] / 16) as u8 == x);
        assert(joined_sextets(v, 0) =~= seq![x]);
        assert(b.skip(i) =~= seq![x]);
    } else if i + 2 == b.len() {
        let (x, y) = (b[i], b[i + 1]);
        assert(v[0] == (x / 4) as u8 && v[1] == (x % 4 * 16 + y / 16) as u8 && v[2] == (y % 16
            * 4) as u8);
        assert((v[0] * 4 + v[1] / 16) as u8 == x);
        assert(((v[1] % 16) * 16 + v[2] / 4) as u8 == y);
        assert(joined_sextets(v, 0) =~= seq![x, y]);
        assert(b.skip(i) =~= seq![x, y]);
    } else {
        lemma_sextets_of(b, i + 3);
        let (x, y, z) = (b[i], b[i + 1], b[i + 2]);
        let rest = sextets_of(b, i + 3);
        let head = seq![
            (x / 4) as u8,
            (x % 4 * 16 + y / 16) as u8,
            (y % 16 * 4 + z / 64) as u8,
            (z % 64) as u8,
        ];
        assert(v == head + rest);
        assert(v[0] == head[0] && v[1] == head[1] && v[2] == head[2] && v[3] == head[3]);
        assert((v[0] * 4 + v[1] / 16) as u8 == x);
        assert(((v[1] % 16) * 16 + v[2] / 4) as u8 == y);
        assert(((v[2] % 4) * 64 + v[3]) as u8 == z);
        lemma_joined_behind(head, rest, 0);
        assert(joined_sextets(v, 0) =~= seq![x, y, z] + b.skip(i + 3));
        assert(b.skip(i) =~= seq![x, y, z] + b.skip(i + 3));
        assert forall|k: int| 0 <= k < v.len() implies #[trigger] v[k] < 64 by {
            if k >= 4 {
                assert(v[k] == rest[k - 4]);
            }
        }
    }
}

/// Numbers behind others are put together as they are alone.
proof fn lemma_joined_behind(a: Seq<u8>, v: Seq<u8>, i: int)
    requires
        0 <= i,
    ensures
        joined_sextets(a + v, a.len() + i) == joined_sextets(v, i),
    decreases v.len() - i,
{
    let all = a + v;
    let n = a.len() as int;
    if i + 2 <= v.len() {
        assert(all[n + i] == v[i] && all[n + i + 1] == v[i + 1]);
        if i + 2 < v.len() {
            assert(all[n + i + 2] == v[i + 2]);
        }
        if i + 3 < v.len() {
            assert(all[n + i + 3] == v[i + 3]);
            lemma_joined_behind(a, v, i + 4);
        }
    }
}

/// The numbers of the characters are those that were written.
proof fn lemma_sextets_read(b: Seq<u8>, v: Seq<u8>, n: int)
    requires
        0 <= n <= v.len() <= b.len(),
        forall|k: int|
            0 <= k < v.len() ==> #[trigger] v[k] < 64 && b[k] == base64_char(v[k]) as u8,
    ensures
        sextets(b, n) == Some(v.take(n)),
    decreases n,
{
    if n > 0 {
        lemma_sextets_read(b, v, n - 1);
        assert(v[n - 1] < 64 && b[n - 1] == base64_char(v[n - 1]) as u8);
        lemma_base64_char(v[n - 1]);
        assert(v.take(n) =~= v.take(n - 1).push(v[n - 1]));
    } else {
        assert(v.take(0) =~= seq![]);
    }
}

/// The signs of padding begin behind the numbers.
proof fn lemma_padding_behind(b: Seq<u8>, n: int, i: int)
    requires
        0 <= i <= n <= b.len(),
        forall|k: int| 0 <= k < n ==> #[trigger] b[k] != 61,
        n < b.len() ==> b[n] == 61,
    ensures
        padding_at(b, i) == n,
    decreases n - i,
{
    if i < n {
        assert(b[i] != 61);
        lemma_padding_behind(b, n, i + 1);
    }
}

/// Bytes that were written in Base64 are read back, whatever they are.
pub proof fn lemma_base64_round_trip(b: Seq<u8>)
    ensures
        base64_decoded(base64_encoded(b)) == Some(b),
{
    let v = sextets_of(b, 0);
    lemma_sextets_of(b, 0);
    assert(b.skip(0) =~= b);
    let s = base64_encoded(b);
    let n = v.len() as int;
    let pad = ((4 - n % 4) % 4) as nat;
    assert(s.len() == n + pad);
    assert forall|k: int| 0 <= k < s.len() implies (#[trigger] s[k] as u32) < 128
        && !text::is_space(s[k]) by {
        if k < n {
            assert(s[k] == base64_char(v[k]));
            lemma_base64_char(v[k]);
        } else {
            assert(s[k] == '=');
        }
    }
    assert(vstd::utf8::is_ascii_chars(s));
    vstd::utf8::is_ascii_chars_encode_utf8(s);
    let bytes = ascii_bytes(s);
    assert(vstd::utf8::encode_utf8(s) =~= bytes);
    if s.len() > 0 {
        assert(!text::is_space(s[0]) && !text::is_space(s[s.len() - 1]));
    }
    text::lemma_trimmed_fixed(s);
    assert forall|k: int| 0 <= k < n implies #[trigger] v[k] < 64 && bytes[k] == base64_char(
        v[k],
    ) as u8 by {
        assert(s[k] == base64_char(v[k]));
    }
    assert forall|k: int| 0 <= k < n implies #[trigger] bytes[k] != 61 by {
        assert(v[k] < 64);
        lemma_base64_char(v[k]);
    }
    assert forall|k: int| n <= k < bytes.len() implies #[trigger] bytes[k] == 61 by {
        assert(s[k] == '=');
    }
    lemma_padding_behind(bytes, n, 0);
    lemma_sextets_read(bytes, v, n);
    assert(v.take(n) =~= v);
    assert(bytes.len() % 4 == 0);
}

/// A text with a character that is none of Base64 stands for nothing.
pub proof fn lemma_base64_refused(s: Seq<char>, k: int)
    requires
        vstd::utf8::is_ascii_chars(s),
        0 <= k < s.len(),
        !text::is_space(s[0]) && !text::is_space(s.last()),
        sextet(s[k] as u8) is None,
        s[k] != '=',
        forall|j: int| 0 <= j < k ==> #[trigger] s[j] != '=',
    ensures
        base64_decoded(s) is None,
{
    vstd::utf8::is_ascii_chars_encode_utf8(s);
    let b = ascii_bytes(s);
    assert(vstd::utf8::encode_utf8(s) =~= b);
    text::lemma_trimmed_fixed(s);
    lemma_padding_at(b, 0);
    let n = padding_at(b, 0);
    assert((s[k] as u32) < 128);
    assert(n > k) by {
        if n <= k && n < b.len() {
            assert(b[n] == 61);
            assert((s[n] as u32) < 128);
            assert(s[n] == '=');
        }
    }
    assert(sextets(b, k + 1) is None);
    lemma_sextets_fail(b, k + 1, n);
}

// ---------------------------------------------------------------------------
// HTML
// ---------------------------------------------------------------------------

/// A character as HTML writes it.
pub open spec fn html_char(c: char) -> Seq<char> {
    if c == '&' {
        "&amp;"@
    } else if c == '<' {
        "&lt;"@
    } else if c == '>' {
        "&gt;"@
    } else if c == '"' {
        "&quot;"@
    } else if c == '\'' {
        "&#39;"@
    } else {
        seq![c]
    }
}

/// The characters from `i` on as HTML writes them.
pub open spec fn html_from(s: Seq<char>, i: int) -> Seq<char>
    decreases s.len() - i,
{
    if i < 0 || i >= s.len() {
        seq![]
    } else {
        html_char(s[i]) + html_from(s, i + 1)
    }
}

/// A text as HTML writes it.
pub open spec fn html_escaped(s: Seq<char>) -> Seq<char> {
    html_from(s, 0)
}

/// Writes a text so that it means itself in HTML.
pub fn html_escape(s: &str) -> (r: String)
    ensures
        r@ == html_escaped(s@),
{
    let v = text::chars(s);
    let mut out = String::new();
    assert(out@ + html_from(s@, 0) =~= html_from(s@, 0));
    for i in 0..v.len()
        invariant
            v@ == s@,
            out@ + html_from(s@, i as int) == html_from(s@, 0),
    {
        let c = v[i];
        let ghost before = out@;
        if c == '&' {
            out = text::join(out.as_str(), "&amp;");
        } else if c == '<' {
            out = text::join(out.as_str(), "&lt;");
        } else if c == '>' {
            out = text::join(out.as_str(), "&gt;");
        } else if c == '"' {
            out = text::join(out.as_str(), "&quot;");
        } else if c == '\'' {
            out = text::join(out.as_str(), "&#39;");
        } else {
            out.push(c);
            assert(out@ =~= before + seq![c]);
        }
        assert(out@ + html_from(s@, i + 1) =~= before + (html_char(c) + html_from(s@, i + 1)));
    }
    assert(out@ =~= out@ + html_from(s@, s@.len() as int));
    out
}

/// What stands for a character holds no sign of HTML but the ampersand that begins
/// it.
proof fn lemma_html_char(c: char)
    ensures
        !html_char(c).contains('<'),
        !html_char(c).contains('>'),
        !html_char(c).contains('"'),
        !html_char(c).contains('\''),
{
    reveal_strlit("&amp;");
    reveal_strlit("&lt;");
    reveal_strlit("&gt;");
    reveal_strlit("&quot;");
    reveal_strlit("&#39;");
}

/// A text that was written for HTML begins no tag and ends no quoted value.
pub proof fn lemma_html_is_inert(s: Seq<char>, i: int, q: char)
    requires
        0 <= i,
        q == '<' || q == '>' || q == '"' || q == '\'',
    ensures
        !html_from(s, i).contains(q),
    decreases s.len() - i,
{
    if i < s.len() {
        lemma_html_is_inert(s, i + 1, q);
        lemma_html_char(s[i]);
        let (a, b) = (html_char(s[i]), html_from(s, i + 1));
        if (a + b).contains(q) {
            let k = choose|k: int| 0 <= k < (a + b).len() && (a + b)[k] == q;
            if k < a.len() {
                assert(a[k] == q);
            } else {
                assert(b[k - a.len()] == q);
            }
        }
    }
}

/// A text with percent signs holds no slash.
pub proof fn lemma_no_slash(s: Seq<char>)
    ensures
        !percent_encoded(s).contains('/'),
        s.len() > 0 ==> percent_encoded(s).len() > 0,
{
    let b = vstd::utf8::encode_utf8(s);
    lemma_no_slash_from(b, 0);
    if s.len() > 0 {
        assert(b.len() > 0);
    }
}

/// Bytes with percent signs hold no slash.
proof fn lemma_no_slash_from(b: Seq<u8>, i: int)
    ensures
        forall|k: int| 0 <= k < escaped(b, i).len() ==> #[trigger] escaped(b, i)[k] != '/',
    decreases b.len() - i,
{
    if 0 <= i < b.len() {
        lemma_no_slash_from(b, i + 1);
        let head = escaped_byte(b[i]);
        let rest = escaped(b, i + 1);
        assert forall|k: int| 0 <= k < escaped(b, i).len() implies #[trigger] escaped(b, i)[k]
            != '/' by {
            if k >= head.len() {
                assert(escaped(b, i)[k] == rest[k - head.len()]);
            } else {
                assert(escaped(b, i)[k] == head[k]);
                if plain_byte(b[i]) {
                    assert(head[0] == b[i] as char);
                }
            }
        }
    }
}

/// Bytes that were written in Base64 are read back in the relaxed way as well.
pub proof fn lemma_base64_relaxed_round_trip(b: Seq<u8>)
    ensures
        base64_relaxed(base64_encoded(b)) == Some(b),
{
    let v = sextets_of(b, 0);
    lemma_sextets_of(b, 0);
    assert(b.skip(0) =~= b);
    let s = base64_encoded(b);
    let n = v.len() as int;
    assert forall|k: int| 0 <= k < s.len() implies (#[trigger] s[k] as u32) < 128
        && !text::is_space(s[k]) by {
        if k < n {
            assert(s[k] == base64_char(v[k]));
            lemma_base64_char(v[k]);
        } else {
            assert(s[k] == '=');
        }
    }
    assert(vstd::utf8::is_ascii_chars(s));
    vstd::utf8::is_ascii_chars_encode_utf8(s);
    let bytes = ascii_bytes(s);
    assert(vstd::utf8::encode_utf8(s) =~= bytes);
    if s.len() > 0 {
        assert(!text::is_space(s[0]) && !text::is_space(s[s.len() - 1]));
    }
    text::lemma_trimmed_fixed(s);
    assert forall|k: int| 0 <= k < n implies #[trigger] v[k] < 64 && bytes[k] == base64_char(
        v[k],
    ) as u8 by {
        assert(s[k] == base64_char(v[k]));
    }
    if n < bytes.len() {
        assert(s[n] == '=');
        assert(bytes[n] == 61);
    }
    lemma_relaxed_read(bytes, v, 0);
    assert(v.skip(0) =~= v);
}

/// The numbers of the characters from `i` on are those that were written.
proof fn lemma_relaxed_read(b: Seq<u8>, v: Seq<u8>, i: int)
    requires
        0 <= i <= v.len() <= b.len(),
        forall|k: int|
            0 <= k < v.len() ==> #[trigger] v[k] < 64 && b[k] == base64_char(v[k]) as u8,
        v.len() < b.len() ==> b[v.len() as int] == 61,
    ensures
        relaxed_sextets(b, i) == Some(v.skip(i)),
    decreases v.len() - i,
{
    if i < v.len() {
        assert(v[i] < 64 && b[i] == base64_char(v[i]) as u8);
        lemma_base64_char(v[i]);
        lemma_relaxed_read(b, v, i + 1);
        assert(seq![v[i]] + v.skip(i + 1) =~= v.skip(i));
    } else {
        assert(v.skip(i) =~= seq![]);
    }
}

} // verus!
