//! IPv4 addresses in dotted notation.
use crate::digits::{decimal, decimal_text, digit};
use crate::net::Ipv4Addr;
use crate::scan::{
    digit_of, find_char, find_from, lemma_find_from, lemma_find_from_is, number_of, parse_u32,
    parsed_u32,
};
use crate::text::{chars_of, push_text, same_text, string_of};
use vstd::prelude::*;

verus! {

/// The octet of an address, counted from the first.
pub open spec fn octet(bits: u32, i: int) -> nat {
    if i == 0 {
        (bits / 0x100_0000) as nat
    } else if i == 1 {
        (bits / 0x1_0000 % 0x100) as nat
    } else if i == 2 {
        (bits / 0x100 % 0x100) as nat
    } else {
        (bits % 0x100) as nat
    }
}

/// An address in dotted notation.
pub open spec fn ipv4_text(ip: Ipv4Addr) -> Seq<char> {
    decimal(octet(ip.bits, 0)) + seq!['.'] + decimal(octet(ip.bits, 1)) + seq!['.'] + decimal(
        octet(ip.bits, 2),
    ) + seq!['.'] + decimal(octet(ip.bits, 3))
}

/// An address in dotted notation.
pub fn ipv4_to_text(ip: Ipv4Addr) -> (s: String)
    ensures
        s@ == ipv4_text(ip),
{
    let bits: u32 = ip.bits;
    let mut s = decimal_text((bits / 0x100_0000) as u64);
    s.push('.');
    push_text(&mut s, decimal_text((bits / 0x1_0000 % 0x100) as u64).as_str());
    s.push('.');
    push_text(&mut s, decimal_text((bits / 0x100 % 0x100) as u64).as_str());
    s.push('.');
    push_text(&mut s, decimal_text((bits % 0x100) as u64).as_str());
    assert(s@ =~= ipv4_text(ip));
    s
}

/// Every character of a decimal number is a digit, and the number can be read back.
pub proof fn lemma_decimal(n: nat)
    ensures
        decimal(n).len() > 0,
        decimal(n)[0] != '+',
        forall|i: int| 0 <= i < decimal(n).len() ==> #[trigger] decimal(n)[i] != '.',
        number_of(decimal(n), 10) == Some(n),
    decreases n,
{
    if n < 10 {
        let s = seq![digit(n as int)];
        assert(s.drop_last() =~= Seq::empty());
        assert(s.last() == digit(n as int));
        assert(number_of(s.drop_last(), 10) == Some(0nat));
        assert(digit_of(digit(n as int), 10) == Some(n));
    } else {
        lemma_decimal(n / 10);
        let s = decimal(n / 10).push(digit((n % 10) as int));
        assert(s.drop_last() =~= decimal(n / 10));
        assert(s.last() == digit((n % 10) as int));
        assert(digit_of(digit((n % 10) as int), 10) == Some((n % 10) as nat));
    }
}

/// Reads an octet as it is written: decimal, without leading zeros.
fn parse_octet(s: &str) -> (res: Option<u32>)
    ensures
        match res {
            Some(v) => v <= 255 && decimal(v as nat) == s@,
            None => forall|v: nat| v <= 255 ==> #[trigger] decimal(v) != s@,
        },
{
    proof {
        assert forall|v: nat| v <= 255 && #[trigger] decimal(v) == s@ implies parsed_u32(s@, 10)
            == Some(v as u32) by {
            lemma_decimal(v);
        }
    }
    match parse_u32(s, 10) {
        None => None,
        Some(v) => {
            if v <= 255 && same_text(decimal_text(v as u64).as_str(), s) {
                Some(v)
            } else {
                None
            }
        },
    }
}

/// The parts of `s` between its first three dots are the octets of an address.
pub open spec fn has_octets(s: Seq<char>, ip: Ipv4Addr) -> bool {
    let i = find_from(s, '.', 0);
    let j = find_from(s, '.', i + 1);
    let k = find_from(s, '.', j + 1);
    &&& i < s.len() && j < s.len() && k < s.len()
    &&& s.subrange(0, i) == decimal(octet(ip.bits, 0))
    &&& s.subrange(i + 1, j) == decimal(octet(ip.bits, 1))
    &&& s.subrange(j + 1, k) == decimal(octet(ip.bits, 2))
    &&& s.subrange(k + 1, s.len() as int) == decimal(octet(ip.bits, 3))
}

/// The notation of an address is cut at its dots into its octets.
proof fn lemma_text_has_octets(ip: Ipv4Addr)
    ensures
        has_octets(ipv4_text(ip), ip),
{
    let s = ipv4_text(ip);
    let a = decimal(octet(ip.bits, 0));
    let b = decimal(octet(ip.bits, 1));
    let c = decimal(octet(ip.bits, 2));
    let d = decimal(octet(ip.bits, 3));
    lemma_decimal(octet(ip.bits, 0));
    lemma_decimal(octet(ip.bits, 1));
    lemma_decimal(octet(ip.bits, 2));
    lemma_decimal(octet(ip.bits, 3));
    let i = a.len() as int;
    let j = i + 1 + b.len();
    let k = j + 1 + c.len();
    assert(s.subrange(0, i) =~= a);
    assert(s.subrange(i + 1, j) =~= b);
    assert(s.subrange(j + 1, k) =~= c);
    assert(s.subrange(k + 1, s.len() as int) =~= d);
    assert forall|x: int| 0 <= x < i implies s[x] != '.' by {
        assert(s[x] == a[x]);
    }
    assert forall|x: int| i + 1 <= x < j implies s[x] != '.' by {
        assert(s[x] == b[x - i - 1]);
    }
    assert forall|x: int| j + 1 <= x < k implies s[x] != '.' by {
        assert(s[x] == c[x - j - 1]);
    }
    assert(s[i] == '.' && s[j] == '.' && s[k] == '.');
    lemma_find_from_is(s, '.', 0, i);
    lemma_find_from_is(s, '.', i + 1, j);
    lemma_find_from_is(s, '.', j + 1, k);
}

/// What is cut at its dots into the octets of an address is its notation.
proof fn lemma_octets_make_text(s: Seq<char>, ip: Ipv4Addr)
    requires
        has_octets(s, ip),
    ensures
        ipv4_text(ip) == s,
{
    let i = find_from(s, '.', 0);
    let j = find_from(s, '.', i + 1);
    let k = find_from(s, '.', j + 1);
    lemma_find_from(s, '.', 0);
    lemma_find_from(s, '.', i + 1);
    lemma_find_from(s, '.', j + 1);
    assert(ipv4_text(ip) =~= s);
}

/// Reads the octet `s[from..to]`.
fn parse_octet_at(s: &Vec<char>, from: usize, to: usize) -> (res: Option<u32>)
    requires
        from <= to <= s@.len(),
    ensures
        match res {
            Some(v) => v <= 255 && decimal(v as nat) == s@.subrange(from as int, to as int),
            None => forall|v: nat|
                v <= 255 ==> #[trigger] decimal(v) != s@.subrange(from as int, to as int),
        },
{
    parse_octet(string_of(s, from, to).as_str())
}

/// The octets of an address.
proof fn lemma_octets(a: u32, b: u32, c: u32, d: u32, bits: u32)
    requires
        a <= 255,
        b <= 255,
        c <= 255,
        d <= 255,
        bits == a * 0x100_0000 + b * 0x1_0000 + c * 0x100 + d,
    ensures
        octet(bits, 0) == a,
        octet(bits, 1) == b,
        octet(bits, 2) == c,
        octet(bits, 3) == d,
{
    assert(bits / 0x100_0000 == a && bits / 0x1_0000 % 0x100 == b && bits / 0x100 % 0x100 == c
        && bits % 0x100 == d) by (bit_vector)
        requires
            a <= 255,
            b <= 255,
            c <= 255,
            d <= 255,
            bits == a * 0x100_0000 + b * 0x1_0000 + c * 0x100 + d,
    ;
}

/// An address is made of its octets.
proof fn lemma_bits(bits: u32)
    ensures
        bits == octet(bits, 0) * 0x100_0000 + octet(bits, 1) * 0x1_0000 + octet(bits, 2) * 0x100
            + octet(bits, 3),
{
    assert(bits == (bits / 0x100_0000) * 0x100_0000 + (bits / 0x1_0000 % 0x100) * 0x1_0000 + (bits
        / 0x100 % 0x100) * 0x100 + bits % 0x100) by (bit_vector);
}

/// The address whose dotted notation a text is; none where it is that of no address.
pub open spec fn parsed_ipv4(s: Seq<char>) -> Option<Ipv4Addr> {
    if exists|ip: Ipv4Addr| #[trigger] ipv4_text(ip) == s {
        Some(choose|ip: Ipv4Addr| #[trigger] ipv4_text(ip) == s)
    } else {
        None
    }
}

/// Reads an address in dotted notation; none for anything that is not exactly that.
pub fn parse_ipv4(s: &str) -> (res: Option<Ipv4Addr>)
    ensures
        match res {
            Some(ip) => ipv4_text(ip) == s@,
            None => forall|ip: Ipv4Addr| #[trigger] ipv4_text(ip) != s@,
        },
        res == parsed_ipv4(s@),
{
    proof {
        assert forall|ip: Ipv4Addr| #[trigger] ipv4_text(ip) == s@ implies has_octets(s@, ip) by {
            lemma_text_has_octets(ip);
        }
        assert forall|ip: Ipv4Addr, i: int| #[trigger] octet(ip.bits, i) <= 255 by {}
    }
    let v = chars_of(s);
    let i = find_char(&v, '.', 0);
    if i >= v.len() {
        return None;
    }
    let j = find_char(&v, '.', i + 1);
    if j >= v.len() {
        return None;
    }
    let k = find_char(&v, '.', j + 1);
    if k >= v.len() {
        return None;
    }
    let a = parse_octet_at(&v, 0, i);
    let b = parse_octet_at(&v, i + 1, j);
    let c = parse_octet_at(&v, j + 1, k);
    let d = parse_octet_at(&v, k + 1, v.len());
    match (a, b, c, d) {
        (Some(a), Some(b), Some(c), Some(d)) => {
            let ip = Ipv4Addr { bits: a * 0x100_0000 + b * 0x1_0000 + c * 0x100 + d };
            proof {
                lemma_octets(a, b, c, d, ip.bits);
                lemma_octets_make_text(s@, ip);
                assert(ipv4_text(ip) == s@);
                notation_is_one_to_one(ip, parsed_ipv4(s@)->0);
            }
            Some(ip)
        },
        _ => None,
    }
}

/// What is written is read back.
pub proof fn reading_undoes_writing(ip: Ipv4Addr)
    ensures
        parsed_ipv4(ipv4_text(ip)) == Some(ip),
{
    let found = parsed_ipv4(ipv4_text(ip))->0;
    assert(ipv4_text(found) == ipv4_text(ip));
    notation_is_one_to_one(found, ip);
}

/// A text is the notation of at most one address.
pub proof fn notation_is_one_to_one(a: Ipv4Addr, b: Ipv4Addr)
    requires
        ipv4_text(a) == ipv4_text(b),
    ensures
        a == b,
{
    lemma_text_has_octets(a);
    lemma_text_has_octets(b);
    lemma_decimal(octet(a.bits, 0));
    lemma_decimal(octet(a.bits, 1));
    lemma_decimal(octet(a.bits, 2));
    lemma_decimal(octet(a.bits, 3));
    lemma_decimal(octet(b.bits, 0));
    lemma_decimal(octet(b.bits, 1));
    lemma_decimal(octet(b.bits, 2));
    lemma_decimal(octet(b.bits, 3));
    lemma_bits(a.bits);
    lemma_bits(b.bits);
}

/// The notation of an address is its four octets in decimal, from the first to the last, with a dot
/// between each two.
pub proof fn the_notation_shows_the_octets_in_order(a: u8, b: u8, c: u8, d: u8)
    ensures
        ipv4_text(Ipv4Addr::of_octets(a, b, c, d)) == decimal(a as nat) + seq!['.'] + decimal(
            b as nat,
        ) + seq!['.'] + decimal(c as nat) + seq!['.'] + decimal(d as nat),
        parsed_ipv4(
            decimal(a as nat) + seq!['.'] + decimal(b as nat) + seq!['.'] + decimal(c as nat)
                + seq!['.'] + decimal(d as nat),
        ) == Some(Ipv4Addr::of_octets(a, b, c, d)),
{
    let ip = Ipv4Addr::of_octets(a, b, c, d);
    lemma_octets(a as u32, b as u32, c as u32, d as u32, ip.bits);
    reading_undoes_writing(ip);
}

/// The octets of an address are its bytes, the highest first.
pub proof fn octets_are_bytes(bits: u32)
    ensures
        octet(bits, 0) * 0x100_0000 + octet(bits, 1) * 0x1_0000 + octet(bits, 2) * 0x100 + octet(
            bits,
            3,
        ) == bits,
        octet(bits, 0) < 256 && octet(bits, 1) < 256 && octet(bits, 2) < 256 && octet(bits, 3) < 256,
{
    lemma_bits(bits);
}

/// What is read as an address is its notation to the letter.
pub proof fn only_the_exact_notation_is_read(s: Seq<char>)
    ensures
        parsed_ipv4(s) matches Some(ip) ==> ipv4_text(ip) == s,
        parsed_ipv4(s) is None ==> forall|ip: Ipv4Addr| #[trigger] ipv4_text(ip) != s,
{
}

} // verus!
