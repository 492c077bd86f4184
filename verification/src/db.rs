//! Comparison modes of a query and the IPv4 range test behind one of them.
use vstd::arithmetic::power2::{lemma2_to64, lemma_pow2_pos, pow2};
use vstd::prelude::*;

use crate::number::{dec, dec_u64, parse_unsigned, read_unsigned};
use crate::text::{char_from, find_char, pieces, split, split_on, string_from, to_chars};

verus! {

/// How to compare a field value in a WHERE clause.
///
/// The query compiler turns a field condition into a SQL predicate by its
/// mode. `Cidr` compiles to the `cidr_match` function; the rest are plain SQL
/// comparisons.
#[derive(Debug, Clone, Copy, PartialEq, Eq, Structural)]
pub enum MatchMode {
    Exact,
    /// `!=` / `<>`: the field does not equal the value.
    NotExact,
    StartsWith,
    EndsWith,
    Contains,
    /// IPv4 CIDR range.
    Cidr,
    /// Match any non-empty value: `field != ''`. No value needed.
    Any,
}

// ── IPv4 ranges ──────────────────────────────────────────────────────────────

/// One part of a dotted address: a numeral from 0 to 255.
pub open spec fn octet(s: Seq<char>) -> Option<int> {
    read_unsigned(s, 255)
}

/// The 32-bit number of a dotted IPv4 address, first part most significant.
pub open spec fn ipv4_value(s: Seq<char>) -> Option<int> {
    let p = split(s, '.');
    if p.len() == 4 && octet(p[0]) is Some && octet(p[1]) is Some && octet(p[2]) is Some && octet(
        p[3],
    ) is Some {
        Some(
            octet(p[0])->0 * 0x100_0000 + octet(p[1])->0 * 0x1_0000 + octet(p[2])->0 * 0x100
                + octet(p[3])->0,
        )
    } else {
        None
    }
}

/// Whether two addresses agree in their first `prefix` bits.
pub open spec fn same_network(a: int, b: int, prefix: int) -> bool {
    a / (pow2((32 - prefix) as nat) as int) == b / (pow2((32 - prefix) as nat) as int)
}

/// What the range test answers: whether the address lies in the range, or why
/// the range is malformed. A malformed address lies in no range.
pub open spec fn cidr_answer(cidr: Seq<char>, ip: Seq<char>) -> Result<bool, Seq<char>> {
    match char_from(cidr, '/', 0) {
        None => Err("invalid CIDR (missing /): "@ + cidr),
        Some(i) => {
            let net = cidr.subrange(0, i);
            let prefix = cidr.subrange(i + 1, cidr.len() as int);
            match read_unsigned(prefix, u32::MAX as int) {
                None => Err("invalid CIDR prefix length: "@ + prefix),
                Some(p) => if p > 32 {
                    Err("CIDR prefix length out of range (0-32): "@ + dec(p as nat))
                } else if char_from(cidr, ':', 0) is Some {
                    Err("IPv6 CIDR not supported yet"@)
                } else {
                    match ipv4_value(net) {
                        None => Err("invalid CIDR network address: "@ + net),
                        Some(n) => match ipv4_value(ip) {
                            None => Ok(false),
                            Some(a) => Ok(same_network(a, n, p)),
                        },
                    }
                },
            }
        },
    }
}

/// The view of a result whose error is a message.
pub open spec fn result_view<T>(r: Result<T, String>) -> Result<T, Seq<char>> {
    match r {
        Ok(v) => Ok(v),
        Err(m) => Err(m@),
    }
}

/// Reads an IPv4 address into a 32-bit number, big-endian.
pub fn ipv4_to_u32(s: &str) -> (r: Option<u32>)
    ensures
        match r {
            Some(v) => ipv4_value(s@) == Some(v as int),
            None => ipv4_value(s@) is None,
        },
{
    let parts = split_on(&to_chars(s), '.');
    if parts.len() != 4 {
        assert(pieces(parts@).len() == parts@.len());
        return None;
    }
    let ghost p = split(s@, '.');
    assert(p.len() == 4 && p[0] == parts@[0]@ && p[1] == parts@[1]@ && p[2] == parts@[2]@ && p[3]
        == parts@[3]@);
    let a = parse_unsigned(&parts[0], 255);
    let b = parse_unsigned(&parts[1], 255);
    let c = parse_unsigned(&parts[2], 255);
    let d = parse_unsigned(&parts[3], 255);
    match (a, b, c, d) {
        (Some(a), Some(b), Some(c), Some(d)) => {
            Some((a * 0x100_0000 + b * 0x1_0000 + c * 0x100 + d) as u32)
        },
        _ => None,
    }
}

/// Whether the address `ip` lies in the range `cidr` (such as `"10.0.0.0/24"`).
/// A malformed range is an error with a message; a malformed address lies in
/// no range.
pub fn cidr_contains(cidr: &str, ip: &str) -> (r: Result<bool, String>)
    ensures
        result_view(r) == cidr_answer(cidr@, ip@),
{
    let v = to_chars(cidr);
    let n: usize = v.len();
    match find_char(&v, '/', 0) {
        None => {
            let mut m = "invalid CIDR (missing /): ".to_owned();
            m.append(cidr);
            Err(m)
        },
        Some(i) => {
            let net_str = string_from(&v, 0, i);
            let prefix_str = string_from(&v, i + 1, n);
            match parse_unsigned(&to_chars(prefix_str.as_str()), u32::MAX as u64) {
                None => {
                    let mut m = "invalid CIDR prefix length: ".to_owned();
                    m.append(prefix_str.as_str());
                    Err(m)
                },
                Some(prefix_len) => {
                    if prefix_len > 32 {
                        let mut m = "CIDR prefix length out of range (0-32): ".to_owned();
                        m.append(dec_u64(prefix_len).as_str());
                        return Err(m);
                    }
                    if find_char(&v, ':', 0).is_some() {
                        return Err("IPv6 CIDR not supported yet".to_owned());
                    }
                    match ipv4_to_u32(net_str.as_str()) {
                        None => {
                            let mut m = "invalid CIDR network address: ".to_owned();
                            m.append(net_str.as_str());
                            Err(m)
                        },
                        Some(net) => match ipv4_to_u32(ip) {
                            None => Ok(false),
                            Some(addr) => Ok(agree_in_prefix(addr, net, prefix_len as u32)),
                        },
                    }
                },
            }
        },
    }
}

/// Whether two addresses agree in their first `prefix` bits.
fn agree_in_prefix(a: u32, b: u32, prefix: u32) -> (r: bool)
    requires
        prefix <= 32,
    ensures
        r == same_network(a as int, b as int, prefix as int),
{
    if prefix == 0 {
        proof {
            lemma2_to64();
            assert(pow2(32) == 0x1_0000_0000);
            assert(a as int / 0x1_0000_0000 == 0);
            assert(b as int / 0x1_0000_0000 == 0);
        }
        return true;
    }
    let shift: u32 = 32 - prefix;
    proof {
        vstd::bits::lemma_u32_shr_is_div(a, shift);
        vstd::bits::lemma_u32_shr_is_div(b, shift);
    }
    (a >> shift) == (b >> shift)
}

/// What the SQL function `cidr_match` answers for a column value: membership
/// in the range, and `false` for a malformed range.
pub fn cidr_match(ip: &str, cidr: &str) -> (r: bool)
    ensures
        r == (cidr_answer(cidr@, ip@) == Ok::<bool, Seq<char>>(true)),
{
    match cidr_contains(cidr, ip) {
        Ok(b) => b,
        Err(_) => false,
    }
}

/// A well-formed range of prefix length zero holds every IPv4 address.
pub proof fn zero_prefix_holds_every_address(a: int, b: int)
    requires
        0 <= a < 0x1_0000_0000,
        0 <= b < 0x1_0000_0000,
    ensures
        same_network(a, b, 0),
{
    lemma2_to64();
    assert(pow2(32) == 0x1_0000_0000);
    assert(a / 0x1_0000_0000 == 0);
    assert(b / 0x1_0000_0000 == 0);
}

/// A range of prefix length 32 holds its own address alone.
pub proof fn full_prefix_holds_one_address(a: int, b: int)
    ensures
        same_network(a, b, 32) <==> a == b,
{
    lemma2_to64();
    let one = pow2((32 - 32) as nat) as int;
    assert(one == 1);
    assert(a / 1 == a && b / 1 == b);
}

/// A longer prefix gives a smaller range: addresses that agree in the first
/// `q` bits agree in the first `p <= q`.
pub proof fn longer_prefix_is_narrower(a: int, b: int, p: int, q: int)
    requires
        0 <= p <= q <= 32,
        0 <= a,
        0 <= b,
        same_network(a, b, q),
    ensures
        same_network(a, b, p),
{
    let big = pow2((32 - p) as nat) as int;
    let small = pow2((32 - q) as nat) as int;
    let k = pow2((q - p) as nat) as int;
    lemma_pow2_pos((32 - q) as nat);
    lemma_pow2_pos((q - p) as nat);
    vstd::arithmetic::power2::lemma_pow2_adds((32 - q) as nat, (q - p) as nat);
    assert(big == small * k);
    vstd::arithmetic::div_mod::lemma_div_denominator(a, small, k);
    vstd::arithmetic::div_mod::lemma_div_denominator(b, small, k);
}

} // verus!
