//! CIDR networks: `address/prefix-length` parsing and containment.
//!
//! A candidate address lies in a network exactly when both masked to the
//! network's prefix length are equal — that is, when they agree on the
//! high `prefix` bits — and the address families match.

use vstd::prelude::*;
use vstd::string::*;
use vstd::arithmetic::power2::{pow2, lemma2_to64, lemma_pow2_adds, lemma_pow2_strictly_increases};
use vstd::arithmetic::div_mod::lemma_basic_div;
use crate::ip::{IpAddress, is_dec_digit, dec_val_range, parse_ipv4, parse_ipv6};

verus! {

/// A parsed CIDR network of either family.
#[derive(Debug, Clone, Copy, PartialEq, Eq, Structural)]
pub enum Network {
    V4 { addr: u32, prefix: u8 },
    V6 { addr: u128, prefix: u8 },
}

/// The index of the first `/` at or after `i`, or the length.
pub open spec fn slash_pos(s: Seq<char>, i: int) -> int
    decreases s.len() - i,
{
    if 0 <= i < s.len() {
        if s[i] == '/' {
            i
        } else {
            slash_pos(s, i + 1)
        }
    } else {
        i
    }
}

proof fn lemma_slash_pos(s: Seq<char>, i: int)
    requires
        0 <= i <= s.len(),
    ensures
        i <= slash_pos(s, i) <= s.len(),
        slash_pos(s, i) < s.len() ==> s[slash_pos(s, i)] == '/',
    decreases s.len() - i,
{
    if i < s.len() && s[i] != '/' {
        lemma_slash_pos(s, i + 1);
    }
}

/// A prefix length: an optional `+`, then one or more decimal digits
/// (leading zeros allowed), with value at most `max`.
pub open spec fn parse_prefix(s: Seq<char>, max: nat) -> Option<u8> {
    let b: int = if s.len() > 0 && s[0] == '+' {
        1
    } else {
        0
    };
    if b < s.len() && (forall|k: int| b <= k < s.len() ==> #[trigger] is_dec_digit(s[k])) && dec_val_range(
        s,
        b,
        s.len() as int,
    ) <= max {
        Some(dec_val_range(s, b, s.len() as int) as u8)
    } else {
        None
    }
}

/// A CIDR network: the text before the first `/` as an address, the text
/// after it as a prefix length. Without a `/` the full-length prefix is
/// taken. An IPv4 address is tried first, as with plain addresses.
pub open spec fn parse_network(s: Seq<char>) -> Option<Network> {
    let p = slash_pos(s, 0);
    let addr = s.subrange(0, p);
    let pre4 = if p == s.len() {
        Some(32u8)
    } else {
        parse_prefix(s.subrange(p + 1, s.len() as int), 32)
    };
    let pre6 = if p == s.len() {
        Some(128u8)
    } else {
        parse_prefix(s.subrange(p + 1, s.len() as int), 128)
    };
    if parse_ipv4(addr) is Some && pre4 is Some {
        Some(Network::V4 { addr: parse_ipv4(addr)->Some_0, prefix: pre4->Some_0 })
    } else if parse_ipv6(addr) is Some && pre6 is Some {
        Some(Network::V6 { addr: parse_ipv6(addr)->Some_0, prefix: pre6->Some_0 })
    } else {
        None
    }
}

/// The high `prefix` bits agree: both values give the same quotient by
/// `2^(32 - prefix)`.
pub open spec fn v4_in_network(ip: u32, net: u32, prefix: u8) -> bool {
    (ip as nat) / pow2((32 - prefix) as nat) == (net as nat) / pow2((32 - prefix) as nat)
}

/// The high `prefix` bits agree: both values give the same quotient by
/// `2^(128 - prefix)`.
pub open spec fn v6_in_network(ip: u128, net: u128, prefix: u8) -> bool {
    (ip as nat) / pow2((128 - prefix) as nat) == (net as nat) / pow2((128 - prefix) as nat)
}

/// Containment of an address in a network: the families must match and
/// the high `prefix` bits must agree.
pub open spec fn ip_in_network(ip: IpAddress, nw: Network) -> bool {
    match (ip, nw) {
        (IpAddress::V4(a), Network::V4 { addr, prefix }) => v4_in_network(a, addr, prefix),
        (IpAddress::V6(a), Network::V6 { addr, prefix }) => v6_in_network(a, addr, prefix),
        _ => false,
    }
}

/// Containment against subnet text: a subnet that does not parse as a
/// CIDR network contains nothing.
pub open spec fn spec_ip_in_subnet(ip: IpAddress, subnet: Seq<char>) -> bool {
    match parse_network(subnet) {
        Some(nw) => ip_in_network(ip, nw),
        None => false,
    }
}

proof fn lemma_pow2_val_128()
    ensures
        pow2(128) == 0x100000000000000000000000000000000,
        pow2(32) == 0x100000000,
{
    lemma2_to64();
    lemma_pow2_adds(64, 64);
}

/// Scans for the first `/`.
pub(crate) fn scan_slash(s: &str) -> (p: usize)
    ensures
        p as int == slash_pos(s@, 0),
        p <= s@.len(),
{
    let n = s.unicode_len();
    let mut j: usize = 0;
    loop
        invariant
            j <= n,
            n == s@.len(),
            slash_pos(s@, 0) == slash_pos(s@, j as int),
        ensures
            j <= n,
            slash_pos(s@, 0) == j as int,
        decreases n - j,
    {
        if j == n {
            assert(slash_pos(s@, j as int) == j as int);
            break ;
        }
        let c = s.get_char(j);
        if c == '/' {
            assert(slash_pos(s@, j as int) == j as int);
            break ;
        }
        assert(slash_pos(s@, j as int) == slash_pos(s@, j as int + 1));
        j += 1;
    }
    j
}

/// Scans a prefix length with bound `max`.
fn scan_prefix(s: &str, max: u8) -> (r: Option<u8>)
    ensures
        r == parse_prefix(s@, max as nat),
{
    let n = s.unicode_len();
    let b: usize = if n > 0 && s.get_char(0) == '+' {
        1
    } else {
        0
    };
    if b >= n {
        return None;
    }
    let mut v: u32 = 0;
    let mut k = b;
    proof {
        assert(dec_val_range(s@, b as int, b as int) == 0);
    }
    while k < n
        invariant
            b <= k <= n,
            n == s@.len(),
            b <= 1,
            b as int == (if s@.len() > 0 && s@[0] == '+' {
                1int
            } else {
                0int
            }),
            forall|m: int| b <= m < k ==> is_dec_digit(s@[m]),
            (v as nat == dec_val_range(s@, b as int, k as int) && v <= 255) || (v == 256
                && dec_val_range(s@, b as int, k as int) >= 256),
        decreases n - k,
    {
        let c = s.get_char(k);
        if !(48 <= c as u32 && c as u32 <= 57) {
            proof {
                assert(!is_dec_digit(s@[k as int]));
                assert(b as int <= k as int && (k as int) < s@.len());
                if parse_prefix(s@, max as nat) is Some {
                    assert(is_dec_digit(s@[k as int]));
                }
            }
            return None;
        }
        let dg = c as u32 - 48;
        assert(dec_val_range(s@, b as int, k as int + 1) == dec_val_range(s@, b as int, k as int)
            * 10 + crate::ip::dec_digit_val(s@[k as int]));
        let nv = v * 10 + dg;
        v = if nv > 255 {
            256
        } else {
            nv
        };
        k += 1;
    }
    if v <= max as u32 {
        Some(v as u8)
    } else {
        None
    }
}

/// Parses subnet text as a CIDR network.
pub fn parse_network_str(s: &str) -> (r: Option<Network>)
    ensures
        r == parse_network(s@),
{
    let n = s.unicode_len();
    let p = scan_slash(s);
    proof {
        lemma_slash_pos(s@, 0);
    }
    let addr = s.substring_char(0, p);
    let a4 = crate::ip::scan_ipv4(addr);
    let p4: Option<u8> = if p == n {
        Some(32)
    } else {
        let rest = s.substring_char(p + 1, n);
        scan_prefix(rest, 32)
    };
    if a4.is_some() && p4.is_some() {
        return Some(Network::V4 { addr: a4.unwrap(), prefix: p4.unwrap() });
    }
    let a6 = crate::ip::scan_ipv6(addr);
    let p6: Option<u8> = if p == n {
        Some(128)
    } else {
        let rest = s.substring_char(p + 1, n);
        scan_prefix(rest, 128)
    };
    if a6.is_some() && p6.is_some() {
        return Some(Network::V6 { addr: a6.unwrap(), prefix: p6.unwrap() });
    }
    None
}

/// `2^k` as a 128-bit value.
fn u128_two_pow(k: usize) -> (r: u128)
    requires
        k <= 127,
    ensures
        r as nat == pow2(k as nat),
        r >= 1,
{
    proof {
        lemma2_to64();
    }
    let mut acc: u128 = 1;
    let mut i: usize = 0;
    while i < k
        invariant
            i <= k <= 127,
            acc as nat == pow2(i as nat),
            acc >= 1,
        decreases k - i,
    {
        proof {
            lemma_pow2_adds(i as nat, 1);
            lemma2_to64();
            lemma_pow2_val_128();
            if (i + 1) < 128 {
                lemma_pow2_strictly_increases((i + 1) as nat, 128);
            }
        }
        acc = acc * 2;
        i += 1;
    }
    acc
}

/// IPv4 containment check by quotient comparison.
fn v4_contains(ip: u32, net: u32, prefix: u8) -> (r: bool)
    requires
        prefix <= 32,
    ensures
        r == v4_in_network(ip, net, prefix),
{
    if prefix == 0 {
        proof {
            lemma_pow2_val_128();
            lemma_basic_div(ip as int, pow2(32) as int);
            lemma_basic_div(net as int, pow2(32) as int);
        }
        true
    } else {
        let k: usize = (32 - prefix) as usize;
        let d = u128_two_pow(k);
        let q1 = (ip as u128) / d;
        let q2 = (net as u128) / d;
        q1 == q2
    }
}

/// IPv6 containment check by quotient comparison.
fn v6_contains(ip: u128, net: u128, prefix: u8) -> (r: bool)
    requires
        prefix <= 128,
    ensures
        r == v6_in_network(ip, net, prefix),
{
    if prefix == 0 {
        proof {
            lemma_pow2_val_128();
            lemma_basic_div(ip as int, pow2(128) as int);
            lemma_basic_div(net as int, pow2(128) as int);
        }
        true
    } else {
        let k: usize = (128 - prefix) as usize;
        let d = u128_two_pow(k);
        let q1 = ip / d;
        let q2 = net / d;
        q1 == q2
    }
}

/// Whether `ip` lies within the network written in `subnet`.
///
/// Subnet text that does not parse as a CIDR network yields `false`
/// rather than an error, and a family mismatch also yields `false`.
pub fn ip_in_subnet(ip: &IpAddress, subnet: &str) -> (r: bool)
    ensures
        r == spec_ip_in_subnet(*ip, subnet@),
{
    match parse_network_str(subnet) {
        None => false,
        Some(nw) => match (ip, &nw) {
            (IpAddress::V4(a), Network::V4 { addr, prefix }) => v4_contains(*a, *addr, *prefix),
            (IpAddress::V6(a), Network::V6 { addr, prefix }) => v6_contains(*a, *addr, *prefix),
            _ => false,
        },
    }
}

} // verus!
