//! Parsing of IPv4 and IPv6 address text.
//!
//! The grammar follows the common textual forms: dotted-decimal IPv4
//! octets without leading zeros, and colon-separated IPv6 groups of up
//! to four hex digits, with at most one `::` compression and an optional
//! embedded trailing IPv4 address.

use vstd::prelude::*;
use vstd::string::*;
use vstd::arithmetic::power2::{pow2, lemma2_to64, lemma_pow2_adds, lemma_pow2_strictly_increases};

verus! {

/// A parsed IP address: a 32-bit IPv4 value or a 128-bit IPv6 value.
#[derive(Debug, Clone, Copy, PartialEq, Eq, Structural)]
pub enum IpAddress {
    V4(u32),
    V6(u128),
}

pub open spec fn is_dec_digit(c: char) -> bool {
    48 <= c as u32 <= 57
}

pub open spec fn dec_digit_val(c: char) -> nat {
    (c as u32 - 48) as nat
}

pub open spec fn is_hex_digit(c: char) -> bool {
    is_dec_digit(c) || (97 <= c as u32 <= 102) || (65 <= c as u32 <= 70)
}

pub open spec fn hex_digit_val(c: char) -> nat {
    if is_dec_digit(c) {
        dec_digit_val(c)
    } else if 97 <= c as u32 <= 102 {
        (c as u32 - 87) as nat
    } else {
        (c as u32 - 55) as nat
    }
}

/// The first index at or after `i` that does not hold a decimal digit.
pub open spec fn dec_run_end(s: Seq<char>, i: int) -> int
    decreases s.len() - i,
{
    if 0 <= i < s.len() && is_dec_digit(s[i]) {
        dec_run_end(s, i + 1)
    } else {
        i
    }
}

/// The first index at or after `i` that does not hold a hex digit.
pub open spec fn hex_run_end(s: Seq<char>, i: int) -> int
    decreases s.len() - i,
{
    if 0 <= i < s.len() && is_hex_digit(s[i]) {
        hex_run_end(s, i + 1)
    } else {
        i
    }
}

/// The value of the decimal digits `s[i..j]`.
pub open spec fn dec_val_range(s: Seq<char>, i: int, j: int) -> nat
    decreases j - i,
{
    if i >= j {
        0
    } else {
        dec_val_range(s, i, j - 1) * 10 + dec_digit_val(s[j - 1])
    }
}

/// The value of the hex digits `s[i..j]`.
pub open spec fn hex_val_range(s: Seq<char>, i: int, j: int) -> nat
    decreases j - i,
{
    if i >= j {
        0
    } else {
        hex_val_range(s, i, j - 1) * 16 + hex_digit_val(s[j - 1])
    }
}

/// An IPv4 octet at index `i`: the maximal digit run there, which must be
/// one to three digits, without a leading zero unless it is exactly "0",
/// with value at most 255. Returns the value and the index after the run.
pub open spec fn parse_octet(s: Seq<char>, i: int) -> Option<(u8, int)> {
    let j = dec_run_end(s, i);
    if i < j && j - i <= 3 && !(s[i] == '0' && j - i > 1) && dec_val_range(s, i, j) <= 255 {
        Some((dec_val_range(s, i, j) as u8, j))
    } else {
        None
    }
}

/// An IPv6 group at index `i`: the maximal hex-digit run there, which
/// must be one to four digits (leading zeros allowed).
pub open spec fn parse_h16(s: Seq<char>, i: int) -> Option<(u16, int)> {
    let j = hex_run_end(s, i);
    if i < j && j - i <= 4 {
        Some((hex_val_range(s, i, j) as u16, j))
    } else {
        None
    }
}

/// A dotted-decimal IPv4 address starting at index `i`: four octets
/// separated by `.`. Returns the 32-bit value and the index after it.
pub open spec fn parse_ipv4_at(s: Seq<char>, i: int) -> Option<(u32, int)> {
    match parse_octet(s, i) {
        None => None,
        Some((a, i1)) => if i1 < s.len() && s[i1] == '.' {
            match parse_octet(s, i1 + 1) {
                None => None,
                Some((b, i2)) => if i2 < s.len() && s[i2] == '.' {
                    match parse_octet(s, i2 + 1) {
                        None => None,
                        Some((c, i3)) => if i3 < s.len() && s[i3] == '.' {
                            match parse_octet(s, i3 + 1) {
                                None => None,
                                Some((d, i4)) => Some(
                                    (
                                        ((a as nat) * 0x1000000 + (b as nat) * 0x10000 + (
                                        c as nat) * 0x100 + (d as nat)) as u32,
                                        i4,
                                    ),
                                ),
                            }
                        } else {
                            None
                        },
                    }
                } else {
                    None
                },
            }
        } else {
            None
        },
    }
}

/// A complete IPv4 address: the whole of `s` is one dotted-decimal form.
pub open spec fn parse_ipv4(s: Seq<char>) -> Option<u32> {
    match parse_ipv4_at(s, 0) {
        Some((v, j)) => if j == s.len() {
            Some(v)
        } else {
            None
        },
        None => None,
    }
}

proof fn lemma_dec_run(s: Seq<char>, i: int)
    requires
        0 <= i <= s.len(),
    ensures
        i <= dec_run_end(s, i) <= s.len(),
        forall|k: int| i <= k < dec_run_end(s, i) ==> is_dec_digit(s[k]),
    decreases s.len() - i,
{
    if i < s.len() && is_dec_digit(s[i]) {
        lemma_dec_run(s, i + 1);
    }
}

proof fn lemma_hex_run(s: Seq<char>, i: int)
    requires
        0 <= i <= s.len(),
    ensures
        i <= hex_run_end(s, i) <= s.len(),
        forall|k: int| i <= k < hex_run_end(s, i) ==> is_hex_digit(s[k]),
    decreases s.len() - i,
{
    if i < s.len() && is_hex_digit(s[i]) {
        lemma_hex_run(s, i + 1);
    }
}

proof fn lemma_parse_octet_bounds(s: Seq<char>, i: int)
    requires
        0 <= i <= s.len(),
    ensures
        parse_octet(s, i) matches Some(p) ==> i < p.1 <= s.len(),
{
    lemma_dec_run(s, i);
}

proof fn lemma_parse_ipv4_at_bounds(s: Seq<char>, i: int)
    requires
        0 <= i <= s.len(),
    ensures
        parse_ipv4_at(s, i) matches Some(p) ==> i < p.1 <= s.len(),
{
    lemma_parse_octet_bounds(s, i);
    match parse_octet(s, i) {
        None => {},
        Some((a, i1)) => {
            if i1 < s.len() && s[i1] == '.' {
                lemma_parse_octet_bounds(s, i1 + 1);
                match parse_octet(s, i1 + 1) {
                    None => {},
                    Some((b, i2)) => {
                        if i2 < s.len() && s[i2] == '.' {
                            lemma_parse_octet_bounds(s, i2 + 1);
                            match parse_octet(s, i2 + 1) {
                                None => {},
                                Some((c, i3)) => {
                                    if i3 < s.len() && s[i3] == '.' {
                                        lemma_parse_octet_bounds(s, i3 + 1);
                                    }
                                },
                            }
                        }
                    },
                }
            }
        },
    }
}

/// Scans the maximal decimal-digit run starting at `i`.
fn scan_dec_run(s: &str, i: usize) -> (j: usize)
    requires
        i <= s@.len(),
    ensures
        i <= j <= s@.len(),
        j as int == dec_run_end(s@, i as int),
{
    let n = s.unicode_len();
    let mut j = i;
    loop
        invariant
            i <= j <= n,
            n == s@.len(),
            dec_run_end(s@, i as int) == dec_run_end(s@, j as int),
        ensures
            i <= j <= n,
            dec_run_end(s@, i as int) == j as int,
        decreases n - j,
    {
        if j == n {
            assert(dec_run_end(s@, j as int) == j as int);
            break ;
        }
        let c = s.get_char(j);
        if !(48 <= c as u32 && c as u32 <= 57) {
            assert(dec_run_end(s@, j as int) == j as int);
            break ;
        }
        assert(dec_run_end(s@, j as int) == dec_run_end(s@, j as int + 1));
        j += 1;
    }
    j
}

/// Scans the maximal hex-digit run starting at `i`.
fn scan_hex_run(s: &str, i: usize) -> (j: usize)
    requires
        i <= s@.len(),
    ensures
        i <= j <= s@.len(),
        j as int == hex_run_end(s@, i as int),
{
    let n = s.unicode_len();
    let mut j = i;
    loop
        invariant
            i <= j <= n,
            n == s@.len(),
            hex_run_end(s@, i as int) == hex_run_end(s@, j as int),
        ensures
            i <= j <= n,
            hex_run_end(s@, i as int) == j as int,
        decreases n - j,
    {
        if j == n {
            assert(hex_run_end(s@, j as int) == j as int);
            break ;
        }
        let c = s.get_char(j);
        let u = c as u32;
        if !((48 <= u && u <= 57) || (97 <= u && u <= 102) || (65 <= u && u <= 70)) {
            assert(hex_run_end(s@, j as int) == j as int);
            break ;
        }
        assert(hex_run_end(s@, j as int) == hex_run_end(s@, j as int + 1));
        j += 1;
    }
    j
}

/// Scans one IPv4 octet at `i`.
fn scan_octet(s: &str, i: usize) -> (r: Option<(u8, usize)>)
    requires
        i <= s@.len(),
    ensures
        ({
            let sp = parse_octet(s@, i as int);
            match r {
                Some(p) => sp == Some((p.0, p.1 as int)) && i < p.1 <= s@.len(),
                None => sp is None,
            }
        }),
{
    proof {
        lemma_dec_run(s@, i as int);
    }
    let j = scan_dec_run(s, i);
    if j == i || j - i > 3 {
        return None;
    }
    let c0 = s.get_char(i);
    if c0 == '0' && j - i > 1 {
        return None;
    }
    let d0 = c0 as u32 - 48;
    proof {
        assert(dec_val_range(s@, i as int, i as int) == 0);
    }
    let v: u32 = if j - i == 1 {
        assert(dec_val_range(s@, i as int, i as int + 1) == dec_digit_val(s@[i as int]));
        d0
    } else if j - i == 2 {
        let d1 = s.get_char(i + 1) as u32 - 48;
        assert(dec_val_range(s@, i as int, i as int + 1) == dec_digit_val(s@[i as int]));
        assert(dec_val_range(s@, i as int, i as int + 2) == dec_val_range(s@, i as int, i as int + 1)
            * 10 + dec_digit_val(s@[i as int + 1]));
        d0 * 10 + d1
    } else {
        let d1 = s.get_char(i + 1) as u32 - 48;
        let d2 = s.get_char(i + 2) as u32 - 48;
        assert(dec_val_range(s@, i as int, i as int + 1) == dec_digit_val(s@[i as int]));
        assert(dec_val_range(s@, i as int, i as int + 2) == dec_val_range(s@, i as int, i as int + 1)
            * 10 + dec_digit_val(s@[i as int + 1]));
        assert(dec_val_range(s@, i as int, i as int + 3) == dec_val_range(s@, i as int, i as int + 2)
            * 10 + dec_digit_val(s@[i as int + 2]));
        d0 * 100 + d1 * 10 + d2
    };
    assert(v as nat == dec_val_range(s@, i as int, j as int));
    if v > 255 {
        return None;
    }
    Some((v as u8, j))
}

/// Scans one IPv6 group of one to four hex digits at `i`.
fn scan_h16(s: &str, i: usize) -> (r: Option<(u16, usize)>)
    requires
        i <= s@.len(),
    ensures
        ({
            let sp = parse_h16(s@, i as int);
            match r {
                Some(p) => sp == Some((p.0, p.1 as int)) && i < p.1 <= s@.len(),
                None => sp is None,
            }
        }),
{
    proof {
        lemma_hex_run(s@, i as int);
    }
    let j = scan_hex_run(s, i);
    if j == i || j - i > 4 {
        return None;
    }
    let mut v: u32 = 0;
    let mut k = i;
    while k < j
        invariant
            i <= k <= j <= s@.len(),
            j as int == hex_run_end(s@, i as int),
            forall|m: int| i <= m < j ==> is_hex_digit(s@[m]),
            j - i <= 4,
            v as nat == hex_val_range(s@, i as int, k as int),
            v < 0x10000,
        decreases j - k,
    {
        let c = s.get_char(k);
        let u = c as u32;
        let d: u32 = if 48 <= u && u <= 57 {
            u - 48
        } else if 97 <= u && u <= 102 {
            u - 87
        } else {
            u - 55
        };
        assert(d as nat == hex_digit_val(s@[k as int]));
        assert(hex_val_range(s@, i as int, k as int + 1) == hex_val_range(s@, i as int, k as int)
            * 16 + hex_digit_val(s@[k as int]));
        proof {
            lemma_pow16_small();
            lemma_hex_val_bound(s@, i as int, k as int);
            if k - i == 0 {
            } else if k - i == 1 {
            } else if k - i == 2 {
            } else {
                assert(k - i == 3);
            }
            assert(v <= 4095);
        }
        v = v * 16 + d;
        k += 1;
    }
    Some((v as u16, j))
}

/// `16^n`, used only to bound hex values.
pub open spec fn pow16_of(n: nat) -> nat
    decreases n,
{
    if n == 0 {
        1
    } else {
        16 * pow16_of((n - 1) as nat)
    }
}

proof fn lemma_pow16_small()
    ensures
        pow16_of(0) == 1,
        pow16_of(1) == 16,
        pow16_of(2) == 256,
        pow16_of(3) == 4096,
        pow16_of(4) == 0x10000,
{
    assert(pow16_of(0) == 1);
    assert(pow16_of(1) == 16);
    assert(pow16_of(2) == 256);
    assert(pow16_of(3) == 4096);
    assert(pow16_of(4) == 0x10000);
}

proof fn lemma_hex_val_bound(s: Seq<char>, i: int, j: int)
    requires
        i <= j,
        forall|m: int| i <= m < j ==> is_hex_digit(s[m]),
    ensures
        hex_val_range(s, i, j) < pow16_of(((j - i) as nat)),
    decreases j - i,
{
    if i < j {
        lemma_hex_val_bound(s, i, j - 1);
        assert(is_hex_digit(s[j - 1]));
        assert(hex_digit_val(s[j - 1]) <= 15);
    }
}

/// Scans a complete IPv4 address at `i` (four octets, three dots).
fn scan_ipv4_at(s: &str, i: usize) -> (r: Option<(u32, usize)>)
    requires
        i <= s@.len(),
    ensures
        ({
            let sp = parse_ipv4_at(s@, i as int);
            match r {
                Some(p) => sp == Some((p.0, p.1 as int)) && i < p.1 <= s@.len(),
                None => sp is None,
            }
        }),
{
    let n = s.unicode_len();
    let r0 = scan_octet(s, i);
    match r0 {
        None => None,
        Some((a, i1)) => {
            if i1 < n && s.get_char(i1) == '.' {
                match scan_octet(s, i1 + 1) {
                    None => None,
                    Some((b, i2)) => {
                        if i2 < n && s.get_char(i2) == '.' {
                            match scan_octet(s, i2 + 1) {
                                None => None,
                                Some((c, i3)) => {
                                    if i3 < n && s.get_char(i3) == '.' {
                                        match scan_octet(s, i3 + 1) {
                                            None => None,
                                            Some((d, i4)) => {
                                                let v: u32 = (a as u32) * 0x1000000 + (b as u32)
                                                    * 0x10000 + (c as u32) * 0x100 + (d as u32);
                                                Some((v, i4))
                                            },
                                        }
                                    } else {
                                        None
                                    }
                                },
                            }
                        } else {
                            None
                        }
                    },
                }
            } else {
                None
            }
        },
    }
}

/// Scans the whole of `s` as an IPv4 address.
pub(crate) fn scan_ipv4(s: &str) -> (r: Option<u32>)
    ensures
        r == parse_ipv4(s@),
{
    let n = s.unicode_len();
    match scan_ipv4_at(s, 0) {
        Some((v, j)) => if j == n {
            Some(v)
        } else {
            None
        },
        None => None,
    }
}


/// The IPv6 groups `g` read big-endian as one number.
pub open spec fn groups_val(g: Seq<u16>) -> nat
    decreases g.len(),
{
    if g.len() == 0 {
        0
    } else {
        groups_val(g.drop_last()) * 0x10000 + g.last() as nat
    }
}

/// `n` zero groups.
pub open spec fn zero_groups(n: nat) -> Seq<u16> {
    Seq::new(n, |i: int| 0u16)
}

/// Reads up to `limit` colon-separated IPv6 pieces starting at `i`;
/// `first` says that the next piece needs no `:` before it. Returns the
/// groups read, the index after them, and whether reading ended in an
/// embedded IPv4 address (which fills two groups and must be last).
pub open spec fn parse_groups(s: Seq<char>, i: int, limit: nat, first: bool) -> (Seq<u16>, int, bool)
    decreases limit,
{
    if limit == 0 {
        (Seq::<u16>::empty(), i, false)
    } else if !(first || (0 <= i < s.len() && s[i] == ':')) {
        (Seq::<u16>::empty(), i, false)
    } else {
        let j = if first {
            i
        } else {
            i + 1
        };
        if limit >= 2 && parse_ipv4_at(s, j) is Some {
            let p = parse_ipv4_at(s, j)->Some_0;
            (seq![(p.0 as nat / 0x10000) as u16, (p.0 as nat % 0x10000) as u16], p.1, true)
        } else {
            match parse_h16(s, j) {
                None => (Seq::<u16>::empty(), i, false),
                Some((g, k)) => {
                    let rest = parse_groups(s, k, (limit - 1) as nat, false);
                    (seq![g] + rest.0, rest.1, rest.2)
                },
            }
        }
    }
}

proof fn lemma_parse_groups_bounds(s: Seq<char>, i: int, limit: nat, first: bool)
    requires
        0 <= i <= s.len(),
    ensures
        ({
            let r = parse_groups(s, i, limit, first);
            r.0.len() <= limit && i <= r.1 <= s.len()
        }),
    decreases limit,
{
    if limit == 0 {
    } else if !(first || (0 <= i < s.len() && s[i] == ':')) {
    } else {
        let j = if first {
            i
        } else {
            i + 1
        };
        lemma_parse_ipv4_at_bounds(s, j);
        if limit >= 2 && parse_ipv4_at(s, j) is Some {
        } else {
            lemma_hex_run(s, j);
            match parse_h16(s, j) {
                None => {},
                Some((g, k)) => {
                    lemma_parse_groups_bounds(s, k, (limit - 1) as nat, false);
                },
            }
        }
    }
}

/// A complete IPv6 address: up to eight groups, with one `::` allowed
/// to stand for the missing run of zero groups, as one 128-bit value.
pub open spec fn parse_ipv6(s: Seq<char>) -> Option<u128> {
    let head = parse_groups(s, 0, 8, true);
    if head.0.len() == 8 {
        if head.1 == s.len() {
            Some(groups_val(head.0) as u128)
        } else {
            None
        }
    } else if head.2 {
        None
    } else if head.1 + 1 < s.len() && s[head.1] == ':' && s[head.1 + 1] == ':' {
        let tail = parse_groups(s, head.1 + 2, (7 - head.0.len()) as nat, true);
        if tail.1 == s.len() {
            Some(
                groups_val(
                    head.0 + zero_groups((8 - head.0.len() - tail.0.len()) as nat) + tail.0,
                ) as u128,
            )
        } else {
            None
        }
    } else {
        None
    }
}

proof fn lemma_groups_val_bound(g: Seq<u16>)
    ensures
        groups_val(g) < pow2(16 * g.len()),
    decreases g.len(),
{
    lemma2_to64();
    if g.len() == 0 {
    } else {
        lemma_groups_val_bound(g.drop_last());
        lemma_pow2_adds((16 * (g.len() - 1)) as nat, 16);
    }
}

proof fn lemma_pow2_128()
    ensures
        pow2(128) == 0x100000000000000000000000000000000,
{
    lemma2_to64();
    lemma_pow2_adds(64, 64);
}

/// Scans a group sequence at `i`, appending the groups read to `out`.
fn scan_groups(s: &str, i: usize, limit: usize, first: bool, out: &mut Vec<u16>) -> (r: (
    usize,
    bool,
))
    requires
        i <= s@.len(),
    ensures
        ({
            let sp = parse_groups(s@, i as int, limit as nat, first);
            final(out)@ == old(out)@ + sp.0 && r.0 as int == sp.1 && r.1 == sp.2 && i <= r.0
                <= s@.len()
        }),
    decreases limit,
{
    proof {
        lemma_parse_groups_bounds(s@, i as int, limit as nat, first);
    }
    let ghost sp = parse_groups(s@, i as int, limit as nat, first);
    let n = s.unicode_len();
    if limit == 0 {
        assert(out@ =~= old(out)@ + sp.0);
        return (i, false);
    }
    let sep_ok = first || (i < n && s.get_char(i) == ':');
    if !sep_ok {
        assert(out@ =~= old(out)@ + sp.0);
        return (i, false);
    }
    let j = if first {
        i
    } else {
        i + 1
    };
    if limit >= 2 {
        match scan_ipv4_at(s, j) {
            Some((v, k)) => {
                out.push((v / 0x10000) as u16);
                out.push((v % 0x10000) as u16);
                assert(out@ =~= old(out)@ + sp.0);
                return (k, true);
            },
            None => {},
        }
    }
    match scan_h16(s, j) {
        None => {
            assert(out@ =~= old(out)@ + sp.0);
            (i, false)
        },
        Some((g, k)) => {
            out.push(g);
            let r2 = scan_groups(s, k, limit - 1, false, out);
            proof {
                let rest = parse_groups(s@, k as int, (limit - 1) as nat, false);
                assert(out@ =~= old(out)@ + (seq![g] + rest.0));
            }
            r2
        },
    }
}

/// Folds eight groups into the 128-bit address value.
fn groups_fold(g: &Vec<u16>) -> (r: u128)
    requires
        g@.len() == 8,
    ensures
        r as nat == groups_val(g@),
{
    proof {
        lemma2_to64();
    }
    let mut acc: u128 = 0;
    let mut k: usize = 0;
    while k < 8
        invariant
            k <= 8,
            g@.len() == 8,
            acc as nat == groups_val(g@.subrange(0, k as int)),
            (acc as nat) < pow2((16 * k) as nat),
        decreases 8 - k,
    {
        proof {
            lemma_groups_val_bound(g@.subrange(0, k as int + 1));
            assert(g@.subrange(0, k as int + 1).drop_last() =~= g@.subrange(0, k as int));
            assert(g@.subrange(0, k as int + 1).last() == g@[k as int]);
            lemma_pow2_128();
            if 16 * (k + 1) < 128 {
                lemma_pow2_strictly_increases(
                    (16 * (k + 1)) as nat,
                    128,
                );
            }
        }
        acc = acc * 0x10000 + (g[k] as u128);
        k += 1;
    }
    proof {
        assert(g@.subrange(0, 8) =~= g@);
    }
    acc
}

/// Scans the whole of `s` as an IPv6 address.
pub(crate) fn scan_ipv6(s: &str) -> (r: Option<u128>)
    ensures
        r == parse_ipv6(s@),
{
    let n = s.unicode_len();
    let mut head: Vec<u16> = Vec::new();
    let hr = scan_groups(s, 0, 8, true, &mut head);
    proof {
        lemma_parse_groups_bounds(s@, 0, 8, true);
    }
    let hend = hr.0;
    if head.len() == 8 {
        if hend == n {
            let v = groups_fold(&head);
            proof {
                lemma_groups_val_bound(head@);
            }
            Some(v)
        } else {
            None
        }
    } else if hr.1 {
        None
    } else if hend < n && hend + 1 < n && s.get_char(hend) == ':' && s.get_char(hend + 1) == ':' {
        let ghost head_groups = head@;
        let limit = 7 - head.len();
        let mut tail: Vec<u16> = Vec::new();
        let tr = scan_groups(s, hend + 2, limit, true, &mut tail);
        proof {
            lemma_parse_groups_bounds(s@, hend as int + 2, limit as nat, true);
        }
        if tr.0 == n {
            let mut all = head;
            let z = 8 - all.len() - tail.len();
            let mut zi: usize = 0;
            while zi < z
                invariant
                    zi <= z,
                    all@ == head_groups + zero_groups(zi as nat),
                decreases z - zi,
            {
                all.push(0);
                proof {
                    assert(head_groups + zero_groups(zi as nat + 1) =~= (head_groups
                        + zero_groups(zi as nat)).push(0u16));
                }
                zi += 1;
            }
            let mut ti: usize = 0;
            while ti < tail.len()
                invariant
                    ti <= tail@.len(),
                    all@ == head_groups + zero_groups(z as nat) + tail@.subrange(0, ti as int),
                decreases tail@.len() - ti,
            {
                let x = tail[ti];
                all.push(x);
                proof {
                    assert(head_groups + zero_groups(z as nat) + tail@.subrange(
                        0,
                        ti as int + 1,
                    ) =~= (head_groups + zero_groups(z as nat) + tail@.subrange(0, ti as int)).push(
                        x,
                    ));
                }
                ti += 1;
            }
            proof {
                assert(tail@.subrange(0, tail@.len() as int) =~= tail@);
                assert(all@ == head_groups + zero_groups(z as nat) + tail@);
            }
            let v = groups_fold(&all);
            proof {
                lemma_groups_val_bound(all@);
            }
            Some(v)
        } else {
            None
        }
    } else {
        None
    }
}

/// An IP address: either textual form, IPv4 tried first.
pub open spec fn parse_ip(s: Seq<char>) -> Option<IpAddress> {
    match parse_ipv4(s) {
        Some(v) => Some(IpAddress::V4(v)),
        None => match parse_ipv6(s) {
            Some(w) => Some(IpAddress::V6(w)),
            None => None,
        },
    }
}

/// Parses `s` as an IPv4 or IPv6 address.
pub fn parse_ip_str(s: &str) -> (r: Option<IpAddress>)
    ensures
        r == parse_ip(s@),
{
    match scan_ipv4(s) {
        Some(v) => Some(IpAddress::V4(v)),
        None => match scan_ipv6(s) {
            Some(w) => Some(IpAddress::V6(w)),
            None => None,
        },
    }
}

} // verus!
