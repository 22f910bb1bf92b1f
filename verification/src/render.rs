//! Canonical text form of IP addresses.
//!
//! IPv4 renders as dotted decimal. IPv6 renders in the usual compressed
//! form: lowercase hex groups without leading zeros, the leftmost longest
//! run of two or more zero groups replaced by `::`, and the IPv4-mapped
//! range rendered as `::ffff:a.b.c.d`.

use vstd::prelude::*;
use vstd::string::*;
use crate::ip::IpAddress;
use crate::ip::groups_val;
use vstd::arithmetic::div_mod::lemma_fundamental_div_mod_converse;

verus! {

/// The character of one digit value, lowercase for hex.
pub open spec fn digit_char(d: nat) -> char {
    if d == 0 {
        '0'
    } else if d == 1 {
        '1'
    } else if d == 2 {
        '2'
    } else if d == 3 {
        '3'
    } else if d == 4 {
        '4'
    } else if d == 5 {
        '5'
    } else if d == 6 {
        '6'
    } else if d == 7 {
        '7'
    } else if d == 8 {
        '8'
    } else if d == 9 {
        '9'
    } else if d == 10 {
        'a'
    } else if d == 11 {
        'b'
    } else if d == 12 {
        'c'
    } else if d == 13 {
        'd'
    } else if d == 14 {
        'e'
    } else {
        'f'
    }
}

/// Canonical decimal rendering of `v`, most significant digit first.
pub open spec fn dec_chars(v: nat) -> Seq<char>
    decreases v,
{
    if v < 10 {
        seq![digit_char(v)]
    } else {
        dec_chars(v / 10) + seq![digit_char(v % 10)]
    }
}

/// Canonical lowercase hex rendering of `v`, without leading zeros.
pub open spec fn hex16_chars(v: nat) -> Seq<char>
    decreases v,
{
    if v < 16 {
        seq![digit_char(v)]
    } else {
        hex16_chars(v / 16) + seq![digit_char(v % 16)]
    }
}

/// Canonical dotted-decimal rendering of the 32-bit value `v`.
pub open spec fn v4_canonical(v: nat) -> Seq<char> {
    dec_chars(v / 0x1000000 % 0x100) + seq!['.'] + dec_chars(v / 0x10000 % 0x100) + seq!['.']
        + dec_chars(v / 0x100 % 0x100) + seq!['.'] + dec_chars(v % 0x100)
}

/// The low `n` 16-bit groups of `v`, most significant first.
pub open spec fn groups_of(v: nat, n: nat) -> Seq<u16>
    decreases n,
{
    if n == 0 {
        Seq::<u16>::empty()
    } else {
        groups_of(v / 0x10000, (n - 1) as nat) + seq![(v % 0x10000) as u16]
    }
}

/// The groups of an address in the IPv4-mapped range `::ffff:0:0/96`.
pub open spec fn ipv4_mapped(g: Seq<u16>) -> bool {
    g.len() == 8 && g[0] == 0 && g[1] == 0 && g[2] == 0 && g[3] == 0 && g[4] == 0 && g[5] == 0xffff
}

/// The length of the run of zero groups starting at `i`.
pub open spec fn run_at(g: Seq<u16>, i: int) -> int
    decreases g.len() - i,
{
    if 0 <= i < g.len() && g[i] == 0 {
        1 + run_at(g, i + 1)
    } else {
        0
    }
}

/// The start of the leftmost longest run of zero groups at or after `i`.
pub open spec fn best_start(g: Seq<u16>, i: int) -> int
    decreases g.len() - i,
{
    if i >= g.len() {
        i
    } else {
        let rest = best_start(g, i + 1);
        if run_at(g, i) >= run_at(g, rest) {
            i
        } else {
            rest
        }
    }
}

/// The groups `g[lo..hi]` in hex, joined by `:`.
pub open spec fn hex_groups_range(g: Seq<u16>, lo: int, hi: int) -> Seq<char>
    decreases hi - lo,
{
    if hi <= lo {
        Seq::<char>::empty()
    } else if hi == lo + 1 {
        hex16_chars(g[lo] as nat)
    } else {
        hex_groups_range(g, lo, hi - 1) + seq![':'] + hex16_chars(g[hi - 1] as nat)
    }
}

/// Canonical compressed rendering of eight IPv6 groups.
pub open spec fn v6_canonical(g: Seq<u16>) -> Seq<char> {
    if ipv4_mapped(g) {
        seq![':', ':', 'f', 'f', 'f', 'f', ':'] + v4_canonical(
            (g[6] as nat) * 0x10000 + g[7] as nat,
        )
    } else {
        let b = best_start(g, 0);
        let l = run_at(g, b);
        if l >= 2 {
            hex_groups_range(g, 0, b) + seq![':', ':'] + hex_groups_range(g, b + l, g.len() as int)
        } else {
            hex_groups_range(g, 0, g.len() as int)
        }
    }
}

/// Canonical text of an address, as each family renders it.
pub open spec fn canonical_ip(a: IpAddress) -> Seq<char> {
    match a {
        IpAddress::V4(v) => v4_canonical(v as nat),
        IpAddress::V6(v) => v6_canonical(groups_of(v as nat, 8)),
    }
}

/// Law: splitting a value back into groups inverts folding groups into a
/// value, so the groups a parsed IPv6 address renders with are exactly
/// the groups its text was read from.
pub proof fn lemma_groups_roundtrip(g: Seq<u16>)
    ensures
        groups_of(groups_val(g), g.len()) == g,
    decreases g.len(),
{
    if g.len() == 0 {
        assert(groups_of(groups_val(g), 0) =~= g);
    } else {
        let v = groups_val(g);
        lemma_groups_roundtrip(g.drop_last());
        lemma_fundamental_div_mod_converse(
            v as int,
            0x10000,
            groups_val(g.drop_last()) as int,
            g.last() as int,
        );
        assert(v / 0x10000 == groups_val(g.drop_last()));
        assert(v % 0x10000 == g.last() as nat);
        assert(groups_of(v, g.len()) =~= g);
    }
}

proof fn lemma_groups_of_len(v: nat, n: nat)
    ensures
        groups_of(v, n).len() == n,
    decreases n,
{
    if n > 0 {
        lemma_groups_of_len(v / 0x10000, (n - 1) as nat);
    }
}

/// One digit as text.
fn digit_str(d: u8) -> (r: &'static str)
    requires
        d < 16,
    ensures
        r@ == seq![digit_char(d as nat)],
{
    proof {
        reveal_strlit("0");
        reveal_strlit("1");
        reveal_strlit("2");
        reveal_strlit("3");
        reveal_strlit("4");
        reveal_strlit("5");
        reveal_strlit("6");
        reveal_strlit("7");
        reveal_strlit("8");
        reveal_strlit("9");
        reveal_strlit("a");
        reveal_strlit("b");
        reveal_strlit("c");
        reveal_strlit("d");
        reveal_strlit("e");
        reveal_strlit("f");
    }
    let r: &'static str = if d == 0 {
        "0"
    } else if d == 1 {
        "1"
    } else if d == 2 {
        "2"
    } else if d == 3 {
        "3"
    } else if d == 4 {
        "4"
    } else if d == 5 {
        "5"
    } else if d == 6 {
        "6"
    } else if d == 7 {
        "7"
    } else if d == 8 {
        "8"
    } else if d == 9 {
        "9"
    } else if d == 10 {
        "a"
    } else if d == 11 {
        "b"
    } else if d == 12 {
        "c"
    } else if d == 13 {
        "d"
    } else if d == 14 {
        "e"
    } else {
        "f"
    };
    proof {
        assert(r@ =~= seq![digit_char(d as nat)]);
    }
    r
}

/// Decimal text of `v`.
fn dec_string(v: u8) -> (r: String)
    ensures
        r@ == dec_chars(v as nat),
    decreases v,
{
    if v < 10 {
        digit_str(v).to_owned()
    } else {
        let mut s = dec_string(v / 10);
        let t = digit_str(v % 10);
        s.append(t);
        proof {
            assert(s@ =~= dec_chars(v as nat));
        }
        s
    }
}

/// Lowercase hex text of `v`.
fn hex16_string(v: u16) -> (r: String)
    ensures
        r@ == hex16_chars(v as nat),
    decreases v,
{
    if v < 16 {
        digit_str(v as u8).to_owned()
    } else {
        let mut s = hex16_string(v / 16);
        let t = digit_str((v % 16) as u8);
        s.append(t);
        proof {
            assert(s@ =~= hex16_chars(v as nat));
        }
        s
    }
}

/// Dotted-decimal text of a 32-bit IPv4 value.
fn render_v4(v: u32) -> (r: String)
    ensures
        r@ == v4_canonical(v as nat),
{
    proof {
        reveal_strlit(".");
    }
    let o0 = ((v / 0x1000000) % 0x100) as u8;
    let o1 = ((v / 0x10000) % 0x100) as u8;
    let o2 = ((v / 0x100) % 0x100) as u8;
    let o3 = (v % 0x100) as u8;
    let mut out = dec_string(o0);
    out.append(".");
    let s1 = dec_string(o1);
    out.append(s1.as_str());
    out.append(".");
    let s2 = dec_string(o2);
    out.append(s2.as_str());
    out.append(".");
    let s3 = dec_string(o3);
    out.append(s3.as_str());
    proof {
        assert((".")@ =~= seq!['.']);
        assert(out@ =~= v4_canonical(v as nat));
    }
    out
}

/// Appends the low `n` groups of `v`, most significant first.
fn push_groups(v: u128, n: usize, out: &mut Vec<u16>)
    ensures
        final(out)@ == old(out)@ + groups_of(v as nat, n as nat),
    decreases n,
{
    if n == 0 {
        assert(out@ =~= old(out)@ + groups_of(v as nat, 0));
    } else {
        push_groups(v / 0x10000, n - 1, out);
        out.push((v % 0x10000) as u16);
        proof {
            assert(out@ =~= old(out)@ + groups_of(v as nat, n as nat));
        }
    }
}

/// The length of the zero run at `i`.
fn run_len(g: &Vec<u16>, i: usize) -> (r: usize)
    requires
        i <= g@.len(),
    ensures
        r as int == run_at(g@, i as int),
        i + r <= g@.len(),
    decreases g@.len() - i,
{
    if i < g.len() && g[i] == 0 {
        let r2 = run_len(g, i + 1);
        1 + r2
    } else {
        0
    }
}

/// The start of the leftmost longest zero run at or after `i`.
fn best_run_start(g: &Vec<u16>, i: usize) -> (r: usize)
    requires
        i <= g@.len(),
    ensures
        r as int == best_start(g@, i as int),
        i <= r <= g@.len(),
    decreases g@.len() - i,
{
    if i >= g.len() {
        i
    } else {
        let rest = best_run_start(g, i + 1);
        let ri = run_len(g, i);
        let rr = run_len(g, rest);
        if ri >= rr {
            i
        } else {
            rest
        }
    }
}

/// The groups `g[lo..hi]` in hex, joined by `:`.
fn hex_groups_string(g: &Vec<u16>, lo: usize, hi: usize) -> (r: String)
    requires
        lo <= hi <= g@.len(),
    ensures
        r@ == hex_groups_range(g@, lo as int, hi as int),
    decreases hi - lo,
{
    if hi <= lo {
        let r = String::new();
        proof {
            assert(r@ =~= hex_groups_range(g@, lo as int, hi as int));
        }
        r
    } else if hi == lo + 1 {
        hex16_string(g[lo])
    } else {
        let mut s = hex_groups_string(g, lo, hi - 1);
        s.append(":");
        let t = hex16_string(g[hi - 1]);
        s.append(t.as_str());
        proof {
            reveal_strlit(":");
            assert((":")@ =~= seq![':']);
            assert(s@ =~= hex_groups_range(g@, lo as int, hi as int));
        }
        s
    }
}

/// Compressed text of a 128-bit IPv6 value.
fn render_v6(v: u128) -> (r: String)
    ensures
        r@ == v6_canonical(groups_of(v as nat, 8)),
{
    let mut g: Vec<u16> = Vec::new();
    push_groups(v, 8, &mut g);
    proof {
        lemma_groups_of_len(v as nat, 8);
        assert(g@ =~= groups_of(v as nat, 8));
    }
    if g[0] == 0 && g[1] == 0 && g[2] == 0 && g[3] == 0 && g[4] == 0 && g[5] == 0xffff {
        let mut out = String::from_str("::ffff:");
        let w = render_v4((g[6] as u32) * 0x10000 + (g[7] as u32));
        out.append(w.as_str());
        proof {
            reveal_strlit("::ffff:");
            assert(("::ffff:")@ =~= seq![':', ':', 'f', 'f', 'f', 'f', ':']);
            assert(out@ =~= v6_canonical(g@));
        }
        out
    } else {
        let b = best_run_start(&g, 0);
        let l = run_len(&g, b);
        if l >= 2 {
            let mut out = hex_groups_string(&g, 0, b);
            out.append("::");
            let t = hex_groups_string(&g, b + l, 8);
            out.append(t.as_str());
            proof {
                reveal_strlit("::");
                assert(("::")@ =~= seq![':', ':']);
                assert(out@ =~= v6_canonical(g@));
            }
            out
        } else {
            let out = hex_groups_string(&g, 0, 8);
            proof {
                assert(out@ =~= v6_canonical(g@));
            }
            out
        }
    }
}

/// Canonical text of an address.
pub fn render_ip(ip: &IpAddress) -> (r: String)
    ensures
        r@ == canonical_ip(*ip),
{
    match ip {
        IpAddress::V4(v) => render_v4(*v),
        IpAddress::V6(w) => render_v6(*w),
    }
}

} // verus!
