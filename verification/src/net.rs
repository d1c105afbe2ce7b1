//! Addresses: IP addresses (v4 and v6) and forwarding destinations, with
//! their canonical text forms and round-trip lemmas.
//!
//! The canonical text of a v4 address is the usual dotted decimal form. The
//! canonical text of a v6 address is eight groups of exactly four lower-case
//! hex digits separated by colons (no `::` compression), which every common
//! address parser accepts.

use vstd::prelude::*;
use crate::digits::{char_digit_val, is_radix_digit, spec_num_chars, spec_parse_num,
    all_radix_digits, radix_run_end, lemma_run_end_props, lemma_parse_of_num_chars,
    lemma_parse_num_sound, push_num_chars, parse_num};
use crate::hexstr::{spec_hex_fixed, spec_parse_hex_fixed, lemma_parse_of_hex_fixed,
    lemma_parse_hex_fixed_sound, lemma_hex_fixed_ok, push_hex_fixed, parse_hex_fixed};
use crate::ident::lemma_pow16_consts;
use crate::strutil::push_char;

verus! {

/// An IP address, v4 or v6 (a v6 address as its eight 16-bit groups).
#[derive(Clone, Copy, PartialEq, Eq, Debug)]
pub enum IpAddress {
    V4 { a: u8, b: u8, c: u8, d: u8 },
    V6 { s0: u16, s1: u16, s2: u16, s3: u16, s4: u16, s5: u16, s6: u16, s7: u16 },
}

/// A forwarding target: an IP address and a TCP port.
#[derive(Clone, Copy, PartialEq, Eq, Debug)]
pub struct Destination {
    pub ip: IpAddress,
    pub port: u16,
}

/// Canonical text of an IP address.
pub open spec fn spec_ser_ip(ip: IpAddress) -> Seq<char> {
    match ip {
        IpAddress::V4 { a, b, c, d } => spec_num_chars(a as nat, 10) + seq!['.'] + spec_num_chars(
            b as nat,
            10,
        ) + seq!['.'] + spec_num_chars(c as nat, 10) + seq!['.'] + spec_num_chars(d as nat, 10),
        IpAddress::V6 { s0, s1, s2, s3, s4, s5, s6, s7 } => spec_hex_fixed(s0 as nat, 4)
            + seq![':'] + spec_hex_fixed(s1 as nat, 4) + seq![':'] + spec_hex_fixed(s2 as nat, 4)
            + seq![':'] + spec_hex_fixed(s3 as nat, 4) + seq![':'] + spec_hex_fixed(s4 as nat, 4)
            + seq![':'] + spec_hex_fixed(s5 as nat, 4) + seq![':'] + spec_hex_fixed(s6 as nat, 4)
            + seq![':'] + spec_hex_fixed(s7 as nat, 4),
    }
}

/// Canonical text of a destination, socket-address style: v6 addresses are
/// bracketed, and the port follows a colon.
pub open spec fn spec_ser_dest(dst: Destination) -> Seq<char> {
    match dst.ip {
        IpAddress::V4 { .. } => spec_ser_ip(dst.ip) + seq![':'] + spec_num_chars(
            dst.port as nat,
            10,
        ),
        IpAddress::V6 { .. } => seq!['['] + spec_ser_ip(dst.ip) + seq![']', ':']
            + spec_num_chars(dst.port as nat, 10),
    }
}

/// Append the canonical text of `ip` to `out`.
pub fn push_ip(out: &mut String, ip: &IpAddress)
    ensures
        final(out)@ == old(out)@ + spec_ser_ip(*ip),
{
    proof {
        lemma_pow16_consts();
    }
    match ip {
        IpAddress::V4 { a, b, c, d } => {
            push_num_chars(out, *a as u64, 10);
            push_char(out, '.');
            push_num_chars(out, *b as u64, 10);
            push_char(out, '.');
            push_num_chars(out, *c as u64, 10);
            push_char(out, '.');
            push_num_chars(out, *d as u64, 10);
            proof {
                assert(final(out)@ =~= old(out)@ + spec_ser_ip(*ip));
            }
        },
        IpAddress::V6 { s0, s1, s2, s3, s4, s5, s6, s7 } => {
            push_hex_fixed(out, *s0 as u64, 4);
            push_char(out, ':');
            push_hex_fixed(out, *s1 as u64, 4);
            push_char(out, ':');
            push_hex_fixed(out, *s2 as u64, 4);
            push_char(out, ':');
            push_hex_fixed(out, *s3 as u64, 4);
            push_char(out, ':');
            push_hex_fixed(out, *s4 as u64, 4);
            push_char(out, ':');
            push_hex_fixed(out, *s5 as u64, 4);
            push_char(out, ':');
            push_hex_fixed(out, *s6 as u64, 4);
            push_char(out, ':');
            push_hex_fixed(out, *s7 as u64, 4);
            proof {
                assert(final(out)@ =~= old(out)@ + spec_ser_ip(*ip));
            }
        },
    }
}

/// Append the canonical socket-address text of `dst` to `out`.
pub fn push_dest(out: &mut String, dst: &Destination)
    ensures
        final(out)@ == old(out)@ + spec_ser_dest(*dst),
{
    let is_v6 = match dst.ip {
        IpAddress::V4 { .. } => false,
        IpAddress::V6 { .. } => true,
    };
    if is_v6 {
        push_char(out, '[');
    }
    push_ip(out, &dst.ip);
    if is_v6 {
        push_char(out, ']');
    }
    push_char(out, ':');
    push_num_chars(out, dst.port as u64, 10);
    proof {
        assert(final(out)@ =~= old(out)@ + spec_ser_dest(*dst));
    }
}

/// Parse of a canonical v4 address at position `i`.
pub open spec fn spec_parse_ipv4(s: Seq<char>, i: int) -> Option<(IpAddress, int)>
    recommends
        0 <= i <= s.len(),
{
    match spec_parse_num(s, i, 10, 255) {
        Some((a, j1)) => if j1 < s.len() && s[j1] == '.' {
            match spec_parse_num(s, j1 + 1, 10, 255) {
                Some((b, j2)) => if j2 < s.len() && s[j2] == '.' {
                    match spec_parse_num(s, j2 + 1, 10, 255) {
                        Some((c, j3)) => if j3 < s.len() && s[j3] == '.' {
                            match spec_parse_num(s, j3 + 1, 10, 255) {
                                Some((d, j4)) => Some(
                                    (
                                        IpAddress::V4 {
                                            a: a as u8,
                                            b: b as u8,
                                            c: c as u8,
                                            d: d as u8,
                                        },
                                        j4,
                                    ),
                                ),
                                None => None,
                            }
                        } else {
                            None
                        },
                        None => None,
                    }
                } else {
                    None
                },
                None => None,
            }
        } else {
            None
        },
        None => None,
    }
}

/// Parse of a canonical v6 address (eight fixed-width groups) at position `i`.
pub open spec fn spec_parse_ipv6(s: Seq<char>, i: int) -> Option<(IpAddress, int)>
    recommends
        0 <= i <= s.len(),
{
    match (
        spec_parse_hex_fixed(s, i, 4),
        spec_parse_hex_fixed(s, i + 5, 4),
        spec_parse_hex_fixed(s, i + 10, 4),
        spec_parse_hex_fixed(s, i + 15, 4),
        spec_parse_hex_fixed(s, i + 20, 4),
        spec_parse_hex_fixed(s, i + 25, 4),
        spec_parse_hex_fixed(s, i + 30, 4),
        spec_parse_hex_fixed(s, i + 35, 4),
    ) {
        (
            Some(g0),
            Some(g1),
            Some(g2),
            Some(g3),
            Some(g4),
            Some(g5),
            Some(g6),
            Some(g7),
        ) => {
            if i + 39 <= s.len() && s[i + 4] == ':' && s[i + 9] == ':' && s[i + 14] == ':' && s[i
                + 19] == ':' && s[i + 24] == ':' && s[i + 29] == ':' && s[i + 34] == ':' {
                Some(
                    (
                        IpAddress::V6 {
                            s0: g0 as u16,
                            s1: g1 as u16,
                            s2: g2 as u16,
                            s3: g3 as u16,
                            s4: g4 as u16,
                            s5: g5 as u16,
                            s6: g6 as u16,
                            s7: g7 as u16,
                        },
                        i + 39,
                    ),
                )
            } else {
                None
            }
        },
        _ => None,
    }
}

/// Parse of a canonical IP address: the v4 form when it fits, else the v6
/// form.
pub open spec fn spec_parse_ip(s: Seq<char>, i: int) -> Option<(IpAddress, int)>
    recommends
        0 <= i <= s.len(),
{
    match spec_parse_ipv4(s, i) {
        Some(r) => Some(r),
        None => spec_parse_ipv6(s, i),
    }
}

/// Parse a canonical IP address at position `i` of `s`, whose character
/// length is `slen`.
pub fn parse_ip(s: &str, slen: usize, i: usize) -> (r: Option<(IpAddress, usize)>)
    requires
        slen == s@.len(),
        i <= slen,
    ensures
        match r {
            Some((ip, j)) => spec_parse_ip(s@, i as int) == Some((ip, j as int)) && i < j <= slen,
            None => spec_parse_ip(s@, i as int) is None,
        },
{
    match parse_ipv4(s, slen, i) {
        Some(r) => Some(r),
        None => parse_ipv6(s, slen, i),
    }
}

/// Parse a canonical v4 address at position `i`.
fn parse_ipv4(s: &str, slen: usize, i: usize) -> (r: Option<(IpAddress, usize)>)
    requires
        slen == s@.len(),
        i <= slen,
    ensures
        match r {
            Some((ip, j)) => spec_parse_ipv4(s@, i as int) == Some((ip, j as int)) && i < j
                <= slen,
            None => spec_parse_ipv4(s@, i as int) is None,
        },
{
    let (a, j1) = match parse_num(s, slen, i, 10, 255) {
        Some(r) => r,
        None => {
            return None;
        },
    };
    if !(j1 < slen) || s.get_char(j1) != '.' {
        return None;
    }
    let (b, j2) = match parse_num(s, slen, j1 + 1, 10, 255) {
        Some(r) => r,
        None => {
            return None;
        },
    };
    if !(j2 < slen) || s.get_char(j2) != '.' {
        return None;
    }
    let (c, j3) = match parse_num(s, slen, j2 + 1, 10, 255) {
        Some(r) => r,
        None => {
            return None;
        },
    };
    if !(j3 < slen) || s.get_char(j3) != '.' {
        return None;
    }
    let (d, j4) = match parse_num(s, slen, j3 + 1, 10, 255) {
        Some(r) => r,
        None => {
            return None;
        },
    };
    Some((IpAddress::V4 { a: a as u8, b: b as u8, c: c as u8, d: d as u8 }, j4))
}

/// Parse a canonical v6 address at position `i`.
fn parse_ipv6(s: &str, slen: usize, i: usize) -> (r: Option<(IpAddress, usize)>)
    requires
        slen == s@.len(),
        i <= slen,
    ensures
        match r {
            Some((ip, j)) => spec_parse_ipv6(s@, i as int) == Some((ip, j as int)) && i < j
                <= slen,
            None => spec_parse_ipv6(s@, i as int) is None,
        },
{
    if slen - i < 39 {
        return None;
    }
    let g0 = match parse_hex_fixed(s, slen, i, 4) {
        Some(v) => v,
        None => {
            return None;
        },
    };
    let g1 = match parse_hex_fixed(s, slen, i + 5, 4) {
        Some(v) => v,
        None => {
            return None;
        },
    };
    let g2 = match parse_hex_fixed(s, slen, i + 10, 4) {
        Some(v) => v,
        None => {
            return None;
        },
    };
    let g3 = match parse_hex_fixed(s, slen, i + 15, 4) {
        Some(v) => v,
        None => {
            return None;
        },
    };
    let g4 = match parse_hex_fixed(s, slen, i + 20, 4) {
        Some(v) => v,
        None => {
            return None;
        },
    };
    let g5 = match parse_hex_fixed(s, slen, i + 25, 4) {
        Some(v) => v,
        None => {
            return None;
        },
    };
    let g6 = match parse_hex_fixed(s, slen, i + 30, 4) {
        Some(v) => v,
        None => {
            return None;
        },
    };
    let g7 = match parse_hex_fixed(s, slen, i + 35, 4) {
        Some(v) => v,
        None => {
            return None;
        },
    };
    if s.get_char(i + 4) != ':' || s.get_char(i + 9) != ':' || s.get_char(i + 14) != ':'
        || s.get_char(i + 19) != ':' || s.get_char(i + 24) != ':' || s.get_char(i + 29) != ':'
        || s.get_char(i + 34) != ':' {
        return None;
    }
    proof {
        lemma_pow16_consts();
        crate::digits::lemma_num_val_bounds(s@.subrange(i as int, i + 4int), 16);
        crate::digits::lemma_num_val_bounds(s@.subrange(i + 5int, i + 9int), 16);
        crate::digits::lemma_num_val_bounds(s@.subrange(i + 10int, i + 14int), 16);
        crate::digits::lemma_num_val_bounds(s@.subrange(i + 15int, i + 19int), 16);
        crate::digits::lemma_num_val_bounds(s@.subrange(i + 20int, i + 24int), 16);
        crate::digits::lemma_num_val_bounds(s@.subrange(i + 25int, i + 29int), 16);
        crate::digits::lemma_num_val_bounds(s@.subrange(i + 30int, i + 34int), 16);
        crate::digits::lemma_num_val_bounds(s@.subrange(i + 35int, i + 39int), 16);
    }
    Some(
        (
            IpAddress::V6 {
                s0: g0 as u16,
                s1: g1 as u16,
                s2: g2 as u16,
                s3: g3 as u16,
                s4: g4 as u16,
                s5: g5 as u16,
                s6: g6 as u16,
                s7: g7 as u16,
            },
            i + 39,
        ),
    )
}

/// Parsing right after serializing gives the v4 address back, provided no
/// digit follows it.
proof fn lemma_parse_of_ser_ipv4(s: Seq<char>, i: int, ip: IpAddress)
    requires
        ip is V4,
        0 <= i,
        i + spec_ser_ip(ip).len() <= s.len(),
        s.subrange(i, i + spec_ser_ip(ip).len() as int) =~= spec_ser_ip(ip),
        i + spec_ser_ip(ip).len() == s.len() || !is_radix_digit(
            s[i + spec_ser_ip(ip).len() as int],
            10,
        ),
    ensures
        spec_parse_ipv4(s, i) == Some((ip, i + spec_ser_ip(ip).len())),
{
    let (a, b, c, d) = match ip {
        IpAddress::V4 { a, b, c, d } => (a, b, c, d),
        _ => arbitrary(),
    };
    let fa = spec_num_chars(a as nat, 10);
    let fb = spec_num_chars(b as nat, 10);
    let fc = spec_num_chars(c as nat, 10);
    let fd = spec_num_chars(d as nat, 10);
    let t = spec_ser_ip(ip);
    let dot = seq!['.'];
    let p1 = fa + dot;
    let p2 = p1 + fb;
    let p3 = p2 + dot;
    let p4 = p3 + fc;
    let p5 = p4 + dot;
    assert(t == p5 + fd);
    let la = fa.len() as int;
    let lb = fb.len() as int;
    let lc = fc.len() as int;
    let ld = fd.len() as int;
    let ll = t.len() as int;
    assert(forall|m: int| 0 <= m < ll ==> s[i + m] == #[trigger] t[m]);
    assert(s.subrange(i, i + la) =~= fa) by {
        assert forall|k: int| 0 <= k < la implies t[k] == fa[k] by {
            assert(t[k] == p5[k]);
            assert(p5[k] == p4[k]);
            assert(p4[k] == p3[k]);
            assert(p3[k] == p2[k]);
            assert(p2[k] == p1[k]);
            assert(p1[k] == fa[k]);
        }
    }
    assert(s[i + la] == '.') by {
        assert(t[la] == p5[la]);
        assert(p5[la] == p4[la]);
        assert(p4[la] == p3[la]);
        assert(p3[la] == p2[la]);
        assert(p2[la] == p1[la]);
        assert(p1[la] == '.');
    }
    lemma_parse_of_num_chars(s, i, a as nat, 10, 255);
    assert(s.subrange(i + la + 1, i + la + 1 + lb) =~= fb) by {
        assert forall|k: int| 0 <= k < lb implies t[la + 1 + k] == fb[k] by {
            assert(t[la + 1 + k] == p5[la + 1 + k]);
            assert(p5[la + 1 + k] == p4[la + 1 + k]);
            assert(p4[la + 1 + k] == p3[la + 1 + k]);
            assert(p3[la + 1 + k] == p2[la + 1 + k]);
            assert(p2[la + 1 + k] == fb[k]);
        }
    }
    assert(s[i + la + 1 + lb] == '.') by {
        assert(t[la + 1 + lb] == p5[la + 1 + lb]);
        assert(p5[la + 1 + lb] == p4[la + 1 + lb]);
        assert(p4[la + 1 + lb] == p3[la + 1 + lb]);
        assert(p3[la + 1 + lb] == '.');
    }
    lemma_parse_of_num_chars(s, i + la + 1, b as nat, 10, 255);
    assert(s.subrange(i + la + 1 + lb + 1, i + la + 1 + lb + 1 + lc) =~= fc) by {
        assert forall|k: int| 0 <= k < lc implies t[la + 1 + lb + 1 + k] == fc[k] by {
            assert(t[la + 1 + lb + 1 + k] == p5[la + 1 + lb + 1 + k]);
            assert(p5[la + 1 + lb + 1 + k] == p4[la + 1 + lb + 1 + k]);
            assert(p4[la + 1 + lb + 1 + k] == fc[k]);
        }
    }
    assert(s[i + la + 1 + lb + 1 + lc] == '.') by {
        assert(t[la + 1 + lb + 1 + lc] == p5[la + 1 + lb + 1 + lc]);
        assert(p5[la + 1 + lb + 1 + lc] == '.');
    }
    lemma_parse_of_num_chars(s, i + la + 1 + lb + 1, c as nat, 10, 255);
    assert(s.subrange(i + la + 1 + lb + 1 + lc + 1, i + ll) =~= fd) by {
        assert forall|k: int| 0 <= k < ld implies t[la + 1 + lb + 1 + lc + 1 + k] == fd[k] by {
            assert(t[la + 1 + lb + 1 + lc + 1 + k] == fd[k]);
        }
    }
    lemma_parse_of_num_chars(s, i + la + 1 + lb + 1 + lc + 1, d as nat, 10, 255);
}

/// Parsing right after serializing gives the v6 address back.
proof fn lemma_parse_of_ser_ipv6(s: Seq<char>, i: int, ip: IpAddress)
    requires
        ip is V6,
        0 <= i,
        i + 39 <= s.len(),
        s.subrange(i, i + 39) =~= spec_ser_ip(ip),
    ensures
        spec_parse_ipv6(s, i) == Some((ip, i + 39)),
{
    let (s0, s1, s2, s3, s4, s5, s6, s7) = match ip {
        IpAddress::V6 { s0, s1, s2, s3, s4, s5, s6, s7 } => (s0, s1, s2, s3, s4, s5, s6, s7),
        _ => arbitrary(),
    };
    lemma_pow16_consts();
    let f0 = spec_hex_fixed(s0 as nat, 4);
    let f1 = spec_hex_fixed(s1 as nat, 4);
    let f2 = spec_hex_fixed(s2 as nat, 4);
    let f3 = spec_hex_fixed(s3 as nat, 4);
    let f4 = spec_hex_fixed(s4 as nat, 4);
    let f5 = spec_hex_fixed(s5 as nat, 4);
    let f6 = spec_hex_fixed(s6 as nat, 4);
    let f7 = spec_hex_fixed(s7 as nat, 4);
    lemma_hex_fixed_ok(s0 as nat, 4);
    lemma_hex_fixed_ok(s1 as nat, 4);
    lemma_hex_fixed_ok(s2 as nat, 4);
    lemma_hex_fixed_ok(s3 as nat, 4);
    lemma_hex_fixed_ok(s4 as nat, 4);
    lemma_hex_fixed_ok(s5 as nat, 4);
    lemma_hex_fixed_ok(s6 as nat, 4);
    lemma_hex_fixed_ok(s7 as nat, 4);
    let t = spec_ser_ip(ip);
    let h = seq![':'];
    let a1 = f0 + h;
    let a2 = a1 + f1;
    let a3 = a2 + h;
    let a4 = a3 + f2;
    let a5 = a4 + h;
    let a6 = a5 + f3;
    let a7 = a6 + h;
    let a8 = a7 + f4;
    let a9 = a8 + h;
    let a10 = a9 + f5;
    let a11 = a10 + h;
    let a12 = a11 + f6;
    let a13 = a12 + h;
    assert(t == a13 + f7);
    assert(forall|m: int| 0 <= m < 39 ==> s[i + m] == #[trigger] t[m]);
    assert(t.subrange(0, 4) =~= f0);
    assert(t.subrange(5, 9) =~= f1);
    assert(t.subrange(10, 14) =~= f2);
    assert(t.subrange(15, 19) =~= f3);
    assert(t.subrange(20, 24) =~= f4);
    assert(t.subrange(25, 29) =~= f5);
    assert(t.subrange(30, 34) =~= f6);
    assert(t.subrange(35, 39) =~= f7);
    assert(s.subrange(i, i + 4) =~= f0);
    assert(s.subrange(i + 5, i + 9) =~= f1);
    assert(s.subrange(i + 10, i + 14) =~= f2);
    assert(s.subrange(i + 15, i + 19) =~= f3);
    assert(s.subrange(i + 20, i + 24) =~= f4);
    assert(s.subrange(i + 25, i + 29) =~= f5);
    assert(s.subrange(i + 30, i + 34) =~= f6);
    assert(s.subrange(i + 35, i + 39) =~= f7);
    lemma_parse_of_hex_fixed(s, i, s0 as nat, 4);
    lemma_parse_of_hex_fixed(s, i + 5, s1 as nat, 4);
    lemma_parse_of_hex_fixed(s, i + 10, s2 as nat, 4);
    lemma_parse_of_hex_fixed(s, i + 15, s3 as nat, 4);
    lemma_parse_of_hex_fixed(s, i + 20, s4 as nat, 4);
    lemma_parse_of_hex_fixed(s, i + 25, s5 as nat, 4);
    lemma_parse_of_hex_fixed(s, i + 30, s6 as nat, 4);
    lemma_parse_of_hex_fixed(s, i + 35, s7 as nat, 4);
    assert(s[i + 4] == t[4]);
    assert(s[i + 9] == t[9]);
    assert(s[i + 14] == t[14]);
    assert(s[i + 19] == t[19]);
    assert(s[i + 24] == t[24]);
    assert(s[i + 29] == t[29]);
    assert(s[i + 34] == t[34]);
}

/// The v4 parse fails on a canonical v6 text: the character after the
/// leading decimal run is a hex letter or a colon, never a dot.
proof fn lemma_v4_fails_on_v6(s: Seq<char>, i: int, ip: IpAddress)
    requires
        ip is V6,
        0 <= i,
        i + 39 <= s.len(),
        s.subrange(i, i + 39) =~= spec_ser_ip(ip),
    ensures
        spec_parse_ipv4(s, i) is None,
{
    let s0 = match ip {
        IpAddress::V6 { s0, .. } => s0,
        _ => arbitrary(),
    };
    lemma_pow16_consts();
    let f0 = spec_hex_fixed(s0 as nat, 4);
    lemma_hex_fixed_ok(s0 as nat, 4);
    let t = spec_ser_ip(ip);
    assert(forall|m: int| 0 <= m < 39 ==> s[i + m] == #[trigger] t[m]);
    assert(forall|m: int| 0 <= m < 4 ==> t[m] == f0[m]);
    assert(t[4] == ':');
    let e = radix_run_end(s, i, 10);
    lemma_run_end_props(s, i, 10);
    assert(char_digit_val(':') == 16);
    assert(e <= i + 4) by {
        if e > i + 4 {
            assert(is_radix_digit(s[i + 4], 10));
        }
    }
    if i < e {
        if e < i + 4 {
            let m = e - i;
            assert(0 <= m < 4);
            assert(s[i + m] == t[m]);
            assert(t[m] == f0[m]);
            assert(is_radix_digit(s[e], 16));
            assert(!is_radix_digit(s[e], 10));
            assert(10 <= char_digit_val(s[e]) < 16);
            assert(97 <= s[e] as int <= 102);
            assert(s[e] != '.');
        } else {
            assert(s[i + 4] == t[4]);
            assert(s[e] == ':');
            assert(s[e] != '.');
        }
    }
}

/// A parsed v4 address is the only text it could have been.
#[verifier::rlimit(60)]
proof fn lemma_parse_ipv4_sound(s: Seq<char>, i: int)
    requires
        0 <= i <= s.len(),
        spec_parse_ipv4(s, i) is Some,
    ensures
        ({
            let (ip, j) = spec_parse_ipv4(s, i)->Some_0;
            &&& ip is V4
            &&& i < j <= s.len()
            &&& j == i + spec_ser_ip(ip).len()
            &&& s.subrange(i, j) =~= spec_ser_ip(ip)
            &&& (j == s.len() || !is_radix_digit(s[j], 10))
        }),
{
    let (av, j1) = spec_parse_num(s, i, 10, 255)->Some_0;
    lemma_parse_num_sound(s, i, 10, 255);
    let (bv, j2) = spec_parse_num(s, j1 + 1, 10, 255)->Some_0;
    lemma_parse_num_sound(s, j1 + 1, 10, 255);
    let (cv, j3) = spec_parse_num(s, j2 + 1, 10, 255)->Some_0;
    lemma_parse_num_sound(s, j2 + 1, 10, 255);
    let (dv, j4) = spec_parse_num(s, j3 + 1, 10, 255)->Some_0;
    lemma_parse_num_sound(s, j3 + 1, 10, 255);
    let ip = spec_parse_ipv4(s, i)->Some_0.0;
    let fa = spec_num_chars(av as nat, 10);
    let fb = spec_num_chars(bv as nat, 10);
    let fc = spec_num_chars(cv as nat, 10);
    let fd = spec_num_chars(dv as nat, 10);
    let dot = seq!['.'];
    let t = spec_ser_ip(ip);
    let p1 = fa + dot;
    let p2 = p1 + fb;
    let p3 = p2 + dot;
    let p4 = p3 + fc;
    let p5 = p4 + dot;
    assert(t == p5 + fd);
    let la = fa.len() as int;
    let lb = fb.len() as int;
    let lc = fc.len() as int;
    assert(s.subrange(i, j4) =~= t) by {
        assert forall|m: int| 0 <= m < j4 - i implies s.subrange(i, j4)[m] == t[m] by {
            assert(s.subrange(i, j4)[m] == s[i + m]);
            if m < la {
                assert(s[i + m] == s.subrange(i, j1)[m]);
                assert(t[m] == p5[m]);
                assert(p5[m] == p4[m]);
                assert(p4[m] == p3[m]);
                assert(p3[m] == p2[m]);
                assert(p2[m] == p1[m]);
                assert(p1[m] == fa[m]);
            } else if m == la {
                assert(s[j1] == '.');
                assert(t[m] == p5[m]);
                assert(p5[m] == p4[m]);
                assert(p4[m] == p3[m]);
                assert(p3[m] == p2[m]);
                assert(p2[m] == p1[m]);
                assert(p1[m] == '.');
            } else if m < la + 1 + lb {
                assert(s[i + m] == s.subrange(j1 + 1, j2)[m - la - 1]);
                assert(t[m] == p5[m]);
                assert(p5[m] == p4[m]);
                assert(p4[m] == p3[m]);
                assert(p3[m] == p2[m]);
                assert(p2[m] == fb[m - la - 1]);
            } else if m == la + 1 + lb {
                assert(s[j2] == '.');
                assert(t[m] == p5[m]);
                assert(p5[m] == p4[m]);
                assert(p4[m] == p3[m]);
                assert(p3[m] == '.');
            } else if m < la + 1 + lb + 1 + lc {
                assert(s[i + m] == s.subrange(j2 + 1, j3)[m - la - 1 - lb - 1]);
                assert(t[m] == p5[m]);
                assert(p5[m] == p4[m]);
                assert(p4[m] == fc[m - la - 1 - lb - 1]);
            } else if m == la + 1 + lb + 1 + lc {
                assert(s[j3] == '.');
                assert(t[m] == p5[m]);
                assert(p5[m] == '.');
            } else {
                assert(s[i + m] == s.subrange(j3 + 1, j4)[m - la - 1 - lb - 1 - lc - 1]);
                assert(t[m] == fd[m - la - 1 - lb - 1 - lc - 1]);
            }
        }
    }
}

/// A parsed v6 address is the only text it could have been.
#[verifier::rlimit(60)]
proof fn lemma_parse_ipv6_sound(s: Seq<char>, i: int)
    requires
        0 <= i <= s.len(),
        spec_parse_ipv6(s, i) is Some,
    ensures
        ({
            let (ip, j) = spec_parse_ipv6(s, i)->Some_0;
            &&& ip is V6
            &&& j == i + 39
            &&& i + 39 <= s.len()
            &&& spec_ser_ip(ip).len() == 39
            &&& s.subrange(i, i + 39) =~= spec_ser_ip(ip)
        }),
{
    lemma_pow16_consts();
    lemma_parse_hex_fixed_sound(s, i, 4);
    lemma_parse_hex_fixed_sound(s, i + 5, 4);
    lemma_parse_hex_fixed_sound(s, i + 10, 4);
    lemma_parse_hex_fixed_sound(s, i + 15, 4);
    lemma_parse_hex_fixed_sound(s, i + 20, 4);
    lemma_parse_hex_fixed_sound(s, i + 25, 4);
    lemma_parse_hex_fixed_sound(s, i + 30, 4);
    lemma_parse_hex_fixed_sound(s, i + 35, 4);
    let g0 = spec_parse_hex_fixed(s, i, 4)->Some_0;
    let g1 = spec_parse_hex_fixed(s, i + 5, 4)->Some_0;
    let g2 = spec_parse_hex_fixed(s, i + 10, 4)->Some_0;
    let g3 = spec_parse_hex_fixed(s, i + 15, 4)->Some_0;
    let g4 = spec_parse_hex_fixed(s, i + 20, 4)->Some_0;
    let g5 = spec_parse_hex_fixed(s, i + 25, 4)->Some_0;
    let g6 = spec_parse_hex_fixed(s, i + 30, 4)->Some_0;
    let g7 = spec_parse_hex_fixed(s, i + 35, 4)->Some_0;
    let ip = spec_parse_ipv6(s, i)->Some_0.0;
    let f0 = spec_hex_fixed(g0 as nat, 4);
    let f1 = spec_hex_fixed(g1 as nat, 4);
    let f2 = spec_hex_fixed(g2 as nat, 4);
    let f3 = spec_hex_fixed(g3 as nat, 4);
    let f4 = spec_hex_fixed(g4 as nat, 4);
    let f5 = spec_hex_fixed(g5 as nat, 4);
    let f6 = spec_hex_fixed(g6 as nat, 4);
    let f7 = spec_hex_fixed(g7 as nat, 4);
    lemma_hex_fixed_ok(g0 as nat, 4);
    lemma_hex_fixed_ok(g1 as nat, 4);
    lemma_hex_fixed_ok(g2 as nat, 4);
    lemma_hex_fixed_ok(g3 as nat, 4);
    lemma_hex_fixed_ok(g4 as nat, 4);
    lemma_hex_fixed_ok(g5 as nat, 4);
    lemma_hex_fixed_ok(g6 as nat, 4);
    lemma_hex_fixed_ok(g7 as nat, 4);
    let t = spec_ser_ip(ip);
    let h = seq![':'];
    let a1 = f0 + h;
    let a2 = a1 + f1;
    let a3 = a2 + h;
    let a4 = a3 + f2;
    let a5 = a4 + h;
    let a6 = a5 + f3;
    let a7 = a6 + h;
    let a8 = a7 + f4;
    let a9 = a8 + h;
    let a10 = a9 + f5;
    let a11 = a10 + h;
    let a12 = a11 + f6;
    let a13 = a12 + h;
    assert(t == a13 + f7);
    assert(t.subrange(0, 4) =~= f0);
    assert(t.subrange(5, 9) =~= f1);
    assert(t.subrange(10, 14) =~= f2);
    assert(t.subrange(15, 19) =~= f3);
    assert(t.subrange(20, 24) =~= f4);
    assert(t.subrange(25, 29) =~= f5);
    assert(t.subrange(30, 34) =~= f6);
    assert(t.subrange(35, 39) =~= f7);
    assert(t[4] == ':' && t[9] == ':' && t[14] == ':' && t[19] == ':' && t[24] == ':' && t[29]
        == ':' && t[34] == ':');
    assert(s.subrange(i, i + 39) =~= t) by {
        assert forall|m: int| 0 <= m < 39 implies s.subrange(i, i + 39)[m] == t[m] by {
            assert(s.subrange(i, i + 39)[m] == s[i + m]);
            if m < 4 {
                assert(s[i + m] == s.subrange(i, i + 4)[m]);
                assert(t[m] == t.subrange(0, 4)[m]);
            } else if m == 4 || m == 9 || m == 14 || m == 19 || m == 24 || m == 29 || m == 34 {
            } else if m < 9 {
                assert(s[i + m] == s.subrange(i + 5, i + 9)[m - 5]);
                assert(t[m] == t.subrange(5, 9)[m - 5]);
            } else if m < 14 {
                assert(s[i + m] == s.subrange(i + 10, i + 14)[m - 10]);
                assert(t[m] == t.subrange(10, 14)[m - 10]);
            } else if m < 19 {
                assert(s[i + m] == s.subrange(i + 15, i + 19)[m - 15]);
                assert(t[m] == t.subrange(15, 19)[m - 15]);
            } else if m < 24 {
                assert(s[i + m] == s.subrange(i + 20, i + 24)[m - 20]);
                assert(t[m] == t.subrange(20, 24)[m - 20]);
            } else if m < 29 {
                assert(s[i + m] == s.subrange(i + 25, i + 29)[m - 25]);
                assert(t[m] == t.subrange(25, 29)[m - 25]);
            } else if m < 34 {
                assert(s[i + m] == s.subrange(i + 30, i + 34)[m - 30]);
                assert(t[m] == t.subrange(30, 34)[m - 30]);
            } else {
                assert(s[i + m] == s.subrange(i + 35, i + 39)[m - 35]);
                assert(t[m] == t.subrange(35, 39)[m - 35]);
            }
        }
    }
}

/// A parsed IP address is the only text it could have been: when the parse
/// at `i` returns an address, the characters consumed are exactly its
/// canonical text, and no decimal digit follows a v4 address.
pub proof fn lemma_parse_ip_sound(s: Seq<char>, i: int)
    requires
        0 <= i <= s.len(),
        spec_parse_ip(s, i) is Some,
    ensures
        ({
            let (ip, j) = spec_parse_ip(s, i)->Some_0;
            &&& i < j <= s.len()
            &&& j == i + spec_ser_ip(ip).len()
            &&& s.subrange(i, j) =~= spec_ser_ip(ip)
            &&& (ip is V4 ==> j == s.len() || !is_radix_digit(s[j], 10))
        }),
{
    if spec_parse_ipv4(s, i) is Some {
        lemma_parse_ipv4_sound(s, i);
    } else {
        lemma_parse_ipv6_sound(s, i);
    }
}

/// Parsing right after serializing gives the IP address back, provided no
/// decimal digit follows it.
pub proof fn lemma_parse_of_ser_ip(s: Seq<char>, i: int, ip: IpAddress)
    requires
        0 <= i,
        i + spec_ser_ip(ip).len() <= s.len(),
        s.subrange(i, i + spec_ser_ip(ip).len() as int) =~= spec_ser_ip(ip),
        i + spec_ser_ip(ip).len() == s.len() || !is_radix_digit(
            s[i + spec_ser_ip(ip).len() as int],
            10,
        ),
    ensures
        spec_parse_ip(s, i) == Some((ip, i + spec_ser_ip(ip).len())),
{
    match ip {
        IpAddress::V4 { .. } => {
            lemma_parse_of_ser_ipv4(s, i, ip);
        },
        IpAddress::V6 { s0, s1, s2, s3, s4, s5, s6, s7 } => {
            lemma_pow16_consts();
            lemma_hex_fixed_ok(s0 as nat, 4);
            lemma_hex_fixed_ok(s1 as nat, 4);
            lemma_hex_fixed_ok(s2 as nat, 4);
            lemma_hex_fixed_ok(s3 as nat, 4);
            lemma_hex_fixed_ok(s4 as nat, 4);
            lemma_hex_fixed_ok(s5 as nat, 4);
            lemma_hex_fixed_ok(s6 as nat, 4);
            lemma_hex_fixed_ok(s7 as nat, 4);
            assert(spec_ser_ip(ip).len() == 39);
            lemma_v4_fails_on_v6(s, i, ip);
            lemma_parse_of_ser_ipv6(s, i, ip);
        },
    }
}

} // verus!
