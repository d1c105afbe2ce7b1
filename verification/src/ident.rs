//! Tunnel identifiers: 128-bit values written in the usual 8-4-4-4-12
//! lower-case hex form, with a round-trip lemma.

use vstd::prelude::*;
use vstd::arithmetic::power::*;
use vstd::arithmetic::mul::*;
use vstd::arithmetic::div_mod::*;
use crate::digits::{all_radix_digits, num_val, lemma_num_val_bounds};
use crate::hexstr::{spec_hex_fixed, spec_parse_hex_fixed, lemma_parse_of_hex_fixed,
    lemma_parse_hex_fixed_sound, lemma_hex_fixed_ok, push_hex_fixed, parse_hex_fixed};
use crate::strutil::push_char;

verus! {

/// Exact values of the powers of 16 that the identifier layout uses.
pub proof fn lemma_pow16_consts()
    ensures
        pow(16, 4) == 0x10000,
        pow(16, 8) == 0x100000000,
        pow(16, 12) == 0x1000000000000,
        pow(16, 24) == 0x1000000000000000000000000,
{
    reveal_with_fuel(pow, 25);
}

/// The canonical text of a tunnel identifier: 32 lower-case hex digits in
/// groups of 8, 4, 4, 4 and 12, separated by hyphens.
pub open spec fn spec_ser_uuid(id: u128) -> Seq<char> {
    let n = id as nat;
    let r1 = n % 0x1000000000000000000000000;
    let r2 = r1 % 0x100000000000000000000;
    let r3 = r2 % 0x10000000000000000;
    let r4 = r3 % 0x1000000000000;
    spec_hex_fixed(n / 0x1000000000000000000000000, 8) + seq!['-'] + spec_hex_fixed(
        r1 / 0x100000000000000000000,
        4,
    ) + seq!['-'] + spec_hex_fixed(r2 / 0x10000000000000000, 4) + seq!['-'] + spec_hex_fixed(
        r3 / 0x1000000000000,
        4,
    ) + seq!['-'] + spec_hex_fixed(r4, 12)
}

/// The five fields of the identifier text, as bounded values.
proof fn lemma_uuid_fields(id: u128)
    ensures
        id as nat / 0x1000000000000000000000000 < pow(16, 8),
        (id as nat % 0x1000000000000000000000000) / 0x100000000000000000000 < pow(16, 4),
        ((id as nat % 0x1000000000000000000000000) % 0x100000000000000000000)
            / 0x10000000000000000 < pow(16, 4),
        (((id as nat % 0x1000000000000000000000000) % 0x100000000000000000000)
            % 0x10000000000000000) / 0x1000000000000 < pow(16, 4),
        ((((id as nat % 0x1000000000000000000000000) % 0x100000000000000000000)
            % 0x10000000000000000) % 0x1000000000000) < pow(16, 12),
        spec_ser_uuid(id).len() == 36,
{
    lemma_pow16_consts();
    let n = id as nat;
    let r1 = n % 0x1000000000000000000000000;
    let r2 = r1 % 0x100000000000000000000;
    let r3 = r2 % 0x10000000000000000;
    let r4 = r3 % 0x1000000000000;
    assert(n / 0x1000000000000000000000000 < 0x100000000) by {
        if n / 0x1000000000000000000000000 >= 0x100000000 {
            assert(0x1000000000000000000000000 * (n / 0x1000000000000000000000000)
                >= 0x1000000000000000000000000 * 0x100000000) by {
                lemma_mul_inequality(
                    0x100000000,
                    (n / 0x1000000000000000000000000) as int,
                    0x1000000000000000000000000,
                );
            }
        }
    }
    lemma_hex_fixed_ok(n / 0x1000000000000000000000000, 8);
    lemma_hex_fixed_ok(r1 / 0x100000000000000000000, 4);
    lemma_hex_fixed_ok(r2 / 0x10000000000000000, 4);
    lemma_hex_fixed_ok(r3 / 0x1000000000000, 4);
    lemma_hex_fixed_ok(r4, 12);
}

/// The identifier text is always 36 characters long.
pub proof fn lemma_ser_uuid_len(id: u128)
    ensures
        spec_ser_uuid(id).len() == 36,
{
    lemma_uuid_fields(id);
}

/// Append the canonical identifier text of `id` to `out`.
pub fn push_uuid(out: &mut String, id: u128)
    ensures
        final(out)@ == old(out)@ + spec_ser_uuid(id),
{
    proof {
        lemma_uuid_fields(id);
        lemma_pow16_consts();
    }
    let r1: u128 = id % 0x1000000000000000000000000;
    let r2: u128 = r1 % 0x100000000000000000000;
    let r3: u128 = r2 % 0x10000000000000000;
    let r4: u128 = r3 % 0x1000000000000;
    push_hex_fixed(out, (id / 0x1000000000000000000000000) as u64, 8);
    push_char(out, '-');
    push_hex_fixed(out, (r1 / 0x100000000000000000000) as u64, 4);
    push_char(out, '-');
    push_hex_fixed(out, (r2 / 0x10000000000000000) as u64, 4);
    push_char(out, '-');
    push_hex_fixed(out, (r3 / 0x1000000000000) as u64, 4);
    push_char(out, '-');
    push_hex_fixed(out, r4 as u64, 12);
    proof {
        assert(final(out)@ =~= old(out)@ + spec_ser_uuid(id));
    }
}

/// Parse of a canonical identifier at position `i`: the value and the
/// position after its 36 characters.
pub open spec fn spec_parse_uuid(s: Seq<char>, i: int) -> Option<(int, int)>
    recommends
        0 <= i <= s.len(),
{
    match (
        spec_parse_hex_fixed(s, i, 8),
        spec_parse_hex_fixed(s, i + 9, 4),
        spec_parse_hex_fixed(s, i + 14, 4),
        spec_parse_hex_fixed(s, i + 19, 4),
        spec_parse_hex_fixed(s, i + 24, 12),
    ) {
        (Some(g1), Some(g2), Some(g3), Some(g4), Some(g5)) => {
            if i + 36 <= s.len() && s[i + 8] == '-' && s[i + 13] == '-' && s[i + 18] == '-' && s[i
                + 23] == '-' {
                Some(
                    (
                        g1 * 0x1000000000000000000000000 + g2 * 0x100000000000000000000 + g3
                            * 0x10000000000000000 + g4 * 0x1000000000000 + g5,
                        i + 36,
                    ),
                )
            } else {
                None
            }
        },
        _ => None,
    }
}

/// Parsing right after serializing gives the identifier back.
pub proof fn lemma_parse_of_uuid(s: Seq<char>, i: int, id: u128)
    requires
        0 <= i,
        i + 36 <= s.len(),
        s.subrange(i, i + 36) =~= spec_ser_uuid(id),
    ensures
        spec_parse_uuid(s, i) == Some((id as int, i + 36)),
{
    lemma_uuid_fields(id);
    lemma_pow16_consts();
    let n = id as nat;
    let r1 = n % 0x1000000000000000000000000;
    let r2 = r1 % 0x100000000000000000000;
    let r3 = r2 % 0x10000000000000000;
    let r4 = r3 % 0x1000000000000;
    let t = spec_ser_uuid(id);
    let f1 = spec_hex_fixed(n / 0x1000000000000000000000000, 8);
    let f2 = spec_hex_fixed(r1 / 0x100000000000000000000, 4);
    let f3 = spec_hex_fixed(r2 / 0x10000000000000000, 4);
    let f4 = spec_hex_fixed(r3 / 0x1000000000000, 4);
    let f5 = spec_hex_fixed(r4, 12);
    lemma_hex_fixed_ok(n / 0x1000000000000000000000000, 8);
    lemma_hex_fixed_ok(r1 / 0x100000000000000000000, 4);
    lemma_hex_fixed_ok(r2 / 0x10000000000000000, 4);
    lemma_hex_fixed_ok(r3 / 0x1000000000000, 4);
    lemma_hex_fixed_ok(r4, 12);
    let h = seq!['-'];
    let a1 = f1 + h;
    let a2 = a1 + f2;
    let a3 = a2 + h;
    let a4 = a3 + f3;
    let a5 = a4 + h;
    let a6 = a5 + f4;
    let a7 = a6 + h;
    assert(t == a7 + f5);
    assert(forall|m: int| 0 <= m < 36 ==> s[i + m] == #[trigger] t[m]);
    assert(t.subrange(0, 8) =~= f1);
    assert(t.subrange(9, 13) =~= f2);
    assert(t.subrange(14, 18) =~= f3);
    assert(t.subrange(19, 23) =~= f4);
    assert(t.subrange(24, 36) =~= f5);
    assert(s.subrange(i, i + 8) =~= f1);
    assert(s.subrange(i + 9, i + 13) =~= f2);
    assert(s.subrange(i + 14, i + 18) =~= f3);
    assert(s.subrange(i + 19, i + 23) =~= f4);
    assert(s.subrange(i + 24, i + 36) =~= f5);
    lemma_parse_of_hex_fixed(s, i, n / 0x1000000000000000000000000, 8);
    lemma_parse_of_hex_fixed(s, i + 9, r1 / 0x100000000000000000000, 4);
    lemma_parse_of_hex_fixed(s, i + 14, r2 / 0x10000000000000000, 4);
    lemma_parse_of_hex_fixed(s, i + 19, r3 / 0x1000000000000, 4);
    lemma_parse_of_hex_fixed(s, i + 24, r4, 12);
    assert(s[i + 8] == t[8]);
    assert(s[i + 13] == t[13]);
    assert(s[i + 18] == t[18]);
    assert(s[i + 23] == t[23]);
}

/// A parsed identifier is the only text it could have been: when the parse
/// at `i` returns a value, the 36 characters consumed are exactly its
/// canonical text.
#[verifier::rlimit(60)]
pub proof fn lemma_parse_uuid_sound(s: Seq<char>, i: int)
    requires
        0 <= i <= s.len(),
        spec_parse_uuid(s, i) is Some,
    ensures
        ({
            let (v, j) = spec_parse_uuid(s, i)->Some_0;
            &&& j == i + 36
            &&& i + 36 <= s.len()
            &&& 0 <= v < 0x100000000000000000000000000000000
            &&& s.subrange(i, i + 36) =~= spec_ser_uuid(v as u128)
        }),
{
    lemma_pow16_consts();
    lemma_parse_hex_fixed_sound(s, i, 8);
    lemma_parse_hex_fixed_sound(s, i + 9, 4);
    lemma_parse_hex_fixed_sound(s, i + 14, 4);
    lemma_parse_hex_fixed_sound(s, i + 19, 4);
    lemma_parse_hex_fixed_sound(s, i + 24, 12);
    let g1 = spec_parse_hex_fixed(s, i, 8)->Some_0;
    let g2 = spec_parse_hex_fixed(s, i + 9, 4)->Some_0;
    let g3 = spec_parse_hex_fixed(s, i + 14, 4)->Some_0;
    let g4 = spec_parse_hex_fixed(s, i + 19, 4)->Some_0;
    let g5 = spec_parse_hex_fixed(s, i + 24, 12)->Some_0;
    let v = g1 * 0x1000000000000000000000000 + g2 * 0x100000000000000000000 + g3
        * 0x10000000000000000 + g4 * 0x1000000000000 + g5;
    let r1v = g2 * 0x100000000000000000000 + g3 * 0x10000000000000000 + g4 * 0x1000000000000 + g5;
    let r2v = g3 * 0x10000000000000000 + g4 * 0x1000000000000 + g5;
    let r3v = g4 * 0x1000000000000 + g5;
    assert(0 <= v < 0x100000000000000000000000000000000);
    let n = (v as u128) as nat;
    assert(n == v);
    assert(n / 0x1000000000000000000000000 == g1 && n % 0x1000000000000000000000000 == r1v) by {
        lemma_fundamental_div_mod_converse(n as int, 0x1000000000000000000000000, g1, r1v);
    }
    assert(r1v / 0x100000000000000000000 == g2 && r1v % 0x100000000000000000000 == r2v) by {
        lemma_fundamental_div_mod_converse(r1v, 0x100000000000000000000, g2, r2v);
    }
    assert(r2v / 0x10000000000000000 == g3 && r2v % 0x10000000000000000 == r3v) by {
        lemma_fundamental_div_mod_converse(r2v, 0x10000000000000000, g3, r3v);
    }
    assert(r3v / 0x1000000000000 == g4 && r3v % 0x1000000000000 == g5) by {
        lemma_fundamental_div_mod_converse(r3v, 0x1000000000000, g4, g5);
    }
    let t = spec_ser_uuid(v as u128);
    let f1 = spec_hex_fixed(g1 as nat, 8);
    let f2 = spec_hex_fixed(g2 as nat, 4);
    let f3 = spec_hex_fixed(g3 as nat, 4);
    let f4 = spec_hex_fixed(g4 as nat, 4);
    let f5 = spec_hex_fixed(g5 as nat, 12);
    let h = seq!['-'];
    let a1 = f1 + h;
    let a2 = a1 + f2;
    let a3 = a2 + h;
    let a4 = a3 + f3;
    let a5 = a4 + h;
    let a6 = a5 + f4;
    let a7 = a6 + h;
    assert(t == a7 + f5);
    lemma_hex_fixed_ok(g1 as nat, 8);
    lemma_hex_fixed_ok(g2 as nat, 4);
    lemma_hex_fixed_ok(g3 as nat, 4);
    lemma_hex_fixed_ok(g4 as nat, 4);
    lemma_hex_fixed_ok(g5 as nat, 12);
    assert(t.subrange(0, 8) =~= f1);
    assert(t.subrange(9, 13) =~= f2);
    assert(t.subrange(14, 18) =~= f3);
    assert(t.subrange(19, 23) =~= f4);
    assert(t.subrange(24, 36) =~= f5);
    assert(s.subrange(i, i + 36) =~= t) by {
        assert forall|m: int| 0 <= m < 36 implies s.subrange(i, i + 36)[m] == t[m] by {
            assert(s.subrange(i, i + 36)[m] == s[i + m]);
            if m < 8 {
                assert(s[i + m] == s.subrange(i, i + 8)[m]);
                assert(t[m] == t.subrange(0, 8)[m]);
            } else if m == 8 {
                assert(t[8] == a7[8]);
                assert(a7[8] == a6[8]);
                assert(a6[8] == a5[8]);
                assert(a5[8] == a4[8]);
                assert(a4[8] == a3[8]);
                assert(a3[8] == a2[8]);
                assert(a2[8] == a1[8]);
                assert(a1[8] == '-');
            } else if m < 13 {
                assert(s[i + m] == s.subrange(i + 9, i + 13)[m - 9]);
                assert(t[m] == t.subrange(9, 13)[m - 9]);
            } else if m == 13 {
                assert(t[13] == a7[13]);
                assert(a7[13] == a6[13]);
                assert(a6[13] == a5[13]);
                assert(a5[13] == a4[13]);
                assert(a4[13] == a3[13]);
                assert(a3[13] == '-');
            } else if m < 18 {
                assert(s[i + m] == s.subrange(i + 14, i + 18)[m - 14]);
                assert(t[m] == t.subrange(14, 18)[m - 14]);
            } else if m == 18 {
                assert(t[18] == a7[18]);
                assert(a7[18] == a6[18]);
                assert(a6[18] == a5[18]);
                assert(a5[18] == '-');
            } else if m < 23 {
                assert(s[i + m] == s.subrange(i + 19, i + 23)[m - 19]);
                assert(t[m] == t.subrange(19, 23)[m - 19]);
            } else if m == 23 {
                assert(t[23] == a7[23]);
                assert(a7[23] == '-');
            } else {
                assert(s[i + m] == s.subrange(i + 24, i + 36)[m - 24]);
                assert(t[m] == t.subrange(24, 36)[m - 24]);
            }
        }
    }
}

/// Parse a canonical identifier at position `i` of `s`, whose character
/// length is `slen`.
pub fn parse_uuid(s: &str, slen: usize, i: usize) -> (r: Option<(u128, usize)>)
    requires
        slen == s@.len(),
        i <= slen,
    ensures
        match r {
            Some((v, j)) => spec_parse_uuid(s@, i as int) == Some((v as int, j as int)) && i < j
                <= slen,
            None => spec_parse_uuid(s@, i as int) is None,
        },
{
    if slen - i < 36 {
        return None;
    }
    let g1 = match parse_hex_fixed(s, slen, i, 8) {
        Some(v) => v,
        None => {
            return None;
        },
    };
    let g2 = match parse_hex_fixed(s, slen, i + 9, 4) {
        Some(v) => v,
        None => {
            return None;
        },
    };
    let g3 = match parse_hex_fixed(s, slen, i + 14, 4) {
        Some(v) => v,
        None => {
            return None;
        },
    };
    let g4 = match parse_hex_fixed(s, slen, i + 19, 4) {
        Some(v) => v,
        None => {
            return None;
        },
    };
    let g5 = match parse_hex_fixed(s, slen, i + 24, 12) {
        Some(v) => v,
        None => {
            return None;
        },
    };
    if s.get_char(i + 8) != '-' || s.get_char(i + 13) != '-' || s.get_char(i + 18) != '-'
        || s.get_char(i + 23) != '-' {
        return None;
    }
    proof {
        lemma_pow16_consts();
        lemma_num_val_bounds(s@.subrange(i as int, i + 8int), 16);
        lemma_num_val_bounds(s@.subrange(i + 9int, i + 13int), 16);
        lemma_num_val_bounds(s@.subrange(i + 14int, i + 18int), 16);
        lemma_num_val_bounds(s@.subrange(i + 19int, i + 23int), 16);
        lemma_num_val_bounds(s@.subrange(i + 24int, i + 36int), 16);
    }
    let id: u128 = (g1 as u128) * 0x1000000000000000000000000 + (g2 as u128)
        * 0x100000000000000000000 + (g3 as u128) * 0x10000000000000000 + (g4 as u128)
        * 0x1000000000000 + (g5 as u128);
    Some((id, i + 36))
}

} // verus!
