//! Hexadecimal text: fixed-width lower-case fields, upper-case encodings of
//! byte strings, and case-insensitive decoding, with round-trip lemmas.

use vstd::prelude::*;
use vstd::arithmetic::power::*;
use vstd::arithmetic::mul::*;
use vstd::arithmetic::div_mod::*;
use crate::digits::{all_radix_digits, char_digit_val, digit_to_char, lemma_digit_char_val,
    lemma_digit_char_inverse, lemma_num_val_bounds, num_val, radix_digit_val};
use crate::strutil::push_char;

verus! {

// ------------------------- fixed-width lower-case hex -------------------------

/// `width` lower-case hexadecimal digits of `n`, zero padded, most
/// significant first.
pub open spec fn spec_hex_fixed(n: nat, width: nat) -> Seq<char>
    decreases width,
{
    if width == 0 {
        Seq::empty()
    } else {
        spec_hex_fixed(n / 16, (width - 1) as nat).push(digit_to_char((n % 16) as int))
    }
}

/// A fixed-width hex field is all hex digits, has the requested width, and
/// evaluates back to `n` when `n` fits in it.
pub proof fn lemma_hex_fixed_ok(n: nat, width: nat)
    requires
        n < pow(16, width),
    ensures
        spec_hex_fixed(n, width).len() == width,
        all_radix_digits(spec_hex_fixed(n, width), 16),
        num_val(spec_hex_fixed(n, width), 16) == n,
    decreases width,
{
    let s = spec_hex_fixed(n, width);
    if width == 0 {
        lemma_pow0(16);
    } else {
        let w0 = (width - 1) as nat;
        let p0 = pow(16, w0);
        assert(pow(16, width) == 16 * p0) by {
            lemma_pow_adds(16, 1, w0);
            lemma_pow1(16);
        }
        assert(n / 16 < p0) by {
            if n / 16 >= p0 {
                assert(16 * (n / 16) >= 16 * p0) by {
                    lemma_mul_inequality(p0 as int, (n / 16) as int, 16);
                }
            }
        }
        lemma_hex_fixed_ok(n / 16, w0);
        lemma_digit_char_val((n % 16) as int);
        let s0 = spec_hex_fixed(n / 16, w0);
        assert(s.drop_last() =~= s0);
    }
}

/// Append the `width`-digit lower-case hex field of `n` to `out`.
pub fn push_hex_fixed(out: &mut String, n: u64, width: usize)
    requires
        (n as nat) < pow(16, width as nat),
    ensures
        final(out)@ == old(out)@ + spec_hex_fixed(n as nat, width as nat),
    decreases width,
{
    if width == 0 {
        proof {
            assert(old(out)@ + spec_hex_fixed(n as nat, 0) =~= old(out)@);
        }
        return ;
    }
    proof {
        let w0 = (width - 1) as nat;
        let p0 = pow(16, w0);
        assert(pow(16, width as nat) == 16 * p0) by {
            lemma_pow_adds(16, 1, w0);
            lemma_pow1(16);
        }
        assert(n as nat / 16 < p0) by {
            if n as nat / 16 >= p0 {
                assert(16 * (n as nat / 16) >= 16 * p0) by {
                    lemma_mul_inequality(p0 as int, (n as nat / 16) as int, 16);
                }
            }
        }
    }
    push_hex_fixed(out, n / 16, width - 1);
    let d: u8 = (n % 16) as u8;
    let c: char = if d < 10 {
        (48 + d) as char
    } else {
        (87 + d) as char
    };
    push_char(out, c);
}

/// Parse of a fixed-width lower-case hex field at position `i`.
pub open spec fn spec_parse_hex_fixed(s: Seq<char>, i: int, width: nat) -> Option<int>
    recommends
        0 <= i <= s.len(),
{
    if i + width <= s.len() && all_radix_digits(s.subrange(i, i + width), 16) {
        Some(num_val(s.subrange(i, i + width), 16))
    } else {
        None
    }
}

/// Parsing right after serializing gives the field back.
pub proof fn lemma_parse_of_hex_fixed(s: Seq<char>, i: int, n: nat, width: nat)
    requires
        n < pow(16, width),
        0 <= i,
        i + width <= s.len(),
        s.subrange(i, i + width) =~= spec_hex_fixed(n, width),
    ensures
        spec_parse_hex_fixed(s, i, width) == Some(n as int),
{
    lemma_hex_fixed_ok(n, width);
}

/// Fixed-width hex fields are unique: an all-digit string of width `w` is
/// the fixed-width serialization of its own value.
pub proof fn lemma_hex_fixed_unique(b: Seq<char>, w: nat)
    requires
        b.len() == w,
        all_radix_digits(b, 16),
    ensures
        b =~= spec_hex_fixed(num_val(b, 16) as nat, w),
    decreases w,
{
    lemma_num_val_bounds(b, 16);
    if w == 0 {
    } else {
        let b0 = b.drop_last();
        let d = b.last();
        assert(all_radix_digits(b0, 16));
        lemma_num_val_bounds(b0, 16);
        let v0 = num_val(b0, 16);
        let n = num_val(b, 16);
        assert(n == v0 * 16 + char_digit_val(d));
        assert(n / 16 == v0 && n % 16 == char_digit_val(d)) by {
            lemma_fundamental_div_mod_converse(n, 16, v0, char_digit_val(d));
        }
        lemma_hex_fixed_unique(b0, (w - 1) as nat);
        lemma_digit_char_inverse(d, 16);
        assert(b =~= b0.push(d));
    }
}

/// A parsed fixed-width field is the only text it could have been.
pub proof fn lemma_parse_hex_fixed_sound(s: Seq<char>, i: int, width: nat)
    requires
        0 <= i <= s.len(),
        spec_parse_hex_fixed(s, i, width) is Some,
    ensures
        ({
            let v = spec_parse_hex_fixed(s, i, width)->Some_0;
            &&& i + width <= s.len()
            &&& 0 <= v < pow(16, width)
            &&& s.subrange(i, i + width) =~= spec_hex_fixed(v as nat, width)
        }),
{
    let body = s.subrange(i, i + width);
    lemma_num_val_bounds(body, 16);
    lemma_hex_fixed_unique(body, width);
}

/// Parse `width` lower-case hex digits at position `i` of `s`, whose
/// character length is `slen`.
pub fn parse_hex_fixed(s: &str, slen: usize, i: usize, width: usize) -> (r: Option<u64>)
    requires
        slen == s@.len(),
        i <= slen,
        width <= 15,
    ensures
        match r {
            Some(v) => spec_parse_hex_fixed(s@, i as int, width as nat) == Some(v as int),
            None => spec_parse_hex_fixed(s@, i as int, width as nat) is None,
        },
{
    if width > slen - i {
        return None;
    }
    let mut acc: u64 = 0;
    let mut m: usize = 0;
    proof {
        lemma_pow0(16);
        assert(s@.subrange(i as int, i as int) =~= Seq::<char>::empty());
    }
    while m < width
        invariant
            m <= width <= 15,
            i + width <= slen == s@.len(),
            all_radix_digits(s@.subrange(i as int, i + m as int), 16),
            acc as int == num_val(s@.subrange(i as int, i + m as int), 16),
            (acc as int) < pow(16, m as nat),
        decreases width - m,
    {
        let c = s.get_char(i + m);
        let d = match radix_digit_val(c, 16) {
            Some(d) => d,
            None => {
                proof {
                    let pre = s@.subrange(i as int, i + width as int);
                    assert(pre[m as int] == s@[i + m as int]);
                }
                return None;
            },
        };
        proof {
            let pre = s@.subrange(i as int, i + m as int);
            let post = s@.subrange(i as int, i + m + 1int);
            assert(post.drop_last() =~= pre);
            assert(post.last() == s@[i + m as int]);
            assert(pow(16, (m + 1) as nat) == pow(16, m as nat) * 16) by {
                lemma_pow_adds(16, m as nat, 1);
                lemma_pow1(16);
            }
            assert(acc as int * 16 <= (pow(16, m as nat) - 1) * 16) by {
                lemma_mul_inequality(acc as int, pow(16, m as nat) - 1, 16);
            }
            assert((pow(16, m as nat) - 1) * 16 == pow(16, m as nat) * 16 - 16) by {
                lemma_mul_is_distributive_sub_other_way(16, pow(16, m as nat), 1);
            }
            lemma_pow_increases(16, (m + 1) as nat, 15);
            lemma_pow16_15();
        }
        acc = acc * 16 + (d as u64);
        m = m + 1;
    }
    proof {
        assert(s@.subrange(i as int, i + m as int) =~= s@.subrange(i as int, i + width as int));
    }
    Some(acc)
}

/// The exact value of 16^15, which fits in a `u64`.
pub proof fn lemma_pow16_15()
    ensures
        pow(16, 15) == 1152921504606846976,
{
    reveal_with_fuel(pow, 16);
}

// ------------------------- hex of byte strings -------------------------

/// The character for a digit value, upper case.
pub open spec fn upper_digit_to_char(d: int) -> char
    recommends
        0 <= d < 16,
{
    if d < 10 {
        ((48 + d) as u8) as char
    } else {
        ((55 + d) as u8) as char
    }
}

/// Numeric value of a hex digit character of either case; 16 for every
/// other character.
pub open spec fn any_hex_val(c: char) -> int {
    if 48 <= c as int && c as int <= 57 {
        c as int - 48
    } else if 97 <= c as int && c as int <= 102 {
        c as int - 87
    } else if 65 <= c as int && c as int <= 70 {
        c as int - 55
    } else {
        16
    }
}

pub open spec fn is_any_hex(c: char) -> bool {
    any_hex_val(c) < 16
}

/// An upper-case hex digit, as the canonical encoding writes them.
pub open spec fn is_upper_hex(c: char) -> bool {
    (48 <= c as int && c as int <= 57) || (65 <= c as int && c as int <= 70)
}

pub proof fn lemma_upper_digit_char_val(d: int)
    requires
        0 <= d < 16,
    ensures
        any_hex_val(upper_digit_to_char(d)) == d,
{
}

/// Upper-case hex encoding of a byte string: two digits per byte, most
/// significant first.
pub open spec fn spec_hex_of_bytes(b: Seq<u8>) -> Seq<char>
    decreases b.len(),
{
    if b.len() == 0 {
        Seq::empty()
    } else {
        spec_hex_of_bytes(b.drop_last()) + seq![
            upper_digit_to_char(b.last() as int / 16),
            upper_digit_to_char(b.last() as int % 16),
        ]
    }
}

pub proof fn lemma_hex_of_bytes_len(b: Seq<u8>)
    ensures
        spec_hex_of_bytes(b).len() == 2 * b.len(),
    decreases b.len(),
{
    if b.len() > 0 {
        lemma_hex_of_bytes_len(b.drop_last());
    }
}

/// Append the upper-case hex encoding of `b` to `out`.
pub fn push_hex_of_bytes(out: &mut String, b: &Vec<u8>)
    ensures
        final(out)@ == old(out)@ + spec_hex_of_bytes(b@),
{
    let mut k: usize = 0;
    proof {
        assert(old(out)@ + spec_hex_of_bytes(b@.take(0)) =~= old(out)@);
    }
    while k < b.len()
        invariant
            k <= b@.len(),
            out@ == old(out)@ + spec_hex_of_bytes(b@.take(k as int)),
        decreases b@.len() - k,
    {
        let byte = b[k];
        let hi: u8 = byte / 16;
        let lo: u8 = byte % 16;
        let chi: char = if hi < 10 {
            (48 + hi) as char
        } else {
            (55 + hi) as char
        };
        let clo: char = if lo < 10 {
            (48 + lo) as char
        } else {
            (55 + lo) as char
        };
        push_char(out, chi);
        push_char(out, clo);
        proof {
            let pre = b@.take(k as int);
            let post = b@.take(k + 1int);
            assert(post.drop_last() =~= pre);
            assert(post.last() == b@[k as int]);
            assert(out@ + seq![chi] + seq![clo] =~= out@ + seq![chi, clo]);
            assert(old(out)@ + spec_hex_of_bytes(pre) + seq![chi, clo] =~= old(out)@ + (
            spec_hex_of_bytes(pre) + seq![chi, clo]));
        }
        k = k + 1;
    }
    proof {
        assert(b@.take(b@.len() as int) =~= b@);
    }
}

/// The bytes denoted by `2 * count` hex characters starting at `i`,
/// accepting either case.
pub open spec fn hex_pair_bytes(s: Seq<char>, i: int, count: nat) -> Seq<u8>
    recommends
        0 <= i,
        i + 2 * count <= s.len(),
    decreases count,
{
    if count == 0 {
        Seq::empty()
    } else {
        hex_pair_bytes(s, i, (count - 1) as nat).push(
            (any_hex_val(s[i + 2 * (count - 1)]) * 16 + any_hex_val(s[i + 2 * (count - 1) + 1])) as u8,
        )
    }
}

/// Parse of `count` bytes written as `2 * count` upper-case hex characters
/// at position `i`.
pub open spec fn spec_parse_hex_bytes(s: Seq<char>, i: int, count: nat) -> Option<Seq<u8>>
    recommends
        0 <= i <= s.len(),
{
    if i + 2 * count <= s.len() && (forall|m: int|
        i <= m < i + 2 * count ==> is_upper_hex(#[trigger] s[m])) {
        Some(hex_pair_bytes(s, i, count))
    } else {
        None
    }
}

/// Parsing right after serializing gives the bytes back.
pub proof fn lemma_parse_of_hex_bytes(s: Seq<char>, i: int, b: Seq<u8>)
    requires
        0 <= i,
        i + 2 * b.len() <= s.len(),
        s.subrange(i, i + 2 * b.len()) =~= spec_hex_of_bytes(b),
    ensures
        spec_parse_hex_bytes(s, i, b.len()) == Some(b),
    decreases b.len(),
{
    lemma_hex_of_bytes_len(b);
    if b.len() == 0 {
        assert(hex_pair_bytes(s, i, 0) =~= b);
    } else {
        let b0 = b.drop_last();
        let h0 = spec_hex_of_bytes(b0);
        let h = spec_hex_of_bytes(b);
        lemma_hex_of_bytes_len(b0);
        assert(s.subrange(i, i + 2 * b0.len()) =~= h0) by {
            assert(forall|m: int|
                0 <= m < 2 * b0.len() ==> s.subrange(i, i + 2 * b.len())[m] == #[trigger] h[m]);
        }
        lemma_parse_of_hex_bytes(s, i, b0);
        let hi = b.last() as int / 16;
        let lo = b.last() as int % 16;
        lemma_upper_digit_char_val(hi);
        lemma_upper_digit_char_val(lo);
        assert(s[i + 2 * (b.len() - 1)] == h[2 * (b.len() - 1)]);
        assert(s[i + 2 * (b.len() - 1) + 1] == h[2 * (b.len() - 1) + 1]);
        assert(h[2 * (b.len() - 1)] == upper_digit_to_char(hi));
        assert(h[2 * (b.len() - 1) + 1] == upper_digit_to_char(lo));
        assert(hi * 16 + lo == b.last()) by {
            assert(b.last() as int == 16 * (b.last() as int / 16) + b.last() as int % 16);
        }
        assert(hex_pair_bytes(s, i, b.len()) =~= b);
    }
}

/// An upper-case hex digit character is recovered from its value.
pub proof fn lemma_upper_hex_inverse(c: char)
    requires
        is_upper_hex(c),
    ensures
        0 <= any_hex_val(c) < 16,
        upper_digit_to_char(any_hex_val(c)) == c,
{
}

/// A parsed hex byte string is the only text it could have been: when the
/// parse at `i` returns bytes, the characters consumed are exactly their
/// upper-case encoding.
pub proof fn lemma_parse_hex_bytes_sound(s: Seq<char>, i: int, count: nat)
    requires
        0 <= i <= s.len(),
        spec_parse_hex_bytes(s, i, count) is Some,
    ensures
        ({
            let b = spec_parse_hex_bytes(s, i, count)->Some_0;
            &&& b.len() == count
            &&& i + 2 * count <= s.len()
            &&& s.subrange(i, i + 2 * count) =~= spec_hex_of_bytes(b)
        }),
    decreases count,
{
    let b = hex_pair_bytes(s, i, count);
    if count == 0 {
        assert(b =~= Seq::<u8>::empty());
        assert(s.subrange(i, i) =~= spec_hex_of_bytes(b));
    } else {
        let c0 = (count - 1) as nat;
        assert(spec_parse_hex_bytes(s, i, c0) is Some);
        lemma_parse_hex_bytes_sound(s, i, c0);
        let b0 = hex_pair_bytes(s, i, c0);
        let c1 = s[i + 2 * c0];
        let c2 = s[i + 2 * c0 + 1];
        lemma_upper_hex_inverse(c1);
        lemma_upper_hex_inverse(c2);
        let hi = any_hex_val(c1);
        let lo = any_hex_val(c2);
        let byte = b.last();
        assert(byte == (hi * 16 + lo) as u8);
        assert(hi * 16 + lo < 256) by {
            lemma_mul_inequality(hi, 15, 16);
        }
        assert(byte as int == hi * 16 + lo);
        assert(byte as int / 16 == hi && byte as int % 16 == lo) by {
            lemma_fundamental_div_mod_converse(byte as int, 16, hi, lo);
        }
        assert(b.drop_last() =~= b0);
        lemma_hex_of_bytes_len(b0);
        assert(spec_hex_of_bytes(b) == spec_hex_of_bytes(b0) + seq![
            upper_digit_to_char(byte as int / 16),
            upper_digit_to_char(byte as int % 16),
        ]);
        assert(s.subrange(i, i + 2 * count) =~= spec_hex_of_bytes(b)) by {
            assert forall|m: int| 0 <= m < 2 * c0 implies s[i + m] == #[trigger] spec_hex_of_bytes(
                b0,
            )[m] by {
                assert(s.subrange(i, i + 2 * c0)[m] == s[i + m]);
            }
        }
    }
}

/// True when `c` is a hex digit of either case; its value when so.
pub fn any_hex_digit_val(c: char) -> (r: Option<u8>)
    ensures
        match r {
            Some(v) => is_any_hex(c) && v as int == any_hex_val(c),
            None => !is_any_hex(c),
        },
{
    let x: u32 = c as u32;
    if 48 <= x && x <= 57 {
        Some((x - 48) as u8)
    } else if 97 <= x && x <= 102 {
        Some((x - 87) as u8)
    } else if 65 <= x && x <= 70 {
        Some((x - 55) as u8)
    } else {
        None
    }
}

/// True when `c` is an upper-case hex digit; its value when so.
pub fn upper_hex_digit_val(c: char) -> (r: Option<u8>)
    ensures
        match r {
            Some(v) => is_upper_hex(c) && v as int == any_hex_val(c),
            None => !is_upper_hex(c),
        },
{
    let x: u32 = c as u32;
    if 48 <= x && x <= 57 {
        Some((x - 48) as u8)
    } else if 65 <= x && x <= 70 {
        Some((x - 55) as u8)
    } else {
        None
    }
}

/// Parse `count` bytes written as `2 * count` upper-case hex characters at
/// position `i` of `s`, whose character length is `slen`.
pub fn parse_hex_bytes(s: &str, slen: usize, i: usize, count: usize) -> (r: Option<Vec<u8>>)
    requires
        slen == s@.len(),
        i <= slen,
    ensures
        match r {
            Some(v) => spec_parse_hex_bytes(s@, i as int, count as nat) == Some(v@),
            None => spec_parse_hex_bytes(s@, i as int, count as nat) is None,
        },
{
    if count > (slen - i) / 2 {
        return None;
    }
    let mut out: Vec<u8> = Vec::new();
    let mut k: usize = 0;
    while k < count
        invariant
            k <= count,
            i + 2 * count <= slen == s@.len(),
            out@ == hex_pair_bytes(s@, i as int, k as nat),
            forall|m: int| i <= m < i + 2 * k ==> is_upper_hex(#[trigger] s@[m]),
        decreases count - k,
    {
        let chi = s.get_char(i + 2 * k);
        let clo = s.get_char(i + 2 * k + 1);
        let hi = match upper_hex_digit_val(chi) {
            Some(v) => v,
            None => {
                return None;
            },
        };
        let lo = match upper_hex_digit_val(clo) {
            Some(v) => v,
            None => {
                return None;
            },
        };
        out.push(hi * 16 + lo);
        k = k + 1;
        proof {
            assert(out@ =~= hex_pair_bytes(s@, i as int, k as nat));
        }
    }
    Some(out)
}

/// Decode a whole string of hex characters (either case, even length) into
/// bytes; `None` when the string is not such.
pub open spec fn spec_hex_decode(s: Seq<char>) -> Option<Seq<u8>> {
    if s.len() % 2 == 0 && (forall|m: int| 0 <= m < s.len() ==> is_any_hex(#[trigger] s[m])) {
        Some(hex_pair_bytes(s, 0, (s.len() / 2) as nat))
    } else {
        None
    }
}

/// Decode an entire hex string (either case) into bytes.
pub fn decode_hex(s: &str) -> (r: Option<Vec<u8>>)
    ensures
        match r {
            Some(v) => spec_hex_decode(s@) == Some(v@),
            None => spec_hex_decode(s@) is None,
        },
{
    let slen = s.unicode_len();
    if slen % 2 != 0 {
        return None;
    }
    let count = slen / 2;
    let mut out: Vec<u8> = Vec::new();
    let mut k: usize = 0;
    while k < count
        invariant
            k <= count,
            2 * count == slen,
            slen == s@.len(),
            out@ == hex_pair_bytes(s@, 0, k as nat),
            forall|m: int| 0 <= m < 2 * k ==> is_any_hex(#[trigger] s@[m]),
        decreases count - k,
    {
        let chi = s.get_char(2 * k);
        let clo = s.get_char(2 * k + 1);
        let hi = match any_hex_digit_val(chi) {
            Some(v) => v,
            None => {
                return None;
            },
        };
        let lo = match any_hex_digit_val(clo) {
            Some(v) => v,
            None => {
                return None;
            },
        };
        out.push(hi * 16 + lo);
        k = k + 1;
        proof {
            assert(out@ =~= hex_pair_bytes(s@, 0, k as nat));
        }
    }
    Some(out)
}

} // verus!
