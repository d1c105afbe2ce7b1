//! Digit strings in base 10 and lower-case base 16: canonical serialization,
//! values, and parsing, with round-trip lemmas.

use vstd::prelude::*;
use vstd::arithmetic::power::*;
use vstd::arithmetic::mul::*;
use vstd::arithmetic::div_mod::*;
use crate::strutil::push_char;

verus! {

/// Numeric value of a decimal or lower-case hexadecimal digit character;
/// 16 for every other character.
pub open spec fn char_digit_val(c: char) -> int {
    if 48 <= c as int && c as int <= 57 {
        c as int - 48
    } else if 97 <= c as int && c as int <= 102 {
        c as int - 87
    } else {
        16
    }
}

/// A digit character of the given base (10, or 16 with lower-case letters).
pub open spec fn is_radix_digit(c: char, base: int) -> bool {
    char_digit_val(c) < base
}

/// The character for a digit value, lower case.
pub open spec fn digit_to_char(d: int) -> char
    recommends
        0 <= d < 16,
{
    if d < 10 {
        ((48 + d) as u8) as char
    } else {
        ((87 + d) as u8) as char
    }
}

pub proof fn lemma_digit_char_val(d: int)
    requires
        0 <= d < 16,
    ensures
        char_digit_val(digit_to_char(d)) == d,
{
}

/// A digit character is recovered from its value.
pub proof fn lemma_digit_char_inverse(c: char, base: int)
    requires
        2 <= base <= 16,
        is_radix_digit(c, base),
    ensures
        digit_to_char(char_digit_val(c)) == c,
{
}

/// Canonical digit string of `n`: most significant digit first, no leading
/// zeros, zero written as a single `0`.
pub open spec fn spec_num_chars(n: nat, base: nat) -> Seq<char>
    recommends
        base == 10 || base == 16,
    decreases n,
{
    if base == 16 {
        if n < 16 {
            seq![digit_to_char(n as int)]
        } else {
            spec_num_chars(n / 16, base).push(digit_to_char((n % 16) as int))
        }
    } else {
        if n < 10 {
            seq![digit_to_char(n as int)]
        } else {
            spec_num_chars(n / 10, base).push(digit_to_char((n % 10) as int))
        }
    }
}

/// Value of a digit string, most significant digit first.
pub open spec fn num_val(s: Seq<char>, base: int) -> int
    decreases s.len(),
{
    if s.len() == 0 {
        0
    } else {
        num_val(s.drop_last(), base) * base + char_digit_val(s.last())
    }
}

pub open spec fn all_radix_digits(s: Seq<char>, base: int) -> bool {
    forall|k: int| 0 <= k < s.len() ==> is_radix_digit(#[trigger] s[k], base)
}

/// Canonical form: nonempty, all digits, and no leading zero unless the
/// string is exactly "0".
pub open spec fn is_num_canon(s: Seq<char>, base: int) -> bool {
    &&& s.len() > 0
    &&& all_radix_digits(s, base)
    &&& (s[0] == '0' ==> s.len() == 1)
}

/// The value of a one-character digit string is the digit's value.
pub proof fn lemma_num_val_single(c: char, base: int)
    ensures
        num_val(seq![c], base) == char_digit_val(c),
{
    let s = seq![c];
    assert(s.drop_last() =~= Seq::<char>::empty());
    assert(num_val(Seq::<char>::empty(), base) == 0);
    assert(s.last() == c);
}

/// The canonical digit string of `n` is canonical and evaluates back to `n`.
pub proof fn lemma_num_chars_ok(n: nat, base: nat)
    requires
        base == 10 || base == 16,
    ensures
        is_num_canon(spec_num_chars(n, base), base as int),
        num_val(spec_num_chars(n, base), base as int) == n,
    decreases n,
{
    let s = spec_num_chars(n, base);
    if n < base {
        lemma_digit_char_val(n as int);
        lemma_num_val_single(digit_to_char(n as int), base as int);
        assert(digit_to_char(n as int) == '0' ==> n == 0) by {
            lemma_digit_char_val(n as int);
            assert(char_digit_val('0') == 0);
        }
    } else {
        lemma_num_chars_ok(n / base, base);
        let s0 = spec_num_chars(n / base, base);
        lemma_digit_char_val((n % base) as int);
        assert(s == s0.push(digit_to_char((n % base) as int)));
        assert(s.drop_last() =~= s0);
        assert(s[0] == s0[0]);
        if s[0] == '0' {
            assert(s0.len() == 1);
            assert(num_val(s0, base as int) == n / base);
            assert(s0 =~= seq![s0[0]]);
            lemma_num_val_single(s0[0], base as int);
            assert(char_digit_val('0') == 0);
            assert(n / base >= 1);
            assert(false);
        }
    }
}

/// An all-digit string's value is at least 0 and below `base^len`.
pub proof fn lemma_num_val_bounds(s: Seq<char>, base: int)
    requires
        2 <= base <= 16,
        all_radix_digits(s, base),
    ensures
        0 <= num_val(s, base) < pow(base, s.len() as nat),
    decreases s.len(),
{
    if s.len() == 0 {
        lemma_pow0(base);
    } else {
        let s0 = s.drop_last();
        assert(all_radix_digits(s0, base));
        lemma_num_val_bounds(s0, base);
        assert(is_radix_digit(s.last(), base));
        assert(char_digit_val(s.last()) < base);
        let v0 = num_val(s0, base);
        let p0 = pow(base, s0.len() as nat);
        assert(pow(base, s.len() as nat) == p0 * base) by {
            lemma_pow_adds(base, s0.len() as nat, 1);
            lemma_pow1(base);
        }
        assert(v0 * base <= (p0 - 1) * base) by {
            lemma_mul_inequality(v0, p0 - 1, base);
        }
        assert((p0 - 1) * base == p0 * base - base) by {
            lemma_mul_is_distributive_sub_other_way(base, p0, 1);
        }
        assert(0 <= char_digit_val(s.last()));
        assert(0 <= v0 * base) by {
            lemma_mul_nonnegative(v0, base);
        }
    }
}

/// A canonical string of two or more digits has a value of at least
/// `base^(len-1)`.
pub proof fn lemma_num_canon_lower(s: Seq<char>, base: int)
    requires
        2 <= base <= 16,
        all_radix_digits(s, base),
        s.len() >= 1,
        s[0] != '0',
    ensures
        num_val(s, base) >= pow(base, (s.len() - 1) as nat),
    decreases s.len(),
{
    if s.len() == 1 {
        assert(char_digit_val(s[0]) >= 1) by {
            assert(char_digit_val('0') == 0);
            assert(char_digit_val(s[0]) >= 0);
            if char_digit_val(s[0]) == 0 {
                assert(s[0] as int == 48);
                assert(s[0] == '0');
            }
        }
        assert(s =~= seq![s[0]]);
        lemma_num_val_single(s[0], base);
        lemma_pow0(base);
    } else {
        let s0 = s.drop_last();
        assert(all_radix_digits(s0, base));
        assert(s0[0] == s[0]);
        lemma_num_canon_lower(s0, base);
        let p0 = pow(base, (s0.len() - 1) as nat);
        assert(pow(base, (s.len() - 1) as nat) == p0 * base) by {
            lemma_pow_adds(base, (s0.len() - 1) as nat, 1);
            lemma_pow1(base);
        }
        assert(num_val(s0, base) * base >= p0 * base) by {
            lemma_mul_inequality(p0, num_val(s0, base), base);
        }
        assert(char_digit_val(s.last()) >= 0);
    }
}

/// Canonical digit strings are unique: a canonical string is the canonical
/// serialization of its own value.
pub proof fn lemma_num_canon_unique(b: Seq<char>, base: nat)
    requires
        base == 10 || base == 16,
        is_num_canon(b, base as int),
    ensures
        b =~= spec_num_chars(num_val(b, base as int) as nat, base),
    decreases b.len(),
{
    let bi = base as int;
    lemma_num_val_bounds(b, bi);
    let n = num_val(b, bi);
    if b.len() == 1 {
        assert(b =~= seq![b[0]]);
        lemma_num_val_single(b[0], bi);
        assert(n == char_digit_val(b[0]));
        lemma_digit_char_inverse(b[0], bi);
        assert(n < bi);
    } else {
        let b0 = b.drop_last();
        let d = b.last();
        assert(all_radix_digits(b0, bi));
        assert(b0[0] == b[0]);
        assert(b0[0] != '0');
        assert(is_num_canon(b0, bi));
        lemma_num_canon_lower(b0, bi);
        assert(pow(bi, (b0.len() - 1) as nat) >= 1) by {
            lemma_pow_positive(bi, (b0.len() - 1) as nat);
        }
        let v0 = num_val(b0, bi);
        assert(v0 >= 1);
        assert(n == v0 * bi + char_digit_val(d));
        assert(v0 * bi >= 1 * bi) by {
            lemma_mul_inequality(1, v0, bi);
        }
        assert(n >= bi);
        assert(n / bi == v0 && n % bi == char_digit_val(d)) by {
            lemma_fundamental_div_mod_converse(n, bi, v0, char_digit_val(d));
        }
        lemma_num_canon_unique(b0, base);
        lemma_digit_char_inverse(d, bi);
        assert(b =~= b0.push(d));
    }
}

/// A parsed number is the only text it could have been: when the parse at
/// `i` returns `(v, j)`, the characters from `i` to `j` are exactly the
/// canonical digits of `v`, and no digit follows.
pub proof fn lemma_parse_num_sound(s: Seq<char>, i: int, base: int, max: int)
    requires
        base == 10 || base == 16,
        0 <= i <= s.len(),
        spec_parse_num(s, i, base, max) is Some,
    ensures
        ({
            let (v, j) = spec_parse_num(s, i, base, max)->Some_0;
            &&& i < j <= s.len()
            &&& 0 <= v <= max
            &&& s.subrange(i, j) =~= spec_num_chars(v as nat, base as nat)
            &&& (j == s.len() || !is_radix_digit(s[j], base))
        }),
{
    lemma_run_end_props(s, i, base);
    let j = radix_run_end(s, i, base);
    let body = s.subrange(i, j);
    lemma_num_val_bounds(body, base);
    lemma_num_canon_unique(body, base as nat);
}

/// Index of the first character at or after `i` that is not a digit of
/// `base` (the string's length when all remaining characters are digits).
pub open spec fn radix_run_end(s: Seq<char>, i: int, base: int) -> int
    recommends
        0 <= i <= s.len(),
    decreases s.len() - i,
{
    if i < s.len() && is_radix_digit(s[i], base) {
        radix_run_end(s, i + 1, base)
    } else {
        i
    }
}

/// Everything before the run end is a digit; the run end itself is not.
pub proof fn lemma_run_end_props(s: Seq<char>, i: int, base: int)
    requires
        0 <= i <= s.len(),
    ensures
        i <= radix_run_end(s, i, base) <= s.len(),
        forall|m: int| i <= m < radix_run_end(s, i, base) ==> is_radix_digit(#[trigger] s[m], base),
        radix_run_end(s, i, base) < s.len() ==> !is_radix_digit(s[radix_run_end(s, i, base)], base),
    decreases s.len() - i,
{
    if i < s.len() && is_radix_digit(s[i], base) {
        lemma_run_end_props(s, i + 1, base);
    }
}

/// `radix_run_end` is exactly the end of the digit run that starts at `i`.
pub proof fn lemma_run_end_of(s: Seq<char>, i: int, j: int, base: int)
    requires
        0 <= i <= j <= s.len(),
        forall|m: int| i <= m < j ==> is_radix_digit(#[trigger] s[m], base),
        j == s.len() || !is_radix_digit(s[j], base),
    ensures
        radix_run_end(s, i, base) == j,
    decreases j - i,
{
    if i < j {
        lemma_run_end_of(s, i + 1, j, base);
    }
}

/// Parse of a canonical number at position `i`: the value and the position
/// after it, when the digit run beginning at `i` is nonempty, canonical,
/// and evaluates to at most `max`.
pub open spec fn spec_parse_num(s: Seq<char>, i: int, base: int, max: int) -> Option<(int, int)>
    recommends
        0 <= i <= s.len(),
{
    let j = radix_run_end(s, i, base);
    let body = s.subrange(i, j);
    if i < j && is_num_canon(body, base) && num_val(body, base) <= max {
        Some((num_val(body, base), j))
    } else {
        None
    }
}

/// Parsing right after serializing gives the number back: if the canonical
/// digits of `n` sit at position `i` of `s` and are followed by a non-digit
/// (or the end), the parse at `i` returns `n`.
pub proof fn lemma_parse_of_num_chars(s: Seq<char>, i: int, n: nat, base: nat, max: int)
    requires
        base == 10 || base == 16,
        n <= max,
        0 <= i,
        i + spec_num_chars(n, base).len() <= s.len(),
        s.subrange(i, i + spec_num_chars(n, base).len() as int) =~= spec_num_chars(n, base),
        i + spec_num_chars(n, base).len() == s.len() || !is_radix_digit(
            s[i + spec_num_chars(n, base).len() as int],
            base as int,
        ),
    ensures
        spec_parse_num(s, i, base as int, max) == Some(
            (n as int, i + spec_num_chars(n, base).len()),
        ),
{
    let t = spec_num_chars(n, base);
    let j = i + t.len() as int;
    lemma_num_chars_ok(n, base);
    assert(forall|m: int| i <= m < j ==> is_radix_digit(#[trigger] s[m], base as int)) by {
        assert(forall|m: int| i <= m < j ==> s[m] == t[m - i]);
    }
    lemma_run_end_of(s, i, j, base as int);
    assert(s.subrange(i, j) =~= t);
}

/// True when `c` is a digit of `base`; its value when so.
pub fn radix_digit_val(c: char, base: u64) -> (r: Option<u8>)
    requires
        base == 10 || base == 16,
    ensures
        match r {
            Some(v) => is_radix_digit(c, base as int) && v as int == char_digit_val(c),
            None => !is_radix_digit(c, base as int),
        },
{
    let x: u32 = c as u32;
    if 48 <= x && x <= 57 {
        Some((x - 48) as u8)
    } else if base == 16 && 97 <= x && x <= 102 {
        Some((x - 87) as u8)
    } else {
        None
    }
}

/// Append the canonical digit string of `n` to `out`.
pub fn push_num_chars(out: &mut String, n: u64, base: u64)
    requires
        base == 10 || base == 16,
    ensures
        final(out)@ == old(out)@ + spec_num_chars(n as nat, base as nat),
    decreases n,
{
    if n >= base {
        push_num_chars(out, n / base, base);
    }
    let d: u8 = (n % base) as u8;
    let c: char = if d < 10 {
        (48 + d) as char
    } else {
        (87 + d) as char
    };
    proof {
        if n < base {
            assert(spec_num_chars(n as nat, base as nat) =~= seq![
                digit_to_char((n % base) as int),
            ]);
        }
    }
    push_char(out, c);
}

/// Parse a canonical number of `base` at position `i`, bounded by `max`.
/// `slen` is the character length of `s`.
pub fn parse_num(s: &str, slen: usize, i: usize, base: u64, max: u64) -> (r: Option<(u64, usize)>)
    requires
        slen == s@.len(),
        i <= slen,
        base == 10 || base == 16,
    ensures
        match r {
            Some((v, j)) => spec_parse_num(s@, i as int, base as int, max as int) == Some(
                (v as int, j as int),
            ) && i < j <= slen,
            None => spec_parse_num(s@, i as int, base as int, max as int) is None,
        },
{
    let mut j = i;
    while j < slen && radix_digit_val(s.get_char(j), base).is_some()
        invariant
            i <= j <= slen,
            slen == s@.len(),
            base == 10 || base == 16,
            forall|m: int| i <= m < j ==> is_radix_digit(#[trigger] s@[m], base as int),
        decreases slen - j,
    {
        j = j + 1;
    }
    proof {
        lemma_run_end_of(s@, i as int, j as int, base as int);
    }
    if j == i {
        return None;
    }
    let ghost body = s@.subrange(i as int, j as int);
    proof {
        assert(all_radix_digits(body, base as int));
    }
    let c0 = s.get_char(i);
    if c0 == '0' && j - i > 1 {
        proof {
            assert(body[0] == '0');
        }
        return None;
    }
    proof {
        assert(is_num_canon(body, base as int));
    }
    let cap: usize = if base == 10 {
        20
    } else {
        16
    };
    if j - i > cap {
        proof {
            lemma_num_canon_lower_applies(body, base as int);
            if base == 10 {
                lemma_pow10_20();
                lemma_pow_increases(10, 20, (body.len() - 1) as nat);
            } else {
                lemma_pow16_16();
                lemma_pow_increases(16, 16, (body.len() - 1) as nat);
            }
        }
        return None;
    }
    let mut acc: u128 = 0;
    let mut m = i;
    proof {
        lemma_pow0(base as int);
        assert(s@.subrange(i as int, i as int) =~= Seq::<char>::empty());
    }
    while m < j
        invariant
            i <= m <= j <= slen,
            slen == s@.len(),
            base == 10 || base == 16,
            j - i <= cap,
            cap == if base == 10 { 20int } else { 16int },
            forall|k: int| i <= k < j ==> is_radix_digit(#[trigger] s@[k], base as int),
            acc as int == num_val(s@.subrange(i as int, m as int), base as int),
            (acc as int) < pow(base as int, (m - i) as nat),
        decreases j - m,
    {
        let c = s.get_char(m);
        let d = match radix_digit_val(c, base) {
            Some(d) => d,
            None => {
                proof {
                    assert(false);
                }
                0
            },
        };
        proof {
            let pre = s@.subrange(i as int, m as int);
            let post = s@.subrange(i as int, m + 1int);
            assert(post.drop_last() =~= pre);
            assert(post.last() == s@[m as int]);
            assert(pow(base as int, ((m + 1) - i) as nat) == pow(base as int, (m - i) as nat)
                * base) by {
                lemma_pow_adds(base as int, (m - i) as nat, 1);
                lemma_pow1(base as int);
            }
            assert(acc as int * (base as int) <= (pow(base as int, (m - i) as nat) - 1) * (
            base as int)) by {
                lemma_mul_inequality(acc as int, pow(base as int, (m - i) as nat) - 1, base as int);
            }
            assert((pow(base as int, (m - i) as nat) - 1) * (base as int) == pow(
                base as int,
                (m - i) as nat,
            ) * (base as int) - (base as int)) by {
                lemma_mul_is_distributive_sub_other_way(
                    base as int,
                    pow(base as int, (m - i) as nat),
                    1,
                );
            }
            if base == 10 {
                lemma_pow_increases(10, ((m + 1) - i) as nat, 20);
                lemma_pow10_20();
            } else {
                lemma_pow_increases(16, ((m + 1) - i) as nat, 16);
                lemma_pow16_16();
            }
        }
        acc = acc * (base as u128) + (d as u128);
        m = m + 1;
    }
    proof {
        assert(s@.subrange(i as int, m as int) =~= body);
    }
    if acc <= max as u128 {
        Some((acc as u64, j))
    } else {
        None
    }
}

/// The exact value of 10^20, which is above `u64::MAX` and below `u128::MAX`.
proof fn lemma_pow10_20()
    ensures
        pow(10, 20) == 100000000000000000000,
{
    reveal_with_fuel(pow, 21);
}

/// The exact value of 16^16, which is above `u64::MAX` and below `u128::MAX`.
proof fn lemma_pow16_16()
    ensures
        pow(16, 16) == 18446744073709551616,
{
    reveal_with_fuel(pow, 17);
}

/// Helper: a canonical digit string of length at least 2 never starts with
/// '0', so the lower bound applies.
proof fn lemma_num_canon_lower_applies(s: Seq<char>, base: int)
    requires
        2 <= base <= 16,
        is_num_canon(s, base),
        s.len() >= 2,
    ensures
        num_val(s, base) >= pow(base, (s.len() - 1) as nat),
{
    lemma_num_canon_lower(s, base);
}

} // verus!
