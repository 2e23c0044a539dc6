//! Decimal and hexadecimal notation.

use vstd::prelude::*;

verus! {

/// `c` is one of the digits `0` to `9`.
pub open spec fn is_digit(c: char) -> bool {
    '0' <= c <= '9'
}

/// The number that the digit `c` stands for.
pub open spec fn digit_value(c: char) -> int {
    c as u32 - 0x30
}

/// The number that a text of decimal digits stands for.
pub open spec fn digits_value(s: Seq<char>) -> int
    decreases s.len(),
{
    if s.len() == 0 {
        0
    } else {
        digits_value(s.drop_last()) * 10 + digit_value(s.last())
    }
}

/// Every character of `s` is a decimal digit.
pub open spec fn all_digits(s: Seq<char>) -> bool {
    forall|i: int| 0 <= i < s.len() ==> is_digit(#[trigger] s[i])
}

/// The number that `s` denotes: an optional `+`, then one or more decimal
/// digits and nothing else, with a value that a `u64` can hold.
pub open spec fn parsed_u64(s: Seq<char>) -> Option<u64> {
    let digits = if s.len() > 0 && s[0] == '+' {
        s.drop_first()
    } else {
        s
    };
    if digits.len() > 0 && all_digits(digits) && digits_value(digits) <= u64::MAX {
        Some(digits_value(digits) as u64)
    } else {
        None
    }
}

/// The value of a text of digits is at least that of each of its
/// beginnings.
pub proof fn lemma_digits_value_grows(s: Seq<char>, k: int)
    requires
        all_digits(s),
        0 <= k <= s.len(),
    ensures
        0 <= digits_value(s.take(k)) <= digits_value(s),
    decreases s.len() - k,
{
    lemma_digits_value_bounds(s.take(k));
    if k < s.len() {
        lemma_digits_value_grows(s, k + 1);
        assert(s.take(k + 1).drop_last() == s.take(k));
    } else {
        assert(s.take(k) == s);
    }
}

proof fn lemma_digits_value_bounds(s: Seq<char>)
    requires
        all_digits(s),
    ensures
        0 <= digits_value(s),
    decreases s.len(),
{
    if s.len() > 0 {
        lemma_digits_value_bounds(s.drop_last());
    }
}

/// Reads an unsigned decimal number.
pub fn parse_u64(s: &[char]) -> (r: Option<u64>)
    ensures
        r == parsed_u64(s@),
{
    let from: usize = if s.len() > 0 && s[0] == '+' {
        1
    } else {
        0
    };
    if from == s.len() {
        return None;
    }
    let ghost digits = s@.subrange(from as int, s@.len() as int);
    let mut value: u64 = 0;
    let mut i: usize = from;
    while i < s.len()
        invariant
            from <= i <= s.len(),
            from < s.len(),
            digits == s@.subrange(from as int, s@.len() as int),
            digits == if s@.len() > 0 && s@[0] == '+' {
                s@.drop_first()
            } else {
                s@
            },
            all_digits(digits.take(i - from)),
            value == digits_value(digits.take(i - from)),
        decreases s.len() - i,
    {
        let c = s[i];
        let ghost next = digits.take(i - from + 1);
        assert(next.drop_last() == digits.take(i - from));
        assert(next.last() == c);
        if !('0' <= c && c <= '9') {
            return None;
        }
        let d: u64 = (c as u32 - 0x30) as u64;
        if value > (u64::MAX - d) / 10 {
            proof {
                if all_digits(digits) {
                    lemma_digits_value_grows(digits, i - from + 1);
                }
            }
            return None;
        }
        value = value * 10 + d;
        i += 1;
    }
    assert(digits.take(digits.len() as int) == digits);
    Some(value)
}

/// The decimal digit that stands for `d`, which is less than ten.
pub open spec fn digit_char(d: int) -> char {
    if d == 0 {
        '0'
    } else if d == 1 {
        '1'
    } else if d == 2 {
        '2'
    } else if d == 3 {
        '3'
    } else if d == 4 {
        '4'
    } else if d == 5 {
        '5'
    } else if d == 6 {
        '6'
    } else if d == 7 {
        '7'
    } else if d == 8 {
        '8'
    } else {
        '9'
    }
}

/// The hexadecimal digit, in lower case, that stands for `d`, which is
/// less than sixteen.
pub open spec fn hex_char(d: int) -> char {
    if d < 10 {
        digit_char(d)
    } else if d == 10 {
        'a'
    } else if d == 11 {
        'b'
    } else if d == 12 {
        'c'
    } else if d == 13 {
        'd'
    } else if d == 14 {
        'e'
    } else {
        'f'
    }
}

/// The decimal notation of `n`, without leading zeros.
pub open spec fn decimal_digits(n: nat) -> Seq<char>
    decreases n,
{
    if n < 10 {
        seq![digit_char(n as int)]
    } else {
        decimal_digits(n / 10).push(digit_char((n % 10) as int))
    }
}

/// The last `digits` hexadecimal digits of `v`, in lower case, with
/// zeros in front where `v` has fewer.
pub open spec fn hex_fixed(v: nat, digits: nat) -> Seq<char>
    decreases digits,
{
    if digits == 0 {
        Seq::empty()
    } else {
        hex_fixed(v / 16, (digits - 1) as nat).push(hex_char((v % 16) as int))
    }
}

/// The number that the hexadecimal digit `c` stands for, in either case;
/// none where it is no such digit.
pub open spec fn hex_value(c: char) -> Option<nat> {
    if '0' <= c <= '9' {
        Some((c as u32 - 0x30) as nat)
    } else if 'a' <= c <= 'f' {
        Some((c as u32 - 0x61 + 10) as nat)
    } else if 'A' <= c <= 'F' {
        Some((c as u32 - 0x41 + 10) as nat)
    } else {
        None
    }
}

/// Every character of `s` is a hexadecimal digit.
pub open spec fn all_hex(s: Seq<char>) -> bool {
    forall|i: int| 0 <= i < s.len() ==> hex_value(#[trigger] s[i]) is Some
}

/// The number that a text of hexadecimal digits stands for.
pub open spec fn hex_digits_value(s: Seq<char>) -> nat
    decreases s.len(),
{
    if s.len() == 0 {
        0
    } else {
        hex_digits_value(s.drop_last()) * 16 + match hex_value(s.last()) {
            Some(d) => d,
            None => 0,
        }
    }
}

/// The number that `s` denotes: an optional `-` or `+`, then one or more
/// decimal digits and nothing else, with a value that an `i64` can hold.
pub open spec fn parsed_i64(s: Seq<char>) -> Option<i64> {
    let negative = s.len() > 0 && s[0] == '-';
    let digits = if s.len() > 0 && (s[0] == '-' || s[0] == '+') {
        s.drop_first()
    } else {
        s
    };
    if digits.len() > 0 && all_digits(digits) {
        let v = digits_value(digits);
        if negative && v <= 0x8000_0000_0000_0000 {
            Some((-v) as i64)
        } else if !negative && v <= i64::MAX {
            Some(v as i64)
        } else {
            None
        }
    } else {
        None
    }
}

fn hex_digit(d: u8) -> (c: char)
    requires
        d < 16,
    ensures
        c == hex_char(d as int),
{
    if d == 0 {
        '0'
    } else if d == 1 {
        '1'
    } else if d == 2 {
        '2'
    } else if d == 3 {
        '3'
    } else if d == 4 {
        '4'
    } else if d == 5 {
        '5'
    } else if d == 6 {
        '6'
    } else if d == 7 {
        '7'
    } else if d == 8 {
        '8'
    } else if d == 9 {
        '9'
    } else if d == 10 {
        'a'
    } else if d == 11 {
        'b'
    } else if d == 12 {
        'c'
    } else if d == 13 {
        'd'
    } else if d == 14 {
        'e'
    } else {
        'f'
    }
}

/// Appends the decimal notation of `n` to `out`.
pub fn append_decimal(out: &mut Vec<char>, n: u64)
    ensures
        final(out)@ == old(out)@ + decimal_digits(n as nat),
    decreases n,
{
    if n >= 10 {
        append_decimal(out, n / 10);
    }
    let d: u8 = (n % 10) as u8;
    out.push(hex_digit(d));
}

/// Appends the last `digits` hexadecimal digits of `v` to `out`.
pub fn append_hex_fixed(out: &mut Vec<char>, v: u128, digits: usize)
    ensures
        final(out)@ == old(out)@ + hex_fixed(v as nat, digits as nat),
    decreases digits,
{
    if digits > 0 {
        append_hex_fixed(out, v / 16, digits - 1);
        out.push(hex_digit((v % 16) as u8));
    }
}

/// The number that `s` denotes in hexadecimal: at most 32 digits and
/// nothing else.
pub open spec fn parsed_hex(s: Seq<char>) -> Option<u128> {
    if s.len() <= 32 && all_hex(s) {
        Some(hex_digits_value(s) as u128)
    } else {
        None
    }
}

/// Reads an unsigned hexadecimal number of at most 32 digits.
pub fn parse_hex(s: &[char]) -> (r: Option<u128>)
    ensures
        r == parsed_hex(s@),
        r matches Some(v) ==> v == hex_digits_value(s@),
{
    if s.len() > 32 {
        return None;
    }
    let mut value: u128 = 0;
    let mut i: usize = 0;
    while i < s.len()
        invariant
            i <= s.len() <= 32,
            all_hex(s@.take(i as int)),
            value == hex_digits_value(s@.take(i as int)),
            value < pow16(i as nat),
        decreases s.len() - i,
    {
        let c = s[i];
        let ghost next = s@.take(i + 1);
        assert(next.drop_last() =~= s@.take(i as int));
        let d: u128 = if '0' <= c && c <= '9' {
            (c as u32 - 0x30) as u128
        } else if 'a' <= c && c <= 'f' {
            (c as u32 - 0x61 + 10) as u128
        } else if 'A' <= c && c <= 'F' {
            (c as u32 - 0x41 + 10) as u128
        } else {
            return None;
        };
        proof {
            lemma_pow16(i as nat);
        }
        value = value * 16 + d;
        i += 1;
    }
    assert(s@.take(s@.len() as int) =~= s@);
    Some(value)
}

/// Sixteen to the power `n`.
pub open spec fn pow16(n: nat) -> nat
    decreases n,
{
    if n == 0 {
        1
    } else {
        16 * pow16((n - 1) as nat)
    }
}

proof fn lemma_pow16(n: nat)
    requires
        n < 32,
    ensures
        pow16(n + 1) == 16 * pow16(n),
        pow16(n + 1) <= 0x1_0000_0000_0000_0000_0000_0000_0000_0000,
        pow16(n) > 0,
    decreases n,
{
    reveal_with_fuel(pow16, 2);
    if n > 0 {
        lemma_pow16((n - 1) as nat);
        lemma_pow16_bound(n + 1);
    }
}

proof fn lemma_pow16_bound(n: nat)
    requires
        n <= 32,
    ensures
        pow16(n) <= 0x1_0000_0000_0000_0000_0000_0000_0000_0000,
{
    assert(pow16(32) == 0x1_0000_0000_0000_0000_0000_0000_0000_0000) by {
        reveal_with_fuel(pow16, 33);
    }
    lemma_pow16_grows(n, 32);
}

proof fn lemma_pow16_grows(a: nat, b: nat)
    requires
        a <= b,
    ensures
        pow16(a) <= pow16(b),
        pow16(a) > 0,
    decreases b,
{
    if a < b {
        lemma_pow16_grows(a, (b - 1) as nat);
    } else if a > 0 {
        lemma_pow16_grows((a - 1) as nat, (a - 1) as nat);
    }
}

/// Reads a signed decimal number.
pub fn parse_i64(s: &[char]) -> (r: Option<i64>)
    ensures
        r == parsed_i64(s@),
{
    if s.len() == 0 {
        return None;
    }
    let negative = s[0] == '-';
    let from: usize = if s[0] == '-' || s[0] == '+' {
        1
    } else {
        0
    };
    let digits = crate::text::copy_range(s, from, s.len());
    assert(digits@ == if s@.len() > 0 && (s@[0] == '-' || s@[0] == '+') {
        s@.drop_first()
    } else {
        s@
    });
    if digits.len() == 0 {
        return None;
    }
    if digits[0] == '+' {
        return None;
    }
    match parse_u64(digits.as_slice()) {
        Some(v) => {
            proof {
                lemma_digits_value_bounds(digits@);
            }
            if negative {
                if v <= 0x8000_0000_0000_0000 {
                    if v == 0x8000_0000_0000_0000 {
                        Some(i64::MIN)
                    } else {
                        Some(-(v as i64))
                    }
                } else {
                    None
                }
            } else if v <= 0x7fff_ffff_ffff_ffff {
                Some(v as i64)
            } else {
                None
            }
        },
        None => {
            proof {
                if all_digits(digits@) {
                    lemma_digits_value_bounds(digits@);
                }
            }
            None
        },
    }
}

} // verus!
