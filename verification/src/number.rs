//! Decimal integer literals of 32 bits, with an optional sign.

use vstd::prelude::*;

verus! {

/// Whether `c` is one of the ten decimal digits.
pub open spec fn is_digit(c: char) -> bool {
    0x30 <= c as u32 <= 0x39
}

/// The number that the digit `c` stands for.
pub open spec fn digit_value(c: char) -> int {
    c as u32 - 0x30
}

/// Whether `s` holds decimal digits only.
pub open spec fn all_digits(s: Seq<char>) -> bool {
    forall|i: int| 0 <= i < s.len() ==> is_digit(#[trigger] s[i])
}

/// The number that a run of digits writes in base ten; 0 for the empty run.
pub open spec fn digits_value(s: Seq<char>) -> int
    decreases s.len(),
{
    if s.len() == 0 {
        0
    } else {
        digits_value(s.drop_last()) * 10 + digit_value(s.last())
    }
}

/// Whether `s` begins with a sign.
pub open spec fn has_sign(s: Seq<char>) -> bool {
    s.len() > 0 && (s[0] == '-' || s[0] == '+')
}

/// The digits of a literal: `s` without its sign, if it has one.
pub open spec fn magnitude_digits(s: Seq<char>) -> Seq<char> {
    if has_sign(s) {
        s.drop_first()
    } else {
        s
    }
}

/// The number that the literal `s` writes, whether or not it fits in 32 bits.
pub open spec fn literal_value(s: Seq<char>) -> int {
    if s.len() > 0 && s[0] == '-' {
        -digits_value(magnitude_digits(s))
    } else {
        digits_value(magnitude_digits(s))
    }
}

/// The 32-bit signed integer that `s` writes: an optional `+` or `-`, then at
/// least one decimal digit and nothing else, the number within range.
pub open spec fn decimal_i32(s: Seq<char>) -> Option<i32> {
    if magnitude_digits(s).len() > 0 && all_digits(magnitude_digits(s)) && i32::MIN
        <= literal_value(s) <= i32::MAX {
        Some(literal_value(s) as i32)
    } else {
        None
    }
}

/// A run of digits writes a number that is not negative.
pub proof fn lemma_digits_value_nonnegative(s: Seq<char>)
    requires
        all_digits(s),
    ensures
        digits_value(s) >= 0,
    decreases s.len(),
{
    if s.len() > 0 {
        lemma_digits_value_nonnegative(s.drop_last());
    }
}

/// A run of digits writes at least what any of its beginnings writes.
pub proof fn lemma_digits_value_monotone(s: Seq<char>, k: int)
    requires
        all_digits(s),
        0 <= k <= s.len(),
    ensures
        digits_value(s.take(k)) <= digits_value(s),
    decreases s.len(),
{
    if k == s.len() {
        assert(s.take(k) =~= s);
    } else {
        lemma_digits_value_monotone(s.drop_last(), k);
        lemma_digits_value_nonnegative(s.drop_last());
        assert(s.drop_last().take(k) =~= s.take(k));
    }
}

/// Tells whether `c` is a decimal digit.
pub fn is_decimal_digit(c: char) -> (b: bool)
    ensures
        b == is_digit(c),
{
    let n: u32 = c as u32;
    0x30 <= n && n <= 0x39
}

/// Reads `s` as a 32-bit signed decimal integer.
pub fn parse_i32(s: &Vec<char>) -> (r: Option<i32>)
    ensures
        r == decimal_i32(s@),
{
    let n: usize = s.len();
    if n == 0 {
        return None;
    }
    let negative: bool = s[0] == '-';
    let start: usize = if s[0] == '-' || s[0] == '+' {
        1
    } else {
        0
    };
    let ghost digits = magnitude_digits(s@);
    assert(digits =~= s@.skip(start as int));
    if start == n {
        return None;
    }
    let limit: i64 = if negative {
        2147483648
    } else {
        2147483647
    };
    let mut acc: i64 = 0;
    let mut i: usize = start;
    while i < n
        invariant
            start <= i <= n == s.len(),
            digits == s@.skip(start as int),
            digits == magnitude_digits(s@),
            negative == (s@[0] == '-'),
            limit == if negative { 2147483648i64 } else { 2147483647i64 },
            2147483647 <= limit <= 2147483648,
            0 <= acc <= limit,
            acc == digits_value(digits.take(i - start)),
            forall|j: int| 0 <= j < i - start ==> is_digit(digits[j]),
        decreases n - i,
    {
        let c: char = s[i];
        if !is_decimal_digit(c) {
            assert(!is_digit(digits[i - start]));
            return None;
        }
        let d: i64 = (c as u32 - 0x30) as i64;
        let next: i64 = acc * 10 + d;
        proof {
            let longer = digits.take(i + 1 - start);
            assert(longer.drop_last() =~= digits.take(i - start));
            assert(longer.last() == c);
            assert(digits_value(longer) == next);
            if all_digits(digits) {
                lemma_digits_value_monotone(digits, i + 1 - start);
            }
        }
        if next > limit {
            return None;
        }
        acc = next;
        i += 1;
    }
    assert(digits.take(n - start) =~= digits);
    let value: i64 = if negative {
        -acc
    } else {
        acc
    };
    Some(value as i32)
}

} // verus!
