//! `java.lang.Integer.parseInt` (radix 10) with the JVM's full table of
//! Unicode decimal digits and its signed-overflow limits.

use vstd::prelude::*;
use super::{JavaError, JavaResult};
use crate::text::{decimal_spec, digit_char, digits_of};

verus! {

/// `Character.digit(unit, 10)`: the value of a decimal digit of any script
/// the JVM recognises, found by its script's "digit zero" code point.
#[verifier::opaque]
pub open spec fn digit_value(unit: u16) -> Option<u16> {
    if 0x0030 <= unit && unit <= 0x0039 {
        Some((unit - 0x0030) as u16)
    } else if 0x0660 <= unit && unit <= 0x0669 {
        Some((unit - 0x0660) as u16)
    } else if 0x06f0 <= unit && unit <= 0x06f9 {
        Some((unit - 0x06f0) as u16)
    } else if 0x07c0 <= unit && unit <= 0x07c9 {
        Some((unit - 0x07c0) as u16)
    } else if 0x0966 <= unit && unit <= 0x096f {
        Some((unit - 0x0966) as u16)
    } else if 0x09e6 <= unit && unit <= 0x09ef {
        Some((unit - 0x09e6) as u16)
    } else if 0x0a66 <= unit && unit <= 0x0a6f {
        Some((unit - 0x0a66) as u16)
    } else if 0x0ae6 <= unit && unit <= 0x0aef {
        Some((unit - 0x0ae6) as u16)
    } else if 0x0b66 <= unit && unit <= 0x0b6f {
        Some((unit - 0x0b66) as u16)
    } else if 0x0be6 <= unit && unit <= 0x0bef {
        Some((unit - 0x0be6) as u16)
    } else if 0x0c66 <= unit && unit <= 0x0c6f {
        Some((unit - 0x0c66) as u16)
    } else if 0x0ce6 <= unit && unit <= 0x0cef {
        Some((unit - 0x0ce6) as u16)
    } else if 0x0d66 <= unit && unit <= 0x0d6f {
        Some((unit - 0x0d66) as u16)
    } else if 0x0de6 <= unit && unit <= 0x0def {
        Some((unit - 0x0de6) as u16)
    } else if 0x0e50 <= unit && unit <= 0x0e59 {
        Some((unit - 0x0e50) as u16)
    } else if 0x0ed0 <= unit && unit <= 0x0ed9 {
        Some((unit - 0x0ed0) as u16)
    } else if 0x0f20 <= unit && unit <= 0x0f29 {
        Some((unit - 0x0f20) as u16)
    } else if 0x1040 <= unit && unit <= 0x1049 {
        Some((unit - 0x1040) as u16)
    } else if 0x1090 <= unit && unit <= 0x1099 {
        Some((unit - 0x1090) as u16)
    } else if 0x17e0 <= unit && unit <= 0x17e9 {
        Some((unit - 0x17e0) as u16)
    } else if 0x1810 <= unit && unit <= 0x1819 {
        Some((unit - 0x1810) as u16)
    } else if 0x1946 <= unit && unit <= 0x194f {
        Some((unit - 0x1946) as u16)
    } else if 0x19d0 <= unit && unit <= 0x19d9 {
        Some((unit - 0x19d0) as u16)
    } else if 0x1a80 <= unit && unit <= 0x1a89 {
        Some((unit - 0x1a80) as u16)
    } else if 0x1a90 <= unit && unit <= 0x1a99 {
        Some((unit - 0x1a90) as u16)
    } else if 0x1b50 <= unit && unit <= 0x1b59 {
        Some((unit - 0x1b50) as u16)
    } else if 0x1bb0 <= unit && unit <= 0x1bb9 {
        Some((unit - 0x1bb0) as u16)
    } else if 0x1c40 <= unit && unit <= 0x1c49 {
        Some((unit - 0x1c40) as u16)
    } else if 0x1c50 <= unit && unit <= 0x1c59 {
        Some((unit - 0x1c50) as u16)
    } else if 0xa620 <= unit && unit <= 0xa629 {
        Some((unit - 0xa620) as u16)
    } else if 0xa8d0 <= unit && unit <= 0xa8d9 {
        Some((unit - 0xa8d0) as u16)
    } else if 0xa900 <= unit && unit <= 0xa909 {
        Some((unit - 0xa900) as u16)
    } else if 0xa9d0 <= unit && unit <= 0xa9d9 {
        Some((unit - 0xa9d0) as u16)
    } else if 0xa9f0 <= unit && unit <= 0xa9f9 {
        Some((unit - 0xa9f0) as u16)
    } else if 0xaa50 <= unit && unit <= 0xaa59 {
        Some((unit - 0xaa50) as u16)
    } else if 0xabf0 <= unit && unit <= 0xabf9 {
        Some((unit - 0xabf0) as u16)
    } else if 0xff10 <= unit && unit <= 0xff19 {
        Some((unit - 0xff10) as u16)
    } else {
        None
    }
}

fn digit_of(unit: u16) -> (r: Option<u16>)
    ensures r == digit_value(unit), r matches Some(d) ==> d <= 9,
{
    reveal(digit_value);
    if 0x0030 <= unit && unit <= 0x0039 {
        Some((unit - 0x0030) as u16)
    } else if 0x0660 <= unit && unit <= 0x0669 {
        Some((unit - 0x0660) as u16)
    } else if 0x06f0 <= unit && unit <= 0x06f9 {
        Some((unit - 0x06f0) as u16)
    } else if 0x07c0 <= unit && unit <= 0x07c9 {
        Some((unit - 0x07c0) as u16)
    } else if 0x0966 <= unit && unit <= 0x096f {
        Some((unit - 0x0966) as u16)
    } else if 0x09e6 <= unit && unit <= 0x09ef {
        Some((unit - 0x09e6) as u16)
    } else if 0x0a66 <= unit && unit <= 0x0a6f {
        Some((unit - 0x0a66) as u16)
    } else if 0x0ae6 <= unit && unit <= 0x0aef {
        Some((unit - 0x0ae6) as u16)
    } else if 0x0b66 <= unit && unit <= 0x0b6f {
        Some((unit - 0x0b66) as u16)
    } else if 0x0be6 <= unit && unit <= 0x0bef {
        Some((unit - 0x0be6) as u16)
    } else if 0x0c66 <= unit && unit <= 0x0c6f {
        Some((unit - 0x0c66) as u16)
    } else if 0x0ce6 <= unit && unit <= 0x0cef {
        Some((unit - 0x0ce6) as u16)
    } else if 0x0d66 <= unit && unit <= 0x0d6f {
        Some((unit - 0x0d66) as u16)
    } else if 0x0de6 <= unit && unit <= 0x0def {
        Some((unit - 0x0de6) as u16)
    } else if 0x0e50 <= unit && unit <= 0x0e59 {
        Some((unit - 0x0e50) as u16)
    } else if 0x0ed0 <= unit && unit <= 0x0ed9 {
        Some((unit - 0x0ed0) as u16)
    } else if 0x0f20 <= unit && unit <= 0x0f29 {
        Some((unit - 0x0f20) as u16)
    } else if 0x1040 <= unit && unit <= 0x1049 {
        Some((unit - 0x1040) as u16)
    } else if 0x1090 <= unit && unit <= 0x1099 {
        Some((unit - 0x1090) as u16)
    } else if 0x17e0 <= unit && unit <= 0x17e9 {
        Some((unit - 0x17e0) as u16)
    } else if 0x1810 <= unit && unit <= 0x1819 {
        Some((unit - 0x1810) as u16)
    } else if 0x1946 <= unit && unit <= 0x194f {
        Some((unit - 0x1946) as u16)
    } else if 0x19d0 <= unit && unit <= 0x19d9 {
        Some((unit - 0x19d0) as u16)
    } else if 0x1a80 <= unit && unit <= 0x1a89 {
        Some((unit - 0x1a80) as u16)
    } else if 0x1a90 <= unit && unit <= 0x1a99 {
        Some((unit - 0x1a90) as u16)
    } else if 0x1b50 <= unit && unit <= 0x1b59 {
        Some((unit - 0x1b50) as u16)
    } else if 0x1bb0 <= unit && unit <= 0x1bb9 {
        Some((unit - 0x1bb0) as u16)
    } else if 0x1c40 <= unit && unit <= 0x1c49 {
        Some((unit - 0x1c40) as u16)
    } else if 0x1c50 <= unit && unit <= 0x1c59 {
        Some((unit - 0x1c50) as u16)
    } else if 0xa620 <= unit && unit <= 0xa629 {
        Some((unit - 0xa620) as u16)
    } else if 0xa8d0 <= unit && unit <= 0xa8d9 {
        Some((unit - 0xa8d0) as u16)
    } else if 0xa900 <= unit && unit <= 0xa909 {
        Some((unit - 0xa900) as u16)
    } else if 0xa9d0 <= unit && unit <= 0xa9d9 {
        Some((unit - 0xa9d0) as u16)
    } else if 0xa9f0 <= unit && unit <= 0xa9f9 {
        Some((unit - 0xa9f0) as u16)
    } else if 0xaa50 <= unit && unit <= 0xaa59 {
        Some((unit - 0xaa50) as u16)
    } else if 0xabf0 <= unit && unit <= 0xabf9 {
        Some((unit - 0xabf0) as u16)
    } else if 0xff10 <= unit && unit <= 0xff19 {
        Some((unit - 0xff10) as u16)
    } else {
        None
    }
}

/// Every unit of `digits` is a decimal digit.
pub open spec fn all_digits(digits: Seq<u16>) -> bool {
    forall|i: int| 0 <= i < digits.len() ==> (#[trigger] digit_value(digits[i])) is Some
}

/// The decimal magnitude that a sequence of digit units denotes.
pub open spec fn digits_magnitude(digits: Seq<u16>) -> int
    decreases digits.len(),
{
    if digits.len() == 0 {
        0
    } else {
        digits_magnitude(digits.drop_last()) * 10 + digit_value(digits.last())->Some_0 as int
    }
}

/// What `Integer.parseInt` returns for `text`: `None` stands for
/// `NumberFormatException` (empty text, a bare sign, a non-digit, or a value
/// outside the `int` range).
pub open spec fn parse_int_spec(text: Seq<u16>) -> Option<i32> {
    if text.len() == 0 {
        None
    } else {
        let negative = text[0] == 0x2d;
        let digits = if text[0] == 0x2d || text[0] == 0x2b { text.drop_first() } else { text };
        let limit: int = if negative { 2_147_483_648 } else { 2_147_483_647 };
        if digits.len() == 0 || !all_digits(digits) || digits_magnitude(digits) > limit {
            None
        } else if negative {
            Some((-digits_magnitude(digits)) as i32)
        } else {
            Some(digits_magnitude(digits) as i32)
        }
    }
}

proof fn lemma_magnitude_grows(digits: Seq<u16>, i: int, j: int)
    requires 0 <= i <= j <= digits.len(), all_digits(digits),
    ensures digits_magnitude(digits.take(i)) <= digits_magnitude(digits.take(j)),
        digits_magnitude(digits.take(i)) >= 0,
    decreases j - i,
{
    lemma_magnitude_nonneg(digits.take(i));
    if i < j {
        lemma_magnitude_grows(digits, i, j - 1);
        assert(digits.take(j).drop_last() =~= digits.take(j - 1));
        assert(digit_value(digits[j - 1]) is Some);
        lemma_magnitude_nonneg(digits.take(j - 1));
    }
}

proof fn lemma_magnitude_nonneg(digits: Seq<u16>)
    ensures digits_magnitude(digits) >= 0,
    decreases digits.len(),
{
    if digits.len() > 0 {
        lemma_magnitude_nonneg(digits.drop_last());
    }
}

/// `Integer.parseInt(String)`: the value, or `NumberFormatException`
/// (an `IllegalArgumentException`).
pub fn parse_int(text: &[u16]) -> (r: JavaResult<i32>)
    ensures
        r == match parse_int_spec(text@) {
            Some(v) => Ok::<i32, JavaError>(v),
            None => Err(JavaError::IllegalArgument("NumberFormatException")),
        },
{
    match parse_int_opt(text) {
        Some(v) => Ok(v),
        None => Err(JavaError::IllegalArgument("NumberFormatException")),
    }
}

/// The same parse as an `Option`: `None` is `NumberFormatException`.
pub fn parse_int_opt(text: &[u16]) -> (r: Option<i32>)
    ensures r == parse_int_spec(text@),
{
    if text.len() == 0 {
        return None;
    }
    let negative = text[0] == 0x2d;
    let start: usize = if text[0] == 0x2d || text[0] == 0x2b { 1 } else { 0 };
    let ghost digits = if text@[0] == 0x2d || text@[0] == 0x2b { text@.drop_first() } else { text@ };
    if start == text.len() {
        return None;
    }
    let limit: u64 = if negative { 2_147_483_648 } else { 2_147_483_647 };
    let mut magnitude: u64 = 0;
    let mut i = start;
    assert(digits.take(0) =~= Seq::<u16>::empty());
    while i < text.len()
        invariant
            start <= i <= text.len(), start == 0 || start == 1, text@.len() > start,
            digits =~= text@.subrange(start as int, text@.len() as int),
            digits == (if text@[0] == 0x2d || text@[0] == 0x2b { text@.drop_first() } else { text@ }),
            negative == (text@[0] == 0x2d),
            limit == if negative { 2_147_483_648u64 } else { 2_147_483_647u64 },
            all_digits(digits.take(i - start)),
            magnitude == digits_magnitude(digits.take(i - start)),
            magnitude <= limit,
        decreases text.len() - i,
    {
        let unit = text[i];
        let digit = match digit_of(unit) {
            Some(d) => d as u64,
            None => {
                assert(digits[i - start] == unit);
                assert(digit_value(digits[i - start]) is None);
                assert(!all_digits(digits));
                return None;
            }
        };
        assert(digits.take(i + 1 - start).drop_last() =~= digits.take(i - start));
        assert(digits.take(i + 1 - start).last() == unit);
        assert(digit <= 9);
        if magnitude > (limit - digit) / 10 {
            proof {
                assert(magnitude * 10 + digit > limit) by (nonlinear_arith)
                    requires magnitude > (limit - digit) / 10, digit <= 9, limit >= 9;
                assert(digits_magnitude(digits.take(i + 1 - start))
                    == digits_magnitude(digits.take(i - start)) * 10 + digit);
                if all_digits(digits) {
                    lemma_magnitude_grows(digits, i + 1 - start, digits.len() as int);
                    assert(digits.take(digits.len() as int) =~= digits);
                }
            }
            return None;
        }
        proof {
            assert(magnitude * 10 + digit <= limit) by (nonlinear_arith)
                requires magnitude <= (limit - digit) / 10, digit <= 9, limit >= 9;
            assert forall|k: int| 0 <= k < digits.take(i + 1 - start).len() implies
                #[trigger] digit_value(digits.take(i + 1 - start)[k]) is Some by {
                if k < i - start {
                    assert(digits.take(i + 1 - start)[k] == digits.take(i - start)[k]);
                }
            }
        }
        magnitude = magnitude * 10 + digit;
        i = i + 1;
    }
    assert(digits.take(digits.len() as int) =~= digits);
    if negative {
        Some((0i64 - magnitude as i64) as i32)
    } else {
        Some(magnitude as i32)
    }
}


/// The UTF-16 units of a text of `char`s below `U+10000`.
pub open spec fn units_of(text: Seq<char>) -> Seq<u16> {
    text.map_values(|c: char| c as u16)
}

proof fn lemma_digit_unit(d: nat)
    requires
        d < 10,
    ensures
        digit_value(digit_char(d) as u16) == Some(d as u16),
        digit_char(d) as u16 != 0x2d,
        digit_char(d) as u16 != 0x2b,
{
    reveal(digit_value);
}

proof fn lemma_digits_read_back(n: nat)
    ensures
        units_of(digits_of(n)).len() > 0,
        all_digits(units_of(digits_of(n))),
        digits_magnitude(units_of(digits_of(n))) == n,
        units_of(digits_of(n))[0] != 0x2d,
        units_of(digits_of(n))[0] != 0x2b,
    decreases n,
{
    let s = units_of(digits_of(n));
    if n < 10 {
        lemma_digit_unit(n);
        assert(s =~= seq![digit_char(n) as u16]);
        assert(s.drop_last() =~= Seq::<u16>::empty());
        assert(s.last() == digit_char(n) as u16);
        assert(digits_magnitude(s) == digits_magnitude(s.drop_last()) * 10 + digit_value(s.last())->Some_0 as int);
    } else {
        lemma_digits_read_back(n / 10);
        lemma_digit_unit(n % 10);
        let t = units_of(digits_of(n / 10));
        assert(s =~= t.push(digit_char(n % 10) as u16));
        assert(s.drop_last() =~= t);
        assert(s.last() == digit_char(n % 10) as u16);
        assert(digits_magnitude(s) == digits_magnitude(t) * 10 + (n % 10));
        assert((n / 10) * 10 + n % 10 == n) by (nonlinear_arith);
        assert forall|i: int| 0 <= i < s.len() implies (#[trigger] digit_value(s[i])) is Some by {
            if i < t.len() {
                assert(s[i] == t[i]);
            }
        }
    }
}

/// `Integer.parseInt` reads the decimal text of any `int` back to it.
pub proof fn lemma_parse_int_reads_decimal(n: i32)
    ensures
        parse_int_spec(units_of(decimal_spec(n as int))) == Some(n),
{
    let text = units_of(decimal_spec(n as int));
    if n < 0 {
        let m = (-(n as int)) as nat;
        lemma_digits_read_back(m);
        assert(text =~= seq![0x2du16] + units_of(digits_of(m)));
        assert(text.drop_first() =~= units_of(digits_of(m)));
    } else {
        lemma_digits_read_back(n as nat);
    }
}

} // verus!
