//! Number literals: the test for a decimal literal and the value of an
//! integer literal.
use crate::grammar::{all_digits, digit_run, digits_value, integer_of, is_decimal_literal};
use crate::text::{digit_value, is_digit};
use vstd::prelude::*;

verus! {

/// The value of a row of digits with one more digit at its end.
pub proof fn lemma_digits_value_push(t: Seq<char>, c: char)
    ensures
        digits_value(t.push(c)) == digits_value(t) * 10 + digit_value(c) || digits_value(t) * 10
            + digit_value(c) < 0,
        is_digit(c) ==> digits_value(t.push(c)) == digits_value(t) * 10 + digit_value(c),
{
    assert(t.push(c).drop_last() =~= t);
    assert(t.push(c).last() == c);
}

/// The cursor after the digits that begin at `i`.
pub fn digit_run_end(t: &Vec<char>, i: usize) -> (end: usize)
    requires
        i <= t@.len(),
    ensures
        end == i + digit_run(t@, i as int),
        end <= t@.len(),
{
    let mut k = i;
    while k < t.len() && '0' <= t[k] && t[k] <= '9'
        invariant
            i <= k <= t@.len(),
            k + digit_run(t@, k as int) == i + digit_run(t@, i as int),
        decreases t@.len() - k,
    {
        k += 1;
    }
    k
}

/// True for a decimal literal: an optional `-`, digits, optionally a
/// fraction, optionally an exponent.
pub fn is_decimal_literal_text(t: &Vec<char>) -> (b: bool)
    ensures
        b == is_decimal_literal(t@),
{
    let len = t.len();
    let sign_end: usize = if len > 0 && t[0] == '-' {
        1
    } else {
        0
    };
    let integer_end = digit_run_end(t, sign_end);
    if integer_end == sign_end {
        return false;
    }
    let has_fraction = integer_end < len && t[integer_end] == '.';
    let fraction_end = if has_fraction {
        digit_run_end(t, integer_end + 1)
    } else {
        integer_end
    };
    if has_fraction && fraction_end == integer_end + 1 {
        return false;
    }
    let has_exponent = fraction_end < len && (t[fraction_end] == 'e' || t[fraction_end] == 'E');
    if !has_exponent {
        return fraction_end == len;
    }
    let exponent_start = if fraction_end + 1 < len && (t[fraction_end + 1] == '+' || t[fraction_end
        + 1] == '-') {
        fraction_end + 2
    } else {
        fraction_end + 1
    };
    let exponent_end = digit_run_end(t, exponent_start);
    exponent_end > exponent_start && exponent_end == len
}

/// The integer of 64 bits that a literal denotes, if it denotes one: an
/// optional `-` and digits whose value lies in the range of `i64`.
pub fn integer_value(t: &Vec<char>) -> (value: Option<i64>)
    ensures
        value == match integer_of(t@) {
            Some(n) => if i64::MIN <= n <= i64::MAX {
                Some(n as i64)
            } else {
                None
            },
            None => None,
        },
{
    let negative = t.len() > 0 && t[0] == '-';
    let start: usize = if negative {
        1
    } else {
        0
    };
    if start >= t.len() {
        return None;
    }
    let ghost digits = t@.skip(start as int);
    let mut magnitude: u64 = 0;
    let mut large = false;
    let mut k = start;
    assert(digits.take(0) =~= Seq::<char>::empty());
    while k < t.len()
        invariant
            start <= k <= t@.len(),
            negative == (t@.len() > 0 && t@[0] == '-'),
            start == if negative {
                1int
            } else {
                0int
            },
            digits == t@.skip(start as int),
            all_digits(digits.take(k - start)),
            !large ==> magnitude == digits_value(digits.take(k - start)) && magnitude
                <= 0x8000_0000_0000_0000,
            large ==> digits_value(digits.take(k - start)) > 0x8000_0000_0000_0000,
        decreases t@.len() - k,
    {
        let c = t[k];
        if !('0' <= c && c <= '9') {
            assert(!is_digit(digits[k - start]));
            assert(!is_digit(t@[k as int]));
            return None;
        }
        let d: u128 = (c as u32 - '0' as u32) as u128;
        proof {
            lemma_digits_value_push(digits.take(k - start), c);
            assert(digits.take(k - start + 1) =~= digits.take(k - start).push(c));
        }
        if !large {
            let next: u128 = magnitude as u128 * 10 + d;
            if next > 0x8000_0000_0000_0000 {
                large = true;
            } else {
                magnitude = next as u64;
            }
        }
        k += 1;
    }
    assert(digits.take(k - start) =~= digits);
    assert(t@.skip(0) =~= t@);
    if large {
        None
    } else if negative {
        Some((-(magnitude as i128)) as i64)
    } else if magnitude > 0x7FFF_FFFF_FFFF_FFFF {
        None
    } else {
        Some(magnitude as i64)
    }
}

} // verus!
