//! Decimal integer literals.

use crate::chars::chars_of;
use crate::chars::digit;
use crate::chars::is_digit;
use vstd::prelude::*;

verus! {

/// The value of a decimal digit.
pub open spec fn digit_value(c: char) -> int {
    c as int - '0' as int
}

/// The number that a sequence of decimal digits writes.
pub open spec fn decimal_value(digits: Seq<char>) -> int
    decreases digits.len(),
{
    if digits.len() == 0 {
        0
    } else {
        decimal_value(digits.drop_last()) * 10 + digit_value(digits.last())
    }
}

pub open spec fn all_digits(s: Seq<char>) -> bool {
    forall|i: int| 0 <= i < s.len() ==> is_digit(#[trigger] s[i])
}

/// Whether the text opens with a sign.
pub open spec fn signed(s: Seq<char>) -> bool {
    s.len() > 0 && (s[0] == '-' || s[0] == '+')
}

/// The 32-bit integer that a text writes: an optional `+` or `-`, then one
/// or more decimal digits, the whole within the range of `i32`.
pub open spec fn parse_i32(s: Seq<char>) -> Option<i32> {
    let digits = if signed(s) {
        s.drop_first()
    } else {
        s
    };
    let magnitude = decimal_value(digits);
    let value = if signed(s) && s[0] == '-' {
        -magnitude
    } else {
        magnitude
    };
    if digits.len() > 0 && all_digits(digits) && i32::MIN <= value <= i32::MAX {
        Some(value as i32)
    } else {
        None
    }
}

/// A longer run of digits never writes a smaller number than its prefix.
pub proof fn lemma_decimal_value_grows(digits: Seq<char>, k: int)
    requires
        all_digits(digits),
        0 <= k <= digits.len(),
    ensures
        0 <= decimal_value(digits.take(k)) <= decimal_value(digits),
    decreases digits.len(),
{
    if digits.len() == 0 {
        assert(digits.take(k) =~= digits);
    } else if k == digits.len() {
        assert(digits.take(k) =~= digits);
        lemma_decimal_value_grows(digits.drop_last(), k - 1);
    } else {
        assert(digits.drop_last().take(k) =~= digits.take(k));
        lemma_decimal_value_grows(digits.drop_last(), k);
    }
}

/// Reads a 32-bit integer from `text`.
pub fn parse_integer(text: &str) -> (r: Option<i32>)
    ensures
        r == parse_i32(text@),
{
    let chars = chars_of(text);
    let n = chars.len();
    if n == 0 {
        return None;
    }
    let negative = chars[0] == '-';
    let first: usize = if chars[0] == '-' || chars[0] == '+' {
        1
    } else {
        0
    };
    if first == n {
        return None;
    }
    let ghost digits = if signed(text@) {
        text@.drop_first()
    } else {
        text@
    };
    let mut magnitude: i64 = 0;
    let mut i: usize = first;
    while i < n
        invariant
            first <= i <= n,
            n == chars@.len(),
            chars@ == text@,
            digits == (if signed(text@) {
                text@.drop_first()
            } else {
                text@
            }),
            digits.len() == n - first,
            forall|j: int| 0 <= j < digits.len() ==> digits[j] == chars@[j + first],
            all_digits(digits.take(i - first)),
            magnitude == decimal_value(digits.take(i - first)),
            0 <= magnitude <= 0x8000_0000,
        decreases n - i,
    {
        let c = chars[i];
        if !digit(c) {
            assert(!is_digit(digits[i - first]));
            return None;
        }
        let ghost longer = digits.take(i - first + 1);
        assert(longer.drop_last() =~= digits.take(i - first));
        assert(all_digits(longer)) by {
            assert forall|j: int| 0 <= j < longer.len() implies is_digit(#[trigger] longer[j]) by {
                if j < i - first {
                    assert(is_digit(digits.take(i - first)[j]));
                }
            }
        }
        magnitude = magnitude * 10 + (c as i64 - '0' as i64);
        if magnitude > 0x8000_0000 {
            proof {
                if all_digits(digits) {
                    lemma_decimal_value_grows(digits, i - first + 1);
                }
            }
            return None;
        }
        i += 1;
    }
    assert(digits.take(n - first) =~= digits);
    if negative {
        Some((-magnitude) as i32)
    } else if magnitude > 0x7fff_ffff {
        None
    } else {
        Some(magnitude as i32)
    }
}

} // verus!
