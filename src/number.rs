use vstd::prelude::*;
use crate::lexer::chars_of;

verus! {

/// A decimal digit.
pub open spec fn is_digit(c: char) -> bool {
    '0' <= c && c <= '9'
}

/// The value of a decimal digit.
pub open spec fn digit_value(c: char) -> int {
    (c as u32) as int - ('0' as u32) as int
}

/// A non-empty sequence of decimal digits.
pub open spec fn all_digits(s: Seq<char>) -> bool {
    s.len() > 0 && forall|i: int| 0 <= i < s.len() ==> is_digit(#[trigger] s[i])
}

/// The number that a sequence of decimal digits denotes.
pub open spec fn digits_value(s: Seq<char>) -> int
    decreases s.len(),
{
    if s.len() == 0 {
        0
    } else {
        digits_value(s.drop_last()) * 10 + digit_value(s.last())
    }
}

/// The integer that `s` spells in base 10: digits, with an optional leading
/// `-` or `+`.
pub open spec fn integer_literal(s: Seq<char>) -> Option<int> {
    if all_digits(s) {
        Some(digits_value(s))
    } else if s.len() > 0 && s[0] == '-' && all_digits(s.drop_first()) {
        Some(-digits_value(s.drop_first()))
    } else if s.len() > 0 && s[0] == '+' && all_digits(s.drop_first()) {
        Some(digits_value(s.drop_first()))
    } else {
        None
    }
}

/// The value of `s` as a signed decimal literal that fits in an `i64`.
pub open spec fn numeric_value_of(s: Seq<char>) -> Option<i64> {
    match integer_literal(s) {
        Some(v) => if i64::MIN <= v <= i64::MAX {
            Some(v as i64)
        } else {
            None
        },
        None => None,
    }
}

proof fn lemma_digits_value_grows(s: Seq<char>, k: int)
    requires
        0 <= k <= s.len(),
        forall|i: int| 0 <= i < s.len() ==> is_digit(#[trigger] s[i]),
    ensures
        0 <= digits_value(s.take(k)) <= digits_value(s),
    decreases s.len(),
{
    if s.len() > 0 {
        if k == s.len() {
            assert(s.take(k) =~= s);
            lemma_digits_value_grows(s.drop_last(), s.len() - 1);
            assert(s.drop_last().take(s.len() - 1) =~= s.drop_last());
        } else {
            lemma_digits_value_grows(s.drop_last(), k);
            assert(s.drop_last().take(k) =~= s.take(k));
            lemma_digits_value_grows(s.drop_last(), s.len() - 1);
            assert(s.drop_last().take(s.len() - 1) =~= s.drop_last());
        }
    }
}

/// The largest magnitude an `i64` can hold (that of `i64::MIN`).
const MAGNITUDE_LIMIT: u128 = 0x8000_0000_0000_0000;

/// Parses `s` as a base-10 signed integer: an optional `-` or `+`, then one
/// or more digits, with a value in the range of `i64`.
pub fn parse_integer(s: &str) -> (r: Option<i64>)
    ensures
        r == numeric_value_of(s@),
{
    let cs = chars_of(s);
    let n = cs.len();
    if n == 0 {
        return None;
    }
    let negative = cs[0] == '-';
    let start: usize = if cs[0] == '-' || cs[0] == '+' {
        1
    } else {
        0
    };
    if start == n {
        assert(!all_digits(s@));
        return None;
    }
    let ghost digits = s@.subrange(start as int, n as int);
    assert(start == 1 ==> digits =~= s@.drop_first());
    assert(start == 0 ==> digits =~= s@);
    let mut magnitude: u128 = 0;
    let mut i: usize = start;
    while i < n
        invariant
            cs@ == s@,
            n == cs@.len(),
            start <= 1,
            start <= i <= n,
            digits == s@.subrange(start as int, n as int),
            start == 1 ==> digits == s@.drop_first() && (s@[0] == '-' || s@[0] == '+'),
            start == 0 ==> digits == s@ && s@[0] != '-' && s@[0] != '+',
            negative == (s@[0] == '-'),
            forall|k: int| start <= k < i ==> is_digit(#[trigger] s@[k]),
            magnitude == digits_value(digits.take(i - start)),
            magnitude <= MAGNITUDE_LIMIT,
        decreases n - i,
    {
        let c = cs[i];
        if !('0' <= c && c <= '9') {
            assert(!is_digit(digits[i - start]));
            assert(!is_digit(s@[i as int]));
            assert(!all_digits(s@));
            assert(!all_digits(digits));
            return None;
        }
        let d = (c as u32 - '0' as u32) as u128;
        assert(digits.take(i + 1 - start).drop_last() =~= digits.take(i - start));
        assert(magnitude * 10 + d <= MAGNITUDE_LIMIT * 10 + 9) by (nonlinear_arith)
            requires
                magnitude <= MAGNITUDE_LIMIT,
                d <= 9,
        ;
        magnitude = magnitude * 10 + d;
        i = i + 1;
        if magnitude > MAGNITUDE_LIMIT {
            proof {
                assert(magnitude == digits_value(digits.take(i - start)));
                if forall|k: int| 0 <= k < digits.len() ==> is_digit(#[trigger] digits[k]) {
                    lemma_digits_value_grows(digits, i - start);
                }
            }
            assert(numeric_value_of(s@) is None);
            return None;
        }
    }
    assert(digits.take(n - start) =~= digits);
    if negative {
        assert(!all_digits(s@));
        Some((0 - magnitude as i128) as i64)
    } else if magnitude > i64::MAX as u128 {
        None
    } else {
        Some(magnitude as i64)
    }
}

} // verus!
