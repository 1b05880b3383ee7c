//! The memo of an incoming transfer names the pool it is meant for, as a decimal number.

use vstd::prelude::*;
use vstd::string::{is_ascii, StringSliceAdditionalSpecFns};
use crate::types::PoolId;

verus! {

/// Whether `c` is one of `0` to `9`.
pub open spec fn is_digit(c: char) -> bool {
    '0' <= c <= '9'
}

/// The number a digit stands for.
pub open spec fn digit_value(c: char) -> nat {
    (c as nat - 48) as nat
}

/// The number that a row of digits writes, most significant digit first.
pub open spec fn decimal_value(s: Seq<char>) -> nat
    decreases s.len(),
{
    if s.len() == 0 {
        0
    } else {
        10 * decimal_value(s.drop_last()) + digit_value(s.last())
    }
}

/// Whether `s` holds digits only.
pub open spec fn all_digits(s: Seq<char>) -> bool {
    forall|i: int| 0 <= i < s.len() ==> is_digit(#[trigger] s[i])
}

/// The text without the plus sign that may lead it.
pub open spec fn without_plus(s: Seq<char>) -> Seq<char> {
    if s.len() > 0 && s[0] == '+' {
        s.subrange(1, s.len() as int)
    } else {
        s
    }
}

/// The pool id that a memo names: one or more decimal digits, with an optional plus sign in
/// front and nothing else around them, writing a number that fits in 64 bits.
pub open spec fn memo_pool_id(s: Seq<char>) -> Option<PoolId> {
    let digits = without_plus(s);
    if digits.len() > 0 && all_digits(digits) && decimal_value(digits) <= u64::MAX {
        Some(decimal_value(digits) as u64)
    } else {
        None
    }
}

/// A number written with more digits is no smaller than the number its first digits write.
proof fn lemma_decimal_value_grows(s: Seq<char>, k: int)
    requires
        0 <= k <= s.len(),
    ensures
        decimal_value(s.subrange(0, k)) <= decimal_value(s),
    decreases s.len() - k,
{
    if k == s.len() {
        assert(s.subrange(0, k) =~= s);
    } else {
        lemma_decimal_value_grows(s, k + 1);
        assert(s.subrange(0, k + 1).drop_last() =~= s.subrange(0, k));
    }
}

/// Reads the pool id that a memo names.
pub fn parse_pool_id(memo: &str) -> (r: Option<PoolId>)
    ensures
        r == memo_pool_id(memo@),
{
    broadcast use vstd::string::is_ascii_spec_bytes;

    if !memo.is_ascii() {
        proof {
            let i = choose|i: int| 0 <= i < memo@.len() && !('\0' <= #[trigger] memo@[i] <= '\u{7f}');
            let digits = without_plus(memo@);
            if digits.len() == memo@.len() {
                assert(!is_digit(digits[i]));
            } else {
                assert(!is_digit(digits[i - 1]));
            }
        }
        return None;
    }
    let bytes: &[u8] = memo.as_bytes();
    let n: usize = bytes.len();
    assert(is_ascii(memo));
    assert(bytes@ == memo.spec_bytes());
    assert(n == memo@.len());
    assert(forall|k: int| 0 <= k < n ==> #[trigger] bytes@[k] == memo@[k] as u8);
    let start: usize = if n > 0 && bytes[0] == 43u8 { 1 } else { 0 };
    let ghost digits = without_plus(memo@);
    assert(digits =~= memo@.subrange(start as int, n as int));
    if start == n {
        return None;
    }
    let mut value: u64 = 0;
    let mut i: usize = start;
    while i < n
        invariant
            is_ascii(memo),
            n == memo@.len(),
            n == bytes@.len(),
            forall|k: int| 0 <= k < n ==> #[trigger] bytes@[k] == memo@[k] as u8,
            start <= i <= n,
            digits == without_plus(memo@),
            digits == memo@.subrange(start as int, n as int),
            all_digits(digits.subrange(0, i - start)),
            value == decimal_value(digits.subrange(0, i - start)),
        decreases n - i,
    {
        let b: u8 = bytes[i];
        let ghost c = memo@[i as int];
        assert(c == digits[i - start]);
        assert(digits.subrange(0, i - start + 1).drop_last() =~= digits.subrange(0, i - start));
        if b < 48 || b > 57 {
            assert(!is_digit(c));
            return None;
        }
        assert(is_digit(c) && digit_value(c) == b - 48);
        let next: Option<u64> = match value.checked_mul(10) {
            None => None,
            Some(tens) => tens.checked_add((b - 48) as u64),
        };
        match next {
            None => {
                proof {
                    lemma_decimal_value_grows(digits, i - start + 1);
                }
                return None;
            },
            Some(v) => {
                value = v;
            },
        }
        i = i + 1;
    }
    assert(digits.subrange(0, n - start) =~= digits);
    Some(value)
}

} // verus!
