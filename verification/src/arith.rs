//! Exact integer arithmetic on amounts: shares and ratios are rounded down, and no
//! intermediate product is cut off.

use vstd::prelude::*;
use vstd::arithmetic::div_mod::{
    lemma_div_is_ordered, lemma_div_multiples_vanish, lemma_fundamental_div_mod,
    lemma_fundamental_div_mod_converse,
};

verus! {

/// The whole part of `a * b / d`.
pub open spec fn mul_div(a: nat, b: nat, d: nat) -> nat {
    (a * b) / d
}

/// A share of `a` that is taken by no more than the whole is no more than `a`.
pub proof fn lemma_mul_div_within(a: nat, b: nat, d: nat)
    requires
        0 < d,
        b <= d,
    ensures
        mul_div(a, b, d) <= a,
{
    assert(a * b <= a * d) by (nonlinear_arith)
        requires
            b <= d,
    ;
    assert(a * d == d * a) by (nonlinear_arith);
    lemma_div_is_ordered((a * b) as int, (a * d) as int, d as int);
    lemma_div_multiples_vanish(a as int, d as int);
}

/// `amount * percent / 100`, rounded down.
pub fn percent_of(amount: u128, percent: u8) -> (r: u128)
    requires
        percent <= 100,
    ensures
        r == mul_div(amount as nat, percent as nat, 100),
{
    let whole: u128 = amount / 100;
    let part: u128 = amount % 100;
    let p: u128 = percent as u128;
    assert(whole * p <= whole * 100 && part * p <= part * 100 && (part * p) / 100 <= part
        && (amount * p) / 100 == whole * p + (part * p) / 100) by (nonlinear_arith)
        requires
            amount == whole * 100 + part,
            part < 100,
            p <= 100,
    ;
    whole * p + (part * p) / 100
}

/// Whether `balance` is at least four fifths of `target`, compared exactly.
pub fn reaches_four_fifths(balance: u128, target: u128) -> (r: bool)
    ensures
        r == (5 * balance >= 4 * target),
{
    balance >= target - target / 5
}

/// Quotient and remainder of `x * y` by `d`, for a factor `x` below the divisor.
fn mul_rem(x: u128, y: u128, d: u128) -> (qr: (u128, u128))
    requires
        x < d,
    ensures
        qr.0 * d + qr.1 == x * y,
        qr.1 < d,
        qr.0 <= y,
    decreases y,
{
    if y == 0 {
        assert(x * 0 == 0) by (nonlinear_arith);
        assert(0 * d == 0) by (nonlinear_arith);
        (0, 0)
    } else {
        let half: u128 = y / 2;
        let (q, r) = mul_rem(x, half, d);
        let q2: u128;
        let r2: u128;
        if r >= d - r {
            q2 = 2 * q + 1;
            r2 = r - (d - r);
        } else {
            q2 = 2 * q;
            r2 = r + r;
        }
        assert(q2 * d + r2 == x * (2 * half)) by (nonlinear_arith)
            requires
                q * d + r == x * half,
                (q2 == 2 * q + 1 && r2 == 2 * r - d) || (q2 == 2 * q && r2 == 2 * r),
        ;
        let q3: u128;
        let r3: u128;
        if y % 2 == 1 {
            if r2 >= d - x {
                assert(q2 < y) by (nonlinear_arith)
                    requires
                        q2 * d + r2 == x * (2 * half),
                        x < d,
                        r2 >= d - x,
                        y == 2 * half + 1,
                        q2 <= 2 * half + 1,
                        r2 < d,
                {
                    // q2 * d <= x * (y - 1) - r2 < d * (y - 1), so q2 < y - 1 unless both are 0
                    if q2 >= y {
                        assert(q2 * d >= y * d);
                        assert(x * (2 * half) <= d * (2 * half));
                    }
                }
                q3 = q2 + 1;
                r3 = r2 - (d - x);
            } else {
                q3 = q2;
                r3 = r2 + x;
            }
            assert(q3 * d + r3 == x * y) by (nonlinear_arith)
                requires
                    q2 * d + r2 == x * (2 * half),
                    y == 2 * half + 1,
                    (q3 == q2 + 1 && r3 == r2 + x - d) || (q3 == q2 && r3 == r2 + x),
            ;
        } else {
            q3 = q2;
            r3 = r2;
        }
        assert(q3 <= y) by (nonlinear_arith)
            requires
                q3 * d + r3 == x * y,
                x < d,
                0 <= r3,
                0 < y,
        {
            if q3 > y {
                assert(q3 * d >= (y + 1) * d);
                assert(x * y <= d * y);
            }
        }
        (q3, r3)
    }
}

/// `a * b / d`, rounded down, or `None` where that does not fit in 128 bits.
pub fn mul_div_floor(a: u128, b: u128, d: u128) -> (r: Option<u128>)
    requires
        d > 0,
    ensures
        r == (if mul_div(a as nat, b as nat, d as nat) <= u128::MAX {
            Some(mul_div(a as nat, b as nat, d as nat) as u128)
        } else {
            None
        }),
{
    let qa: u128 = a / d;
    let ra: u128 = a % d;
    let (q, rem) = mul_rem(ra, b, d);
    proof {
        let whole: int = qa * b + q;
        lemma_fundamental_div_mod(a as int, d as int);
        assert(a * b == whole * d + rem) by (nonlinear_arith)
            requires
                a == d * qa + ra,
                q * d + rem == ra * b,
                whole == qa * b + q,
        ;
        lemma_fundamental_div_mod_converse(a * b, d as int, whole, rem as int);
        assert(qa * b >= 0) by (nonlinear_arith)
            requires
                qa >= 0,
                b >= 0,
        ;
    }
    match qa.checked_mul(b) {
        None => None,
        Some(high) => high.checked_add(q),
    }
}

} // verus!
