//! Wide integer arithmetic and the scaled-decimal primitives.
//!
//! Every product of two 128-bit amounts is formed exactly in 256 bits
//! (as a high/low pair of `u128` halves) before any division, and every
//! division truncates toward zero, so all results are deterministic.

use vstd::prelude::*;
use vstd::arithmetic::div_mod::*;
use vstd::arithmetic::mul::*;

verus! {

/// 2^64, the cutting point between the 64-bit halves of a `u128`.
pub const HALF_BASE: u128 = 0x1_0000_0000_0000_0000;

/// 2^128 as a mathematical integer: the weight of the high half of a
/// 256-bit product.
pub open spec fn base256() -> int {
    u128::MAX + 1
}

/// Splits the exact 256-bit product of two 128-bit values into its high
/// and low 128-bit halves.
pub fn mul_u128_full(a: u128, b: u128) -> (r: (u128, u128))
    ensures
        a * b == r.0 * base256() + r.1,
{
    let a1: u128 = a / HALF_BASE;
    let a0: u128 = a % HALF_BASE;
    let b1: u128 = b / HALF_BASE;
    let b0: u128 = b % HALF_BASE;
    proof {
        lemma_fundamental_div_mod(a as int, HALF_BASE as int);
        lemma_fundamental_div_mod(b as int, HALF_BASE as int);
        lemma_multiply_divide_lt(a as int, HALF_BASE as int, HALF_BASE as int);
        lemma_multiply_divide_lt(b as int, HALF_BASE as int, HALF_BASE as int);
        lemma_mod_division_less_than_divisor(a as int, HALF_BASE as int);
        lemma_mod_division_less_than_divisor(b as int, HALF_BASE as int);
        assert(a1 < HALF_BASE && a0 < HALF_BASE && b1 < HALF_BASE && b0 < HALF_BASE);
        assert(a1 * b1 <= (HALF_BASE - 1) * (HALF_BASE - 1)
            && a0 * b1 <= (HALF_BASE - 1) * (HALF_BASE - 1)
            && a1 * b0 <= (HALF_BASE - 1) * (HALF_BASE - 1)
            && a0 * b0 <= (HALF_BASE - 1) * (HALF_BASE - 1)) by (nonlinear_arith)
            requires
                a1 < HALF_BASE && a0 < HALF_BASE && b1 < HALF_BASE && b0 < HALF_BASE,
        ;
    }
    let p00: u128 = a0 * b0;
    let p01: u128 = a0 * b1;
    let p10: u128 = a1 * b0;
    let p11: u128 = a1 * b1;
    proof {
        lemma_multiply_divide_lt(p00 as int, HALF_BASE as int, HALF_BASE as int);
        lemma_mod_division_less_than_divisor(p00 as int, HALF_BASE as int);
    }
    let t: u128 = p10 + p00 / HALF_BASE;
    proof {
        lemma_multiply_divide_lt(t as int, HALF_BASE as int, HALF_BASE as int);
        lemma_mod_division_less_than_divisor(t as int, HALF_BASE as int);
    }
    let t2: u128 = p01 + t % HALF_BASE;
    proof {
        lemma_multiply_divide_lt(t2 as int, HALF_BASE as int, HALF_BASE as int);
        lemma_mod_division_less_than_divisor(t2 as int, HALF_BASE as int);
    }
    let lo: u128 = (t2 % HALF_BASE) * HALF_BASE + p00 % HALF_BASE;
    let hi: u128 = p11 + t / HALF_BASE + t2 / HALF_BASE;
    proof {
        let k = HALF_BASE as int;
        lemma_fundamental_div_mod(p00 as int, k);
        lemma_fundamental_div_mod(t as int, k);
        lemma_fundamental_div_mod(t2 as int, k);
        assert(a * b == p11 * k * k + p01 * k + p10 * k + p00) by (nonlinear_arith)
            requires
                a == a1 * k + a0,
                b == b1 * k + b0,
                p00 == a0 * b0,
                p01 == a0 * b1,
                p10 == a1 * b0,
                p11 == a1 * b1,
        ;
        assert(hi * (k * k) + lo == p11 * k * k + p01 * k + p10 * k + p00) by (nonlinear_arith)
            requires
                t == p10 + p00 as int / k,
                t2 == p01 + t as int % k,
                lo == (t2 as int % k) * k + p00 as int % k,
                hi == p11 + t as int / k + t2 as int / k,
                p00 == k * (p00 as int / k) + p00 as int % k,
                t == k * (t as int / k) + t as int % k,
                t2 == k * (t2 as int / k) + t2 as int % k,
        ;
        assert(k * k == base256());
    }
    (hi, lo)
}

/// Compares two 256-bit values given as high/low 128-bit halves.
pub fn le_u256(xh: u128, xl: u128, yh: u128, yl: u128) -> (r: bool)
    ensures
        r <==> xh * base256() + xl <= yh * base256() + yl,
{
    proof {
        if xh < yh {
            lemma_mul_inequality(xh as int + 1, yh as int, base256());
            lemma_mul_is_distributive_add_other_way(base256(), xh as int, 1);
        }
        if yh < xh {
            lemma_mul_inequality(yh as int + 1, xh as int, base256());
            lemma_mul_is_distributive_add_other_way(base256(), yh as int, 1);
        }
    }
    xh < yh || (xh == yh && xl <= yl)
}

/// Exact floored quotient `a * b / d`, with the product taken in 256 bits.
/// The caller must know the quotient fits the 128-bit working width; the
/// checked front door is [`checked_mul_div`].
pub fn mul_div_floor(a: u128, b: u128, d: u128) -> (r: u128)
    requires
        d > 0,
        a * b / (d as int) <= u128::MAX,
    ensures
        r == a * b / (d as int),
{
    let (ph, pl) = mul_u128_full(a, b);
    let ghost p = a * b;
    let ghost q = a * b / (d as int);
    proof {
        lemma_div_pos_is_pos(p, d as int);
        lemma_fundamental_div_mod(p, d as int);
        lemma_mod_division_less_than_divisor(p, d as int);
    }
    let mut lo: u128 = 0;
    let mut hi: u128 = u128::MAX;
    while lo < hi
        invariant
            d > 0,
            p == a * b,
            p == ph * base256() + pl,
            q == p / (d as int),
            lo <= q <= hi,
        decreases hi - lo,
    {
        let mid: u128 = hi - (hi - lo) / 2;
        let (mh, ml) = mul_u128_full(mid, d);
        if le_u256(mh, ml, ph, pl) {
            proof {
                // mid * d <= p, so mid <= p / d.
                lemma_div_multiples_vanish(mid as int, d as int);
                lemma_div_is_ordered(mid as int * d as int, p, d as int);
                assert(mid as int * d as int / (d as int) == mid);
            }
            lo = mid;
        } else {
            proof {
                // p < mid * d, so p / d < mid.
                if q >= mid {
                    lemma_mul_inequality(mid as int, q, d as int);
                    lemma_fundamental_div_mod(p, d as int);
                    lemma_mod_division_less_than_divisor(p, d as int);
                    assert(q * d as int <= p) by (nonlinear_arith)
                        requires
                            p == d as int * q + p % (d as int),
                            p % (d as int) >= 0,
                    ;
                    assert(false);
                }
            }
            hi = mid - 1;
        }
    }
    lo
}

/// Floored quotient `a * b / d` with the product widened to 256 bits, or
/// `Error::Overflow` when the quotient itself exceeds the 128-bit working
/// width.
pub fn checked_mul_div(a: u128, b: u128, d: u128) -> (r: Result<u128, crate::types::Error>)
    requires
        d > 0,
    ensures
        a * b / (d as int) <= u128::MAX ==> (r matches Ok(q) && q == a * b / (d as int)),
        a * b / (d as int) > u128::MAX ==> r == Err::<u128, crate::types::Error>(crate::types::Error::Overflow),
{
    let (ph, pl) = mul_u128_full(a, b);
    let ghost p = a * b;
    if ph >= d {
        proof {
            // p >= d * 2^128, so the quotient does not fit 128 bits.
            lemma_mul_inequality(d as int, ph as int, base256());
            lemma_div_multiples_vanish(base256(), d as int);
            lemma_div_is_ordered(d as int * base256(), p, d as int);
            assert(d as int * base256() / (d as int) == base256());
        }
        Err(crate::types::Error::Overflow)
    } else {
        proof {
            // p <= (d - 1) * 2^128 + (2^128 - 1) < d * 2^128, so the
            // quotient fits.
            lemma_mul_inequality(ph as int, d as int - 1, base256());
            lemma_mul_is_distributive_sub_other_way(base256(), d as int, 1);
            lemma_multiply_divide_lt(p, d as int, base256());
        }
        Ok(mul_div_floor(a, b, d))
    }
}

/// Scale factor of the fixed-point decimal representation: a value carries
/// nine fractional digits, stored as an integer multiple of 10^-9.
pub const DECIMAL_FRACTIONAL: u128 = 1_000_000_000;

/// A non-negative decimal number, stored as an integer scaled by
/// [`DECIMAL_FRACTIONAL`].
#[derive(Clone, Copy, Debug, PartialEq, Eq, Structural)]
pub struct Decimal(pub u128);

/// Scaled-decimal subtraction: fails with `Underflow` instead of going
/// negative.
pub fn substraction(nominator: Decimal, denominator: Decimal) -> (r: Result<
    Decimal,
    crate::types::Error,
>)
    ensures
        nominator.0 >= denominator.0 ==> (r matches Ok(d) && d.0 == nominator.0 - denominator.0),
        nominator.0 < denominator.0 ==> r == Err::<Decimal, crate::types::Error>(
            crate::types::Error::Underflow,
        ),
{
    if nominator.0 < denominator.0 {
        Err(crate::types::Error::Underflow)
    } else {
        Ok(Decimal(nominator.0 - denominator.0))
    }
}

/// Scaled-decimal multiplication: the double-scaled 256-bit product is
/// rescaled back by one factor of the scale, truncating toward zero. The
/// caller must know the rescaled result fits the working width.
pub fn multiply(nominator: Decimal, denominator: Decimal) -> (r: Decimal)
    requires
        nominator.0 * denominator.0 / (DECIMAL_FRACTIONAL as int) <= u128::MAX,
    ensures
        r.0 == nominator.0 * denominator.0 / (DECIMAL_FRACTIONAL as int),
{
    Decimal(mul_div_floor(nominator.0, denominator.0, DECIMAL_FRACTIONAL))
}

} // verus!
