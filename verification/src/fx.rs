//! Fixed-point scalars.
//!
//! A scalar is an `i64` holding `SCALE` raw units per whole unit (16.16 fixed
//! point). Executable arithmetic rounds toward zero, exactly as `tdiv` says,
//! so every contract in the crate can speak about results over `int`.

use vstd::prelude::*;

verus! {

/// Raw units in one whole unit: scalars are 16.16 fixed point.
pub const SCALE: i64 = 65536;

/// `SCALE` squared: the raw units of a dot product of two scalars.
pub const SCALE_SQ: i64 = 0x1_0000_0000;

/// `SCALE` cubed: the raw units of a triple product.
pub const SCALE_CU: i64 = 0x1_0000_0000_0000;

/// `SCALE` to the fourth power: the raw units of a squared dot product.
pub const SCALE_P4: i128 = 0x1_0000_0000_0000_0000;

/// `SCALE` to the sixth power: the raw units of a squared triple product.
pub const SCALE_P6: i128 = 0x1_0000_0000_0000_0000_0000_0000;

/// Truncating (round-toward-zero) division: the rounding that executable
/// signed division performs. Unspecified for `d == 0`, like `/` on `int`.
pub open spec fn tdiv(n: int, d: int) -> int {
    if n >= 0 {
        n / d
    } else {
        -((-n) / d)
    }
}

/// The product of two fixed-point scalars, rounded toward zero.
pub open spec fn fx_mul(a: int, b: int) -> int {
    tdiv(a * b, SCALE as int)
}

/// The quotient of two fixed-point scalars, rounded toward zero.
pub open spec fn fx_div(a: int, b: int) -> int {
    tdiv(a * (SCALE as int), b)
}

/// Floor of the square root of a natural number.
pub open spec fn sqrt_floor(n: nat) -> nat
    decreases n,
{
    if n == 0 {
        0
    } else {
        let p = sqrt_floor((n - 1) as nat);
        if (p + 1) * (p + 1) <= n {
            p + 1
        } else {
            p
        }
    }
}

/// `sqrt_floor` is the floor of the square root: it squares to at most `n`,
/// and the next integer squares above `n`.
pub proof fn lemma_sqrt_floor(n: nat)
    ensures
        sqrt_floor(n) * sqrt_floor(n) <= n,
        n < (sqrt_floor(n) + 1) * (sqrt_floor(n) + 1),
    decreases n,
{
    if n == 0 {
        assert(sqrt_floor(n) == 0);
        assert(n < (sqrt_floor(n) + 1) * (sqrt_floor(n) + 1)) by (nonlinear_arith)
            requires
                n == 0nat && sqrt_floor(n) == 0nat,
        ;
    } else {
        let p = sqrt_floor((n - 1) as nat);
        lemma_sqrt_floor((n - 1) as nat);
        assert(p * p <= n - 1);
        assert(n - 1 < (p + 1) * (p + 1));
        if (p + 1) * (p + 1) <= n {
            assert(sqrt_floor(n) == p + 1);
            assert((p + 1) * (p + 1) < (p + 2) * (p + 2)) by (nonlinear_arith);
            assert(n <= (p + 1) * (p + 1));
            assert(sqrt_floor(n) * sqrt_floor(n) <= n);
            assert(n < (sqrt_floor(n) + 1) * (sqrt_floor(n) + 1));
        } else {
            assert(sqrt_floor(n) == p);
            assert(sqrt_floor(n) * sqrt_floor(n) <= n);
            assert(n < (sqrt_floor(n) + 1) * (sqrt_floor(n) + 1));
        }
    }
}

/// No other integer has the two `sqrt_floor` properties.
pub proof fn lemma_sqrt_floor_unique(n: nat, r: nat)
    requires
        r * r <= n,
        n < (r + 1) * (r + 1),
    ensures
        r == sqrt_floor(n),
{
    let s = sqrt_floor(n);
    lemma_sqrt_floor(n);
    if r < s {
        assert((r + 1) * (r + 1) <= s * s) by (nonlinear_arith)
            requires
                r + 1 <= s,
        ;
    }
    if s < r {
        assert((s + 1) * (s + 1) <= r * r) by (nonlinear_arith)
            requires
                s + 1 <= r,
        ;
    }
}

/// Truncating division by a positive divisor keeps any bound `b` with
/// `|n| <= b * d`.
pub proof fn lemma_tdiv_bound(n: int, d: int, b: int)
    requires
        d > 0,
        b >= 0,
        -(b * d) <= n <= b * d,
    ensures
        -b <= tdiv(n, d) <= b,
{
    if n >= 0 {
        vstd::arithmetic::div_mod::lemma_div_is_ordered(n, b * d, d);
        vstd::arithmetic::div_mod::lemma_div_pos_is_pos(n, d);
        assert((b * d) / d == b) by {
            vstd::arithmetic::div_mod::lemma_div_by_multiple(b, d);
        }
    } else {
        let m = -n;
        vstd::arithmetic::div_mod::lemma_div_is_ordered(m, b * d, d);
        vstd::arithmetic::div_mod::lemma_div_pos_is_pos(m, d);
        assert((b * d) / d == b) by {
            vstd::arithmetic::div_mod::lemma_div_by_multiple(b, d);
        }
    }
}

/// Truncating division by a positive divisor never grows the magnitude.
pub proof fn lemma_tdiv_abs_le(n: int, d: int)
    requires
        d >= 1,
    ensures
        n >= 0 ==> 0 <= tdiv(n, d) <= n,
        n < 0 ==> n <= tdiv(n, d) <= 0,
{
    if n >= 0 {
        vstd::arithmetic::div_mod::lemma_div_nonincreasing(n, d);
        vstd::arithmetic::div_mod::lemma_div_pos_is_pos(n, d);
    } else {
        vstd::arithmetic::div_mod::lemma_div_nonincreasing(-n, d);
        vstd::arithmetic::div_mod::lemma_div_pos_is_pos(-n, d);
    }
}

/// Truncating division by a positive divisor is monotone in the numerator.
pub proof fn lemma_tdiv_monotone(n1: int, n2: int, d: int)
    requires
        d > 0,
        n1 <= n2,
    ensures
        tdiv(n1, d) <= tdiv(n2, d),
{
    if n1 >= 0 {
        vstd::arithmetic::div_mod::lemma_div_is_ordered(n1, n2, d);
    } else if n2 >= 0 {
        vstd::arithmetic::div_mod::lemma_div_pos_is_pos(-n1, d);
        vstd::arithmetic::div_mod::lemma_div_pos_is_pos(n2, d);
    } else {
        vstd::arithmetic::div_mod::lemma_div_is_ordered(-n2, -n1, d);
    }
}

/// Truncating division undoes multiplication by the (positive) divisor.
pub proof fn lemma_tdiv_multiple(x: int, d: int)
    requires
        d > 0,
    ensures
        tdiv(x * d, d) == x,
{
    if x >= 0 {
        assert(x * d >= 0) by (nonlinear_arith)
            requires
                x >= 0 && d > 0,
        ;
        vstd::arithmetic::div_mod::lemma_div_by_multiple(x, d);
    } else {
        assert(x * d < 0 && -(x * d) == (-x) * d) by (nonlinear_arith)
            requires
                x < 0 && d > 0,
        ;
        vstd::arithmetic::div_mod::lemma_div_by_multiple(-x, d);
    }
}

/// The fixed-point product of two scalars in `[0, 1]` stays in `[0, 1]` and
/// below either factor.
pub proof fn lemma_fx_mul_unit(a: int, b: int)
    requires
        0 <= a <= SCALE as int,
        0 <= b <= SCALE as int,
    ensures
        0 <= fx_mul(a, b) <= a,
        fx_mul(a, b) <= b,
{
    assert(0 <= a * b && a * b <= a * (SCALE as int) && a * b <= b * (SCALE as int) && 0 <= a * (
    SCALE as int) && 0 <= b * (SCALE as int)) by (nonlinear_arith)
        requires
            0 <= a <= SCALE as int && 0 <= b <= SCALE as int,
    ;
    lemma_tdiv_bound(a * b, SCALE as int, a);
    lemma_tdiv_bound(a * b, SCALE as int, b);
    vstd::arithmetic::div_mod::lemma_div_pos_is_pos(a * b, SCALE as int);
}

/// Fixed-point multiplication is monotone for nonnegative factors.
pub proof fn lemma_fx_mul_mono(a1: int, a2: int, b1: int, b2: int)
    requires
        0 <= a1 <= b1,
        0 <= a2 <= b2,
    ensures
        fx_mul(a1, a2) <= fx_mul(b1, b2),
{
    assert(0 <= a1 * a2 <= b1 * b2) by (nonlinear_arith)
        requires
            0 <= a1 <= b1 && 0 <= a2 <= b2,
    ;
    lemma_tdiv_monotone(a1 * a2, b1 * b2, SCALE as int);
}

/// A fixed-point factor in `[0, 1]` keeps any componentwise bound.
pub proof fn lemma_fx_mul_keeps_bound(t: int, d: int, bd: int)
    requires
        0 <= t <= SCALE as int,
        bd >= 0,
        -bd <= d <= bd,
    ensures
        -bd <= fx_mul(t, d) <= bd,
{
    assert(-(bd * (SCALE as int)) <= t * d <= bd * (SCALE as int)) by (nonlinear_arith)
        requires
            0 <= t <= SCALE as int && -bd <= d <= bd && bd >= 0,
    ;
    lemma_tdiv_bound(t * d, SCALE as int, bd);
}

/// Multiplying by a positive `d` relates to flooring division:
/// `t * d <= a` exactly when `t <= a / d` (Euclidean division).
pub proof fn lemma_le_floor_iff(t: int, a: int, d: int)
    requires
        d > 0,
    ensures
        (t * d <= a) <==> (t <= a / d),
{
    vstd::arithmetic::div_mod::lemma_fundamental_div_mod(a, d);
    if t <= a / d {
        vstd::arithmetic::mul::lemma_mul_inequality(t, a / d, d);
        assert((a / d) * d <= a) by (nonlinear_arith)
            requires
                a == d * (a / d) + a % d && a % d >= 0,
        ;
    }
    if t * d <= a && t > a / d {
        vstd::arithmetic::mul::lemma_mul_inequality(a / d + 1, t, d);
        assert((a / d + 1) * d > a) by (nonlinear_arith)
            requires
                a == d * (a / d) + a % d && a % d < d,
        ;
    }
}

/// Multiplying by a positive `d` relates to ceiling division:
/// `t * d >= a` exactly when `t >= -((-a) / d)`.
pub proof fn lemma_ge_ceil_iff(t: int, a: int, d: int)
    requires
        d > 0,
    ensures
        (t * d >= a) <==> (t >= -((-a) / d)),
{
    lemma_le_floor_iff(-t, -a, d);
    assert((-t) * d == -(t * d)) by (nonlinear_arith);
}

/// Flooring (Euclidean) division of a 128-bit value by a positive divisor.
pub fn div_floor_i128(a: i128, d: i128) -> (q: i128)
    requires
        d > 0,
        a > i128::MIN,
    ensures
        q == a as int / d as int,
{
    let q0: i128 = a / d;
    let r0: i128 = a % d;
    proof {
        lemma_tdiv_abs_le(a as int, d as int);
        if a >= 0 {
        } else {
            let m = -(a as int);
            vstd::arithmetic::div_mod::lemma_fundamental_div_mod(m, d as int);
            if m % (d as int) == 0 {
                assert(a as int == (-(m / (d as int))) * (d as int) + 0) by (nonlinear_arith)
                    requires
                        m == (d as int) * (m / (d as int)) + m % (d as int) && m % (d as int) == 0
                            && a as int == -m,
                ;
                vstd::arithmetic::div_mod::lemma_fundamental_div_mod_converse(
                    a as int,
                    d as int,
                    -(m / (d as int)),
                    0,
                );
            } else {
                assert(a as int == (-(m / (d as int)) - 1) * (d as int) + ((d as int) - m % (
                d as int))) by (nonlinear_arith)
                    requires
                        m == (d as int) * (m / (d as int)) + m % (d as int) && a as int == -m,
                ;
                vstd::arithmetic::div_mod::lemma_fundamental_div_mod_converse(
                    a as int,
                    d as int,
                    -(m / (d as int)) - 1,
                    (d as int) - m % (d as int),
                );
            }
        }
    }
    if a < 0 && r0 != 0 {
        q0 - 1
    } else {
        q0
    }
}

/// Range of a flooring (Euclidean) quotient for a positive divisor.
pub proof fn lemma_floor_div_range(x: int, d: int)
    requires
        d >= 1,
    ensures
        x >= 0 ==> 0 <= x / d <= x,
        x < 0 ==> x - d + 1 <= x / d <= 0,
{
    if x >= 0 {
        vstd::arithmetic::div_mod::lemma_div_pos_is_pos(x, d);
        vstd::arithmetic::div_mod::lemma_div_nonincreasing(x, d);
    } else {
        let q = x / d;
        vstd::arithmetic::div_mod::lemma_fundamental_div_mod(x, d);
        assert(q <= 0 && q >= x - d + 1) by (nonlinear_arith)
            requires
                x == d * q + x % d && 0 <= x % d < d && d >= 1 && x < 0,
        ;
    }
}

/// Ceiling division of a 128-bit value by a positive divisor.
pub fn div_ceil_i128(a: i128, d: i128) -> (q: i128)
    requires
        0 < d <= 0x10000000000000000000000000,
        -0x10000000000000000000000000 <= a <= 0x10000000000000000000000000,
    ensures
        q == -((-(a as int)) / d as int),
{
    let na: i128 = -a;
    let f: i128 = div_floor_i128(na, d);
    proof {
        lemma_floor_div_range(na as int, d as int);
    }
    -f
}

/// Fixed-point multiplication; the result must fit an `i64`.
pub fn fx_mul64(a: i64, b: i64) -> (r: i64)
    requires
        i64::MIN <= fx_mul(a as int, b as int) <= i64::MAX,
    ensures
        r as int == fx_mul(a as int, b as int),
{
    let p: i128 = (a as i128) * (b as i128);
    let q: i128 = p / (SCALE as i128);
    assert(q == fx_mul(a as int, b as int));
    q as i64
}

/// Fixed-point division; `b` must be nonzero and the result must fit an `i64`.
pub fn fx_div64(a: i64, b: i64) -> (r: i64)
    requires
        b != 0,
        i64::MIN <= fx_div(a as int, b as int) <= i64::MAX,
    ensures
        r as int == fx_div(a as int, b as int),
{
    let p: i128 = (a as i128) * (SCALE as i128);
    let q: i128 = p / (b as i128);
    assert(q == fx_div(a as int, b as int));
    q as i64
}

/// Floor square root of a 128-bit natural number by bisection.
pub fn isqrt(n: u128) -> (r: u64)
    ensures
        r as nat == sqrt_floor(n as nat),
        (r as int) * (r as int) <= n as int,
        (n as int) < (r as int + 1) * (r as int + 1),
{
    let mut lo: u128 = 0;
    let mut hi: u128 = 0x1_0000_0000_0000_0000;
    assert((hi as int) * (hi as int) > n as int) by (nonlinear_arith)
        requires
            hi == 0x1_0000_0000_0000_0000u128,
            n <= u128::MAX,
    ;
    while lo + 1 < hi
        invariant
            lo < hi,
            hi <= 0x1_0000_0000_0000_0000,
            (lo as int) * (lo as int) <= n as int,
            (hi as int) * (hi as int) > n as int,
        decreases hi - lo,
    {
        let mid: u128 = lo + (hi - lo) / 2;
        assert((mid as int) * (mid as int) <= u128::MAX) by (nonlinear_arith)
            requires
                0 <= mid < 0x1_0000_0000_0000_0000u128,
        ;
        if mid * mid <= n {
            lo = mid;
        } else {
            hi = mid;
        }
    }
    proof {
        lemma_sqrt_floor_unique(n as nat, lo as nat);
    }
    lo as u64
}

} // verus!
