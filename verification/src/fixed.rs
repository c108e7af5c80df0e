//! Bounded fixed-point scalars.
//!
//! Every quantity of the simulation (coordinates, speeds, radii, weights,
//! the tick interval) is a signed integer counting thousandths of a unit.
//! A value is *finite* while its magnitude does not exceed [`LIMIT`]; an
//! operation whose mathematical result leaves that range reports a numerical
//! anomaly instead of wrapping.

use vstd::prelude::*;

verus! {

/// Number of fixed-point units in one world unit.
pub const ONE: i64 = 1000;

/// Largest magnitude a fixed-point scalar may take and still count as finite.
pub const LIMIT: i64 = 1_000_000_000_000;

/// Largest argument accepted by the integer square root.
pub const ROOT_DOMAIN: i128 = 100_000_000_000_000_000_000_000_000;

/// Whether a mathematical value lies in the finite fixed-point range.
pub open spec fn finite(v: int) -> bool {
    -LIMIT <= v <= LIMIT
}

/// Quotient of `a` by a positive `b`, rounded toward zero.
pub open spec fn div_toward_zero(a: int, b: int) -> int {
    if a >= 0 {
        a / b
    } else {
        -((-a) / b)
    }
}

/// Fixed-point product of `v` and `w`, rounded toward zero.
pub open spec fn scaled(v: int, w: int) -> int {
    div_toward_zero(v * w, ONE as int)
}

/// `r` is the least non-negative integer whose square reaches `n`.
pub open spec fn is_sqrt_ceil(n: int, r: int) -> bool {
    &&& r >= 0
    &&& r * r >= n
    &&& (r == 0 || (r - 1) * (r - 1) < n)
}

/// The square root of `n`, rounded up; zero for every `n <= 0`.
pub open spec fn sqrt_ceil(n: int) -> int {
    choose|r: int| is_sqrt_ceil(n, r)
}

/// At most one integer is the rounded-up square root of `n`.
pub proof fn lemma_sqrt_ceil_unique(n: int, r1: int, r2: int)
    requires
        is_sqrt_ceil(n, r1),
        is_sqrt_ceil(n, r2),
    ensures
        r1 == r2,
{
    if r1 < r2 {
        assert(r1 * r1 <= (r2 - 1) * (r2 - 1)) by (nonlinear_arith)
            requires
                0 <= r1 <= r2 - 1,
        ;
    } else if r2 < r1 {
        assert(r2 * r2 <= (r1 - 1) * (r1 - 1)) by (nonlinear_arith)
            requires
                0 <= r2 <= r1 - 1,
        ;
    }
}

/// Every integer has a rounded-up square root.
pub proof fn lemma_sqrt_ceil_exists(n: int)
    ensures
        is_sqrt_ceil(n, sqrt_ceil(n)),
    decreases n,
{
    if n <= 0 {
        assert(is_sqrt_ceil(n, 0));
    } else {
        lemma_sqrt_ceil_exists(n - 1);
        let r = sqrt_ceil(n - 1);
        if r * r >= n {
            assert(is_sqrt_ceil(n, r));
        } else {
            assert((r + 1) * (r + 1) >= n) by (nonlinear_arith)
                requires
                    r >= 0,
                    r * r >= n - 1,
            ;
            assert(is_sqrt_ceil(n, r + 1));
        }
    }
}

/// Any witness of [`is_sqrt_ceil`] is the value of [`sqrt_ceil`].
pub proof fn lemma_sqrt_ceil_is(n: int, r: int)
    requires
        is_sqrt_ceil(n, r),
    ensures
        sqrt_ceil(n) == r,
{
    lemma_sqrt_ceil_unique(n, r, sqrt_ceil(n));
}

/// Rounding toward zero never increases the magnitude: `|q| * b <= |a|`.
pub proof fn lemma_div_toward_zero_bound(a: int, b: int)
    requires
        b > 0,
    ensures
        a >= 0 ==> 0 <= div_toward_zero(a, b) && div_toward_zero(a, b) * b <= a,
        a <= 0 ==> div_toward_zero(a, b) <= 0 && a <= div_toward_zero(a, b) * b,
{
    if a >= 0 {
        vstd::arithmetic::div_mod::lemma_fundamental_div_mod(a, b);
        vstd::arithmetic::div_mod::lemma_div_pos_is_pos(a, b);
        vstd::arithmetic::div_mod::lemma_mod_pos_bound(a, b);
        assert(b * (a / b) == (a / b) * b) by (nonlinear_arith);
    } else {
        let m = -a;
        vstd::arithmetic::div_mod::lemma_fundamental_div_mod(m, b);
        vstd::arithmetic::div_mod::lemma_div_pos_is_pos(m, b);
        vstd::arithmetic::div_mod::lemma_mod_pos_bound(m, b);
        assert((-(m / b)) * b == -(b * (m / b))) by (nonlinear_arith);
    }
}

/// A quotient rounded toward zero is no larger in magnitude than the dividend.
pub proof fn lemma_div_toward_zero_shrinks(a: int, b: int, bound: int)
    requires
        b >= 1,
        -bound <= a <= bound,
    ensures
        -bound <= div_toward_zero(a, b) <= bound,
{
    lemma_div_toward_zero_bound(a, b);
    let q = div_toward_zero(a, b);
    if a >= 0 {
        assert(q <= q * b) by (nonlinear_arith)
            requires
                q >= 0,
                b >= 1,
        ;
    } else {
        assert(q * b <= q) by (nonlinear_arith)
            requires
                q <= 0,
                b >= 1,
        ;
    }
}

/// Dividing a value of magnitude at most `k * b` by `k` leaves magnitude at most `b`.
pub proof fn lemma_quotient_bound(a: int, k: int, b: int)
    requires
        k > 0,
        b >= 0,
        -(k * b) <= a <= k * b,
    ensures
        -b <= div_toward_zero(a, k) <= b,
{
    lemma_div_toward_zero_bound(a, k);
    let q = div_toward_zero(a, k);
    if a >= 0 {
        assert(q <= b) by (nonlinear_arith)
            requires
                q * k <= k * b,
                k > 0,
        ;
    } else {
        assert(-b <= q) by (nonlinear_arith)
            requires
                -(k * b) <= q * k,
                k > 0,
        ;
    }
}

/// Computes the quotient of `a` by `b`, rounded toward zero.
pub fn quot(a: i128, b: i128) -> (q: i128)
    requires
        b > 0,
        a > i128::MIN,
    ensures
        q == div_toward_zero(a as int, b as int),
{
    proof {
        lemma_div_toward_zero_shrinks(a as int, b as int, if a >= 0 { a as int } else { -a as int });
    }
    if a >= 0 {
        a / b
    } else {
        -((-a) / b)
    }
}

/// The floor quotient `a / b` lies between `a` and zero and brackets `a`.
pub proof fn lemma_floor_div(a: int, b: int)
    requires
        b > 0,
    ensures
        (a / b) * b <= a < (a / b + 1) * b,
        a >= 0 ==> 0 <= a / b <= a,
        a < 0 ==> a <= a / b < 0,
{
    let e = a / b;
    vstd::arithmetic::div_mod::lemma_fundamental_div_mod(a, b);
    vstd::arithmetic::div_mod::lemma_mod_bound(a, b);
    assert(b * e == e * b) by (nonlinear_arith);
    assert((e + 1) * b == e * b + b) by (nonlinear_arith);
    if a >= 0 {
        assert(e >= 0) by (nonlinear_arith)
            requires
                (e + 1) * b > a,
                a >= 0,
                b > 0,
        ;
        assert(e <= e * b) by (nonlinear_arith)
            requires
                e >= 0,
                b >= 1,
        ;
    } else {
        assert(e < 0) by (nonlinear_arith)
            requires
                e * b <= a,
                a < 0,
                b > 0,
        ;
        assert((e + 1) * b <= e + 1) by (nonlinear_arith)
            requires
                e + 1 <= 0,
                b >= 1,
        ;
    }
}

/// Computes the quotient of `a` by `b`, rounded toward negative infinity.
pub fn floor_quot(a: i64, b: i64) -> (q: i64)
    requires
        b > 0,
    ensures
        q == a as int / b as int,
        q * b <= a < (q + 1) * b,
{
    let wide: i128 = a as i128;
    let step: i128 = b as i128;
    proof {
        lemma_floor_div(a as int, b as int);
    }
    if wide >= 0 {
        (wide / step) as i64
    } else {
        let m: i128 = -wide + (step - 1);
        let up: i128 = m / step;
        proof {
            lemma_floor_div(m as int, b as int);
            let r = m as int % b as int;
            vstd::arithmetic::div_mod::lemma_fundamental_div_mod(m as int, b as int);
            vstd::arithmetic::div_mod::lemma_mod_bound(m as int, b as int);
            assert((-up) * b + (b - 1 - r) == a) by (nonlinear_arith)
                requires
                    m == b * up + r,
                    m == -a + (b - 1),
            ;
            vstd::arithmetic::div_mod::lemma_fundamental_div_mod_converse(
                a as int,
                b as int,
                -up as int,
                b - 1 - r,
            );
        }
        (-up) as i64
    }
}

/// Computes the square root of `n`, rounded up.
pub fn isqrt_ceil(n: i128) -> (r: i128)
    requires
        0 <= n <= ROOT_DOMAIN,
    ensures
        r == sqrt_ceil(n as int),
        is_sqrt_ceil(n as int, r as int),
        0 <= r <= 10_000_000_000_000,
{
    let mut lo: i128 = 0;
    let mut hi: i128 = 10_000_000_000_000;
    while lo < hi
        invariant
            0 <= lo <= hi <= 10_000_000_000_000,
            hi * hi >= n,
            lo == 0 || (lo - 1) * (lo - 1) < n,
        decreases hi - lo,
    {
        let mid: i128 = lo + (hi - lo) / 2;
        assert(0 <= mid * mid <= 100_000_000_000_000_000_000_000_000) by (nonlinear_arith)
            requires
                0 <= mid <= 10_000_000_000_000,
        ;
        if mid * mid >= n {
            hi = mid;
        } else {
            lo = mid + 1;
        }
    }
    proof {
        lemma_sqrt_ceil_is(n as int, lo as int);
    }
    lo
}

} // verus!
