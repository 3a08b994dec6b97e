use vstd::prelude::*;
use vstd::arithmetic::div_mod::{lemma_div_pos_is_pos, lemma_fundamental_div_mod, lemma_mod_bound};

verus! {

/// Fixed-point steps in one world unit: positions, velocities, strengths and
/// radii are all stored in thousandths of a unit.
pub const ONE: i64 = 1000;

/// Largest magnitude of a coordinate, a velocity component or a parameter in a
/// well-formed simulation.
pub const LIMIT: i64 = 1_000_000_000;

pub open spec fn abs(a: int) -> int {
    if a >= 0 { a } else { -a }
}

/// Division of `a` by a positive `d`, rounding toward zero.
pub open spec fn tdiv(a: int, d: int) -> int {
    if a >= 0 { a / d } else { -((-a) / d) }
}

/// The least non-negative `r` with `r * r >= n`.
pub open spec fn ceil_sqrt(n: int) -> int
    decreases n,
{
    if n <= 0 {
        0
    } else {
        let r = ceil_sqrt(n - 1);
        if r * r >= n { r } else { r + 1 }
    }
}

pub open spec fn is_ceil_sqrt(n: int, r: int) -> bool {
    r >= 0 && r * r >= n && (r == 0 || (r - 1) * (r - 1) < n)
}

pub proof fn lemma_tdiv_bound(a: int, d: int)
    requires
        d > 0,
    ensures
        abs(tdiv(a, d)) * d <= abs(a),
        abs(tdiv(a, d)) <= abs(a),
        a >= 0 ==> tdiv(a, d) >= 0,
        a <= 0 ==> tdiv(a, d) <= 0,
{
    let m = abs(a);
    lemma_fundamental_div_mod(m, d);
    lemma_mod_bound(m, d);
    lemma_div_pos_is_pos(m, d);
    let q = m / d;
    assert(q * d <= m) by (nonlinear_arith)
        requires m == d * q + m % d, m % d >= 0;
    assert(q <= m) by (nonlinear_arith)
        requires q * d <= m, d > 0, q >= 0;
    assert(abs(tdiv(a, d)) == q);
}

/// Averaging bound: a value at most `n * c` in magnitude, divided by `n`,
/// is at most `c` in magnitude.
pub proof fn lemma_tdiv_average(a: int, n: int, c: int)
    requires
        n > 0,
        abs(a) <= n * c,
    ensures
        abs(tdiv(a, n)) <= c,
{
    lemma_tdiv_bound(a, n);
    let q = abs(tdiv(a, n));
    assert(q <= c) by (nonlinear_arith)
        requires q * n <= n * c, n > 0;
}

pub proof fn lemma_ceil_sqrt(n: int)
    ensures
        is_ceil_sqrt(n, ceil_sqrt(n)),
    decreases n,
{
    if n > 0 {
        lemma_ceil_sqrt(n - 1);
        let r = ceil_sqrt(n - 1);
        if r * r < n {
            assert((r + 1) * (r + 1) >= n) by (nonlinear_arith)
                requires r * r >= n - 1, r >= 0;
        }
    }
}

pub proof fn lemma_ceil_sqrt_unique(n: int, a: int, b: int)
    requires
        is_ceil_sqrt(n, a),
        is_ceil_sqrt(n, b),
    ensures
        a == b,
{
    if a < b {
        assert(a * a <= (b - 1) * (b - 1)) by (nonlinear_arith)
            requires 0 <= a, a <= b - 1;
    } else if b < a {
        assert(b * b <= (a - 1) * (a - 1)) by (nonlinear_arith)
            requires 0 <= b, b <= a - 1;
    }
}

/// Division rounding toward zero.
pub fn div_toward_zero(a: i128, d: i128) -> (r: i128)
    requires
        d > 0,
        a > i128::MIN,
    ensures
        r == tdiv(a as int, d as int),
{
    proof {
        lemma_tdiv_bound(a as int, d as int);
    }
    if a >= 0 {
        a / d
    } else {
        let m: i128 = -a;
        let q: i128 = m / d;
        -q
    }
}

/// Least `r` with `r * r >= n`, by bisection.
pub fn ceil_sqrt_u128(n: u128) -> (r: u128)
    requires
        n <= 0x400_0000_0000_0000_0000_0000_0000u128,
    ensures
        r == ceil_sqrt(n as int),
        r <= 0x20_0000_0000_0000u128,
{
    let mut lo: u128 = 0;
    let mut hi: u128 = 0x20_0000_0000_0000u128;
    assert(hi * hi == 0x400_0000_0000_0000_0000_0000_0000u128) by (nonlinear_arith)
        requires hi == 0x20_0000_0000_0000u128;
    while lo < hi
        invariant
            lo <= hi <= 0x20_0000_0000_0000u128,
            hi * hi >= n,
            lo == 0 || (lo - 1) * (lo - 1) < n,
        decreases hi - lo,
    {
        let mid: u128 = lo + (hi - lo) / 2;
        assert(mid * mid <= 0x400_0000_0000_0000_0000_0000_0000u128) by (nonlinear_arith)
            requires mid <= 0x20_0000_0000_0000u128;
        if mid * mid >= n {
            hi = mid;
        } else {
            lo = mid + 1;
        }
    }
    proof {
        lemma_ceil_sqrt(n as int);
        lemma_ceil_sqrt_unique(n as int, lo as int, ceil_sqrt(n as int));
    }
    lo
}

} // verus!
