use vstd::prelude::*;
use crate::fixed::{abs, tdiv, ceil_sqrt, lemma_ceil_sqrt, lemma_tdiv_bound, div_toward_zero, ceil_sqrt_u128};

verus! {

/// Magnitude bound of the intermediate vectors that steering rescales.
pub const WIDE: i128 = 4_500_000_000_000_000;

/// A point or a direction in the plane, in fixed-point thousandths.
#[derive(Clone, Copy, Debug, PartialEq, Eq, Structural)]
pub struct Vec2 {
    pub x: i64,
    pub y: i64,
}

impl Vec2 {
    pub fn new(x: i64, y: i64) -> (r: Vec2)
        ensures
            r.x == x,
            r.y == y,
    {
        Vec2 { x, y }
    }

    pub open spec fn within(self, bound: int) -> bool {
        abs(self.x as int) <= bound && abs(self.y as int) <= bound
    }
}

pub open spec fn norm2(x: int, y: int) -> int {
    x * x + y * y
}

/// `(x, y)` pointed the same way with length `mag` (as far as truncation
/// allows); the zero vector stays zero.
pub open spec fn rescale(x: int, y: int, mag: int) -> (int, int) {
    if x == 0 && y == 0 {
        (0, 0)
    } else {
        let l = ceil_sqrt(norm2(x, y));
        (tdiv(x * mag, l), tdiv(y * mag, l))
    }
}

/// `(x, y)` unchanged when its length is at most `mag`, else rescaled to `mag`.
pub open spec fn clamp_len(x: int, y: int, mag: int) -> (int, int) {
    if norm2(x, y) > mag * mag {
        rescale(x, y, mag)
    } else {
        (x, y)
    }
}

proof fn lemma_square_bound(a: int, m: int)
    requires
        m >= 0,
        a * a <= m * m,
    ensures
        abs(a) <= m,
{
    if abs(a) > m {
        assert(abs(a) * abs(a) > m * m) by (nonlinear_arith)
            requires abs(a) > m, m >= 0;
        assert(abs(a) * abs(a) == a * a) by (nonlinear_arith);
    }
}

proof fn lemma_rescaled_part(a: int, mag: int, l: int)
    requires
        mag >= 0,
        l > 0,
    ensures
        tdiv(a * mag, l) * tdiv(a * mag, l) * (l * l) <= a * a * (mag * mag),
{
    lemma_tdiv_bound(a * mag, l);
    let q = abs(tdiv(a * mag, l));
    assert(abs(a * mag) == abs(a) * mag) by (nonlinear_arith)
        requires mag >= 0;
    let b = abs(a) * mag;
    assert(q * l <= b);
    assert(q >= 0 && l > 0);
    assert((q * l) * (q * l) <= b * b) by (nonlinear_arith)
        requires 0 <= q * l, q * l <= b;
    assert(tdiv(a * mag, l) * tdiv(a * mag, l) == q * q) by (nonlinear_arith)
        requires q == abs(tdiv(a * mag, l));
    assert(abs(a) * abs(a) == a * a) by (nonlinear_arith);
    assert(q * q * (l * l) <= a * a * (mag * mag)) by (nonlinear_arith)
        requires (q * l) * (q * l) <= b * b, b == abs(a) * mag, abs(a) * abs(a) == a * a;
}

/// A rescaled vector is no longer than the length it was rescaled to.
pub proof fn lemma_rescale_bound(x: int, y: int, mag: int)
    requires
        mag >= 0,
    ensures
        norm2(rescale(x, y, mag).0, rescale(x, y, mag).1) <= mag * mag,
        abs(rescale(x, y, mag).0) <= mag,
        abs(rescale(x, y, mag).1) <= mag,
{
    let r = rescale(x, y, mag);
    if x == 0 && y == 0 {
        assert(mag * mag >= 0) by (nonlinear_arith);
    } else {
        let n = norm2(x, y);
        assert(n > 0) by (nonlinear_arith)
            requires n == x * x + y * y, !(x == 0 && y == 0);
        let l = ceil_sqrt(n);
        lemma_ceil_sqrt(n);
        assert(l > 0) by (nonlinear_arith)
            requires l * l >= n, n > 0, l >= 0;
        lemma_rescaled_part(x, mag, l);
        lemma_rescaled_part(y, mag, l);
        let px = r.0 * r.0;
        let py = r.1 * r.1;
        assert((px + py) * (l * l) <= n * (mag * mag)) by (nonlinear_arith)
            requires
                px * (l * l) <= x * x * (mag * mag),
                py * (l * l) <= y * y * (mag * mag),
                n == x * x + y * y;
        assert(px + py <= mag * mag) by (nonlinear_arith)
            requires
                (px + py) * (l * l) <= n * (mag * mag),
                l * l >= n,
                l > 0,
                mag >= 0;
    }
    assert(r.0 * r.0 <= mag * mag && r.1 * r.1 <= mag * mag) by (nonlinear_arith)
        requires r.0 * r.0 + r.1 * r.1 <= mag * mag;
    lemma_square_bound(r.0, mag);
    lemma_square_bound(r.1, mag);
}

/// A clamped vector is no longer than its limit.
pub proof fn lemma_clamp_bound(x: int, y: int, mag: int)
    requires
        mag >= 0,
    ensures
        norm2(clamp_len(x, y, mag).0, clamp_len(x, y, mag).1) <= mag * mag,
        abs(clamp_len(x, y, mag).0) <= mag,
        abs(clamp_len(x, y, mag).1) <= mag,
{
    if norm2(x, y) > mag * mag {
        lemma_rescale_bound(x, y, mag);
    } else {
        assert(x * x <= mag * mag && y * y <= mag * mag) by (nonlinear_arith)
            requires x * x + y * y <= mag * mag;
        lemma_square_bound(x, mag);
        lemma_square_bound(y, mag);
    }
}

/// Exact squared length of a wide vector.
pub fn norm2_wide(x: i128, y: i128) -> (r: i128)
    requires
        abs(x as int) <= WIDE,
        abs(y as int) <= WIDE,
    ensures
        r == norm2(x as int, y as int),
        0 <= r <= 2 * WIDE * WIDE,
{
    assert(0 <= x * x <= WIDE * WIDE && 0 <= y * y <= WIDE * WIDE) by (nonlinear_arith)
        requires abs(x as int) <= WIDE, abs(y as int) <= WIDE;
    x * x + y * y
}

/// `(x, y)` rescaled to length `mag`; the zero vector stays zero.
pub fn rescale_wide(x: i128, y: i128, mag: i64) -> (r: (i128, i128))
    requires
        abs(x as int) <= WIDE,
        abs(y as int) <= WIDE,
        0 <= mag <= crate::fixed::LIMIT,
    ensures
        (r.0 as int, r.1 as int) == rescale(x as int, y as int, mag as int),
{
    proof {
        lemma_rescale_bound(x as int, y as int, mag as int);
    }
    if x == 0 && y == 0 {
        return (0, 0);
    }
    let n: i128 = norm2_wide(x, y);
    let l: u128 = ceil_sqrt_u128(n as u128);
    proof {
        lemma_ceil_sqrt(n as int);
        assert(n > 0) by (nonlinear_arith)
            requires n == x * x + y * y, !(x == 0 && y == 0);
        assert(l > 0) by (nonlinear_arith)
            requires l * l >= n, n > 0;
    }
    let m: i128 = mag as i128;
    assert(abs(x * m) <= WIDE * crate::fixed::LIMIT && abs(y * m) <= WIDE * crate::fixed::LIMIT)
        by (nonlinear_arith)
        requires abs(x as int) <= WIDE, abs(y as int) <= WIDE, 0 <= m <= crate::fixed::LIMIT;
    let rx: i128 = div_toward_zero(x * m, l as i128);
    let ry: i128 = div_toward_zero(y * m, l as i128);
    (rx, ry)
}

/// `(x, y)` unchanged when no longer than `mag`, else rescaled to `mag`.
pub fn clamp_wide(x: i128, y: i128, mag: i64) -> (r: (i64, i64))
    requires
        abs(x as int) <= WIDE,
        abs(y as int) <= WIDE,
        0 <= mag <= crate::fixed::LIMIT,
    ensures
        (r.0 as int, r.1 as int) == clamp_len(x as int, y as int, mag as int),
        abs(r.0 as int) <= mag,
        abs(r.1 as int) <= mag,
{
    proof {
        lemma_clamp_bound(x as int, y as int, mag as int);
    }
    let m: i128 = mag as i128;
    assert(0 <= m * m <= crate::fixed::LIMIT * crate::fixed::LIMIT) by (nonlinear_arith)
        requires 0 <= m <= crate::fixed::LIMIT;
    if norm2_wide(x, y) > m * m {
        let (rx, ry) = rescale_wide(x, y, mag);
        (rx as i64, ry as i64)
    } else {
        (x as i64, y as i64)
    }
}

} // verus!
