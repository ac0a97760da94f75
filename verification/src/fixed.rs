//! Fixed-point world arithmetic.  World positions and velocities are kept
//! in subpixels (256 to the pixel) and time in ticks (65536 to the
//! second), so that the movement and collision rules are exact integer
//! statements.  Division helpers cover the three rounding modes the
//! collision engine needs: toward negative infinity, toward positive
//! infinity, and away from zero (the engine's directional rounding).

use vstd::prelude::*;

verus! {

use vstd::arithmetic::div_mod::lemma_fundamental_div_mod;

/// Subpixels per world pixel.
pub const SUB_PER_PIXEL: i64 = 256;

/// Ticks per second of simulated time.
pub const TICKS_PER_SECOND: i64 = 65536;

/// Division rounding toward negative infinity.
pub open spec fn floor_div_spec(a: int, d: int) -> int {
    a / d
}

/// Division rounding toward positive infinity.
pub open spec fn ceil_div_spec(a: int, d: int) -> int {
    -((-a) / d)
}

/// Division rounding toward zero.
pub open spec fn trunc_div_spec(a: int, d: int) -> int {
    if a >= 0 {
        floor_div_spec(a, d)
    } else {
        ceil_div_spec(a, d)
    }
}

/// Division rounding away from zero: the collision engine's directional
/// rounding, pairing with `trunc_div_spec` to cover both edges of a body.
pub open spec fn away_div_spec(a: int, d: int) -> int {
    if a < 0 {
        floor_div_spec(a, d)
    } else {
        ceil_div_spec(a, d)
    }
}

pub fn floor_div(a: i64, d: i64) -> (q: i64)
    requires
        d > 0,
        a > i64::MIN,
    ensures
        q == floor_div_spec(a as int, d as int),
{
    if let Some(q) = a.checked_div_euclid(d) {
        q
    } else {
        proof {
            lemma_div_magnitude(a as int, d as int);
            assert(false);
        }
        0
    }
}

pub fn ceil_div(a: i64, d: i64) -> (q: i64)
    requires
        d > 0,
        a > i64::MIN,
    ensures
        q == ceil_div_spec(a as int, d as int),
{
    proof {
        lemma_div_magnitude(-(a as int), d as int);
    }
    let neg = -a;
    if let Some(q) = neg.checked_div_euclid(d) {
        -q
    } else {
        proof {
            assert(false);
        }
        0
    }
}

pub fn trunc_div(a: i64, d: i64) -> (q: i64)
    requires
        d > 0,
        a > i64::MIN,
    ensures
        q == trunc_div_spec(a as int, d as int),
{
    if a >= 0 {
        floor_div(a, d)
    } else {
        ceil_div(a, d)
    }
}

pub fn away_div(a: i64, d: i64) -> (q: i64)
    requires
        d > 0,
        a > i64::MIN,
    ensures
        q == away_div_spec(a as int, d as int),
{
    if a < 0 {
        floor_div(a, d)
    } else {
        ceil_div(a, d)
    }
}

/// For a positive divisor the quotient's magnitude never exceeds the
/// dividend's.
pub proof fn lemma_div_magnitude(a: int, d: int)
    requires
        d > 0,
    ensures
        a >= 0 ==> 0 <= a / d <= a,
        a < 0 ==> a <= a / d <= 0,
        -((-a) / d) <= a / d + 1,
{
    lemma_fundamental_div_mod(a, d);
    lemma_fundamental_div_mod(-a, d);
    let q = a / d;
    let r = a % d;
    assert(a == d * q + r);
    if a >= 0 {
        assert(q >= 0) by (nonlinear_arith)
            requires
                a == d * q + r,
                a >= 0,
                0 <= r < d,
        ;
        assert(q <= a) by (nonlinear_arith)
            requires
                a == d * q + r,
                a >= 0,
                q >= 0,
                0 <= r < d,
        ;
    } else {
        assert(q < 0) by (nonlinear_arith)
            requires
                a == d * q + r,
                a < 0,
                0 <= r < d,
        ;
        assert(q >= a) by (nonlinear_arith)
            requires
                a == d * q + r,
                a < 0,
                q < 0,
                0 <= r < d,
        ;
    }
    let q2 = (-a) / d;
    let r2 = (-a) % d;
    assert(-a == d * q2 + r2);
    assert(-q2 <= q + 1) by (nonlinear_arith)
        requires
            a == d * q + r,
            -a == d * q2 + r2,
            0 <= r < d,
            0 <= r2 < d,
    ;
}

/// The floor and the ceiling of `a / d` bracket `a`.
pub proof fn lemma_div_brackets(a: int, d: int)
    requires
        d > 0,
    ensures
        (a / d) * d <= a < (a / d) * d + d,
        (ceil_div_spec(a, d) - 1) * d < a <= ceil_div_spec(a, d) * d,
        a % d == 0 ==> ceil_div_spec(a, d) == a / d && (a / d) * d == a,
        a % d != 0 ==> ceil_div_spec(a, d) == a / d + 1,
{
    lemma_fundamental_div_mod(a, d);
    lemma_fundamental_div_mod(-a, d);
    let q = a / d;
    let r = a % d;
    let q2 = (-a) / d;
    let r2 = (-a) % d;
    assert(q * d <= a < q * d + d) by (nonlinear_arith)
        requires
            a == d * q + r,
            0 <= r < d,
    ;
    if r == 0 {
        assert(-a == (-q) * d) by (nonlinear_arith)
            requires
                a == d * q + r,
                r == 0,
        ;
        assert(q2 == -q && r2 == 0) by (nonlinear_arith)
            requires
                -a == d * q2 + r2,
                -a == (-q) * d,
                0 <= r2 < d,
                d > 0,
        ;
    } else {
        assert(-a == (-q - 1) * d + (d - r)) by (nonlinear_arith)
            requires
                a == d * q + r,
        ;
        assert(q2 == -q - 1 && r2 == d - r) by (nonlinear_arith)
            requires
                -a == d * q2 + r2,
                -a == (-q - 1) * d + (d - r),
                0 <= r2 < d,
                0 < r < d,
                d > 0,
        ;
    }
    assert((ceil_div_spec(a, d) - 1) * d < a <= ceil_div_spec(a, d) * d) by (nonlinear_arith)
        requires
            a == d * q + r,
            0 <= r < d,
            d > 0,
            ceil_div_spec(a, d) == if r == 0 {
                q
            } else {
                q + 1
            },
    ;
}

/// A quotient's magnitude from a magnitude bound on the dividend.
pub proof fn lemma_div_scale_bound(a: int, d: int, bound: int)
    requires
        d > 0,
        0 <= bound,
        -(bound * d) <= a <= bound * d,
    ensures
        -bound <= a / d <= bound,
{
    lemma_fundamental_div_mod(a, d);
    let q = a / d;
    let r = a % d;
    assert(-bound <= q <= bound) by (nonlinear_arith)
        requires
            a == d * q + r,
            0 <= r < d,
            d > 0,
            0 <= bound,
            -(bound * d) <= a <= bound * d,
    ;
}

/// Magnitude bound of a product from magnitude bounds of its factors.
pub proof fn lemma_product_bound(a: int, b: int, a_bound: int, b_bound: int)
    requires
        -a_bound <= a <= a_bound,
        -b_bound <= b <= b_bound,
        0 <= a_bound,
        0 <= b_bound,
    ensures
        -(a_bound * b_bound) <= a * b <= a_bound * b_bound,
{
    assert(-(a_bound * b_bound) <= a * b <= a_bound * b_bound) by (nonlinear_arith)
        requires
            -a_bound <= a <= a_bound,
            -b_bound <= b <= b_bound,
            0 <= a_bound,
            0 <= b_bound,
    ;
}

/// `(a * b) / d` rounded toward negative infinity, the crate's one
/// scaling primitive (velocity times time, friction times velocity).
pub fn mul_div_floor(a: i64, b: i64, d: i64) -> (q: i64)
    requires
        d > 0,
        -0x2000_0000_0000_0000 <= a * b <= 0x2000_0000_0000_0000,
    ensures
        q == floor_div_spec(a as int * b as int, d as int),
{
    let p = a * b;
    proof {
        lemma_div_magnitude(p as int, d as int);
    }
    floor_div(p, d)
}

/// Clamps `v` into `[lo, hi]`.
pub fn clamp_i64(v: i64, lo: i64, hi: i64) -> (r: i64)
    requires
        lo <= hi,
    ensures
        r == clamp_spec(v as int, lo as int, hi as int),
{
    if v < lo {
        lo
    } else if v > hi {
        hi
    } else {
        v
    }
}

pub open spec fn clamp_spec(v: int, lo: int, hi: int) -> int {
    if v < lo {
        lo
    } else if v > hi {
        hi
    } else {
        v
    }
}

/// Magnitude of `v`.
pub open spec fn abs_spec(v: int) -> int {
    if v < 0 {
        -v
    } else {
        v
    }
}

pub fn abs_i64(v: i64) -> (r: i64)
    requires
        v > i64::MIN,
    ensures
        r == abs_spec(v as int),
{
    if v < 0 {
        -v
    } else {
        v
    }
}

} // verus!
