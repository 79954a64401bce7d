//! 16.16 fixed-point scalars.
//!
//! A real number `v` is carried as the `i64` nearest `v * 65536`; all
//! operations round toward minus infinity, so each has one exact integer
//! meaning, stated by the spec functions below.
use vstd::prelude::*;

verus! {

use vstd::arithmetic::div_mod::{
    lemma_fundamental_div_mod, lemma_fundamental_div_mod_converse, lemma_mod_bound,
    lemma_div_is_ordered, lemma_div_pos_is_pos, lemma_div_multiples_vanish,
};

/// Raw value of 1.0: the fixed-point scale.
pub const FX_ONE: i64 = 65536;

/// Floor of `a * b / 65536`: the product of two fixed-point numbers.
pub open spec fn fxm(a: int, b: int) -> int {
    (a * b) / 65536
}

/// Floor of `a * 65536 / b`: the quotient of two fixed-point numbers.
pub open spec fn fxd(a: int, b: int) -> int {
    (a * 65536) / b
}

/// `t` clamped to the unit interval.
pub open spec fn clamp01_s(t: int) -> int {
    if t < 0 {
        0
    } else if t > 65536 {
        65536
    } else {
        t
    }
}

/// Linear interpolation from `a` to `b` by `t` clamped to [0, 1].
pub open spec fn lerp_s(a: int, b: int, t: int) -> int {
    a + fxm(b - a, clamp01_s(t))
}

/// Floor division by a positive divisor equals the negated rounded-up
/// quotient of the negated dividend.
proof fn lemma_floor_div_neg(n: int, d: int)
    requires
        d > 0,
        n < 0,
    ensures
        n / d == -(((-n) + d - 1) / d),
        (-n) + d - 1 >= 0,
{
    let q = n / d;
    let r = n % d;
    lemma_fundamental_div_mod(n, d);
    lemma_mod_bound(n, d);
    assert((-n) + d - 1 == (-q - 1) * d + (2 * d - 1 - r)) by (nonlinear_arith)
        requires
            n == d * q + r;
    if r == 0 {
        assert((-n) + d - 1 == (-q) * d + (d - 1)) by (nonlinear_arith)
            requires
                n == d * q + r,
                r == 0;
        lemma_fundamental_div_mod_converse((-n) + d - 1, d, -q, d - 1);
    } else {
        assert((-n) + d - 1 == (-q - 1) * d + (d - 1 - r) + d) by (nonlinear_arith)
            requires
                n == d * q + r;
        assert((-n) + d - 1 == (-q) * d + (d - 1 - r)) by (nonlinear_arith)
            requires
                n == d * q + r;
        lemma_fundamental_div_mod_converse((-n) + d - 1, d, -q, d - 1 - r);
    }
}

/// Floor division of a wide signed dividend by a positive divisor, with the
/// quotient known to fit an `i64`.
fn floor_div_wide(p: i128, d: i128) -> (r: i64)
    requires
        0 < d <= i64::MAX,
        -0x40000000000000000000000000000000 <= p,
        i64::MIN <= p / d <= i64::MAX,
    ensures
        r == p / d,
{
    if p >= 0 {
        let q: u128 = (p as u128) / (d as u128);
        proof {
            lemma_div_pos_is_pos(p as int, d as int);
            lemma_div_is_ordered(0, p as int, d as int);
        }
        (q as i128) as i64
    } else {
        let np: u128 = (-p) as u128;
        let dd: u128 = d as u128;
        let q: u128 = (np + (dd - 1)) / dd;
        proof {
            lemma_floor_div_neg(p as int, d as int);
            lemma_div_pos_is_pos((-p) + d - 1, d as int);
        }
        (-(q as i128)) as i64
    }
}

/// A quotient by a positive divisor lies between the dividend and zero.
pub proof fn lemma_div_in_range(a: int, b: int)
    requires
        0 < b,
    ensures
        a <= 0 ==> a <= a / b <= 0,
        0 <= a ==> 0 <= a / b <= a,
{
    let q = a / b;
    let r = a % b;
    lemma_fundamental_div_mod(a, b);
    lemma_mod_bound(a, b);
    assert((a <= 0 ==> a <= q <= 0) && (0 <= a ==> 0 <= q <= a)) by (nonlinear_arith)
        requires
            a == b * q + r,
            0 <= r < b,
            1 <= b;
}

/// Floor division of fixed-point `a` by a positive fixed-point `b`.
pub fn fdiv(a: i64, b: i64) -> (r: i64)
    requires
        0 < b,
    ensures
        r == a as int / b as int,
{
    proof {
        lemma_div_in_range(a as int, b as int);
    }
    floor_div_wide(a as i128, b as i128)
}

/// Fixed-point product, rounding toward minus infinity.
pub fn fx_mul(a: i64, b: i64) -> (r: i64)
    requires
        i64::MIN <= fxm(a as int, b as int) <= i64::MAX,
    ensures
        r == fxm(a as int, b as int),
{
    proof {
        assert((a as int) * (b as int) <= 0x40000000000000000000000000000000
            && (a as int) * (b as int) >= -0x40000000000000000000000000000000) by (nonlinear_arith)
            requires
                -0x8000000000000000 <= a <= 0x7fffffffffffffff,
                -0x8000000000000000 <= b <= 0x7fffffffffffffff;
    }
    let p: i128 = (a as i128) * (b as i128);
    floor_div_wide(p, 65536)
}

/// Fixed-point quotient by a positive divisor, rounding toward minus infinity.
pub fn fx_div(a: i64, b: i64) -> (r: i64)
    requires
        0 < b,
        i64::MIN <= fxd(a as int, b as int) <= i64::MAX,
    ensures
        r == fxd(a as int, b as int),
{
    let p: i128 = (a as i128) * 65536;
    floor_div_wide(p, b as i128)
}

/// Clamp a fixed-point number to the unit interval.
pub fn clamp01(t: i64) -> (r: i64)
    ensures
        r == clamp01_s(t as int),
{
    if t < 0 {
        0
    } else if t > FX_ONE {
        FX_ONE
    } else {
        t
    }
}

/// A fixed-point product with both factors' magnitudes bounded stays within
/// the scaled product of the bounds.
pub proof fn lemma_fxm_bound(a: int, b: int, ba: int, bb: int)
    requires
        -ba <= a <= ba,
        -bb <= b <= bb,
        0 <= ba,
        0 <= bb,
    ensures
        -(ba * bb / 65536) - 1 <= fxm(a, b) <= ba * bb / 65536,
{
    let m = ba * bb;
    assert(-m <= a * b <= m && 0 <= m) by (nonlinear_arith)
        requires
            m == ba * bb,
            -ba <= a <= ba,
            -bb <= b <= bb,
            0 <= ba,
            0 <= bb;
    lemma_div_is_ordered(a * b, m, 65536);
    lemma_div_is_ordered(-m, a * b, 65536);
    if m == 0 {
        assert(fxm(a, b) == 0);
    } else {
        lemma_floor_div_neg(-m, 65536);
        lemma_div_is_ordered(m, m + 65535, 65536);
        lemma_fundamental_div_mod(m, 65536);
        lemma_mod_bound(m, 65536);
        assert(m + 65535 == (m / 65536 + 1) * 65536 + (m % 65536 - 1)) by (nonlinear_arith)
            requires
                m == 65536 * (m / 65536) + m % 65536;
        if m % 65536 == 0 {
            assert(m + 65535 == (m / 65536) * 65536 + 65535) by (nonlinear_arith)
                requires
                    m == 65536 * (m / 65536) + m % 65536,
                    m % 65536 == 0;
            lemma_fundamental_div_mod_converse(m + 65535, 65536, m / 65536, 65535);
        } else {
            lemma_fundamental_div_mod_converse(
                m + 65535,
                65536,
                m / 65536 + 1,
                m % 65536 - 1,
            );
        }
    }
}

/// Interpolation lands between its endpoints.
pub proof fn lemma_lerp_in_range(a: int, b: int, t: int)
    ensures
        a <= b ==> a <= lerp_s(a, b, t) <= b,
        b <= a ==> b <= lerp_s(a, b, t) <= a,
{
    let tc = clamp01_s(t);
    if a <= b {
        assert(0 <= (b - a) * tc <= (b - a) * 65536) by (nonlinear_arith)
            requires
                0 <= tc <= 65536,
                a <= b;
        lemma_div_pos_is_pos((b - a) * tc, 65536);
        lemma_div_is_ordered((b - a) * tc, (b - a) * 65536, 65536);
        lemma_div_multiples_vanish(b - a, 65536);
        assert((b - a) * 65536 == 65536 * (b - a)) by (nonlinear_arith);
    } else {
        assert((b - a) * 65536 <= (b - a) * tc <= 0) by (nonlinear_arith)
            requires
                0 <= tc <= 65536,
                b <= a;
        lemma_div_is_ordered((b - a) * 65536, (b - a) * tc, 65536);
        lemma_div_is_ordered((b - a) * tc, 0, 65536);
        lemma_div_multiples_vanish(b - a, 65536);
        assert((b - a) * 65536 == 65536 * (b - a)) by (nonlinear_arith);
    }
}

/// Linear interpolation from `v0` to `v1` by `d` clamped to [0, 1].
pub fn lerp(v0: i64, v1: i64, d: i64) -> (r: i64)
    requires
        -0x100000000000000 <= v0 <= 0x100000000000000,
        -0x100000000000000 <= v1 <= 0x100000000000000,
    ensures
        r == lerp_s(v0 as int, v1 as int, d as int),
        v0 <= v1 ==> v0 <= r <= v1,
        v1 <= v0 ==> v1 <= r <= v0,
{
    proof {
        lemma_lerp_in_range(v0 as int, v1 as int, d as int);
    }
    let t: i64 = clamp01(d);
    let diff: i64 = v1 - v0;
    let m: i64 = fx_mul(diff, t);
    v0 + m
}

} // verus!
