//! Three-component vectors over 16.16 fixed-point scalars.
//!
//! The view of a vector is the triple of its raw component values, and every
//! operation's contract states the exact triple it returns. Lengths are the
//! floor of the true Euclidean length: the squared sum is formed on the raw
//! components, where it is exact, and rooted by a verified integer square
//! root. A zero vector normalizes to the zero vector (the one guarded case;
//! there is no representable "undefined" value).
use vstd::prelude::*;

verus! {

use crate::fx::{fxm, fxd, lerp_s, FX_ONE, fx_mul, fx_div};
use vstd::arithmetic::div_mod::{lemma_div_is_ordered, lemma_div_multiples_vanish};

#[derive(Clone, Copy, PartialEq, Eq, Structural, Debug)]
pub struct Vec3 {
    pub x: i64,
    pub y: i64,
    pub z: i64,
}

impl View for Vec3 {
    type V = (int, int, int);

    open spec fn view(&self) -> (int, int, int) {
        (self.x as int, self.y as int, self.z as int)
    }
}

/// All three components within `b` in magnitude.
pub open spec fn v_in(v: (int, int, int), b: int) -> bool {
    &&& -b <= v.0 <= b
    &&& -b <= v.1 <= b
    &&& -b <= v.2 <= b
}

/// The working range of the vector arithmetic.
pub open spec fn v_ok(v: (int, int, int)) -> bool {
    v_in(v, 0x4000000000)
}

pub open spec fn vadd(a: (int, int, int), b: (int, int, int)) -> (int, int, int) {
    (a.0 + b.0, a.1 + b.1, a.2 + b.2)
}

pub open spec fn vsub(a: (int, int, int), b: (int, int, int)) -> (int, int, int) {
    (a.0 - b.0, a.1 - b.1, a.2 - b.2)
}

pub open spec fn vneg(a: (int, int, int)) -> (int, int, int) {
    (-a.0, -a.1, -a.2)
}

pub open spec fn vscale(a: (int, int, int), s: int) -> (int, int, int) {
    (fxm(a.0, s), fxm(a.1, s), fxm(a.2, s))
}

pub open spec fn vdot(a: (int, int, int), b: (int, int, int)) -> int {
    fxm(a.0, b.0) + fxm(a.1, b.1) + fxm(a.2, b.2)
}

pub open spec fn vcross(a: (int, int, int), b: (int, int, int)) -> (int, int, int) {
    (
        fxm(a.1, b.2) - fxm(a.2, b.1),
        fxm(a.2, b.0) - fxm(a.0, b.2),
        fxm(a.0, b.1) - fxm(a.1, b.0),
    )
}

pub open spec fn vlerp(a: (int, int, int), b: (int, int, int), t: int) -> (int, int, int) {
    (lerp_s(a.0, b.0, t), lerp_s(a.1, b.1, t), lerp_s(a.2, b.2, t))
}

/// Raise to `lo`, then cap at `hi` (the cap wins if `lo > hi`).
pub open spec fn sclamp(c: int, lo: int, hi: int) -> int {
    let m = if c < lo {
        lo
    } else {
        c
    };
    if m > hi {
        hi
    } else {
        m
    }
}

pub open spec fn vclamp(v: (int, int, int), lo: int, hi: int) -> (int, int, int) {
    (sclamp(v.0, lo, hi), sclamp(v.1, lo, hi), sclamp(v.2, lo, hi))
}

pub open spec fn vmin(a: (int, int, int), b: (int, int, int)) -> (int, int, int) {
    (
        if a.0 <= b.0 { a.0 } else { b.0 },
        if a.1 <= b.1 { a.1 } else { b.1 },
        if a.2 <= b.2 { a.2 } else { b.2 },
    )
}

pub open spec fn vmax(a: (int, int, int), b: (int, int, int)) -> (int, int, int) {
    (
        if a.0 >= b.0 { a.0 } else { b.0 },
        if a.1 >= b.1 { a.1 } else { b.1 },
        if a.2 >= b.2 { a.2 } else { b.2 },
    )
}

/// `r` is the floor of the square root of `n`.
pub open spec fn is_sqrt_floor(n: int, r: int) -> bool {
    &&& 0 <= r
    &&& r * r <= n
    &&& n < (r + 1) * (r + 1)
}

/// The floor of the square root of a nonnegative `n`.
pub open spec fn sqrt_floor(n: int) -> int {
    choose|r: int| is_sqrt_floor(n, r)
}

/// Any witness of `is_sqrt_floor` is the `sqrt_floor`.
pub proof fn lemma_sqrt_floor_unique(n: int, r: int)
    requires
        is_sqrt_floor(n, r),
    ensures
        sqrt_floor(n) == r,
{
    assert(exists|q: int| is_sqrt_floor(n, q));
    let q = sqrt_floor(n);
    assert(is_sqrt_floor(n, q));
    assert(q == r) by (nonlinear_arith)
        requires
            0 <= q,
            q * q <= n,
            n < (q + 1) * (q + 1),
            0 <= r,
            r * r <= n,
            n < (r + 1) * (r + 1);
}

/// Every nonnegative integer has a floor square root.
pub proof fn lemma_sqrt_floor_exists(n: nat)
    ensures
        is_sqrt_floor(n as int, sqrt_floor(n as int)),
    decreases n,
{
    if n == 0 {
        assert(is_sqrt_floor(0, 0));
        lemma_sqrt_floor_unique(0, 0);
    } else {
        lemma_sqrt_floor_exists((n - 1) as nat);
        let r = sqrt_floor(n as int - 1);
        if (r + 1) * (r + 1) <= n {
            assert(is_sqrt_floor(n as int, r + 1)) by (nonlinear_arith)
                requires
                    is_sqrt_floor(n as int - 1, r),
                    (r + 1) * (r + 1) <= n;
            lemma_sqrt_floor_unique(n as int, r + 1);
        } else {
            assert(is_sqrt_floor(n as int, r));
            lemma_sqrt_floor_unique(n as int, r);
        }
    }
}

/// The length of a vector with components within `b` is within `2 b`.
pub proof fn lemma_vlen_le(v: (int, int, int), b: int)
    requires
        v_in(v, b),
        0 <= b,
    ensures
        0 <= vlen(v) <= 2 * b,
        vnorm2(v) >= 0,
{
    assert(0 <= vnorm2(v) <= 3 * b * b) by (nonlinear_arith)
        requires
            v_in(v, b);
    lemma_sqrt_floor_exists(vnorm2(v) as nat);
    let r = vlen(v);
    assert(r <= 2 * b) by (nonlinear_arith)
        requires
            is_sqrt_floor(vnorm2(v), r),
            vnorm2(v) <= 3 * b * b,
            0 <= b;
}

/// Raw squared component sum: exact, with no fixed-point rescale.
pub open spec fn vnorm2(v: (int, int, int)) -> int {
    v.0 * v.0 + v.1 * v.1 + v.2 * v.2
}

/// Raw length: the floor of the root of the raw squared sum; the fixed-point
/// scale cancels, so this is again a 16.16 value.
pub open spec fn vlen(v: (int, int, int)) -> int {
    sqrt_floor(vnorm2(v))
}

/// Normalization to (approximately) unit length; the zero vector stays zero.
pub open spec fn vnormalized(v: (int, int, int)) -> (int, int, int) {
    let l = vlen(v);
    if l == 0 {
        (0, 0, 0)
    } else {
        (fxd(v.0, l), fxd(v.1, l), fxd(v.2, l))
    }
}

/// Integer square root by bisection.
pub fn isqrt(n: u128) -> (r: u64)
    ensures
        is_sqrt_floor(n as int, r as int),
{
    let mut lo: u128 = 0;
    let mut hi: u128 = 0x10000000000000000;
    proof {
        assert((n as int) < 0x10000000000000000 * 0x10000000000000000) by (nonlinear_arith)
            requires
                n <= 0xffffffffffffffffffffffffffffffff;
    }
    while lo + 1 < hi
        invariant
            lo < hi <= 0x10000000000000000,
            lo * lo <= n,
            (n as int) < hi * hi,
        decreases hi - lo,
    {
        let mid: u128 = lo + (hi - lo) / 2;
        proof {
            assert(mid * mid <= 0xffffffffffffffffffffffffffffffff) by (nonlinear_arith)
                requires
                    mid <= 0xffffffffffffffff;
        }
        if mid * mid <= n {
            lo = mid;
        } else {
            hi = mid;
        }
    }
    proof {
        assert(lo * lo <= n < (lo + 1) * (lo + 1));
    }
    lo as u64
}

/// Interpolate each component of `a` toward `b` by `d` clamped to [0, 1].
pub fn lerp(a: Vec3, b: Vec3, d: i64) -> (r: Vec3)
    requires
        v_ok(a@),
        v_ok(b@),
    ensures
        r@ == vlerp(a@, b@, d as int),
        v_in(r@, 0x4000000000),
{
    Vec3 {
        x: crate::fx::lerp(a.x, b.x, d),
        y: crate::fx::lerp(a.y, b.y, d),
        z: crate::fx::lerp(a.z, b.z, d),
    }
}

impl Vec3 {
    pub fn new(x: i64, y: i64, z: i64) -> (r: Vec3)
        ensures
            r@ == (x as int, y as int, z as int),
    {
        Vec3 { x, y, z }
    }

    pub fn zero() -> (r: Vec3)
        ensures
            r@ == (0int, 0int, 0int),
    {
        Vec3 { x: 0, y: 0, z: 0 }
    }

    pub fn one() -> (r: Vec3)
        ensures
            r@ == (FX_ONE as int, FX_ONE as int, FX_ONE as int),
    {
        Vec3 { x: FX_ONE, y: FX_ONE, z: FX_ONE }
    }

    pub fn x(&self) -> (r: i64)
        ensures
            r == self@.0,
    {
        self.x
    }

    pub fn y(&self) -> (r: i64)
        ensures
            r == self@.1,
    {
        self.y
    }

    pub fn z(&self) -> (r: i64)
        ensures
            r == self@.2,
    {
        self.z
    }

    pub fn x_comp(self) -> (r: Vec3)
        ensures
            r@ == (self@.0, 0int, 0int),
    {
        Vec3 { x: self.x, y: 0, z: 0 }
    }

    pub fn y_comp(self) -> (r: Vec3)
        ensures
            r@ == (0int, self@.1, 0int),
    {
        Vec3 { x: 0, y: self.y, z: 0 }
    }

    pub fn z_comp(self) -> (r: Vec3)
        ensures
            r@ == (0int, 0int, self@.2),
    {
        Vec3 { x: 0, y: 0, z: self.z }
    }

    pub fn add(self, o: Vec3) -> (r: Vec3)
        requires
            v_ok(self@),
            v_ok(o@),
        ensures
            r@ == vadd(self@, o@),
    {
        Vec3 { x: self.x + o.x, y: self.y + o.y, z: self.z + o.z }
    }

    pub fn sub(self, o: Vec3) -> (r: Vec3)
        requires
            v_ok(self@),
            v_ok(o@),
        ensures
            r@ == vsub(self@, o@),
    {
        Vec3 { x: self.x - o.x, y: self.y - o.y, z: self.z - o.z }
    }

    pub fn neg(self) -> (r: Vec3)
        requires
            v_ok(self@),
        ensures
            r@ == vneg(self@),
    {
        Vec3 { x: -self.x, y: -self.y, z: -self.z }
    }

    /// Uniform scaling by a fixed-point factor.
    pub fn scale(&self, scalar: i64) -> (r: Vec3)
        requires
            v_ok(self@),
            -0x1000000 <= scalar <= 0x1000000,
        ensures
            r@ == vscale(self@, scalar as int),
    {
        proof {
            crate::fx::lemma_fxm_bound(self@.0, scalar as int, 0x4000000000, 0x1000000);
            crate::fx::lemma_fxm_bound(self@.1, scalar as int, 0x4000000000, 0x1000000);
            crate::fx::lemma_fxm_bound(self@.2, scalar as int, 0x4000000000, 0x1000000);
        }
        Vec3 {
            x: fx_mul(self.x, scalar),
            y: fx_mul(self.y, scalar),
            z: fx_mul(self.z, scalar),
        }
    }

    /// The scalar (dot) product; distinct from uniform scaling.
    pub fn dot(&self, vec: Vec3) -> (r: i64)
        requires
            v_ok(self@),
            v_ok(vec@),
        ensures
            r == vdot(self@, vec@),
    {
        proof {
            crate::fx::lemma_fxm_bound(self@.0, vec@.0, 0x4000000000, 0x4000000000);
            crate::fx::lemma_fxm_bound(self@.1, vec@.1, 0x4000000000, 0x4000000000);
            crate::fx::lemma_fxm_bound(self@.2, vec@.2, 0x4000000000, 0x4000000000);
        }
        fx_mul(self.x, vec.x) + fx_mul(self.y, vec.y) + fx_mul(self.z, vec.z)
    }

    pub fn cross(self, vec: Vec3) -> (r: Vec3)
        requires
            v_ok(self@),
            v_ok(vec@),
        ensures
            r@ == vcross(self@, vec@),
    {
        proof {
            crate::fx::lemma_fxm_bound(self@.1, vec@.2, 0x4000000000, 0x4000000000);
            crate::fx::lemma_fxm_bound(self@.2, vec@.1, 0x4000000000, 0x4000000000);
            crate::fx::lemma_fxm_bound(self@.2, vec@.0, 0x4000000000, 0x4000000000);
            crate::fx::lemma_fxm_bound(self@.0, vec@.2, 0x4000000000, 0x4000000000);
            crate::fx::lemma_fxm_bound(self@.0, vec@.1, 0x4000000000, 0x4000000000);
            crate::fx::lemma_fxm_bound(self@.1, vec@.0, 0x4000000000, 0x4000000000);
        }
        Vec3 {
            x: fx_mul(self.y, vec.z) - fx_mul(self.z, vec.y),
            y: fx_mul(self.z, vec.x) - fx_mul(self.x, vec.z),
            z: fx_mul(self.x, vec.y) - fx_mul(self.y, vec.x),
        }
    }

    /// Fixed-point squared length (rescaled, so subject to floor rounding).
    pub fn length_squared(&self) -> (r: i64)
        requires
            v_ok(self@),
        ensures
            r == vdot(self@, self@),
    {
        self.dot(*self)
    }

    /// Raw Euclidean length, rounded down.
    pub fn length(&self) -> (r: i64)
        requires
            v_in(self@, 0x8000000000),
        ensures
            r == vlen(self@),
            0 <= r <= 0x10000000000,
            self@.0 <= r && -self@.0 <= r,
            self@.1 <= r && -self@.1 <= r,
            self@.2 <= r && -self@.2 <= r,
    {
        proof {
            assert(0 <= self@.0 * self@.0 <= 0x40000000000000000000
                && 0 <= self@.1 * self@.1 <= 0x40000000000000000000
                && 0 <= self@.2 * self@.2 <= 0x40000000000000000000) by (nonlinear_arith)
                requires
                    v_in(self@, 0x8000000000);
        }
        let xx: i128 = (self.x as i128) * (self.x as i128);
        let yy: i128 = (self.y as i128) * (self.y as i128);
        let zz: i128 = (self.z as i128) * (self.z as i128);
        let sum: i128 = xx + yy + zz;
        let r: u64 = isqrt(sum as u128);
        proof {
            lemma_sqrt_floor_unique(vnorm2(self@), r as int);
            assert(r <= 0x10000000000) by (nonlinear_arith)
                requires
                    (r as int) * (r as int) <= 0xC0000000000000000000;
            assert(self@.0 <= r && -self@.0 <= r && self@.1 <= r && -self@.1 <= r
                && self@.2 <= r && -self@.2 <= r) by (nonlinear_arith)
                requires
                    is_sqrt_floor(vnorm2(self@), r as int),
                    vnorm2(self@) == self@.0 * self@.0 + self@.1 * self@.1 + self@.2 * self@.2,
                    v_in(self@, 0x8000000000);
        }
        r as i64
    }

    /// Distance between two points.
    pub fn distance(&self, v: Vec3) -> (r: i64)
        requires
            v_ok(self@),
            v_ok(v@),
        ensures
            r == vlen(vsub(self@, v@)),
    {
        let d = self.sub(v);
        d.length()
    }

    /// Normalized copy; the zero vector yields the zero vector.
    pub fn normalized(&self) -> (r: Vec3)
        requires
            v_in(self@, 0x8000000000),
        ensures
            r@ == vnormalized(self@),
            v_in(r@, 65536),
    {
        let l = self.length();
        if l == 0 {
            Vec3 { x: 0, y: 0, z: 0 }
        } else {
            proof {
                lemma_unit_quotient(self@.0, l as int);
                lemma_unit_quotient(self@.1, l as int);
                lemma_unit_quotient(self@.2, l as int);
            }
            Vec3 {
                x: fx_div(self.x, l),
                y: fx_div(self.y, l),
                z: fx_div(self.z, l),
            }
        }
    }

    /// Normalize in place; the zero vector is left as is.
    pub fn normalize(&mut self)
        requires
            v_in(old(self)@, 0x8000000000),
        ensures
            final(self)@ == vnormalized(old(self)@),
    {
        *self = self.normalized();
    }

    /// A copy scaled to length `frac`: the normalized vector scaled by `frac`.
    pub fn normalized_by(&self, frac: i64) -> (r: Vec3)
        requires
            v_in(self@, 0x8000000000),
            -0x4000000000 <= frac <= 0x4000000000,
        ensures
            r@ == vscale(vnormalized(self@), frac as int),
    {
        let n = self.normalized();
        proof {
            crate::fx::lemma_fxm_bound(n@.0, frac as int, 65536, 0x4000000000);
            crate::fx::lemma_fxm_bound(n@.1, frac as int, 65536, 0x4000000000);
            crate::fx::lemma_fxm_bound(n@.2, frac as int, 65536, 0x4000000000);
        }
        Vec3 {
            x: fx_mul(n.x, frac),
            y: fx_mul(n.y, frac),
            z: fx_mul(n.z, frac),
        }
    }

    /// Component-wise clamp between two scalars.
    pub fn clamp(&self, min: i64, max: i64) -> (r: Vec3)
        ensures
            r@ == vclamp(self@, min as int, max as int),
    {
        let mut x = self.x;
        if x < min {
            x = min;
        }
        if x > max {
            x = max;
        }
        let mut y = self.y;
        if y < min {
            y = min;
        }
        if y > max {
            y = max;
        }
        let mut z = self.z;
        if z < min {
            z = min;
        }
        if z > max {
            z = max;
        }
        Vec3 { x, y, z }
    }

    /// Component-wise minimum.
    pub fn min(self, other: Vec3) -> (r: Vec3)
        ensures
            r@ == vmin(self@, other@),
    {
        Vec3 {
            x: if self.x <= other.x { self.x } else { other.x },
            y: if self.y <= other.y { self.y } else { other.y },
            z: if self.z <= other.z { self.z } else { other.z },
        }
    }

    /// Component-wise maximum.
    pub fn max(self, other: Vec3) -> (r: Vec3)
        ensures
            r@ == vmax(self@, other@),
    {
        Vec3 {
            x: if self.x >= other.x { self.x } else { other.x },
            y: if self.y >= other.y { self.y } else { other.y },
            z: if self.z >= other.z { self.z } else { other.z },
        }
    }

    /// Component-wise reciprocal, rounded toward zero; a zero component
    /// stays zero (the guarded case, as in normalization).
    pub fn recip(self) -> (r: Vec3)
        requires
            v_ok(self@),
        ensures
            r@ == (srecip(self@.0), srecip(self@.1), srecip(self@.2)),
    {
        Vec3 { x: recip_comp(self.x), y: recip_comp(self.y), z: recip_comp(self.z) }
    }

    /// The component selected by index: 0 is x, 1 is y, 2 is z. Anything
    /// further is out of bounds and ruled out by the precondition.
    pub fn index(&self, index: usize) -> (r: i64)
        requires
            index < 3,
        ensures
            index == 0 ==> r == self@.0,
            index == 1 ==> r == self@.1,
            index == 2 ==> r == self@.2,
    {
        if index == 0 {
            self.x
        } else if index == 1 {
            self.y
        } else {
            self.z
        }
    }

    /// The components as an array, x first.
    pub fn as_slice(&self) -> (r: [i64; 3])
        ensures
            r@ == seq![self.x, self.y, self.z],
    {
        let r = [self.x, self.y, self.z];
        proof {
            assert(r@ =~= seq![self.x, self.y, self.z]);
        }
        r
    }

    /// Static form of the free `lerp`.
    pub fn lerp(v1: Vec3, v2: Vec3, alpha: i64) -> (r: Vec3)
        requires
            v_ok(v1@),
            v_ok(v2@),
        ensures
            r@ == vlerp(v1@, v2@, alpha as int),
    {
        lerp(v1, v2, alpha)
    }
}

/// A component no larger than the divisor in magnitude divides to a
/// fixed-point value within one unit.
proof fn lemma_unit_quotient(c: int, l: int)
    requires
        0 < l,
        -l <= c <= l,
    ensures
        -65536 <= fxd(c, l) <= 65536,
{
    assert((-l) * 65536 <= c * 65536 <= l * 65536) by (nonlinear_arith)
        requires
            -l <= c <= l,
            0 < l;
    lemma_div_is_ordered(c * 65536, l * 65536, l);
    lemma_div_is_ordered((-l) * 65536, c * 65536, l);
    lemma_div_multiples_vanish(65536, l);
    assert(l * 65536 == 65536 * l && (-l) * 65536 == l * (-65536)) by (nonlinear_arith);
    lemma_div_multiples_vanish(-65536, l);
}

/// The fixed-point reciprocal of a scalar, rounded toward zero; zero maps
/// to zero.
pub open spec fn srecip(c: int) -> int {
    if c > 0 {
        fxd(65536, c)
    } else if c < 0 {
        -fxd(65536, -c)
    } else {
        0
    }
}

/// Reciprocal of one component.
fn recip_comp(c: i64) -> (r: i64)
    requires
        -0x4000000000 <= c <= 0x4000000000,
    ensures
        r == srecip(c as int),
{
    if c > 0 {
        proof {
            crate::fx::lemma_div_in_range(65536int * 65536, c as int);
        }
        fx_div(65536, c)
    } else if c < 0 {
        proof {
            crate::fx::lemma_div_in_range(65536int * 65536, -(c as int));
        }
        -fx_div(65536, -c)
    } else {
        0
    }
}

/// Length of the vector of three scalars.
pub fn eucl(x: i64, y: i64, z: i64) -> (r: i64)
    requires
        v_in((x as int, y as int, z as int), 0x8000000000),
    ensures
        r == vlen((x as int, y as int, z as int)),
{
    let v = Vec3 { x, y, z };
    v.length()
}

} // verus!
