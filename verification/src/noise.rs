//! Deterministic value noise and fractal Brownian motion.
//!
//! The lattice hash is a pure integer scrambler: the low 48 bits of the
//! lattice index are mixed by two rounds of a 64-bit linear congruential
//! step and the top 16 bits of the mix are read back as a fixed-point value
//! in [0, 1). Noise trilinearly interpolates the hashes of the 8 corners of
//! the cell around a point, with component-wise smoothstep weights. fBm sums
//! four octaves, each rotated once up front and progressively rescaled, and
//! renormalizes by the weight sum 0.9375.
use vstd::prelude::*;

verus! {

use crate::fx::{fxm, lerp_s, fdiv, fx_mul, lerp, lemma_fxm_bound, lemma_lerp_in_range};
use crate::vec3::{Vec3, v_in, vdot, vscale};
use vstd::arithmetic::div_mod::{
    lemma_fundamental_div_mod, lemma_mod_bound, lemma_div_is_ordered, lemma_div_pos_is_pos,
    lemma_div_multiples_vanish,
};
use vstd::arithmetic::mul::lemma_mul_nonnegative;

/// First-round multiplier and increment of the lattice hash.
pub const HASH_MUL_A: u64 = 6364136223846793005;
pub const HASH_ADD_A: u64 = 1442695040888963407;
/// Second-round multiplier and increment of the lattice hash.
pub const HASH_MUL_B: u64 = 2862933555777941757;
pub const HASH_ADD_B: u64 = 3037000493;

/// The pseudo-random lattice value: two 64-bit linear congruential rounds
/// over the low 48 bits of `n`, with the top 16 bits of the result read as a
/// fixed-point number in [0, 1).
pub open spec fn hash_s(n: int) -> int {
    let m = n % 0x1000000000000;
    let a = (m * 6364136223846793005 + 1442695040888963407) % 0x10000000000000000;
    let b = (a * 2862933555777941757 + 3037000493) % 0x10000000000000000;
    b / 0x1000000000000
}

/// The hash always lands in [0, 1).
pub proof fn lemma_hash_bounded(n: int)
    ensures
        0 <= hash_s(n) < 65536,
{
    let m = n % 0x1000000000000;
    let a = (m * 6364136223846793005 + 1442695040888963407) % 0x10000000000000000;
    let b = (a * 2862933555777941757 + 3037000493) % 0x10000000000000000;
    lemma_mod_bound(m * 6364136223846793005 + 1442695040888963407, 0x10000000000000000);
    lemma_mod_bound(a * 2862933555777941757 + 3037000493, 0x10000000000000000);
    lemma_div_pos_is_pos(b, 0x1000000000000);
    lemma_div_is_ordered(b, 0xffffffffffffffff, 0x1000000000000);
}

/// Deterministic pseudo-random value in [0, 1) from a lattice index.
pub fn hash(n: i64) -> (r: i64)
    ensures
        r == hash_s(n as int),
        0 <= r < 65536,
{
    proof {
        lemma_hash_bounded(n as int);
        lemma_div_is_ordered(-0x8000000000000000, n as int, 0x1000000000000);
        lemma_div_is_ordered(n as int, 0x7fffffffffffffff, 0x1000000000000);
        lemma_div_multiples_vanish(-32768, 0x1000000000000);
        assert(0x1000000000000 * (-32768int) == -0x8000000000000000) by (nonlinear_arith);
        assert(0x7fffffffffffffffint / 0x1000000000000 == 32767);
        lemma_fundamental_div_mod(n as int, 0x1000000000000);
        lemma_mod_bound(n as int, 0x1000000000000);
    }
    let q: i64 = fdiv(n, 0x1000000000000);
    let m: i64 = n - q * 0x1000000000000;
    let mu: u128 = m as u128;
    let a: u64 = ((mu * (HASH_MUL_A as u128) + (HASH_ADD_A as u128)) % 0x10000000000000000)
        as u64;
    let b: u64 = (((a as u128) * (HASH_MUL_B as u128) + (HASH_ADD_B as u128))
        % 0x10000000000000000) as u64;
    let r: u64 = b / 0x1000000000000;
    r as i64
}

/// Integer cell coordinate of a fixed-point scalar (floor).
pub open spec fn cell_of(c: int) -> int {
    c / 65536
}

/// Fractional position of a fixed-point scalar inside its cell, in [0, 1).
pub open spec fn frac_of(c: int) -> int {
    c % 65536
}

/// Component-wise smoothstep weight `f * f * (3 - 2 f)`.
pub open spec fn smooth_s(f: int) -> int {
    fxm(fxm(f, f), 3 * 65536 - 2 * f)
}

/// The scalar lattice index of a point's cell: `cell . (1, 57, 113)`.
pub open spec fn lattice_index(p: (int, int, int)) -> int {
    cell_of(p.0) + 57 * cell_of(p.1) + 113 * cell_of(p.2)
}

/// Trilinear value noise: the hashes of the 8 cell corners (index offsets
/// 0, 1, 57, 58, 113, 114, 170, 171) interpolated by smoothed fractions,
/// x first, then y, then z.
pub open spec fn noise_s(p: (int, int, int)) -> int {
    let n = lattice_index(p);
    let sx = smooth_s(frac_of(p.0));
    let sy = smooth_s(frac_of(p.1));
    let sz = smooth_s(frac_of(p.2));
    lerp_s(
        lerp_s(
            lerp_s(hash_s(n), hash_s(n + 1), sx),
            lerp_s(hash_s(n + 57), hash_s(n + 58), sx),
            sy,
        ),
        lerp_s(
            lerp_s(hash_s(n + 113), hash_s(n + 114), sx),
            lerp_s(hash_s(n + 170), hash_s(n + 171), sx),
            sy,
        ),
        sz,
    )
}

/// Noise lands in [0, 1): it interpolates hashes, which do.
pub proof fn lemma_noise_bounded(p: (int, int, int))
    ensures
        0 <= noise_s(p) < 65536,
{
    let n = lattice_index(p);
    let sx = smooth_s(frac_of(p.0));
    let sy = smooth_s(frac_of(p.1));
    let sz = smooth_s(frac_of(p.2));
    lemma_hash_bounded(n);
    lemma_hash_bounded(n + 1);
    lemma_hash_bounded(n + 57);
    lemma_hash_bounded(n + 58);
    lemma_hash_bounded(n + 113);
    lemma_hash_bounded(n + 114);
    lemma_hash_bounded(n + 170);
    lemma_hash_bounded(n + 171);
    let l00 = lerp_s(hash_s(n), hash_s(n + 1), sx);
    let l10 = lerp_s(hash_s(n + 57), hash_s(n + 58), sx);
    let l01 = lerp_s(hash_s(n + 113), hash_s(n + 114), sx);
    let l11 = lerp_s(hash_s(n + 170), hash_s(n + 171), sx);
    lemma_lerp_in_range(hash_s(n), hash_s(n + 1), sx);
    lemma_lerp_in_range(hash_s(n + 57), hash_s(n + 58), sx);
    lemma_lerp_in_range(hash_s(n + 113), hash_s(n + 114), sx);
    lemma_lerp_in_range(hash_s(n + 170), hash_s(n + 171), sx);
    lemma_lerp_in_range(l00, l10, sy);
    lemma_lerp_in_range(l01, l11, sy);
    lemma_lerp_in_range(lerp_s(l00, l10, sy), lerp_s(l01, l11, sy), sz);
}

/// Noise is a pure function of its argument: equal points give equal noise.
pub proof fn lemma_noise_deterministic(p: (int, int, int), q: (int, int, int))
    requires
        p == q,
    ensures
        noise_s(p) == noise_s(q),
{
}

/// Trilinear value noise of a point.
pub fn noise(x: &Vec3) -> (r: i64)
    requires
        v_in(x@, 0x800000000),
    ensures
        r == noise_s(x@),
        0 <= r < 65536,
{
    proof {
        lemma_noise_bounded(x@);
    }
    let cx = floor_cell(x.x);
    let cy = floor_cell(x.y);
    let cz = floor_cell(x.z);
    let fx_x = x.x - cx * 65536;
    let fy = x.y - cy * 65536;
    let fz = x.z - cz * 65536;
    let sx = smooth(fx_x);
    let sy = smooth(fy);
    let sz = smooth(fz);
    let n: i64 = cx + 57 * cy + 113 * cz;
    let l00 = lerp(hash(n), hash(n + 1), sx);
    let l10 = lerp(hash(n + 57), hash(n + 58), sx);
    let l01 = lerp(hash(n + 113), hash(n + 114), sx);
    let l11 = lerp(hash(n + 170), hash(n + 171), sx);
    let l0 = lerp(l00, l10, sy);
    let l1 = lerp(l01, l11, sy);
    lerp(l0, l1, sz)
}

/// Integer cell coordinate (floor) of a fixed-point scalar.
fn floor_cell(c: i64) -> (r: i64)
    requires
        -0x800000000 <= c <= 0x800000000,
    ensures
        r == cell_of(c as int),
        -0x80000 <= r <= 0x80000,
        c - r * 65536 == frac_of(c as int),
        0 <= frac_of(c as int) < 65536,
{
    proof {
        lemma_div_is_ordered(-0x800000000, c as int, 65536);
        lemma_div_is_ordered(c as int, 0x800000000, 65536);
        assert((-0x800000000int) / 65536 == -0x80000 && 0x800000000int / 65536 == 0x80000);
        lemma_fundamental_div_mod(c as int, 65536);
        lemma_mod_bound(c as int, 65536);
    }
    fdiv(c, 65536)
}

/// Smoothstep weight of a fractional coordinate.
fn smooth(f: i64) -> (r: i64)
    requires
        0 <= f < 65536,
    ensures
        r == smooth_s(f as int),
        0 <= r <= 196608,
{
    proof {
        lemma_fxm_bound(f as int, f as int, 65536, 65536);
        lemma_mul_nonnegative(f as int, f as int);
        lemma_div_pos_is_pos(f as int * f as int, 65536);
        lemma_fxm_bound(fxm(f as int, f as int), 3 * 65536 - 2 * f, 65536, 196608);
        lemma_mul_nonnegative(fxm(f as int, f as int), 3 * 65536 - 2 * f);
        lemma_div_pos_is_pos(fxm(f as int, f as int) * (3 * 65536 - 2 * f), 65536);
    }
    let f2 = fx_mul(f, f);
    fx_mul(f2, 3 * 65536 - 2 * f)
}

/// The fixed rotation applied before the first octave, to decorrelate the
/// octaves from axis-aligned artifacts: each result component is the dot of
/// a fixed basis row with the point.
pub open spec fn rotate_s(p: (int, int, int)) -> (int, int, int) {
    (
        vdot(p, (0, 52429, 39322)),
        vdot(p, (-52429, 23593, -31457)),
        vdot(p, (-39322, -31457, 41943)),
    )
}

/// Apply the fixed octave rotation.
pub fn rotate(v: &Vec3) -> (r: Vec3)
    requires
        v_in(v@, 0x20000000),
    ensures
        r@ == rotate_s(v@),
        v_in(r@, 0x40000000),
{
    proof {
        lemma_fxm_bound(v@.1, 52429, 0x20000000, 52429);
        lemma_fxm_bound(v@.2, 39322, 0x20000000, 39322);
        lemma_fxm_bound(v@.0, -52429, 0x20000000, 52429);
        lemma_fxm_bound(v@.1, 23593, 0x20000000, 23593);
        lemma_fxm_bound(v@.2, -31457, 0x20000000, 31457);
        lemma_fxm_bound(v@.0, -39322, 0x20000000, 39322);
        lemma_fxm_bound(v@.1, -31457, 0x20000000, 31457);
        lemma_fxm_bound(v@.2, 41943, 0x20000000, 41943);
    }
    let rx = v.dot(Vec3::new(0, 52429, 39322));
    let ry = v.dot(Vec3::new(-52429, 23593, -31457));
    let rz = v.dot(Vec3::new(-39322, -31457, 41943));
    Vec3 { x: rx, y: ry, z: rz }
}

/// The four octave weights of fBm, their sum, and the octave point scales.
pub const FBM_W1: i64 = 32768;
pub const FBM_W2: i64 = 16384;
pub const FBM_W3: i64 = 8192;
pub const FBM_W4: i64 = 4096;
pub const FBM_WSUM: i64 = 61440;
pub const FBM_K2: i64 = 152044;
pub const FBM_K3: i64 = 198574;
pub const FBM_K4: i64 = 171049;

/// Four-octave fractal Brownian motion: rotate once, then accumulate
/// weighted noise of progressively rescaled points, renormalized by the
/// weight sum 0.9375.
pub open spec fn fbm_s(p: (int, int, int)) -> int {
    let p1 = rotate_s(p);
    let p2 = vscale(p1, 152044);
    let p3 = vscale(p2, 198574);
    let p4 = vscale(p3, 171049);
    let sum = fxm(noise_s(p1), 32768) + fxm(noise_s(p2), 16384) + fxm(noise_s(p3), 8192) + fxm(
        noise_s(p4),
        4096,
    );
    (sum * 65536) / 61440
}

/// fBm stays within [0, 1): the weighted octave sum is below the weight sum.
pub proof fn lemma_fbm_bounded(p: (int, int, int))
    ensures
        0 <= fbm_s(p) < 65536,
{
    let p1 = rotate_s(p);
    let p2 = vscale(p1, 152044);
    let p3 = vscale(p2, 198574);
    let p4 = vscale(p3, 171049);
    lemma_noise_bounded(p1);
    lemma_noise_bounded(p2);
    lemma_noise_bounded(p3);
    lemma_noise_bounded(p4);
    lemma_octave_term(noise_s(p1), 32768, 32767);
    lemma_octave_term(noise_s(p2), 16384, 16383);
    lemma_octave_term(noise_s(p3), 8192, 8191);
    lemma_octave_term(noise_s(p4), 4096, 4095);
    let sum = fxm(noise_s(p1), 32768) + fxm(noise_s(p2), 16384) + fxm(noise_s(p3), 8192) + fxm(
        noise_s(p4),
        4096,
    );
    assert(0 <= sum <= 61436);
    lemma_mul_nonnegative(sum, 65536);
    lemma_div_pos_is_pos(sum * 65536, 61440);
    assert(sum * 65536 <= 61436 * 65536) by (nonlinear_arith)
        requires
            sum <= 61436;
    lemma_div_is_ordered(sum * 65536, 61436int * 65536, 61440);
    assert((61436int * 65536) / 61440 == 65531);
}

/// A noise value in [0, 1) scaled by a positive weight stays within the
/// correspondingly scaled bound.
proof fn lemma_octave_term(n: int, w: int, b: int)
    requires
        0 <= n <= 65535,
        0 < w <= 32768,
        b == (65535 * w) / 65536,
    ensures
        0 <= fxm(n, w) <= b,
{
    lemma_mul_nonnegative(n, w);
    lemma_div_pos_is_pos(n * w, 65536);
    assert(n * w <= 65535 * w) by (nonlinear_arith)
        requires
            0 <= n <= 65535,
            0 < w;
    lemma_div_is_ordered(n * w, 65535 * w, 65536);
}

/// fBm is a pure function of its argument.
pub proof fn lemma_fbm_deterministic(p: (int, int, int), q: (int, int, int))
    requires
        p == q,
    ensures
        fbm_s(p) == fbm_s(q),
{
}

/// Fractal Brownian motion of a point.
#[verifier::rlimit(100)]
pub fn fractal_brownian_motion(x: &Vec3) -> (r: i64)
    requires
        v_in(x@, 0x20000000),
    ensures
        r == fbm_s(x@),
        0 <= r < 65536,
{
    proof {
        lemma_fbm_bounded(x@);
    }
    let p1 = rotate(x);
    proof {
        lemma_scale_bound(p1@, 0x40000000, 152044, 0x947b0001);
    }
    let p2 = p1.scale(FBM_K2);
    proof {
        lemma_scale_bound(p2@, 0x947b0001, 198574, 0x1c1e5489e);
    }
    let p3 = p2.scale(FBM_K3);
    proof {
        lemma_scale_bound(p3@, 0x1c1e5489e, 171049, 0x4963a5735);
    }
    let p4 = p3.scale(FBM_K4);
    let n1 = noise(&p1);
    let n2 = noise(&p2);
    let n3 = noise(&p3);
    let n4 = noise(&p4);
    proof {
        lemma_octave_term(n1 as int, 32768, 32767);
        lemma_octave_term(n2 as int, 16384, 16383);
        lemma_octave_term(n3 as int, 8192, 8191);
        lemma_octave_term(n4 as int, 4096, 4095);
    }
    let sum: i64 = fx_mul(n1, FBM_W1) + fx_mul(n2, FBM_W2) + fx_mul(n3, FBM_W3) + fx_mul(
        n4,
        FBM_W4,
    );
    proof {
        lemma_mul_nonnegative(sum as int, 65536);
        lemma_div_pos_is_pos(sum as int * 65536, 61440);
        assert(sum as int * 65536 <= 61436 * 65536) by (nonlinear_arith)
            requires
                sum <= 61436;
        lemma_div_is_ordered(sum as int * 65536, 61436int * 65536, 61440);
        assert((61436int * 65536) / 61440 == 65531);
        assert(sum as int * 65536 == (sum * 65536) as int);
    }
    let t: i64 = sum * 65536;
    fdiv(t, FBM_WSUM)
}

/// A uniformly scaled vector keeps all components within the scaled bound.
proof fn lemma_scale_bound(v: (int, int, int), bv: int, s: int, br: int)
    requires
        v_in(v, bv),
        0 <= bv,
        0 < s,
        br == bv * s / 65536 + 1,
    ensures
        v_in(vscale(v, s), br),
{
    lemma_fxm_bound(v.0, s, bv, s);
    lemma_fxm_bound(v.1, s, bv, s);
    lemma_fxm_bound(v.2, s, bv, s);
}

} // verus!
