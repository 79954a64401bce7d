//! The signed distance field of the two sphere variants.
//!
//! The plain variant is the analytic sphere: distance to the origin minus
//! the radius. The fire variant subtracts a noise displacement from the
//! radius: the displacement is fBm of the frequency-scaled point, negated
//! and scaled by the amplitude, recomputed on every evaluation so that the
//! marcher, the normal estimator and the shading all see one field.
use vstd::prelude::*;

verus! {

use crate::fx::{fxm, fx_mul};
use crate::noise::{fbm_s, fractal_brownian_motion};
use crate::vec3::{Vec3, v_in, vscale, vlen, lemma_vlen_le};
use vstd::arithmetic::div_mod::lemma_div_multiples_vanish;

/// Sphere radius 1.5.
pub const SPHERE_RADIUS: i64 = 98304;
/// Noise displacement amplitude 1.0.
pub const NOISE_AMPLITUDE: i64 = 65536;
/// Noise frequency multiplier 3.4.
pub const SDF_FREQ: i64 = 222822;

/// Which implicit surface is evaluated.
#[derive(Clone, Copy, PartialEq, Eq, Structural, Debug)]
pub enum SdfKind {
    /// The analytic sphere.
    Plain,
    /// The sphere with its radius perturbed by fractal noise.
    Fire,
}

/// The (negative) radial displacement of the fire variant at a point.
pub open spec fn displacement_s(p: (int, int, int)) -> int {
    -fxm(fbm_s(vscale(p, 222822)), 65536)
}

/// Signed distance from `p` to the surface; negative means inside.
pub open spec fn sd_s(kind: SdfKind, p: (int, int, int)) -> int {
    match kind {
        SdfKind::Plain => vlen(p) - 98304,
        SdfKind::Fire => vlen(p) - (98304 + displacement_s(p)),
    }
}

/// Working bound for points handed to the field.
pub open spec fn sd_in_range(p: (int, int, int)) -> bool {
    v_in(p, 0x6000000)
}

/// Evaluate the signed distance of `p` for the chosen variant.
pub fn signed_distance(kind: SdfKind, p: &Vec3) -> (r: i64)
    requires
        sd_in_range(p@),
    ensures
        r == sd_s(kind, p@),
        vlen(p@) - 98304 <= r <= vlen(p@),
        -98304 <= r <= 0xC000000,
{
    proof {
        lemma_vlen_le(p@, 0x6000000);
    }
    let len = p.length();
    match kind {
        SdfKind::Plain => len - SPHERE_RADIUS,
        SdfKind::Fire => {
            proof {
                crate::fx::lemma_fxm_bound(p@.0, 222822, 0x6000000, 222822);
                crate::fx::lemma_fxm_bound(p@.1, 222822, 0x6000000, 222822);
                crate::fx::lemma_fxm_bound(p@.2, 222822, 0x6000000, 222822);
            }
            let q = p.scale(SDF_FREQ);
            let f = fractal_brownian_motion(&q);
            proof {
                lemma_div_multiples_vanish(f as int, 65536);
                assert(f as int * 65536 == 65536 * (f as int)) by (nonlinear_arith);
            }
            let disp: i64 = -fx_mul(f, NOISE_AMPLITUDE);
            len - (SPHERE_RADIUS + disp)
        },
    }
}

} // verus!
