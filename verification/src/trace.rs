//! Sphere tracing and normal estimation.
//!
//! The marcher walks a ray through the signed distance field for at most 128
//! steps, advancing by a tenth of the estimated distance, clamped below by a
//! minimum step (so progress never stalls) and above by a maximum step (so
//! positions stay within the fixed-point working range). A hit is declared
//! as soon as the field goes negative; running out of steps is a miss, the
//! ordinary background outcome. A cheap bounding-sphere test rejects rays
//! whose closest approach to the origin exceeds the sphere radius before any
//! field evaluation.
use vstd::prelude::*;

verus! {

use crate::fx::{fxm, fx_mul, lemma_fxm_bound};
use crate::sdf::{SdfKind, sd_s, signed_distance};
use crate::vec3::{Vec3, v_in, vadd, vscale, vdot, vnormalized, vsub};

/// Step budget of one trace.
pub const MARCH_STEPS: u32 = 128;
/// Fraction 0.1 of the estimated distance marched per step.
pub const STEP_FRAC: i64 = 6554;
/// Minimum step 0.01: guaranteed forward progress.
pub const MIN_STEP: i64 = 655;
/// Maximum step 8.0: keeps positions within the working range.
pub const MAX_STEP: i64 = 524288;
/// Squared bounding radius 2.25 used by the early rejection test.
pub const BOUND_R2: i64 = 147456;

/// The step taken for an estimated distance `d`: a tenth of `d`, clamped to
/// [0.01, 8.0].
pub open spec fn step_size_s(d: int) -> int {
    let s = fxm(d, 6554);
    let s1 = if s < 655 {
        655
    } else {
        s
    };
    if s1 > 524288 {
        524288
    } else {
        s1
    }
}

/// March from `pos` along `dir` with `fuel` steps left: hit as soon as the
/// field is negative, miss when the budget runs out.
pub open spec fn trace_from_s(
    kind: SdfKind,
    pos: (int, int, int),
    dir: (int, int, int),
    fuel: nat,
) -> (bool, (int, int, int))
    decreases fuel,
{
    if fuel == 0 {
        (false, pos)
    } else {
        let d = sd_s(kind, pos);
        if d < 0 {
            (true, pos)
        } else {
            trace_from_s(kind, vadd(pos, vscale(dir, step_size_s(d))), dir, (fuel - 1) as nat)
        }
    }
}

/// The early rejection test: the squared closest approach of the ray line to
/// the origin, `orig.orig - (orig.dir)^2`, exceeds the squared radius.
pub open spec fn guard_rejects(orig: (int, int, int), dir: (int, int, int)) -> bool {
    vdot(orig, orig) - fxm(vdot(orig, dir), vdot(orig, dir)) > 147456
}

/// The whole trace: a rejected ray is an immediate miss that leaves the hit
/// position untouched; otherwise the march runs from the ray origin.
pub open spec fn sphere_trace_res(
    kind: SdfKind,
    orig: (int, int, int),
    dir: (int, int, int),
    pos0: (int, int, int),
) -> (bool, (int, int, int)) {
    if guard_rejects(orig, dir) {
        (false, pos0)
    } else {
        trace_from_s(kind, orig, dir, 128)
    }
}

/// Clamped step for an estimated distance.
fn step_size(d: i64) -> (s: i64)
    requires
        -0x100000000 <= d <= 0x100000000,
    ensures
        s == step_size_s(d as int),
        655 <= s <= 524288,
{
    proof {
        lemma_fxm_bound(d as int, 6554, 0x100000000, 6554);
    }
    let s = fx_mul(d, STEP_FRAC);
    let s1 = if s < MIN_STEP {
        MIN_STEP
    } else {
        s
    };
    if s1 > MAX_STEP {
        MAX_STEP
    } else {
        s1
    }
}

/// March the ray `orig + t dir` through the field. On a hit, `pos` holds the
/// first marched point inside the surface (past it by at most one step, with
/// no root refinement); on a miss after a full budget, `pos` holds the last
/// marched point, and after an early rejection it is untouched.
pub fn sphere_trace(kind: SdfKind, orig: Vec3, dir: Vec3, pos: &mut Vec3) -> (hit: bool)
    requires
        v_in(orig@, 0x1000000),
        v_in(dir@, 65536),
    ensures
        hit == sphere_trace_res(kind, orig@, dir@, old(pos)@).0,
        final(pos)@ == sphere_trace_res(kind, orig@, dir@, old(pos)@).1,
        guard_rejects(orig@, dir@) ==> !hit && final(pos)@ == old(pos)@,
        hit ==> v_in(final(pos)@, 0x5000080),
{
    proof {
        lemma_fxm_bound(orig@.0, orig@.0, 0x1000000, 0x1000000);
        lemma_fxm_bound(orig@.1, orig@.1, 0x1000000, 0x1000000);
        lemma_fxm_bound(orig@.2, orig@.2, 0x1000000, 0x1000000);
        lemma_fxm_bound(orig@.0, dir@.0, 0x1000000, 65536);
        lemma_fxm_bound(orig@.1, dir@.1, 0x1000000, 65536);
        lemma_fxm_bound(orig@.2, dir@.2, 0x1000000, 65536);
    }
    let oo = orig.dot(orig);
    let od = orig.dot(dir);
    proof {
        lemma_fxm_bound(od as int, od as int, 0x3000003, 0x3000003);
    }
    let od2 = fx_mul(od, od);
    if oo - od2 > BOUND_R2 {
        return false;
    }
    let ghost goal = trace_from_s(kind, orig@, dir@, 128);
    *pos = orig;
    let mut i: u32 = 0;
    while i < MARCH_STEPS
        invariant
            0 <= i <= 128,
            v_in(dir@, 65536),
            v_in(pos@, 0x1000000 + i * 524289),
            goal == trace_from_s(kind, pos@, dir@, (128 - i) as nat),
            !guard_rejects(orig@, dir@),
            goal == sphere_trace_res(kind, orig@, dir@, old(pos)@),
        decreases 128 - i,
    {
        let cur: Vec3 = *pos;
        let d = signed_distance(kind, &cur);
        if d < 0 {
            return true;
        }
        let s = step_size(d);
        proof {
            lemma_fxm_bound(dir@.0, s as int, 65536, 524288);
            lemma_fxm_bound(dir@.1, s as int, 65536, 524288);
            lemma_fxm_bound(dir@.2, s as int, 65536, 524288);
        }
        *pos = cur.add(dir.scale(s));
        i = i + 1;
    }
    false
}

/// Normal-estimation epsilon 0.1.
pub const NORMAL_EPS: i64 = 6554;

/// The estimated surface normal at `p`: the normalized forward-difference
/// gradient of the field along the three axes.
pub open spec fn normal_s(kind: SdfKind, p: (int, int, int)) -> (int, int, int) {
    let d = sd_s(kind, p);
    vnormalized(
        (
            sd_s(kind, vadd(p, (6554, 0, 0))) - d,
            sd_s(kind, vadd(p, (0, 6554, 0))) - d,
            sd_s(kind, vadd(p, (0, 0, 6554))) - d,
        ),
    )
}

/// Estimate the surface normal at a hit point by four field evaluations.
#[verifier::rlimit(100)]
pub fn distance_field_normal(kind: SdfKind, pos: Vec3) -> (r: Vec3)
    requires
        v_in(pos@, 0x5100000),
    ensures
        r@ == normal_s(kind, pos@),
        v_in(r@, 65536),
{
    let d = signed_distance(kind, &pos);
    let px = pos.add(Vec3::new(NORMAL_EPS, 0, 0));
    let py = pos.add(Vec3::new(0, NORMAL_EPS, 0));
    let pz = pos.add(Vec3::new(0, 0, NORMAL_EPS));
    let nx = signed_distance(kind, &px) - d;
    let ny = signed_distance(kind, &py) - d;
    let nz = signed_distance(kind, &pz) - d;
    let g = Vec3::new(nx, ny, nz);
    g.normalized()
}

} // verus!
