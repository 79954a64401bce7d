//! Shading: the fire palette, the Lambertian intensity with an ambient
//! floor, and the per-pixel render pipeline.
use vstd::prelude::*;

verus! {

use crate::fx::{fxm, fxd, clamp01_s, lerp_s, clamp01, fx_div};
use crate::sdf::{SdfKind, SPHERE_RADIUS, NOISE_AMPLITUDE};
use crate::trace::{sphere_trace, sphere_trace_res, distance_field_normal, normal_s};
use crate::vec3::{Vec3, v_in, vsub, vdot, vscale, vlerp, vlen, vnormalized};
use vstd::arithmetic::div_mod::lemma_div_multiples_vanish;

/// The five palette stops, dark to hot; the yellow stop is deliberately
/// "hot", with components above 1.
pub open spec fn gray_c() -> (int, int, int) {
    (26214, 26214, 26214)
}

pub open spec fn darkgray_c() -> (int, int, int) {
    (13107, 13107, 13107)
}

pub open spec fn red_c() -> (int, int, int) {
    (65536, 0, 0)
}

pub open spec fn orange_c() -> (int, int, int) {
    (65536, 39322, 0)
}

pub open spec fn yellow_c() -> (int, int, int) {
    (111411, 85197, 65536)
}

/// The fire color ramp: `d` is clamped to [0, 1] and mapped through four
/// equal segments, gray to dark gray to red to orange to yellow, each a
/// linear interpolation positioned by the local fraction times four.
pub open spec fn palette_fire_s(d: int) -> (int, int, int) {
    let x = clamp01_s(d);
    if x < 16384 {
        vlerp(gray_c(), darkgray_c(), 4 * x)
    } else if x < 32768 {
        vlerp(darkgray_c(), red_c(), 4 * x - 65536)
    } else if x < 49152 {
        vlerp(red_c(), orange_c(), 4 * x - 131072)
    } else {
        vlerp(orange_c(), yellow_c(), 4 * x - 196608)
    }
}

/// Interpolation returns its first endpoint at weight 0 and its second at
/// weight 1.
pub proof fn lemma_lerp_ends(a: int, b: int, t: int)
    ensures
        t <= 0 ==> lerp_s(a, b, t) == a,
        t >= 65536 ==> lerp_s(a, b, t) == b,
{
    if t <= 0 {
        assert(fxm(b - a, 0) == 0);
    } else if t >= 65536 {
        lemma_div_multiples_vanish(b - a, 65536);
        assert((b - a) * 65536 == 65536 * (b - a)) by (nonlinear_arith);
    }
}

/// The palette meets each stop exactly at the segment boundaries — the
/// segment that ends there and the one that starts there agree — and it
/// clamps to gray below 0 and to yellow above 1.
pub proof fn lemma_palette_continuous()
    ensures
        vlerp(gray_c(), darkgray_c(), 4 * 16384int) == darkgray_c(),
        palette_fire_s(16384) == darkgray_c(),
        vlerp(darkgray_c(), red_c(), 4 * 32768int - 65536) == red_c(),
        palette_fire_s(32768) == red_c(),
        vlerp(red_c(), orange_c(), 4 * 49152int - 131072) == orange_c(),
        palette_fire_s(49152) == orange_c(),
        palette_fire_s(0) == gray_c(),
        palette_fire_s(65536) == yellow_c(),
        forall|t: int| t <= 0 ==> #[trigger] palette_fire_s(t) == gray_c(),
        forall|t: int| t >= 65536 ==> #[trigger] palette_fire_s(t) == yellow_c(),
{
    assert forall|t: int| t <= 0 implies #[trigger] palette_fire_s(t) == gray_c() by {
        lemma_lerp_ends(26214, 26214, 0);
        assert(fxm(0, 0) == 0);
    }
    assert forall|t: int| t >= 65536 implies #[trigger] palette_fire_s(t) == yellow_c() by {
        lemma_lerp_ends(65536, 111411, 65536);
        lemma_lerp_ends(39322, 85197, 65536);
        lemma_lerp_ends(0, 65536, 65536);
    }
    lemma_lerp_ends(26214, 13107, 65536);
    lemma_lerp_ends(13107, 65536, 65536);
    lemma_lerp_ends(0, 0, 65536);
    lemma_lerp_ends(65536, 65536, 65536);
    lemma_lerp_ends(0, 39322, 65536);
    lemma_lerp_ends(13107, 65536, 0);
    lemma_lerp_ends(65536, 65536, 0);
    lemma_lerp_ends(0, 39322, 0);
    lemma_lerp_ends(65536, 111411, 0);
    lemma_lerp_ends(39322, 85197, 0);
    lemma_lerp_ends(0, 65536, 0);
}

/// Map a scalar through the fire color ramp.
pub fn palette_fire(d: i64) -> (r: Vec3)
    ensures
        r@ == palette_fire_s(d as int),
        v_in(r@, 111411),
        r@.0 >= 0 && r@.1 >= 0 && r@.2 >= 0,
{
    let x = clamp01(d);
    let gray = Vec3::new(26214, 26214, 26214);
    let darkgray = Vec3::new(13107, 13107, 13107);
    let red = Vec3::new(65536, 0, 0);
    let orange = Vec3::new(65536, 39322, 0);
    let yellow = Vec3::new(111411, 85197, 65536);
    if x < 16384 {
        crate::vec3::lerp(gray, darkgray, 4 * x)
    } else if x < 32768 {
        crate::vec3::lerp(darkgray, red, 4 * x - 65536)
    } else if x < 49152 {
        crate::vec3::lerp(red, orange, 4 * x - 131072)
    } else {
        crate::vec3::lerp(orange, yellow, 4 * x - 196608)
    }
}

/// The fixed point light position (10, 10, 10).
pub const LIGHT_COORD: i64 = 655360;
/// The ambient intensity floor 0.4.
pub const AMBIENT: i64 = 26214;
/// The fixed background color (0.2, 0.7, 0.8) of every miss.
pub const BG_R: i64 = 13107;
pub const BG_G: i64 = 45875;
pub const BG_B: i64 = 52429;

/// Lambertian intensity at a hit: the dot of the light direction with the
/// estimated normal, floored by the ambient term.
pub open spec fn light_intensity_s(kind: SdfKind, hit: (int, int, int)) -> int {
    let ld = vnormalized(vsub((655360, 655360, 655360), hit));
    let d = vdot(ld, normal_s(kind, hit));
    if d < 26214 {
        26214
    } else {
        d
    }
}

/// The color of a hit point: the plain variant shades white; the fire
/// variant reconstructs the noise level from the hit radius, remaps it to
/// the ramp input `(noise_level - 0.25) * 2`, and scales the ramp color.
/// Components may exceed 1; clamping happens only at encoding.
pub open spec fn hit_color_s(kind: SdfKind, hit: (int, int, int)) -> (int, int, int) {
    match kind {
        SdfKind::Plain => vscale((65536, 65536, 65536), light_intensity_s(kind, hit)),
        SdfKind::Fire => {
            let noise_level = fxd(98304 - vlen(hit), 65536);
            vscale(palette_fire_s(2 * (noise_level - 16384)), light_intensity_s(kind, hit))
        },
    }
}

/// Shade a confirmed hit position.
#[verifier::rlimit(100)]
pub fn shade_hit(kind: SdfKind, hit: Vec3) -> (c: Vec3)
    requires
        v_in(hit@, 0x5000080),
    ensures
        c@ == hit_color_s(kind, hit@),
{
    let light = Vec3::new(LIGHT_COORD, LIGHT_COORD, LIGHT_COORD);
    let ld = light.sub(hit).normalized();
    let n = distance_field_normal(kind, hit);
    let d = ld.dot(n);
    proof {
        crate::fx::lemma_fxm_bound(ld@.0, n@.0, 65536, 65536);
        crate::fx::lemma_fxm_bound(ld@.1, n@.1, 65536, 65536);
        crate::fx::lemma_fxm_bound(ld@.2, n@.2, 65536, 65536);
    }
    let intensity: i64 = if d < AMBIENT {
        AMBIENT
    } else {
        d
    };
    match kind {
        SdfKind::Plain => Vec3::new(65536, 65536, 65536).scale(intensity),
        SdfKind::Fire => {
            let len = hit.length();
            proof {
                crate::fx::lemma_div_in_range((98304 - len as int) * 65536, 65536);
            }
            let noise_level = fx_div(SPHERE_RADIUS - len, NOISE_AMPLITUDE);
            let t: i64 = 2 * (noise_level - 16384);
            let ramp = palette_fire(t);
            ramp.scale(intensity)
        },
    }
}

/// The camera ray direction of pixel `(i, j)`: offset half a pixel from the
/// image center, at depth `-h / (2 tan(fov / 2))`, normalized.
pub open spec fn camera_dir_s(i: int, j: int, w: int, h: int, half_fov_tan: int) -> (
    int,
    int,
    int,
) {
    vnormalized(
        (
            65536 * i + 32768 - 32768 * w,
            -(65536 * j) - 32768 + 32768 * h,
            -fxd(32768 * h, half_fov_tan),
        ),
    )
}

/// The fixed camera position (0, 0, 3).
pub const CAMERA_Z: i64 = 196608;

/// The color of pixel `(i, j)`: trace the camera ray; shade a hit, or give
/// every miss the fixed background color.
pub open spec fn render_pixel_s(
    kind: SdfKind,
    i: int,
    j: int,
    w: int,
    h: int,
    half_fov_tan: int,
) -> (int, int, int) {
    let dir = camera_dir_s(i, j, w, h, half_fov_tan);
    let res = sphere_trace_res(kind, (0, 0, 196608), dir, (0, 0, 0));
    if res.0 {
        hit_color_s(kind, res.1)
    } else {
        (13107, 45875, 52429)
    }
}

/// Render one pixel. Pure: the color is a function of the arguments alone,
/// so pixels may be computed in any order or in parallel.
pub fn render_pixel(
    kind: SdfKind,
    i: usize,
    j: usize,
    width: usize,
    height: usize,
    half_fov_tan: i64,
) -> (c: Vec3)
    requires
        0 < width <= 16384,
        0 < height <= 16384,
        i < width,
        j < height,
        2048 <= half_fov_tan <= 262144,
    ensures
        c@ == render_pixel_s(
            kind,
            i as int,
            j as int,
            width as int,
            height as int,
            half_fov_tan as int,
        ),
{
    let dx: i64 = 65536 * (i as i64) + 32768 - 32768 * (width as i64);
    let dy: i64 = -(65536 * (j as i64)) - 32768 + 32768 * (height as i64);
    proof {
        crate::fx::lemma_div_in_range(32768 * (height as int) * 65536, half_fov_tan as int);
        vstd::arithmetic::div_mod::lemma_div_is_ordered_by_denominator(
            32768 * (height as int) * 65536,
            2048,
            half_fov_tan as int,
        );
        vstd::arithmetic::div_mod::lemma_div_multiples_vanish(1048576 * (height as int), 2048);
        assert(32768 * (height as int) * 65536 == 2048 * (1048576 * (height as int)))
            by (nonlinear_arith);
    }
    let dz: i64 = -fx_div(32768 * (height as i64), half_fov_tan);
    let dir = Vec3::new(dx, dy, dz).normalized();
    let orig = Vec3::new(0, 0, CAMERA_Z);
    let mut hit = Vec3::zero();
    if sphere_trace(kind, orig, dir, &mut hit) {
        shade_hit(kind, hit)
    } else {
        Vec3::new(BG_R, BG_G, BG_B)
    }
}

} // verus!
