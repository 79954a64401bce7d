//! The noise field, the distance field, the marcher and the shading.
use kaboom::noise::{fractal_brownian_motion, hash, noise, rotate};
use kaboom::sdf::{signed_distance, SdfKind, SPHERE_RADIUS};
use kaboom::shade::{palette_fire, render_pixel, shade_hit, AMBIENT, BG_B, BG_G, BG_R};
use kaboom::trace::{distance_field_normal, sphere_trace, MIN_STEP};
use kaboom::vec3::Vec3;

/// tan(pi / 6) in 16.16 fixed point: the half-field-of-view tangent of a
/// 60-degree field of view.
const HALF_FOV_TAN: i64 = 37837;

#[test]
fn hash_is_deterministic_and_pinned() {
    assert_eq!(hash(0), 51203);
    assert_eq!(hash(1), 38769);
    assert_eq!(hash(42), 53275);
    assert_eq!(hash(-1), 38926);
    assert_eq!(hash(123456), 19512);
    assert_eq!(hash(42), hash(42));
}

#[test]
fn hash_stays_in_unit_interval() {
    for n in [-1000, -57, 0, 1, 57, 113, 999983] {
        let h = hash(n);
        assert!((0..65536).contains(&h));
    }
}

#[test]
fn noise_is_deterministic() {
    let p = Vec3::new(123456, -654321, 999999);
    assert_eq!(noise(&p), noise(&p));
    let q = Vec3::new(123456, -654321, 999999);
    assert_eq!(noise(&p), noise(&q));
}

#[test]
fn noise_values_are_pinned() {
    assert_eq!(noise(&Vec3::zero()), 51203);
    assert_eq!(noise(&Vec3::new(123456, -654321, 999999)), 56730);
}

#[test]
fn fbm_values_are_pinned() {
    assert_eq!(fractal_brownian_motion(&Vec3::zero()), 51201);
    assert_eq!(fractal_brownian_motion(&Vec3::new(222822, -65536, 98304)), 26715);
}

#[test]
fn fire_distance_value_is_pinned() {
    assert_eq!(signed_distance(SdfKind::Fire, &Vec3::new(131072, -65536, 98304)), 103267);
}

#[test]
fn noise_stays_in_unit_interval() {
    for (x, y, z) in [
        (0, 0, 0),
        (32768, 32768, 32768),
        (-100000, 50000, -70000),
        (12345678, -9876543, 1111111),
    ] {
        let n = noise(&Vec3::new(x, y, z));
        assert!((0..65536).contains(&n));
    }
}

#[test]
fn fbm_is_deterministic() {
    let p = Vec3::new(222822, -65536, 98304);
    assert_eq!(fractal_brownian_motion(&p), fractal_brownian_motion(&p));
}

#[test]
fn fbm_stays_in_unit_interval() {
    for (x, y, z) in [
        (0, 0, 0),
        (65536, 65536, 65536),
        (-400000, 250000, -98304),
        (536870912, -536870912, 536870912),
    ] {
        let f = fractal_brownian_motion(&Vec3::new(x, y, z));
        assert!((0..65536).contains(&f));
    }
}

#[test]
fn rotation_maps_the_axes_to_the_basis_columns() {
    let rx = rotate(&Vec3::new(65536, 0, 0));
    assert_eq!(rx, Vec3::new(0, -52429, -39322));
    let ry = rotate(&Vec3::new(0, 65536, 0));
    assert_eq!(ry, Vec3::new(52429, 23593, -31457));
    let rz = rotate(&Vec3::new(0, 0, 65536));
    assert_eq!(rz, Vec3::new(39322, -31457, 41943));
}

#[test]
fn plain_distance_is_length_minus_radius() {
    assert_eq!(signed_distance(SdfKind::Plain, &Vec3::zero()), -98304);
    assert_eq!(signed_distance(SdfKind::Plain, &Vec3::new(3 * 65536, 0, 0)), 98304);
    assert_eq!(signed_distance(SdfKind::Plain, &Vec3::new(0, 98304, 0)), 0);
}

#[test]
fn fire_distance_is_consistent_between_calls() {
    let p = Vec3::new(131072, -65536, 98304);
    let d1 = signed_distance(SdfKind::Fire, &p);
    let d2 = signed_distance(SdfKind::Fire, &p);
    assert_eq!(d1, d2);
    let plain = signed_distance(SdfKind::Plain, &p);
    assert!(d1 >= plain);
    assert!(d1 <= plain + 65535);
}

#[test]
fn ray_at_origin_hits_plain_sphere_within_tolerance() {
    let orig = Vec3::new(0, 0, 3 * 65536);
    let dir = Vec3::new(0, 0, -65536);
    let mut pos = Vec3::zero();
    let hit = sphere_trace(SdfKind::Plain, orig, dir, &mut pos);
    assert!(hit);
    assert_eq!(pos.x(), 0);
    assert_eq!(pos.y(), 0);
    assert!(pos.z() <= SPHERE_RADIUS);
    assert!(SPHERE_RADIUS - pos.z() <= MIN_STEP);
}

#[test]
fn distant_ray_is_rejected_without_marching() {
    let orig = Vec3::new(0, 0, 3 * 65536);
    let dir = Vec3::new(65536, 0, 0);
    let mut pos = Vec3::new(7, 8, 9);
    let hit = sphere_trace(SdfKind::Plain, orig, dir, &mut pos);
    assert!(!hit);
    assert_eq!(pos, Vec3::new(7, 8, 9));
    let mut pos2 = Vec3::new(7, 8, 9);
    let hit2 = sphere_trace(SdfKind::Fire, orig, dir, &mut pos2);
    assert!(!hit2);
    assert_eq!(pos2, Vec3::new(7, 8, 9));
}

#[test]
fn miss_pixel_gets_the_exact_background_color() {
    let c = render_pixel(SdfKind::Fire, 0, 0, 1000, 10, HALF_FOV_TAN);
    assert_eq!(c, Vec3::new(BG_R, BG_G, BG_B));
    let bytes = (
        kaboom::image::quantize(c.x()),
        kaboom::image::quantize(c.y()),
        kaboom::image::quantize(c.z()),
    );
    assert_eq!(bytes, (51, 178, 204));
}

#[test]
fn center_pixel_of_plain_sphere_shades_white_by_intensity() {
    let c = render_pixel(SdfKind::Plain, 0, 0, 1, 1, HALF_FOV_TAN);
    assert_eq!(c.x(), c.y());
    assert_eq!(c.y(), c.z());
    assert!(c.x() >= AMBIENT);
    assert!(c.x() <= 3 * 65536 + 3);
}

#[test]
fn center_pixel_of_fire_sphere_hits_and_shades_warm() {
    let orig = Vec3::new(0, 0, 3 * 65536);
    let dir = Vec3::new(0, 0, -65536);
    let mut pos = Vec3::zero();
    let hit = sphere_trace(SdfKind::Fire, orig, dir, &mut pos);
    assert!(hit);
    let c = render_pixel(SdfKind::Fire, 0, 0, 1, 1, HALF_FOV_TAN);
    assert!(c.x() >= c.y());
    assert!(c.y() >= c.z());
    assert!(c.x() >= 0);
    assert_ne!(c, Vec3::new(BG_R, BG_G, BG_B));
}

#[test]
fn shading_is_deterministic() {
    let orig = Vec3::new(0, 0, 3 * 65536);
    let dir = Vec3::new(0, 0, -65536);
    let mut pos = Vec3::zero();
    assert!(sphere_trace(SdfKind::Fire, orig, dir, &mut pos));
    assert_eq!(shade_hit(SdfKind::Fire, pos), shade_hit(SdfKind::Fire, pos));
    let n = distance_field_normal(SdfKind::Fire, pos);
    assert_eq!(n, distance_field_normal(SdfKind::Fire, pos));
}

#[test]
fn palette_meets_its_stops() {
    assert_eq!(palette_fire(16384), Vec3::new(13107, 13107, 13107));
    assert_eq!(palette_fire(32768), Vec3::new(65536, 0, 0));
    assert_eq!(palette_fire(49152), Vec3::new(65536, 39322, 0));
}

#[test]
fn palette_clamps_to_gray_and_yellow() {
    let gray = Vec3::new(26214, 26214, 26214);
    let yellow = Vec3::new(111411, 85197, 65536);
    assert_eq!(palette_fire(0), gray);
    assert_eq!(palette_fire(-100000), gray);
    assert_eq!(palette_fire(65536), yellow);
    assert_eq!(palette_fire(987654), yellow);
}

#[test]
fn palette_is_monotone_warm() {
    for t in [-5000, 0, 10000, 16384, 20000, 32768, 40000, 49152, 60000, 65536, 90000] {
        let c = palette_fire(t);
        assert!(c.x() >= c.y());
        assert!(c.y() >= c.z());
        assert!(c.z() >= 0);
    }
}
