//! Fixed-point scalar and vector arithmetic, and image encoding.
use kaboom::fx;
use kaboom::image::{encode_image, header_bytes, quantize};
use kaboom::vec3::{eucl, isqrt, Vec3};

#[test]
fn fx_mul_rounds_toward_minus_infinity() {
    assert_eq!(fx::fx_mul(65536, 65536), 65536);
    assert_eq!(fx::fx_mul(32768, 32768), 16384);
    assert_eq!(fx::fx_mul(-98304, 6554), -9831);
    assert_eq!(fx::fx_mul(0, 123456), 0);
}

#[test]
fn fdiv_is_floor_division() {
    assert_eq!(fx::fdiv(7, 2), 3);
    assert_eq!(fx::fdiv(-7, 2), -4);
    assert_eq!(fx::fdiv(-65536, 65536), -1);
    assert_eq!(fx::fdiv(i64::MIN, 1), i64::MIN);
}

#[test]
fn fx_div_matches_scaled_quotient() {
    assert_eq!(fx::fx_div(65536, 131072), 32768);
    assert_eq!(fx::fx_div(196608, 65536), 196608);
    assert_eq!(fx::fx_div(-65536, 131072), -32768);
}

#[test]
fn scalar_lerp_clamps_its_weight() {
    assert_eq!(fx::lerp(0, 65536, 32768), 32768);
    assert_eq!(fx::lerp(0, 65536, 131072), 65536);
    assert_eq!(fx::lerp(0, 65536, -5), 0);
    assert_eq!(fx::lerp(65536, 0, 16384), 49152);
}

#[test]
fn isqrt_is_exact_floor() {
    assert_eq!(isqrt(0), 0);
    assert_eq!(isqrt(10), 3);
    assert_eq!(isqrt(16), 4);
    assert_eq!(isqrt(107374182400), 327680);
}

#[test]
fn length_of_scaled_pythagorean_triple_is_exact() {
    let v = Vec3::new(3 * 65536, 4 * 65536, 0);
    assert_eq!(v.length(), 5 * 65536);
    assert_eq!(eucl(3 * 65536, 4 * 65536, 0), 5 * 65536);
    assert_eq!(Vec3::new(65536, 131072, 131072).length(), 3 * 65536);
}

#[test]
fn dot_and_length_squared() {
    let a = Vec3::new(65536, 131072, 196608);
    let b = Vec3::new(262144, 327680, 393216);
    assert_eq!(a.dot(b), 32 * 65536);
    assert_eq!(a.length_squared(), 14 * 65536);
}

#[test]
fn cross_of_axes() {
    let x = Vec3::new(65536, 0, 0);
    let y = Vec3::new(0, 65536, 0);
    let z = x.cross(y);
    assert_eq!((z.x(), z.y(), z.z()), (0, 0, 65536));
}

#[test]
fn normalized_rounds_components_down() {
    let v = Vec3::new(196608, 262144, 0);
    let n = v.normalized();
    assert_eq!((n.x(), n.y(), n.z()), (39321, 52428, 0));
    let zero = Vec3::zero().normalized();
    assert_eq!((zero.x(), zero.y(), zero.z()), (0, 0, 0));
}

#[test]
fn normalize_in_place_matches_normalized() {
    let v = Vec3::new(196608, 262144, 0);
    let mut w = v;
    w.normalize();
    assert_eq!(w, v.normalized());
}

#[test]
fn normalized_by_scales_the_unit_vector() {
    let v = Vec3::new(0, 196608, 262144);
    let r = v.normalized_by(131072);
    assert_eq!((r.x(), r.y(), r.z()), (0, 78642, 104856));
}

#[test]
fn distance_between_points() {
    let a = Vec3::new(65536, 131072, 131072);
    assert_eq!(a.distance(Vec3::zero()), 3 * 65536);
}

#[test]
fn component_min_max_clamp() {
    let a = Vec3::new(1, 5, -3);
    let b = Vec3::new(2, -4, -3);
    let lo = a.min(b);
    let hi = a.max(b);
    assert_eq!((lo.x(), lo.y(), lo.z()), (1, -4, -3));
    assert_eq!((hi.x(), hi.y(), hi.z()), (2, 5, -3));
    let c = Vec3::new(-10, 3, 99).clamp(0, 10);
    assert_eq!((c.x(), c.y(), c.z()), (0, 3, 10));
}

#[test]
fn vector_lerp_interpolates_each_component() {
    let a = Vec3::new(0, 0, 65536);
    let b = Vec3::new(65536, 0, 0);
    let m = kaboom::vec3::lerp(a, b, 32768);
    assert_eq!((m.x(), m.y(), m.z()), (32768, 0, 32768));
    let s = Vec3::lerp(a, b, 200000);
    assert_eq!((s.x(), s.y(), s.z()), (65536, 0, 0));
}

#[test]
fn component_accessors_and_axis_parts() {
    let v = Vec3::new(7, 8, 9);
    assert_eq!((v.x(), v.y(), v.z()), (7, 8, 9));
    assert_eq!(v.x_comp(), Vec3::new(7, 0, 0));
    assert_eq!(v.y_comp(), Vec3::new(0, 8, 0));
    assert_eq!(v.z_comp(), Vec3::new(0, 0, 9));
    assert_eq!(v.as_slice(), [7, 8, 9]);
    assert_eq!((v.index(0), v.index(1), v.index(2)), (7, 8, 9));
    assert_eq!(Vec3::one(), Vec3::new(65536, 65536, 65536));
}

#[test]
fn reciprocal_rounds_toward_zero_and_guards_zero() {
    let v = Vec3::new(131072, -131072, 0);
    let r = v.recip();
    assert_eq!((r.x(), r.y(), r.z()), (32768, -32768, 0));
    let w = Vec3::new(196608, -196608, 65536).recip();
    assert_eq!((w.x(), w.y(), w.z()), (21845, -21845, 65536));
}

#[test]
fn arithmetic_add_sub_neg_scale() {
    let a = Vec3::new(65536, -65536, 32768);
    let b = Vec3::new(32768, 32768, 32768);
    assert_eq!(a.add(b), Vec3::new(98304, -32768, 65536));
    assert_eq!(a.sub(b), Vec3::new(32768, -98304, 0));
    assert_eq!(a.neg(), Vec3::new(-65536, 65536, -32768));
    assert_eq!(a.scale(131072), Vec3::new(131072, -131072, 65536));
}

#[test]
fn quantize_rounds_to_nearest_byte() {
    assert_eq!(quantize(13107), 51);
    assert_eq!(quantize(45875), 178);
    assert_eq!(quantize(52429), 204);
    assert_eq!(quantize(32768), 128);
}

#[test]
fn hot_component_saturates_at_255() {
    assert_eq!(quantize(111411), 255);
    assert_eq!(quantize(65536), 255);
    assert_eq!(quantize(2 * 65536), 255);
}

#[test]
fn nonpositive_component_quantizes_to_zero() {
    assert_eq!(quantize(0), 0);
    assert_eq!(quantize(-7), 0);
}

#[test]
fn header_is_exact_for_4_by_2() {
    assert_eq!(header_bytes(4, 2), b"P6\n4 2\n255\n".to_vec());
}

#[test]
fn header_is_exact_for_960_by_720() {
    assert_eq!(header_bytes(960, 720), b"P6\n960 720\n255\n".to_vec());
}

#[test]
fn encoded_image_is_header_then_24_bytes() {
    let mut pixels = vec![Vec3::new(0, 0, 0); 8];
    pixels[0] = Vec3::new(111411, 85197, 65536);
    pixels[1] = Vec3::new(13107, 45875, 52429);
    let bytes = encode_image(4, 2, &pixels);
    assert_eq!(bytes.len(), 11 + 24);
    assert_eq!(&bytes[0..11], b"P6\n4 2\n255\n");
    assert_eq!(&bytes[11..14], &[255, 255, 255]);
    assert_eq!(&bytes[14..17], &[51, 178, 204]);
    assert_eq!(&bytes[17..35], &[0; 18]);
}
