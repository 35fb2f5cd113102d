//! Vector algebra, sampling, and material-law tests.

use raytracing_in_one_weekend::fixed::SCALE;
use raytracing_in_one_weekend::material::{Dielectric, Lambertian, Metal};
use raytracing_in_one_weekend::vec3::{cross, dot, reflect, unit_vector, write_color, Rgb, Vec3};
use raytracing_in_one_weekend::vec3::{
    random_unit_vector, random_vec3, random_vec3_in_range, random_vec3_in_unit_disk,
    random_vec3_in_unit_sphere, random_vec3_on_hemisphere,
};
use raytracing_in_one_weekend::{random_scalar, random_scalar_in};

fn fx(whole: i64) -> i64 {
    whole * SCALE
}

#[test]
fn test_cross() {
    let x = Vec3::build(fx(1), 0, 0);
    let y = Vec3::build(0, fx(1), 0);
    let z = Vec3::build(0, 0, fx(1));
    assert_eq!(cross(&x, &y), z);
}

#[test]
fn test_cross_anticommutes() {
    let a = Vec3::build(fx(1), fx(2), fx(3));
    let b = Vec3::build(fx(-4), fx(5), fx(6));
    let ab = cross(&a, &b);
    let ba = cross(&b, &a);
    assert_eq!(ab.x(), -ba.x());
    assert_eq!(ab.y(), -ba.y());
    assert_eq!(ab.z(), -ba.z());
}

#[test]
fn test_dot_symmetric() {
    let a = Vec3::build(fx(1), fx(-2), fx(3));
    let b = Vec3::build(fx(7), fx(5), fx(-6));
    assert_eq!(dot(&a, &b), dot(&b, &a));
    assert_eq!(dot(&a, &b), fx(1 * 7 + -2 * 5 + 3 * -6));
}

#[test]
fn test_unit_vector_has_unit_length() {
    // A 3-4-5 triangle: the length divides exactly, so the unit vector
    // has squared length within two grid steps of one.
    let v = Vec3::build(fx(3), fx(4), 0);
    let u = unit_vector(&v);
    assert_eq!(u, Vec3::build(39321, 52428, 0));
    let uu = u.x() * u.x() + u.y() * u.y() + u.z() * u.z();
    let one = SCALE * SCALE;
    assert!((one - uu).abs() <= 2 * SCALE + 1);
}

#[test]
fn test_unit_vector_axis_exact() {
    let v = Vec3::build(0, fx(9), 0);
    assert_eq!(unit_vector(&v), Vec3::build(0, fx(1), 0));
}

#[test]
fn test_reflect_about_axis() {
    // v = (3, 4, 0) against the unit normal +y reflects exactly to
    // (3, -4, 0), preserving the length.
    let v = Vec3::build(fx(3), fx(4), 0);
    let n = Vec3::build(0, fx(1), 0);
    let r = reflect(&v, &n);
    assert_eq!(r, Vec3::build(fx(3), fx(-4), 0));
    let vl = v.x() * v.x() + v.y() * v.y() + v.z() * v.z();
    let rl = r.x() * r.x() + r.y() * r.y() + r.z() * r.z();
    assert_eq!(vl, rl);
}

#[test]
fn test_near_zero() {
    assert!(Vec3::build(0, 0, 0).near_zero());
    assert!(!Vec3::build(1, 0, 0).near_zero());
    assert!(!Vec3::build(0, 0, -1).near_zero());
}

#[test]
fn test_length_of_345() {
    let v = Vec3::build(fx(3), fx(4), 0);
    assert_eq!(v.length(), fx(5));
    assert_eq!(v.length_squared(), fx(25));
}

#[test]
fn test_vector_arithmetic() {
    let a = Vec3::build(fx(1), fx(2), fx(3));
    let b = Vec3::build(fx(4), fx(5), fx(6));
    assert_eq!(a.add(b), Vec3::build(fx(5), fx(7), fx(9)));
    assert_eq!(b.sub(a), Vec3::build(fx(3), fx(3), fx(3)));
    assert_eq!(a.neg(), Vec3::build(fx(-1), fx(-2), fx(-3)));
    assert_eq!(a.mul(b), Vec3::build(fx(4), fx(10), fx(18)));
    assert_eq!(a.scale(fx(2)), Vec3::build(fx(2), fx(4), fx(6)));
    assert_eq!(b.div(fx(2)), Vec3::build(fx(2), 163840, fx(3)));
}

#[test]
fn test_random_scalar_in_unit_range() {
    for _ in 0..100 {
        let r = random_scalar();
        assert!(0 <= r && r < SCALE);
    }
}

#[test]
fn test_random_scalar_in_given_range() {
    for _ in 0..100 {
        let r = random_scalar_in(-fx(2), fx(3));
        assert!(-fx(2) <= r && r < fx(3));
    }
}

#[test]
fn test_random_vec3_ranges() {
    for _ in 0..20 {
        let p = random_vec3();
        assert!(0 <= p.x() && p.x() < SCALE);
        assert!(0 <= p.y() && p.y() < SCALE);
        assert!(0 <= p.z() && p.z() < SCALE);
        let q = random_vec3_in_range(-SCALE, SCALE);
        assert!(-SCALE <= q.x() && q.x() < SCALE);
    }
}

#[test]
fn test_random_samples_in_unit_regions() {
    for _ in 0..50 {
        let d = random_vec3_in_unit_disk();
        assert_eq!(d.z(), 0);
        assert!(d.x() * d.x() + d.y() * d.y() < SCALE * SCALE);
        let s = random_vec3_in_unit_sphere();
        assert!(s.x() * s.x() + s.y() * s.y() + s.z() * s.z() < SCALE * SCALE);
        let u = random_unit_vector();
        assert!(u.x().abs() <= SCALE && u.y().abs() <= SCALE && u.z().abs() <= SCALE);
        let n = Vec3::build(0, fx(1), 0);
        let h = random_vec3_on_hemisphere(&n);
        assert!(h.y() >= 0);
    }
}

#[test]
fn test_write_color_grays() {
    // Full intensity maps to 255 through the 0.999 clamp; black to 0.
    let white = Vec3::build(fx(1), fx(1), fx(1));
    assert_eq!(write_color(&white, 1), Rgb { r: 255, g: 255, b: 255 });
    let black = Vec3::build(0, 0, 0);
    assert_eq!(write_color(&black, 1), Rgb { r: 0, g: 0, b: 0 });
    // A quarter averages over four samples to 1/16; gamma brings it to
    // 1/4, so the channel is 64.
    let sum = Vec3::build(fx(1) / 4, fx(1) / 4, fx(1) / 4);
    assert_eq!(write_color(&sum, 4), Rgb { r: 64, g: 64, b: 64 });
    // Overshoot beyond 1.0 clamps rather than wrapping.
    let hot = Vec3::build(fx(9), fx(9), fx(9));
    assert_eq!(write_color(&hot, 1), Rgb { r: 255, g: 255, b: 255 });
}

#[test]
fn test_schlick_normal_incidence_is_r0() {
    let d = Dielectric::build(98304);
    // ratio 1.5: r0 = ((1 - 1.5) / (1 + 1.5))^2 = 0.04, in fixed point.
    assert_eq!(d.reflectance(SCALE, 98304), 2621);
}

#[test]
fn test_schlick_monotone_toward_grazing() {
    let d = Dielectric::build(98304);
    let r_normal = d.reflectance(SCALE, 98304);
    let r_mid = d.reflectance(SCALE / 2, 98304);
    let r_grazing = d.reflectance(0, 98304);
    assert!(r_normal <= r_mid);
    assert!(r_mid <= r_grazing);
}

#[test]
fn test_metal_fuzz_clamped_to_unit_interval() {
    let low = Metal::build(0, 0, 0, -fx(1));
    assert_eq!(low.fuzz, 0);
    let high = Metal::from(Vec3::build(0, 0, 0), fx(3));
    assert_eq!(high.fuzz, SCALE);
    let mid = Metal::build(0, 0, 0, SCALE / 2);
    assert_eq!(mid.fuzz, SCALE / 2);
}

#[test]
fn test_random_unit_vector_near_unit_length() {
    for _ in 0..50 {
        let u = random_unit_vector();
        let uu = u.x() * u.x() + u.y() * u.y() + u.z() * u.z();
        let one = SCALE * SCALE;
        assert!(one - 6 * SCALE - 3 <= uu && uu <= one + 10 * SCALE);
        assert!(u != Vec3::build(0, 0, 0));
    }
}

#[test]
fn test_cross_anticommutes_off_grid() {
    // Raw sub-unit components: the symmetric scaling keeps swapping
    // the arguments an exact negation even where a floor would not.
    let a = Vec3::build(0, 1, 0);
    let b = Vec3::build(0, 0, 1);
    let ab = cross(&a, &b);
    let ba = cross(&b, &a);
    assert_eq!(ab.x(), -ba.x());
    assert_eq!(ab.y(), -ba.y());
    assert_eq!(ab.z(), -ba.z());
}

#[test]
fn test_material_builders() {
    let l = Lambertian::build(fx(1) / 2, fx(1) / 4, fx(1) / 8);
    assert_eq!(l.color(), Vec3::build(32768, 16384, 8192));
    let l2 = Lambertian::from(Vec3::build(100, 200, 300));
    assert_eq!(l2.color(), Vec3::build(100, 200, 300));
    let m = Metal::build(fx(1), fx(1), fx(1), fx(3));
    assert_eq!(m.color(), Vec3::build(fx(1), fx(1), fx(1)));
    let m2 = Metal::from(Vec3::build(1, 2, 3), fx(2));
    assert_eq!(m2.color(), Vec3::build(1, 2, 3));
}
