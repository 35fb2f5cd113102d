//! Intersection, aggregate, and end-to-end rendering tests.

use raytracing_in_one_weekend::camera::Camera;
use raytracing_in_one_weekend::fixed::SCALE;
use raytracing_in_one_weekend::hittable::HitRecord;
use raytracing_in_one_weekend::hittable_list::HittableList;
use raytracing_in_one_weekend::material::{Lambertian, Material};
use raytracing_in_one_weekend::ray::Ray;
use raytracing_in_one_weekend::sphere::Sphere;
use raytracing_in_one_weekend::vec3::{write_color, Rgb, Vec3};

fn fx(whole: i64) -> i64 {
    whole * SCALE
}

fn gray() -> Material {
    Material::Lambertian(Lambertian::build(SCALE / 2, SCALE / 2, SCALE / 2))
}

const T_FAR: i64 = 1099511627776;

#[test]
fn test_sphere_hit_head_on() {
    // A sphere of radius 2 at the origin, approached along +z from
    // (0, 0, -4): the hit is at t = 2 with outward normal -z and a
    // front face.
    let s = Sphere::build(Vec3::build(0, 0, 0), fx(2), gray());
    let r = Ray::build(Vec3::build(0, 0, fx(-4)), Vec3::build(0, 0, fx(1)));
    let mut rec = HitRecord::new();
    assert!(s.hit(&r, 66, T_FAR, &mut rec));
    assert_eq!(rec.t, fx(2));
    assert_eq!(rec.p, Vec3::build(0, 0, fx(-2)));
    assert_eq!(rec.normal, Vec3::build(0, 0, fx(-1)));
    assert!(rec.front_face);
}

#[test]
fn test_sphere_miss_leaves_record_untouched() {
    let s = Sphere::build(Vec3::build(fx(10), 0, 0), fx(1), gray());
    let r = Ray::build(Vec3::build(0, 0, 0), Vec3::build(0, 0, fx(1)));
    let before = HitRecord::new();
    let mut rec = HitRecord::new();
    assert!(!s.hit(&r, 66, T_FAR, &mut rec));
    assert_eq!(rec, before);
}

#[test]
fn test_sphere_inner_root_from_inside() {
    // From the center of the sphere the smaller root is behind the
    // ray start, so the larger root is taken and the face is a back
    // face.
    let s = Sphere::build(Vec3::build(0, 0, 0), fx(2), gray());
    let r = Ray::build(Vec3::build(0, 0, 0), Vec3::build(0, 0, fx(1)));
    let mut rec = HitRecord::new();
    assert!(s.hit(&r, 66, T_FAR, &mut rec));
    assert_eq!(rec.t, fx(2));
    assert!(!rec.front_face);
    assert_eq!(rec.normal, Vec3::build(0, 0, fx(-1)));
}

#[test]
fn test_hollow_sphere_flips_face() {
    // A negative radius models an inverted shell: the same geometry is
    // hit, but the outward normal points inward, so the head-on hit is
    // a back face.
    let s = Sphere::build(Vec3::build(0, 0, 0), fx(-2), gray());
    let r = Ray::build(Vec3::build(0, 0, fx(-4)), Vec3::build(0, 0, fx(1)));
    let mut rec = HitRecord::new();
    assert!(s.hit(&r, 66, T_FAR, &mut rec));
    assert_eq!(rec.t, fx(2));
    assert!(!rec.front_face);
    assert_eq!(rec.normal, Vec3::build(0, 0, fx(-1)));
}

#[test]
fn test_aggregate_returns_closer_hit() {
    // Two overlapping spheres along the ray: the strictly closer
    // intersection wins in either insertion order.
    let near = Sphere::build(Vec3::build(0, 0, fx(-3)), fx(1), gray());
    let far = Sphere::build(Vec3::build(0, 0, fx(-5)), fx(2), gray());
    let r = Ray::build(Vec3::build(0, 0, 0), Vec3::build(0, 0, fx(-1)));

    let mut world = HittableList::new();
    world.add(near);
    world.add(far);
    let mut rec = HitRecord::new();
    assert!(world.hit(&r, 66, T_FAR, &mut rec));
    assert_eq!(rec.t, fx(2));

    let mut world2 = HittableList::new();
    world2.add(far);
    world2.add(near);
    let mut rec2 = HitRecord::new();
    assert!(world2.hit(&r, 66, T_FAR, &mut rec2));
    assert_eq!(rec2.t, fx(2));
}

#[test]
fn test_aggregate_tie_keeps_first() {
    // Two spheres with identical geometry but different materials: the
    // narrowed search range excludes the closest parameter found so
    // far, so the member seen first keeps the hit in either order.
    let red = Material::Lambertian(Lambertian::build(SCALE, 0, 0));
    let blue = Material::Lambertian(Lambertian::build(0, 0, SCALE));
    let a = Sphere::build(Vec3::build(0, 0, fx(-3)), fx(1), red);
    let b = Sphere::build(Vec3::build(0, 0, fx(-3)), fx(1), blue);
    let r = Ray::build(Vec3::build(0, 0, 0), Vec3::build(0, 0, fx(-1)));

    let mut world = HittableList::new();
    world.add(a);
    world.add(b);
    let mut rec = HitRecord::new();
    assert!(world.hit(&r, 66, T_FAR, &mut rec));
    assert_eq!(rec.mat, red);

    let mut world2 = HittableList::new();
    world2.add(b);
    world2.add(a);
    let mut rec2 = HitRecord::new();
    assert!(world2.hit(&r, 66, T_FAR, &mut rec2));
    assert_eq!(rec2.mat, blue);
}

#[test]
fn test_camera_config_check() {
    let cam = Camera::new();
    assert!(cam.check_config());
    let mut bad = Camera::new();
    bad.image_width = 0;
    assert!(!bad.check_config());
    let mut bad2 = Camera::new();
    bad2.vup = Vec3::build(0, 0, fx(-1));
    assert!(!bad2.check_config());
}

#[test]
fn test_aggregate_empty_misses() {
    let world = HittableList::new();
    let r = Ray::build(Vec3::build(0, 0, 0), Vec3::build(0, 0, fx(-1)));
    let mut rec = HitRecord::new();
    assert!(!world.hit(&r, 66, T_FAR, &mut rec));
}

#[test]
fn test_ray_color_depth_zero_is_black() {
    let mut world = HittableList::new();
    world.add(Sphere::build(Vec3::build(0, 0, fx(-3)), fx(1), gray()));
    let r = Ray::build(Vec3::build(0, 0, 0), Vec3::build(0, 0, fx(-1)));
    assert_eq!(Camera::ray_color(&r, 0, &world), Vec3::build(0, 0, 0));
}

#[test]
fn test_ray_color_miss_is_sky_gradient() {
    let world = HittableList::new();
    // Straight up: pure sky blue.
    let up = Ray::build(Vec3::build(0, 0, 0), Vec3::build(0, fx(1), 0));
    assert_eq!(Camera::ray_color(&up, 5, &world), Vec3::build(32768, 45875, fx(1)));
    // Straight down: pure white.
    let down = Ray::build(Vec3::build(0, 0, 0), Vec3::build(0, fx(-1), 0));
    assert_eq!(Camera::ray_color(&down, 5, &world), Vec3::build(fx(1), fx(1), fx(1)));
}

#[test]
fn test_lambertian_scatter_from_hit() {
    let albedo = Vec3::build(SCALE / 2, SCALE / 4, SCALE / 8);
    let l = Lambertian::from(albedo);
    let mut rec = HitRecord::new();
    rec.p = Vec3::build(0, 0, fx(-2));
    rec.normal = Vec3::build(0, 0, fx(-1));
    let r = Ray::build(Vec3::build(0, 0, fx(-4)), Vec3::build(0, 0, fx(1)));
    let mut attenuation = Vec3::build(0, 0, 0);
    let mut scattered = Ray::new();
    assert!(l.scatter(&r, &rec, &mut attenuation, &mut scattered));
    assert_eq!(attenuation, albedo);
    assert_eq!(scattered.orig, rec.p);
    assert!(!scattered.dir.near_zero() || scattered.dir == rec.normal);
}

#[test]
fn test_two_by_two_render_is_sky() {
    // A 2x2 image, one sample per pixel, depth one, empty scene, and
    // the default camera: with the jitter stubbed to zero offsets,
    // every pixel is exactly the gamma-corrected sky gradient at its
    // ray direction.
    let mut cam = Camera::new();
    cam.image_width = 2;
    cam.samples_per_pixel = 1;
    cam.max_depth = 1;
    cam.initialize();
    assert_eq!(cam.image_height, 2);
    let world = HittableList::new();
    let expected = [
        Rgb { r: 206, g: 227, b: 255 },
        Rgb { r: 206, g: 227, b: 255 },
        Rgb { r: 236, g: 244, b: 255 },
        Rgb { r: 236, g: 244, b: 255 },
    ];
    let mut idx = 0;
    for j in 0..2 {
        for i in 0..2 {
            let ray = cam.get_ray_with(i, j, 0, 0, 0, 0);
            let c = Camera::ray_color(&ray, 1, &world);
            let px = write_color(&c, 1);
            assert_eq!(px, expected[idx]);
            idx += 1;
        }
    }
}

#[test]
fn test_render_produces_full_image() {
    let mut cam = Camera::new();
    cam.image_width = 3;
    cam.samples_per_pixel = 2;
    cam.max_depth = 3;
    let mut world = HittableList::new();
    world.add(Sphere::build(Vec3::build(0, 0, fx(-3)), fx(1), gray()));
    let pixels = cam.render(&world);
    assert_eq!(pixels.len() as i64, cam.image_height as i64 * cam.image_width as i64);
    assert_eq!(pixels.len(), 9);
}
