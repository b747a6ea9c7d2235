//! Camera rays, the radiance estimator, color conversion and sampling.

use raytrace::camera::Camera;
use raytrace::hittable::HittableList;
use raytrace::interval::Interval;
use raytrace::material::Material;
use raytrace::ray::Ray;
use raytrace::sampler::Sampler;
use raytrace::sphere::Sphere;
use raytrace::utils::{near_zero, random_dvec3_unit, random_in_unit_disc};
use raytrace::vec3::Vec3;
use raytrace::SCALE;

const FS: f64 = 65536.0;

fn fx(v: f64) -> i64 {
    (v * FS).round() as i64
}

fn vec(x: f64, y: f64, z: f64) -> Vec3 {
    Vec3::new(fx(x), fx(y), fx(z))
}

#[test]
fn sampler_draws_stay_in_range_and_replay_by_seed() {
    let mut s = Sampler::new(11);
    // A single-point range can only return that point: a draw that came
    // back unchanged from the wrapper would fail the next assertions.
    assert_eq!(s.next_in(5, 5), 5);
    let mut lo = i64::MAX;
    let mut hi = i64::MIN;
    for _ in 0..200 {
        let v = s.next_in(-3, 7);
        assert!((-3..=7).contains(&v));
        lo = lo.min(v);
        hi = hi.max(v);
    }
    assert!(lo < hi, "two hundred draws never varied");
    let mut a = Sampler::new(99);
    let mut b = Sampler::new(99);
    for _ in 0..20 {
        assert_eq!(a.next_in(0, SCALE), b.next_in(0, SCALE));
    }
}

#[test]
fn random_helpers_stay_bounded() {
    let mut s = Sampler::new(3);
    for _ in 0..50 {
        let u = random_dvec3_unit(&mut s);
        assert!(u.x.abs() <= SCALE && u.y.abs() <= SCALE && u.z.abs() <= SCALE);
        let d = random_in_unit_disc(&mut s);
        assert!(d.x.abs() <= SCALE && d.y.abs() <= SCALE);
        assert_eq!(d.z, 0);
    }
    assert!(near_zero(&Vec3::zero()));
    assert!(!near_zero(&Vec3::new(1, 0, 0)));
}

#[test]
fn background_gradient_blends_white_to_blue() {
    let world = HittableList::default();
    let mut s = Sampler::new(5);
    // Straight up: the zenith color.
    let up = Ray::with_direction(Vec3::zero(), vec(0.0, 1.0, 0.0));
    let c = Camera::ray_color(&up, 10, &world, &mut s);
    assert_eq!(c, Vec3::new(32768, 45875, SCALE));
    // Straight down: white.
    let down = Ray::with_direction(Vec3::zero(), vec(0.0, -1.0, 0.0));
    let c = Camera::ray_color(&down, 10, &world, &mut s);
    assert_eq!(c, Vec3::new(SCALE, SCALE, SCALE));
    // Horizontal: the midpoint of the blend.
    let level = Ray::with_direction(Vec3::zero(), vec(1.0, 0.0, 0.0));
    let c = Camera::ray_color(&level, 10, &world, &mut s);
    assert_eq!(c, Vec3::new(49152, 55706, SCALE));
    // An exhausted bounce budget is black.
    let c = Camera::ray_color(&up, 0, &world, &mut s);
    assert_eq!(c, Vec3::zero());
}

#[test]
fn center_ray_hits_single_sphere_head_on() {
    // A stationary sphere of radius one half at z = -1, camera at the
    // origin looking down the negative z axis: the center ray must strike
    // the front face with a normal pointing straight back.
    let mut world = HittableList::default();
    world.add(Sphere::new(
        Ray::new(vec(0.0, 0.0, -1.0)),
        fx(0.5),
        Material::Lambertian { albedo: vec(0.5, 0.5, 0.5) },
    ));
    let r = Ray::with_direction(Vec3::zero(), vec(0.0, 0.0, -1.0));
    let rec = world.hit(&r, Interval::new(fx(0.001), i64::MAX)).unwrap();
    assert!(rec.front_face);
    assert_eq!(rec.normal, vec(0.0, 0.0, 1.0));
    assert_eq!(rec.t, fx(0.5));

    // The same scene through the camera: the ray through the image center
    // differs from the axis only by sub-pixel jitter.
    let mut cam = Camera::new();
    cam.image_width = 600;
    cam.aspect_ratio = SCALE;
    cam.look_from = Vec3::zero();
    cam.look_at = vec(0.0, 0.0, -1.0);
    cam.look_up = vec(0.0, 1.0, 0.0);
    cam.focus_dist = fx(1.0);
    // A vertical field of view of ninety degrees has a half tangent of one.
    cam.initialize(fx(1.0), 0);
    let mut s = Sampler::new(8);
    let ray = cam.get_ray(300, 300, &mut s);
    let rec = world.hit(&ray, Interval::new(fx(0.001), i64::MAX)).unwrap();
    assert!(rec.front_face);
    assert!((rec.normal.x).abs() <= fx(0.02));
    assert!((rec.normal.y).abs() <= fx(0.02));
    assert!((rec.normal.z - SCALE).abs() <= fx(0.02));
}

#[test]
fn diffuse_sphere_single_bounce_converges_to_closed_form() {
    // A unit diffuse sphere lit by the background gradient: one bounce from
    // the top of the sphere sees the gradient through a cosine-weighted
    // hemisphere around straight up. The closed form of the mean scattered
    // height is two thirds, so the expected radiance is the albedo times
    // the gradient at five sixths: (0.29166, 0.375, 0.5).
    let mut world = HittableList::default();
    world.add(Sphere::new(
        Ray::new(Vec3::zero()),
        SCALE,
        Material::Lambertian { albedo: vec(0.5, 0.5, 0.5) },
    ));
    let r = Ray::with_direction(vec(0.0, 3.0, 0.0), vec(0.0, -1.0, 0.0));
    let mut s = Sampler::new(2024);
    let samples = 20000i64;
    let mut sum = [0i64; 3];
    for _ in 0..samples {
        let c = Camera::ray_color(&r, 2, &world, &mut s);
        sum[0] += c.x;
        sum[1] += c.y;
        sum[2] += c.z;
    }
    let mean = [sum[0] / samples, sum[1] / samples, sum[2] / samples];
    let expected = [fx(0.5 * 7.0 / 12.0), fx(0.5 * 0.75), fx(0.5 * 1.0)];
    for k in 0..3 {
        let err = (mean[k] - expected[k]).abs();
        assert!(
            err <= fx(0.02),
            "channel {} off by {} raw units (mean {}, expected {})",
            k,
            err,
            mean[k],
            expected[k],
        );
    }
}

#[test]
fn attenuation_multiplies_through_a_bounce() {
    // A diffuse sphere overhead: every path bounces once off the sphere and
    // then sees the background, so every sample is at most the albedo.
    let mut world = HittableList::default();
    world.add(Sphere::new(
        Ray::new(vec(0.0, 2.0, 0.0)),
        fx(0.5),
        Material::Lambertian { albedo: vec(0.25, 0.25, 0.25) },
    ));
    let r = Ray::with_direction(Vec3::zero(), vec(0.0, 1.0, 0.0));
    let mut s = Sampler::new(77);
    for _ in 0..100 {
        let c = Camera::ray_color(&r, 8, &world, &mut s);
        assert!(c.x <= fx(0.25) && c.y <= fx(0.25) && c.z <= fx(0.25));
        assert!(c.x >= 0 && c.y >= 0 && c.z >= 0);
    }
}

#[test]
fn gamma_and_channel_conversion_are_exact() {
    assert_eq!(Camera::linear_to_gamma(0), 0);
    assert_eq!(Camera::linear_to_gamma(-5), 0);
    assert_eq!(Camera::linear_to_gamma(SCALE), SCALE);
    // One quarter becomes one half under gamma.
    assert_eq!(Camera::linear_to_gamma(SCALE / 4), SCALE / 2);
    let rgb = Camera::color_to_rgb(&Vec3::new(SCALE, SCALE / 4, 0));
    assert_eq!(rgb.0, 255);
    assert_eq!(rgb.1, 128);
    assert_eq!(rgb.2, 0);
}

#[test]
fn get_ray_is_always_well_formed() {
    let mut cam = Camera::new();
    cam.image_width = 64;
    cam.look_from = vec(13.0, 2.0, 3.0);
    cam.look_at = Vec3::zero();
    cam.look_up = vec(0.0, 1.0, 0.0);
    cam.defocus_angle = fx(0.6);
    cam.focus_dist = fx(10.0);
    // Twenty degrees of field of view; the defocus tangent is small.
    cam.initialize(fx((10.0_f64).to_radians().tan()), fx((0.3_f64).to_radians().tan()));
    let mut s = Sampler::new(1);
    for (x, y) in [(0i64, 0i64), (63, 63), (31, 7)] {
        let r = cam.get_ray(x, y, &mut s);
        assert!(r.origin.x.abs() <= raytrace::vec3::POS_MAX);
        assert!(r.direction.x.abs() <= raytrace::vec3::DIR_MAX);
        assert_eq!(r.time, 0);
        // The ray points roughly from the eye toward the scene.
        assert!(r.direction.x < 0);
    }
}
