//! Intervals, boxes, spheres and the scene's nearest-hit search.

use raytrace::aabb::AABB;
use raytrace::hittable::{Hittable, HittableList};
use raytrace::interval::Interval;
use raytrace::material::Material;
use raytrace::ray::Ray;
use raytrace::sphere::Sphere;
use raytrace::vec3::Vec3;
use raytrace::SCALE;

const FS: f64 = 65536.0;

fn fx(v: f64) -> i64 {
    (v * FS).round() as i64
}

fn vec(x: f64, y: f64, z: f64) -> Vec3 {
    Vec3::new(fx(x), fx(y), fx(z))
}

fn gray() -> Material {
    Material::Lambertian { albedo: vec(0.5, 0.5, 0.5) }
}

#[test]
fn interval_contains_surrounds_clamp() {
    let i = Interval::new(fx(1.0), fx(3.0));
    assert!(i.contains(fx(1.0)));
    assert!(i.contains(fx(3.0)));
    assert!(!i.contains(fx(3.5)));
    assert!(!i.surrounds(fx(1.0)));
    assert!(i.surrounds(fx(2.0)));
    assert_eq!(i.clamp(fx(0.0)), fx(1.0));
    assert_eq!(i.clamp(fx(4.0)), fx(3.0));
    assert_eq!(i.clamp(fx(2.0)), fx(2.0));
    assert_eq!(i.size(), fx(2.0));
    let e = Interval::empty();
    assert!(!e.contains(0));
    let u = Interval::universe();
    assert!(u.contains(fx(-1000.0)) && u.contains(fx(1000.0)));
}

#[test]
fn aabb_from_points_sorts_each_axis() {
    let b = AABB::from_points(vec(1.0, -2.0, 5.0), vec(-1.0, 4.0, 3.0));
    assert_eq!(b.x.min, fx(-1.0));
    assert_eq!(b.x.max, fx(1.0));
    assert_eq!(b.y.min, fx(-2.0));
    assert_eq!(b.y.max, fx(4.0));
    assert_eq!(b.z.min, fx(3.0));
    assert_eq!(b.z.max, fx(5.0));
    let c = AABB::from_boxes(&b, &AABB::from_points(vec(0.0, 0.0, 0.0), vec(9.0, 0.0, 0.0)));
    assert_eq!(c.x.max, fx(9.0));
    assert_eq!(c.z.min, fx(0.0));
    assert_eq!(b.axis_interval(0), b.x);
    assert_eq!(b.axis_interval(1), b.y);
    assert_eq!(b.axis_interval(7), b.z);
}

#[test]
fn aabb_hit_accepts_crossing_ray_and_zero_component() {
    let b = AABB::from_points(vec(-1.0, -1.0, -3.0), vec(1.0, 1.0, -2.0));
    // Straight down the z axis: x and y direction components are zero.
    let r = Ray::with_direction(Vec3::zero(), vec(0.0, 0.0, -1.0));
    assert!(b.hit(r, Interval::new(fx(0.001), i64::MAX)));
    // Origin outside a zero-component slab: a guaranteed reject.
    let r2 = Ray::with_direction(vec(5.0, 0.0, 0.0), vec(0.0, 0.0, -1.0));
    assert!(!b.hit(r2, Interval::new(fx(0.001), i64::MAX)));
    // A diagonal ray that crosses the box.
    let r3 = Ray::with_direction(vec(-3.0, -3.0, 0.0), vec(1.0, 1.0, -1.0));
    assert!(b.hit(r3, Interval::new(fx(0.001), i64::MAX)));
    // The same ray, but the interval ends before the box.
    assert!(!b.hit(r3, Interval::new(fx(0.001), fx(1.0))));
}

#[test]
fn aabb_never_rejects_a_contained_hit() {
    // The slab test accepts whenever some primitive hit point lies inside
    // the box: cross-check against sphere hits for a batch of rays.
    let s = Sphere::new(Ray::new(vec(0.0, 0.0, -2.0)), fx(0.5), gray());
    let b = s.bounds();
    let window = Interval::new(fx(0.001), i64::MAX);
    for i in -5i64..=5 {
        for j in -5i64..=5 {
            let dir = Vec3::new(i * SCALE / 8, j * SCALE / 8, -SCALE);
            let r = Ray::with_direction(Vec3::zero(), dir);
            if let Some(rec) = s.hit(&r, window) {
                assert!(b.hit(r, window), "slab rejected a sphere hit at t {}", rec.t);
            }
        }
    }
}

#[test]
fn sphere_hit_reports_point_on_sphere() {
    let s = Sphere::new(Ray::new(vec(0.0, 0.0, -1.0)), fx(0.5), gray());
    let r = Ray::with_direction(Vec3::zero(), vec(0.0, 0.0, -1.0));
    let rec = s.hit(&r, Interval::new(fx(0.001), i64::MAX)).unwrap();
    // Exact arithmetic: the center ray hits at t = 0.5 on the front face.
    assert_eq!(rec.t, fx(0.5));
    assert_eq!(rec.p, vec(0.0, 0.0, -0.5));
    assert!(rec.front_face);
    assert_eq!(rec.normal, vec(0.0, 0.0, 1.0));
    // The reported point lies at distance radius from the center.
    let d = rec.p.sub(&vec(0.0, 0.0, -1.0));
    assert_eq!(d.length(), fx(0.5));
}

#[test]
fn sphere_hit_reports_points_just_outside_the_world_cube() {
    // A sphere whose far side pokes past the world cube still reports the
    // far hit: the acceptance range is wider than anywhere a well-formed
    // sphere reaches.
    let s = Sphere::new(
        Ray::new(Vec3::new(raytrace::vec3::POS_MAX, 0, 0)),
        fx(1.0),
        gray(),
    );
    let r = Ray::with_direction(Vec3::zero(), vec(1.0, 0.0, 0.0));
    // Search only past the near root, so the far root must be returned.
    let window = Interval::new(raytrace::vec3::POS_MAX - SCALE / 2, i64::MAX);
    let rec = s.hit(&r, window).unwrap();
    assert_eq!(rec.t, raytrace::vec3::POS_MAX + SCALE);
    assert_eq!(rec.p.x, raytrace::vec3::POS_MAX + SCALE);
    assert!(!rec.front_face);
}

#[test]
fn sphere_hit_misses_and_second_root() {
    let s = Sphere::new(Ray::new(vec(0.0, 0.0, -2.0)), fx(0.5), gray());
    // A ray pointing away misses.
    let away = Ray::with_direction(Vec3::zero(), vec(0.0, 0.0, 1.0));
    assert!(s.hit(&away, Interval::new(fx(0.001), i64::MAX)).is_none());
    // Starting inside the sphere, only the far root is in range.
    let inside = Ray::with_direction(vec(0.0, 0.0, -2.0), vec(0.0, 0.0, -1.0));
    let rec = s.hit(&inside, Interval::new(fx(0.001), i64::MAX)).unwrap();
    assert_eq!(rec.t, fx(0.5));
    assert!(!rec.front_face);
}

#[test]
fn moving_sphere_center_follows_time() {
    let center = Ray::with_direction(vec(0.0, 0.0, -2.0), vec(0.0, 1.0, 0.0));
    let s = Sphere::new(center, fx(0.5), gray());
    // At time zero the sphere sits at y = 0 and is hit head on.
    let r0 = Ray::with_time(Vec3::zero(), vec(0.0, 0.0, -1.0), 0);
    assert!(s.hit(&r0, Interval::new(fx(0.001), i64::MAX)).is_some());
    // At time one it has moved up a full unit and the same ray misses.
    let r1 = Ray::with_time(Vec3::zero(), vec(0.0, 0.0, -1.0), SCALE);
    assert!(s.hit(&r1, Interval::new(fx(0.001), i64::MAX)).is_none());
}

#[test]
fn scene_hit_returns_globally_nearest() {
    let mut world = HittableList::default();
    world.add(Sphere::new(Ray::new(vec(0.0, 0.0, -4.0)), fx(0.5), gray()));
    world.add(Sphere::new(Ray::new(vec(0.0, 0.0, -2.0)), fx(0.5), gray()));
    world.add(Sphere::new(Ray::new(vec(0.0, 0.0, -6.0)), fx(0.5), gray()));
    let r = Ray::with_direction(Vec3::zero(), vec(0.0, 0.0, -1.0));
    let rec = world.hit(&r, Interval::new(fx(0.001), i64::MAX)).unwrap();
    assert_eq!(rec.t, fx(1.5));

    // Insertion order does not change the winner.
    let mut reversed = HittableList::default();
    reversed.add(Sphere::new(Ray::new(vec(0.0, 0.0, -2.0)), fx(0.5), gray()));
    reversed.add(Sphere::new(Ray::new(vec(0.0, 0.0, -6.0)), fx(0.5), gray()));
    reversed.add(Sphere::new(Ray::new(vec(0.0, 0.0, -4.0)), fx(0.5), gray()));
    let rec2 = reversed.hit(&r, Interval::new(fx(0.001), i64::MAX)).unwrap();
    assert_eq!(rec2.t, rec.t);

    // A miss means every sphere misses.
    let up = Ray::with_direction(Vec3::zero(), vec(0.0, 1.0, 0.0));
    assert!(world.hit(&up, Interval::new(fx(0.001), i64::MAX)).is_none());
}

#[test]
fn scene_bounding_box_grows_with_insertions() {
    let mut world = HittableList::default();
    world.add(Sphere::new(Ray::new(vec(0.0, 0.0, -2.0)), fx(0.5), gray()));
    let b1 = world.bounding_box().unwrap();
    assert_eq!(b1.z.min, fx(-2.5));
    assert_eq!(b1.z.max, fx(-1.5));
    world.add(Sphere::new(Ray::new(vec(3.0, 0.0, 0.0)), fx(1.0), gray()));
    let b2 = world.bounding_box().unwrap();
    assert_eq!(b2.x.max, fx(4.0));
    assert_eq!(b2.z.min, fx(-2.5));
}

#[test]
fn hittable_trait_agrees_with_inherent_hit() {
    let s = Sphere::new(Ray::new(vec(0.0, 0.0, -1.0)), fx(0.5), gray());
    let via_trait = Hittable::hit(&s, &Ray::with_direction(Vec3::zero(), vec(0.0, 0.0, -1.0)),
        Interval::new(fx(0.001), i64::MAX));
    assert_eq!(via_trait.unwrap().t, fx(0.5));
    let sphere_box = Hittable::bounding_box(&s).unwrap();
    assert_eq!(sphere_box.z.min, fx(-1.5));
}

#[test]
fn set_face_normal_orients_against_ray() {
    let mut rec = raytrace::hittable::HitRecord {
        p: Vec3::zero(),
        normal: Vec3::zero(),
        t: 0,
        front_face: false,
        mat: gray(),
    };
    let r = Ray::with_direction(Vec3::zero(), vec(0.0, 0.0, -1.0));
    rec.set_face_normal(&r, vec(0.0, 0.0, 1.0));
    assert!(rec.front_face);
    assert_eq!(rec.normal, vec(0.0, 0.0, 1.0));
    rec.set_face_normal(&r, vec(0.0, 0.0, -1.0));
    assert!(!rec.front_face);
    assert_eq!(rec.normal, vec(0.0, 0.0, 1.0));
}
