//! Scattering behavior: the refraction identity, metal reflection, and the
//! dielectric entry, exit and head-on cases.

use raytrace::hittable::HitRecord;
use raytrace::material::Material;
use raytrace::ray::Ray;
use raytrace::sampler::Sampler;
use raytrace::vec3::Vec3;
use raytrace::SCALE;

const FS: f64 = 65536.0;

fn fx(v: f64) -> i64 {
    (v * FS).round() as i64
}

fn vec(x: f64, y: f64, z: f64) -> Vec3 {
    Vec3::new(fx(x), fx(y), fx(z))
}

fn unit(x: f64, y: f64, z: f64) -> Vec3 {
    let l = (x * x + y * y + z * z).sqrt();
    vec(x / l, y / l, z / l)
}

/// Largest componentwise distance between two vectors, in raw quanta.
fn dist_inf(a: Vec3, b: Vec3) -> i64 {
    let dx = (a.x - b.x).abs();
    let dy = (a.y - b.y).abs();
    let dz = (a.z - b.z).abs();
    dx.max(dy).max(dz)
}

#[test]
fn refract_test() {
    let r_in = unit(1.0, -1.0, 0.0);
    let normal = vec(0.0, 1.0, 0.0);

    let refract = Material::refract(r_in, normal, SCALE).unwrap();

    // A relative index of one keeps the direction, within rounding quanta.
    assert!(dist_inf(r_in, refract) <= 4);

    let r_in = unit(1.0, -1.0, 0.0);
    let normal = vec(0.0, 1.0, 0.0);

    let refract = Material::refract(r_in, normal, fx(1.0 / 1.5)).unwrap();
    let expected = unit(2.0_f64.sqrt() / 3.0, -(7.0_f64.sqrt()) / 3.0, 0.0);

    assert!(dist_inf(expected, refract) <= 64);
}

#[test]
fn scatter_metallic_no_fuzz_test() {
    let rec = HitRecord {
        p: Vec3::zero(),
        normal: vec(0.0, 1.0, 0.0),
        t: SCALE,
        front_face: true,
        mat: Material::Metal { albedo: vec(0.8, 0.1, 0.0), fuzz: 0 },
    };

    let r = Ray::with_time(vec(-1.0, 1.0, 0.0), unit(1.0, -1.0, 0.0), 0);

    let mut sampler = Sampler::new(7);
    let (_attenuation, scattered, _keeps_bouncing) =
        rec.mat.scatter(r, &rec, &mut sampler).unwrap();

    let reflected = vec(2.0_f64.sqrt() / 2.0, 2.0_f64.sqrt() / 2.0, 0.0);

    assert!(dist_inf(scattered.direction, reflected) <= 4);
}

#[test]
fn scatter_dielectric_ref_1_5_entry_test() {
    let rec = HitRecord {
        p: Vec3::zero(),
        normal: vec(0.0, 1.0, 0.0),
        t: SCALE,
        front_face: true,
        mat: Material::Dielectric { refraction_index: fx(1.5) },
    };

    let r = Ray::with_time(vec(-1.0, 1.0, 0.0), unit(1.0, -1.0, 0.0), 0);

    // A uniform draw at the top of the range always chooses refraction.
    let (_attenuation, scattered, keeps_bouncing) =
        rec.mat.scatter_with(r, &rec, vec(0.0, 0.0, 1.0), SCALE).unwrap();

    let expected = unit(2.0_f64.sqrt() / 3.0, -(7.0_f64.sqrt()) / 3.0, 0.0);

    assert!(dist_inf(scattered.direction, expected) <= 64);
    // A refractive surface never absorbs.
    assert!(keeps_bouncing);
}

#[test]
fn scatter_dielectric_ref_1_5_exit_test() {
    let rec = HitRecord {
        p: Vec3::zero(),
        normal: vec(0.0, 1.0, 0.0),
        t: SCALE,
        front_face: false,
        mat: Material::Dielectric { refraction_index: fx(1.5) },
    };

    let r = Ray::with_time(
        vec(-1.0, 1.0, 0.0),
        unit(2.0_f64.sqrt() / 3.0, -(7.0_f64.sqrt()) / 3.0, 0.0),
        0,
    );

    let (_attenuation, scattered, _keeps_bouncing) =
        rec.mat.scatter_with(r, &rec, vec(0.0, 0.0, 1.0), SCALE).unwrap();

    let expected = unit(1.0, -1.0, 0.0);

    assert!(dist_inf(scattered.direction, expected) <= fx(0.1));
}

#[test]
fn scatter_dielectric_ref_1_0_dead_on_test() {
    let rec = HitRecord {
        p: Vec3::zero(),
        normal: vec(0.0, 1.0, 0.0),
        t: SCALE,
        front_face: false,
        mat: Material::Dielectric { refraction_index: fx(1.5) },
    };

    let ray = Ray::with_time(vec(0.0, 1.0, 0.0), unit(0.0, -1.0, 0.0), 0);

    let (_attenuation, scattered, _keeps_bouncing) =
        rec.mat.scatter_with(ray, &rec, vec(0.0, 0.0, 1.0), SCALE).unwrap();

    let expected = unit(0.0, -1.0, 0.0);

    assert!(dist_inf(scattered.direction, expected) <= 4);
}

#[test]
fn refract_identity_exact_on_unit_axes() {
    // For exactly unit-length fixed-point vectors the identity is bitwise.
    let uv = Vec3::new(0, -SCALE, 0);
    let n = Vec3::new(0, SCALE, 0);
    let out = Material::refract(uv, n, SCALE).unwrap();
    assert_eq!(out, uv);

    let uv = Vec3::new(-SCALE, 0, 0);
    let n = Vec3::new(SCALE, 0, 0);
    let out = Material::refract(uv, n, SCALE).unwrap();
    assert_eq!(out, uv);
}

#[test]
fn reflectance_head_on_equals_r0_and_grazing_equals_one() {
    let ri = fx(1.5);
    // (1 - 1.5)/(1 + 1.5) = -0.2; squared is 0.04, about 2621 raw.
    let r0 = Material::reflectance(SCALE, ri);
    assert_eq!(r0, 2621);
    // Grazing incidence reflects fully.
    assert_eq!(Material::reflectance(0, ri), SCALE);
    // Reflectance grows toward grazing.
    assert!(Material::reflectance(SCALE / 2, ri) >= r0);
}

#[test]
fn scatter_diffuse_same_seed_is_bit_identical() {
    let rec = HitRecord {
        p: vec(0.0, 0.0, -1.0),
        normal: vec(0.0, 0.0, 1.0),
        t: SCALE / 2,
        front_face: true,
        mat: Material::Lambertian { albedo: vec(0.5, 0.5, 0.5) },
    };
    let r = Ray::with_time(Vec3::zero(), vec(0.0, 0.0, -1.0), 0);

    let mut s1 = Sampler::new(42);
    let mut s2 = Sampler::new(42);
    let (a1, sc1, k1) = rec.mat.scatter(r, &rec, &mut s1).unwrap();
    let (a2, sc2, k2) = rec.mat.scatter(r, &rec, &mut s2).unwrap();
    assert_eq!(a1, a2);
    assert_eq!(sc1.origin, sc2.origin);
    assert_eq!(sc1.direction, sc2.direction);
    assert_eq!(sc1.time, sc2.time);
    assert_eq!(k1, k2);
}

#[test]
fn scatter_with_is_a_pure_function() {
    let rec = HitRecord {
        p: Vec3::zero(),
        normal: vec(0.0, 1.0, 0.0),
        t: SCALE,
        front_face: true,
        mat: Material::Lambertian { albedo: vec(0.9, 0.2, 0.1) },
    };
    let r = Ray::with_time(vec(0.0, 1.0, 0.0), unit(0.0, -1.0, 0.0), 0);
    let ru = unit(1.0, 2.0, -2.0);

    let first = rec.mat.scatter_with(r, &rec, ru, 123).unwrap();
    let second = rec.mat.scatter_with(r, &rec, ru, 123).unwrap();
    assert_eq!(first.0, second.0);
    assert_eq!(first.1.direction, second.1.direction);
    assert_eq!(first.2, second.2);
    // The diffuse direction is the normal plus the drawn unit vector.
    assert_eq!(first.1.direction, rec.normal.add(&ru));
}

#[test]
fn metal_reflection_is_normalized_before_fuzzing() {
    // A non-unit incoming direction must not inflate the scattered ray: the
    // reflection is scaled to unit length before the fuzz perturbation.
    let rec = HitRecord {
        p: Vec3::zero(),
        normal: vec(0.0, 1.0, 0.0),
        t: SCALE,
        front_face: true,
        mat: Material::Metal { albedo: vec(0.7, 0.6, 0.5), fuzz: 0 },
    };
    let r = Ray::with_time(vec(0.0, 2.0, 0.0), vec(0.0, -2.0, 0.0), 0);
    let (_a, scattered, keeps) =
        rec.mat.scatter_with(r, &rec, vec(0.0, 0.0, 1.0), 0).unwrap();
    assert_eq!(scattered.direction, vec(0.0, 1.0, 0.0));
    assert!(keeps);
}

#[test]
fn metal_fuzz_into_surface_is_absorbed() {
    // A head-on ray with full fuzz drawn along the incoming direction can
    // push the reflection inward; the path is then absorbed.
    let rec = HitRecord {
        p: Vec3::zero(),
        normal: vec(0.0, 1.0, 0.0),
        t: SCALE,
        front_face: true,
        mat: Material::Metal { albedo: vec(0.7, 0.6, 0.5), fuzz: SCALE },
    };
    let r = Ray::with_time(vec(0.0, 1.0, 0.0), unit(0.0, -1.0, 0.0), 0);
    // Reflected direction is (0, 1, 0); fuzz draws (0, -1, 0) exactly.
    let (_a, scattered, keeps) =
        rec.mat.scatter_with(r, &rec, Vec3::new(0, -SCALE, 0), 0).unwrap();
    assert_eq!(scattered.direction, Vec3::zero());
    assert!(!keeps);
}
