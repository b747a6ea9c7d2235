//! Spheres, stationary or moving, and their ray intersection.
//!
//! The intersection uses the half-b quadratic over raw integers, so the
//! discriminant test is exact; the two roots are rounded toward zero once.
//! `sphere_hit_spec` mirrors the computation step by step, and
//! `lemma_root_on_sphere` states the geometric meaning of an exact root.

use crate::aabb::AABB;
use crate::fx::{isqrt, sqrt_floor, tdiv, SCALE, SCALE_SQ};
use crate::hittable::{hit_record_wf, HitRecord, Hittable};
use crate::interval::Interval;
use crate::material::{material_wf, Material};
use crate::ray::{at_spec, Ray};
use crate::vec3::{
    add3, dot3, neg3, norm_sq3, scale3, sub3, within3, Vec3, DIR_MAX, HIT_MAX, POS_MAX,
};
use vstd::prelude::*;

verus! {

/// A sphere whose center travels along a ray over one time unit; a zero
/// direction keeps it stationary.
pub struct Sphere {
    pub center: Ray,
    pub radius: i64,
    pub mat: Material,
}

/// Bounds every sphere of this crate meets: the center starts at a world
/// position, moves by at most a world position per time unit, the radius is
/// positive and bounded, and the material is well formed.
pub open spec fn sphere_wf(s: Sphere) -> bool {
    &&& within3(s.center.origin@, POS_MAX as int)
    &&& within3(s.center.direction@, POS_MAX as int)
    &&& 1 <= s.radius <= POS_MAX
    &&& material_wf(s.mat)
}

/// The model of a raw intersection, before the normal is oriented.
pub struct SphereHit {
    pub t: int,
    pub p: (int, int, int),
    pub outward: (int, int, int),
}

/// The record fields `hit` must fill for a model intersection `sh`.
pub open spec fn matches_hit(s: Sphere, r: Ray, sh: SphereHit, rec: HitRecord) -> bool {
    &&& rec.t as int == sh.t
    &&& rec.p@ == sh.p
    &&& rec.mat == s.mat
    &&& rec.front_face == (dot3(r.direction@, sh.outward) < 0)
    &&& rec.normal@ == if dot3(r.direction@, sh.outward) < 0 {
        sh.outward
    } else {
        neg3(sh.outward)
    }
}

/// The point and outward normal at an accepted root. The guards are dead
/// branches for real geometry, kept so every record is well formed: the
/// acceptance cube `HIT_MAX` is four times the world cube, beyond anywhere a
/// well-formed sphere can be touched, and a true outward normal always has
/// near-unit length.
pub open spec fn sphere_hit_at(s: Sphere, r: Ray, cc: (int, int, int), root: int) -> Option<
    SphereHit,
> {
    let p = add3(r.origin@, scale3(root, r.direction@));
    let n = (
        tdiv((p.0 - cc.0) * (SCALE as int), s.radius as int),
        tdiv((p.1 - cc.1) * (SCALE as int), s.radius as int),
        tdiv((p.2 - cc.2) * (SCALE as int), s.radius as int),
    );
    if !within3(p, HIT_MAX as int) {
        None
    } else if !within3(n, 2 * SCALE) || !((SCALE_SQ as int) / 4 <= norm_sq3(n) <= 4 * (
    SCALE_SQ as int)) {
        None
    } else {
        Some(SphereHit { t: root, p, outward: n })
    }
}

/// What `hit` reports: the quadratic's nearer root if it lies strictly
/// inside `(tmin, tmax)`, else the farther one, else nothing. A ray with a
/// zero direction, or a negative discriminant, misses.
pub open spec fn sphere_hit_spec(s: Sphere, r: Ray, tmin: int, tmax: int) -> Option<SphereHit> {
    let cc = at_spec(s.center, r.time as int);
    let oc = sub3(cc, r.origin@);
    let a = norm_sq3(r.direction@);
    let h = dot3(r.direction@, oc);
    let cv = norm_sq3(oc) - (s.radius as int) * (s.radius as int);
    let disc = h * h - a * cv;
    if a == 0 || disc < 0 {
        None
    } else {
        let sq = sqrt_floor(disc as nat) as int;
        let r1 = tdiv((h - sq) * (SCALE as int), a);
        let r2 = tdiv((h + sq) * (SCALE as int), a);
        if tmin < r1 && r1 < tmax {
            sphere_hit_at(s, r, cc, r1)
        } else if tmin < r2 && r2 < tmax {
            sphere_hit_at(s, r, cc, r2)
        } else {
            None
        }
    }
}

impl Sphere {
    /// Builds a sphere from a center ray, radius and material.
    pub fn new(center: Ray, radius: i64, mat: Material) -> (s: Sphere)
        ensures
            s.center == center,
            s.radius == radius,
            s.mat == mat,
    {
        Sphere { center, radius, mat }
    }

    /// The nearest intersection strictly inside `ray_t`, with the normal
    /// oriented against the incoming ray.
    #[verifier::rlimit(60)]
    pub fn hit(&self, r: &Ray, ray_t: Interval) -> (res: Option<HitRecord>)
        requires
            sphere_wf(*self),
            crate::ray::ray_wf(*r),
        ensures
            match sphere_hit_spec(*self, *r, ray_t.min as int, ray_t.max as int) {
                Some(sh) => res matches Some(rec) && matches_hit(*self, *r, sh, rec)
                    && hit_record_wf(rec) && ray_t.min < rec.t < ray_t.max,
                None => res is None,
            },
    {
        proof {
            crate::fx::lemma_fx_mul_keeps_bound(
                r.time as int,
                self.center.direction@.0,
                POS_MAX as int,
            );
            crate::fx::lemma_fx_mul_keeps_bound(
                r.time as int,
                self.center.direction@.1,
                POS_MAX as int,
            );
            crate::fx::lemma_fx_mul_keeps_bound(
                r.time as int,
                self.center.direction@.2,
                POS_MAX as int,
            );
        }
        let current_center: Vec3 = self.center.at(r.time);
        let oc: Vec3 = current_center.sub(&r.origin);
        let a: i128 = r.direction.length_sq_raw();
        if a == 0 {
            return None;
        }
        proof {
            crate::vec3::lemma_dot_bound(r.direction@, oc@, DIR_MAX as int, 0x30000000);
            crate::vec3::lemma_dot_bound(oc@, oc@, 0x30000000, 0x30000000);
            crate::vec3::lemma_dot_bound(
                r.direction@,
                r.direction@,
                DIR_MAX as int,
                DIR_MAX as int,
            );
            crate::vec3::lemma_mul_bound(
                self.radius as int,
                self.radius as int,
                POS_MAX as int,
                POS_MAX as int,
            );
        }
        let h: i128 = r.direction.dot_raw(&oc);
        let cv: i128 = oc.dot_raw(&oc) - (self.radius as i128) * (self.radius as i128);
        proof {
            crate::vec3::lemma_mul_bound(h as int, h as int, 0x1200000000000000, 0x1200000000000000);
            crate::vec3::lemma_mul_bound(a as int, cv as int, 0xC00000000000000, 0x1C00000000000000);
        }
        let disc: i128 = h * h - a * cv;
        if disc < 0 {
            return None;
        }
        let sq128: i128 = isqrt(disc as u128) as i128;
        proof {
            assert(sq128 as int <= 0x2000000000000000) by (nonlinear_arith)
                requires
                    (sq128 as int) * (sq128 as int) <= disc as int,
                    0 <= disc as int <= 0x4000000000000000000000000000000,
                    sq128 >= 0,
            ;
            crate::vec3::lemma_mul_bound(
                (h as int) - (sq128 as int),
                SCALE as int,
                0x3200000000000000,
                0x10000,
            );
            crate::vec3::lemma_mul_bound(
                (h as int) + (sq128 as int),
                SCALE as int,
                0x3200000000000000,
                0x10000,
            );
            crate::fx::lemma_tdiv_abs_le(((h as int) - (sq128 as int)) * (SCALE as int), a as int);
            crate::fx::lemma_tdiv_abs_le(((h as int) + (sq128 as int)) * (SCALE as int), a as int);
        }
        let root1: i128 = ((h - sq128) * (SCALE as i128)) / a;
        let root2: i128 = ((h + sq128) * (SCALE as i128)) / a;
        let tmin: i128 = ray_t.min as i128;
        let tmax: i128 = ray_t.max as i128;
        let root: i128 = if tmin < root1 && root1 < tmax {
            root1
        } else if tmin < root2 && root2 < tmax {
            root2
        } else {
            return None;
        };
        let t: i64 = root as i64;
        proof {
            let b = 0x8000_0000_0000_0000int;
            crate::vec3::lemma_mul_bound(t as int, r.direction@.0, b, b);
            crate::vec3::lemma_mul_bound(t as int, r.direction@.1, b, b);
            crate::vec3::lemma_mul_bound(t as int, r.direction@.2, b, b);
            crate::fx::lemma_tdiv_abs_le((t as int) * r.direction@.0, SCALE as int);
            crate::fx::lemma_tdiv_abs_le((t as int) * r.direction@.1, SCALE as int);
            crate::fx::lemma_tdiv_abs_le((t as int) * r.direction@.2, SCALE as int);
        }
        let px: i128 = (r.origin.x as i128) + ((t as i128) * (r.direction.x as i128)) / (
        SCALE as i128);
        let py: i128 = (r.origin.y as i128) + ((t as i128) * (r.direction.y as i128)) / (
        SCALE as i128);
        let pz: i128 = (r.origin.z as i128) + ((t as i128) * (r.direction.z as i128)) / (
        SCALE as i128);
        if !(-(HIT_MAX as i128) <= px && px <= HIT_MAX as i128 && -(HIT_MAX as i128) <= py && py
            <= HIT_MAX as i128 && -(HIT_MAX as i128) <= pz && pz <= HIT_MAX as i128) {
            return None;
        }
        let p = Vec3 { x: px as i64, y: py as i64, z: pz as i64 };
        proof {
            crate::vec3::lemma_mul_bound(p@.0 - current_center@.0, SCALE as int, 0x30000000, 0x10000);
            crate::vec3::lemma_mul_bound(p@.1 - current_center@.1, SCALE as int, 0x30000000, 0x10000);
            crate::vec3::lemma_mul_bound(p@.2 - current_center@.2, SCALE as int, 0x30000000, 0x10000);
            crate::fx::lemma_tdiv_abs_le((p@.0 - current_center@.0) * (SCALE as int), self.radius as int);
            crate::fx::lemma_tdiv_abs_le((p@.1 - current_center@.1) * (SCALE as int), self.radius as int);
            crate::fx::lemma_tdiv_abs_le((p@.2 - current_center@.2) * (SCALE as int), self.radius as int);
        }
        let nx: i128 = (((p.x as i128) - (current_center.x as i128)) * (SCALE as i128)) / (
        self.radius as i128);
        let ny: i128 = (((p.y as i128) - (current_center.y as i128)) * (SCALE as i128)) / (
        self.radius as i128);
        let nz: i128 = (((p.z as i128) - (current_center.z as i128)) * (SCALE as i128)) / (
        self.radius as i128);
        let two_s: i128 = 2 * (SCALE as i128);
        if !(-two_s <= nx && nx <= two_s && -two_s <= ny && ny <= two_s && -two_s <= nz && nz
            <= two_s) {
            return None;
        }
        let outward_normal = Vec3 { x: nx as i64, y: ny as i64, z: nz as i64 };
        let n_sq: i128 = outward_normal.length_sq_raw();
        if !((SCALE_SQ as i128) / 4 <= n_sq && n_sq <= 4 * (SCALE_SQ as i128)) {
            return None;
        }
        proof {
            crate::vec3::lemma_norm_sq_nonneg(outward_normal@);
            crate::vec3::lemma_norm_sq_nonneg(
                if dot3(r.direction@, outward_normal@) < 0 {
                    outward_normal@
                } else {
                    neg3(outward_normal@)
                },
            );
            assert(norm_sq3(neg3(outward_normal@)) == norm_sq3(outward_normal@))
                by (nonlinear_arith);
        }
        let mut rec = HitRecord {
            p,
            t,
            normal: Vec3::zero(),
            front_face: false,
            mat: self.mat,
        };
        rec.set_face_normal(r, outward_normal);
        Some(rec)
    }

    /// The box enclosing the sphere at the start and the end of its motion.
    pub fn bounds(&self) -> (b: AABB)
        requires
            sphere_wf(*self),
        ensures
            b.x.min as int == imin(self.center.origin@.0, self.center.origin@.0 + self.center.direction@.0) - self.radius,
            b.x.max as int == imax(self.center.origin@.0, self.center.origin@.0 + self.center.direction@.0) + self.radius,
            b.y.min as int == imin(self.center.origin@.1, self.center.origin@.1 + self.center.direction@.1) - self.radius,
            b.y.max as int == imax(self.center.origin@.1, self.center.origin@.1 + self.center.direction@.1) + self.radius,
            b.z.min as int == imin(self.center.origin@.2, self.center.origin@.2 + self.center.direction@.2) - self.radius,
            b.z.max as int == imax(self.center.origin@.2, self.center.origin@.2 + self.center.direction@.2) + self.radius,
    {
        let rvec = Vec3 { x: self.radius, y: self.radius, z: self.radius };
        let c0 = self.center.origin;
        let c1 = c0.add(&self.center.direction);
        let box0 = AABB::from_points(c0.sub(&rvec), c0.add(&rvec));
        let box1 = AABB::from_points(c1.sub(&rvec), c1.add(&rvec));
        AABB::from_boxes(&box0, &box1)
    }
}

/// The smaller of two model scalars.
pub open spec fn imin(a: int, b: int) -> int {
    if a <= b {
        a
    } else {
        b
    }
}

/// The larger of two model scalars.
pub open spec fn imax(a: int, b: int) -> int {
    if a <= b {
        b
    } else {
        a
    }
}

impl Hittable for Sphere {
    /// The verified intersection, behind a runtime guard standing in for its
    /// bounds, since the trait promises nothing of its arguments.
    fn hit(&self, ray: &Ray, ray_t: Interval) -> Option<HitRecord> {
        if within_pos(&self.center.origin) && within_pos(&self.center.direction) && 1 <= self.radius
            && self.radius <= POS_MAX && material_in_bounds(&self.mat) && within_hit(&ray.origin)
            && within_dir3(&ray.direction) && 0 <= ray.time && ray.time <= SCALE {
            self.hit(ray, ray_t)
        } else {
            None
        }
    }

    fn bounding_box(&self) -> Option<AABB> {
        if within_pos(&self.center.origin) && within_pos(&self.center.direction) && 1 <= self.radius
            && self.radius <= POS_MAX && material_in_bounds(&self.mat) {
            Some(self.bounds())
        } else {
            None
        }
    }
}

/// Whether all components are bounded by `POS_MAX`.
fn within_pos(v: &Vec3) -> (r: bool)
    ensures
        r == within3(v@, POS_MAX as int),
{
    -POS_MAX <= v.x && v.x <= POS_MAX && -POS_MAX <= v.y && v.y <= POS_MAX && -POS_MAX <= v.z
        && v.z <= POS_MAX
}

/// Whether all components are bounded by `HIT_MAX`.
fn within_hit(v: &Vec3) -> (r: bool)
    ensures
        r == within3(v@, HIT_MAX as int),
{
    -HIT_MAX <= v.x && v.x <= HIT_MAX && -HIT_MAX <= v.y && v.y <= HIT_MAX && -HIT_MAX <= v.z
        && v.z <= HIT_MAX
}

/// Whether all components are bounded by `DIR_MAX`.
fn within_dir3(v: &Vec3) -> (r: bool)
    ensures
        r == within3(v@, DIR_MAX as int),
{
    -DIR_MAX <= v.x && v.x <= DIR_MAX && -DIR_MAX <= v.y && v.y <= DIR_MAX && -DIR_MAX <= v.z
        && v.z <= DIR_MAX
}

/// Whether a material meets its bounds.
pub fn material_in_bounds(m: &Material) -> (r: bool)
    ensures
        r == material_wf(*m),
{
    match m {
        Material::Default => true,
        Material::Lambertian { albedo } => 0 <= albedo.x && albedo.x <= SCALE && 0 <= albedo.y
            && albedo.y <= SCALE && 0 <= albedo.z && albedo.z <= SCALE,
        Material::Metal { albedo, fuzz } => 0 <= albedo.x && albedo.x <= SCALE && 0 <= albedo.y
            && albedo.y <= SCALE && 0 <= albedo.z && albedo.z <= SCALE && *fuzz >= 0,
        Material::Dielectric { refraction_index } => crate::material::ETA_MIN <= *refraction_index
            && *refraction_index <= crate::material::ETA_MAX,
    }
}

/// Narrowing the far end of the search interval to `c` keeps exactly the
/// hits nearer than `c`: the scene loop relies on this to find the globally
/// nearest hit while testing each sphere against a shrunken interval.
pub proof fn lemma_sphere_hit_narrow(s: Sphere, r: Ray, m: int, c: int, M: int)
    requires
        c <= M,
    ensures
        sphere_hit_spec(s, r, m, c) == (match sphere_hit_spec(s, r, m, M) {
            Some(sh) => if sh.t < c {
                sphere_hit_spec(s, r, m, M)
            } else {
                None::<SphereHit>
            },
            None => None::<SphereHit>,
        }),
{
    let cc = at_spec(s.center, r.time as int);
    let oc = sub3(cc, r.origin@);
    let a = norm_sq3(r.direction@);
    let h = dot3(r.direction@, oc);
    let cv = norm_sq3(oc) - (s.radius as int) * (s.radius as int);
    let disc = h * h - a * cv;
    if !(a == 0 || disc < 0) {
        let sq = sqrt_floor(disc as nat) as int;
        crate::vec3::lemma_norm_sq_nonneg(r.direction@);
        crate::fx::lemma_tdiv_monotone((h - sq) * (SCALE as int), (h + sq) * (SCALE as int), a);
        let r1 = tdiv((h - sq) * (SCALE as int), a);
        let r2 = tdiv((h + sq) * (SCALE as int), a);
        assert(r1 <= r2);
    }
}

/// An exact root of the sphere's quadratic places the ray's point at squared
/// distance `radius^2` from the center: here `d` is the ray direction, `oc`
/// the vector from origin to center, `t` the fixed-point parameter, and `rr`
/// the squared radius, everything in raw units scaled by `SCALE`.
pub proof fn lemma_root_on_sphere(d: (int, int, int), oc: (int, int, int), t: int, rr: int)
    requires
        norm_sq3(d) * (t * t) - 2 * dot3(d, oc) * t * (SCALE as int) + (norm_sq3(oc) - rr) * (
        SCALE_SQ as int) == 0,
    ensures
        norm_sq3(
            (
                t * d.0 - (SCALE as int) * oc.0,
                t * d.1 - (SCALE as int) * oc.1,
                t * d.2 - (SCALE as int) * oc.2,
            ),
        ) == rr * (SCALE_SQ as int),
{
    let s = SCALE as int;
    let a = norm_sq3(d);
    let h = dot3(d, oc);
    let coc = norm_sq3(oc);
    let ssq = SCALE_SQ as int;
    assert(ssq == 0x1_0000_0000);
    assert(0x1_0000_0000int == s * s) by (nonlinear_arith)
        requires
            s == 65536,
    ;
    lemma_sq_expand(d.0, oc.0, t, s);
    lemma_sq_expand(d.1, oc.1, t, s);
    lemma_sq_expand(d.2, oc.2, t, s);
    assert(a * (t * t) == (d.0 * d.0) * (t * t) + (d.1 * d.1) * (t * t) + (d.2 * d.2) * (t * t))
        by (nonlinear_arith)
        requires
            a == d.0 * d.0 + d.1 * d.1 + d.2 * d.2,
    ;
    assert(2 * h * t * s == 2 * ((d.0 * oc.0) * (t * s)) + 2 * ((d.1 * oc.1) * (t * s)) + 2 * ((
    d.2 * oc.2) * (t * s))) by (nonlinear_arith)
        requires
            h == d.0 * oc.0 + d.1 * oc.1 + d.2 * oc.2,
    ;
    assert(coc * (s * s) == (oc.0 * oc.0) * (s * s) + (oc.1 * oc.1) * (s * s) + (oc.2 * oc.2) * (s
        * s)) by (nonlinear_arith)
        requires
            coc == oc.0 * oc.0 + oc.1 * oc.1 + oc.2 * oc.2,
    ;
    assert((coc - rr) * ssq == coc * ssq - rr * ssq) by (nonlinear_arith);
    assert(coc * ssq == coc * (s * s) && rr * ssq == rr * (s * s)) by (nonlinear_arith)
        requires
            ssq == s * s,
    ;
}

/// Expansion of one squared component of `t d - s oc`.
proof fn lemma_sq_expand(x: int, y: int, t: int, s: int)
    ensures
        (t * x - s * y) * (t * x - s * y) == (x * x) * (t * t) - 2 * ((x * y) * (t * s)) + (y * y)
            * (s * s),
{
    let u = t * x;
    let v = s * y;
    assert((u - v) * (u - v) == u * u - 2 * (u * v) + v * v) by (nonlinear_arith);
    assert(u * u == (x * x) * (t * t)) by (nonlinear_arith)
        requires
            u == t * x,
    ;
    assert(u * v == (x * y) * (t * s)) by (nonlinear_arith)
        requires
            u == t * x && v == s * y,
    ;
    assert(v * v == (y * y) * (s * s)) by (nonlinear_arith)
        requires
            v == s * y,
    ;
}

} // verus!
