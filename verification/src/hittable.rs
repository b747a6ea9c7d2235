//! Hit records, the surface interface, and the scene aggregate.

use crate::aabb::AABB;
use crate::fx::{SCALE, SCALE_SQ};
use crate::interval::Interval;
use crate::material::{material_wf, Material};
use crate::ray::{ray_wf, Ray};
use crate::sphere::{imax, imin, matches_hit, sphere_hit_spec, sphere_wf, Sphere, SphereHit};
use crate::vec3::{dot3, neg3, norm_sq3, within3, Vec3, DIR_MAX, HIT_MAX, POS_MAX};
use vstd::prelude::*;

verus! {

/// Everything known about an intersection: the hit point, the unit-length
/// normal opposing the incoming ray, the ray parameter, which face was
/// struck, and the surface material.
#[derive(Clone, Copy, Debug)]
pub struct HitRecord {
    pub p: Vec3,
    pub normal: Vec3,
    pub t: i64,
    pub front_face: bool,
    pub mat: Material,
}

/// Bounds every hit record of this crate meets: the point lies in the
/// hit-point range, the normal's length is within a factor of two of unit
/// length, and the material is well formed.
pub open spec fn hit_record_wf(rec: HitRecord) -> bool {
    &&& within3(rec.p@, HIT_MAX as int)
    &&& within3(rec.normal@, 2 * SCALE)
    &&& (SCALE_SQ as int) / 4 <= norm_sq3(rec.normal@) <= 4 * (SCALE_SQ as int)
    &&& material_wf(rec.mat)
}

impl HitRecord {
    /// Orients the stored normal: flips the supplied outward normal so that
    /// it opposes the incoming ray, and records whether the ray struck the
    /// front face. The sole place where orientation is decided.
    pub fn set_face_normal(&mut self, r: &Ray, outward_normal: Vec3)
        requires
            within3(outward_normal@, DIR_MAX as int),
            within3(r.direction@, DIR_MAX as int),
        ensures
            final (self).front_face == (dot3(r.direction@, outward_normal@) < 0),
            final (self).normal@ == if dot3(r.direction@, outward_normal@) < 0 {
                outward_normal@
            } else {
                neg3(outward_normal@)
            },
            final (self).p == old(self).p,
            final (self).t == old(self).t,
            final (self).mat == old(self).mat,
    {
        let d: i128 = r.direction.dot_raw(&outward_normal);
        self.front_face = d < 0;
        self.normal = if self.front_face {
            outward_normal
        } else {
            outward_normal.neg()
        };
    }
}

/// A surface that rays can strike: the capability set of every primitive.
pub trait Hittable {
    /// The nearest intersection within the search interval, if any.
    fn hit(&self, ray: &Ray, ray_t: Interval) -> Option<HitRecord>;

    /// A box enclosing the surface over its whole motion.
    fn bounding_box(&self) -> Option<AABB>;
}

/// An insertion-ordered collection of spheres with a running union of their
/// bounding boxes, grown on each insertion and never shrunk.
pub struct HittableList {
    pub objects: Vec<Sphere>,
    pub bbox: AABB,
}

/// Every held sphere meets its bounds.
pub open spec fn list_wf(l: HittableList) -> bool {
    forall|i: int| 0 <= i < l.objects@.len() ==> #[trigger] sphere_wf(l.objects@[i])
}

/// What sphere `i` alone would report for the full search interval.
pub open spec fn candidate(l: HittableList, r: Ray, ray_t: Interval, i: int) -> Option<SphereHit> {
    sphere_hit_spec(l.objects@[i], r, ray_t.min as int, ray_t.max as int)
}

impl Default for HittableList {
    /// The empty scene with an empty bounding box.
    fn default() -> (l: HittableList)
        ensures
            l.objects@ == Seq::<Sphere>::empty(),
            l.bbox.x == crate::interval::empty_interval(),
            l.bbox.y == crate::interval::empty_interval(),
            l.bbox.z == crate::interval::empty_interval(),
    {
        let l = HittableList { objects: Vec::new(), bbox: AABB::new() };
        proof {
            assert(l.objects@ =~= Seq::<Sphere>::empty());
        }
        l
    }
}

impl HittableList {
    /// Appends a primitive and folds its bounding box into the running
    /// union.
    pub fn add(&mut self, obj: Sphere)
        requires
            sphere_wf(obj),
            list_wf(*old(self)),
        ensures
            final (self).objects@ == old(self).objects@.push(obj),
            list_wf(*final (self)),
            final (self).bbox.x.min as int == imin(
                old(self).bbox.x.min as int,
                imin(obj.center.origin@.0, obj.center.origin@.0 + obj.center.direction@.0)
                    - obj.radius,
            ),
            final (self).bbox.x.max as int == imax(
                old(self).bbox.x.max as int,
                imax(obj.center.origin@.0, obj.center.origin@.0 + obj.center.direction@.0)
                    + obj.radius,
            ),
            final (self).bbox.y.min as int == imin(
                old(self).bbox.y.min as int,
                imin(obj.center.origin@.1, obj.center.origin@.1 + obj.center.direction@.1)
                    - obj.radius,
            ),
            final (self).bbox.y.max as int == imax(
                old(self).bbox.y.max as int,
                imax(obj.center.origin@.1, obj.center.origin@.1 + obj.center.direction@.1)
                    + obj.radius,
            ),
            final (self).bbox.z.min as int == imin(
                old(self).bbox.z.min as int,
                imin(obj.center.origin@.2, obj.center.origin@.2 + obj.center.direction@.2)
                    - obj.radius,
            ),
            final (self).bbox.z.max as int == imax(
                old(self).bbox.z.max as int,
                imax(obj.center.origin@.2, obj.center.origin@.2 + obj.center.direction@.2)
                    + obj.radius,
            ),
    {
        let b = obj.bounds();
        self.bbox = AABB::from_boxes(&self.bbox, &b);
        self.objects.push(obj);
    }

    /// The box enclosing everything added so far: the running union the
    /// insertions fold into, never recomputed and never shrunk.
    pub fn bounding_box(&self) -> (r: Option<AABB>)
        ensures
            r == Some(self.bbox),
    {
        Some(self.bbox)
    }

    /// Casts a ray into the scene and returns the globally nearest hit: no
    /// sphere whose own test accepts a parameter inside the interval is ever
    /// nearer than the returned record, and a miss means every sphere
    /// misses.
    pub fn hit(&self, r: &Ray, ray_t: Interval) -> (res: Option<HitRecord>)
        requires
            list_wf(*self),
            ray_wf(*r),
        ensures
            match res {
                Some(rec) => {
                    &&& hit_record_wf(rec)
                    &&& ray_t.min < rec.t < ray_t.max
                    &&& exists|i: int|
                        0 <= i < self.objects@.len() && (match #[trigger] candidate(
                            *self,
                            *r,
                            ray_t,
                            i,
                        ) {
                            Some(sh) => matches_hit(self.objects@[i], *r, sh, rec),
                            None => false,
                        })
                    &&& forall|j: int|
                        0 <= j < self.objects@.len() ==> (match #[trigger] candidate(
                            *self,
                            *r,
                            ray_t,
                            j,
                        ) {
                            Some(sh) => rec.t as int <= sh.t,
                            None => true,
                        })
                },
                None => forall|i: int|
                    0 <= i < self.objects@.len() ==> (#[trigger] candidate(*self, *r, ray_t, i))
                        is None,
            },
    {
        let mut closest_so_far: i64 = ray_t.max;
        let mut best: Option<HitRecord> = None;
        let n = self.objects.len();
        let mut k: usize = 0;
        while k < n
            invariant
                list_wf(*self),
                ray_wf(*r),
                n == self.objects@.len(),
                0 <= k <= n,
                closest_so_far <= ray_t.max,
                match best {
                    Some(rec) => {
                        &&& closest_so_far == rec.t
                        &&& hit_record_wf(rec)
                        &&& ray_t.min < rec.t < ray_t.max
                        &&& exists|i: int|
                            0 <= i < k && (match #[trigger] candidate(*self, *r, ray_t, i) {
                                Some(sh) => matches_hit(self.objects@[i], *r, sh, rec),
                                None => false,
                            })
                        &&& forall|j: int|
                            0 <= j < k ==> (match #[trigger] candidate(*self, *r, ray_t, j) {
                                Some(sh) => rec.t as int <= sh.t,
                                None => true,
                            })
                    },
                    None => closest_so_far == ray_t.max && forall|i: int|
                        0 <= i < k ==> (#[trigger] candidate(*self, *r, ray_t, i)) is None,
                },
            decreases n - k,
        {
            let obj = &self.objects[k];
            let found = obj.hit(r, Interval::new(ray_t.min, closest_so_far));
            proof {
                crate::sphere::lemma_sphere_hit_narrow(
                    self.objects@[k as int],
                    *r,
                    ray_t.min as int,
                    closest_so_far as int,
                    ray_t.max as int,
                );
            }
            match found {
                Some(temp_rec) => {
                    closest_so_far = temp_rec.t;
                    best = Some(temp_rec);
                    proof {
                        assert(match candidate(*self, *r, ray_t, k as int) {
                            Some(sh) => matches_hit(self.objects@[k as int], *r, sh, temp_rec),
                            None => false,
                        });
                    }
                },
                None => {
                    proof {
                        if best is None {
                            assert(candidate(*self, *r, ray_t, k as int) is None);
                        } else {
                            assert(match candidate(*self, *r, ray_t, k as int) {
                                Some(sh) => best->Some_0.t as int <= sh.t,
                                None => true,
                            });
                        }
                    }
                },
            }
            k = k + 1;
        }
        best
    }
}

impl Hittable for HittableList {
    /// The verified nearest-hit search, behind a runtime guard standing in
    /// for its bounds, since the trait promises nothing of its arguments.
    fn hit(&self, ray: &Ray, ray_t: Interval) -> Option<HitRecord> {
        let mut ok = -HIT_MAX <= ray.origin.x && ray.origin.x <= HIT_MAX && -HIT_MAX
            <= ray.origin.y && ray.origin.y <= HIT_MAX && -HIT_MAX <= ray.origin.z && ray.origin.z
            <= HIT_MAX;
        ok = ok && -DIR_MAX <= ray.direction.x && ray.direction.x <= DIR_MAX && -DIR_MAX
            <= ray.direction.y && ray.direction.y <= DIR_MAX && -DIR_MAX <= ray.direction.z
            && ray.direction.z <= DIR_MAX;
        ok = ok && 0 <= ray.time && ray.time <= SCALE;
        let n = self.objects.len();
        let mut k: usize = 0;
        while k < n
            invariant
                n == self.objects@.len(),
                0 <= k <= n,
                forall|i: int| 0 <= i < k ==> #[trigger] sphere_wf(self.objects@[i]),
            decreases n - k,
        {
            let s = &self.objects[k];
            let sok = -POS_MAX <= s.center.origin.x && s.center.origin.x <= POS_MAX && -POS_MAX
                <= s.center.origin.y && s.center.origin.y <= POS_MAX && -POS_MAX
                <= s.center.origin.z && s.center.origin.z <= POS_MAX && -POS_MAX
                <= s.center.direction.x && s.center.direction.x <= POS_MAX && -POS_MAX
                <= s.center.direction.y && s.center.direction.y <= POS_MAX && -POS_MAX
                <= s.center.direction.z && s.center.direction.z <= POS_MAX && 1 <= s.radius
                && s.radius <= POS_MAX && crate::sphere::material_in_bounds(&s.mat);
            if !sok {
                return None;
            }
            k = k + 1;
        }
        if ok {
            self.hit(ray, ray_t)
        } else {
            None
        }
    }

    fn bounding_box(&self) -> Option<AABB> {
        HittableList::bounding_box(self)
    }
}

} // verus!
