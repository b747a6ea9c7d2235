//! Axis-aligned bounding boxes and their slab test.
//!
//! The slab test is exact: it reports whether some fixed-point parameter
//! strictly inside the search interval puts the ray inside the box on all
//! three axes. Entry bounds round up and exit bounds round down, so no
//! candidate parameter is ever lost, also when a direction component is zero.

use crate::fx::{div_ceil_i128, div_floor_i128, lemma_ge_ceil_iff, lemma_le_floor_iff, SCALE};
use crate::interval::Interval;
use crate::ray::Ray;
use crate::vec3::Vec3;
use vstd::prelude::*;

verus! {

/// A box given by one interval per axis; empty by default.
#[derive(Clone, Copy, PartialEq, Eq, Structural, Debug)]
pub struct AABB {
    pub x: Interval,
    pub y: Interval,
    pub z: Interval,
}

/// At parameter `t`, the ray's position on one axis lies inside `[mn, mx]`.
/// Scaling by `SCALE` keeps the comparison exact: the position on the axis is
/// `o + t * d / SCALE`.
pub open spec fn axis_ok(mn: int, mx: int, o: int, d: int, t: int) -> bool {
    mn * (SCALE as int) <= o * (SCALE as int) + t * d <= mx * (SCALE as int)
}

/// At parameter `t`, the ray is inside the box on all three axes.
pub open spec fn ray_in_box_at(b: AABB, r: Ray, t: int) -> bool {
    &&& axis_ok(b.x.min as int, b.x.max as int, r.origin@.0, r.direction@.0, t)
    &&& axis_ok(b.y.min as int, b.y.max as int, r.origin@.1, r.direction@.1, t)
    &&& axis_ok(b.z.min as int, b.z.max as int, r.origin@.2, r.direction@.2, t)
}

/// Some parameter strictly inside the search interval puts the ray in the box.
pub open spec fn aabb_hit_spec(b: AABB, r: Ray, ray_t: Interval) -> bool {
    exists|t: int|
        (ray_t.min as int) < t < (ray_t.max as int) && #[trigger] ray_in_box_at(b, r, t)
}

/// Narrows candidate parameters `[lo, hi]` by one axis: the result holds
/// exactly the candidates that also keep the axis inside `[mn, mx]`.
fn narrow_axis(mn: i64, mx: i64, o: i64, d: i64, lo: i128, hi: i128) -> (res: (i128, i128))
    requires
        -0x10000000000000000000000000 <= lo <= 0x10000000000000000000000000,
        -0x10000000000000000000000000 <= hi <= 0x10000000000000000000000000,
    ensures
        -0x10000000000000000000000000 <= res.0 <= 0x10000000000000000000000000,
        -0x10000000000000000000000000 <= res.1 <= 0x10000000000000000000000000,
        forall|t: int|
            (res.0 <= t <= res.1) <==> (lo <= t <= hi && #[trigger] axis_ok(
                mn as int,
                mx as int,
                o as int,
                d as int,
                t,
            )),
{
    if d == 0 {
        if mn <= o && o <= mx {
            (lo, hi)
        } else {
            (1, 0)
        }
    } else if d > 0 {
        proof {
            crate::vec3::lemma_mul_bound(
                (mn as int) - (o as int),
                SCALE as int,
                0x10000000000000000,
                0x10000,
            );
            crate::vec3::lemma_mul_bound(
                (mx as int) - (o as int),
                SCALE as int,
                0x10000000000000000,
                0x10000,
            );
        }
        let a1: i128 = ((mn as i128) - (o as i128)) * (SCALE as i128);
        let a2: i128 = ((mx as i128) - (o as i128)) * (SCALE as i128);
        let l2: i128 = div_ceil_i128(a1, d as i128);
        let h2: i128 = div_floor_i128(a2, d as i128);
        let nlo: i128 = if l2 > lo {
            l2
        } else {
            lo
        };
        let nhi: i128 = if h2 < hi {
            h2
        } else {
            hi
        };
        proof {
            crate::fx::lemma_floor_div_range(-(a1 as int), d as int);
            crate::fx::lemma_floor_div_range(a2 as int, d as int);
            assert forall|t: int|
                (nlo <= t <= nhi) <==> (lo <= t <= hi && #[trigger] axis_ok(
                    mn as int,
                    mx as int,
                    o as int,
                    d as int,
                    t,
                )) by {
                lemma_ge_ceil_iff(t, a1 as int, d as int);
                lemma_le_floor_iff(t, a2 as int, d as int);
            }
        }
        (nlo, nhi)
    } else {
        proof {
            crate::vec3::lemma_mul_bound(
                (o as int) - (mx as int),
                SCALE as int,
                0x10000000000000000,
                0x10000,
            );
            crate::vec3::lemma_mul_bound(
                (o as int) - (mn as int),
                SCALE as int,
                0x10000000000000000,
                0x10000,
            );
        }
        let nd: i128 = -(d as i128);
        let a1: i128 = ((o as i128) - (mx as i128)) * (SCALE as i128);
        let a2: i128 = ((o as i128) - (mn as i128)) * (SCALE as i128);
        let l2: i128 = div_ceil_i128(a1, nd);
        let h2: i128 = div_floor_i128(a2, nd);
        let nlo: i128 = if l2 > lo {
            l2
        } else {
            lo
        };
        let nhi: i128 = if h2 < hi {
            h2
        } else {
            hi
        };
        proof {
            crate::fx::lemma_floor_div_range(-(a1 as int), nd as int);
            crate::fx::lemma_floor_div_range(a2 as int, nd as int);
            assert forall|t: int|
                (nlo <= t <= nhi) <==> (lo <= t <= hi && #[trigger] axis_ok(
                    mn as int,
                    mx as int,
                    o as int,
                    d as int,
                    t,
                )) by {
                lemma_ge_ceil_iff(t, a1 as int, nd as int);
                lemma_le_floor_iff(t, a2 as int, nd as int);
                assert(t * (nd as int) == -(t * (d as int))) by (nonlinear_arith)
                    requires
                        nd as int == -(d as int),
                ;
            }
        }
        (nlo, nhi)
    }
}

impl AABB {
    /// The empty box: no ray parameter ever lies inside it.
    pub fn new() -> (r: AABB)
        ensures
            r.x == crate::interval::empty_interval(),
            r.y == crate::interval::empty_interval(),
            r.z == crate::interval::empty_interval(),
    {
        AABB { x: Interval::empty(), y: Interval::empty(), z: Interval::empty() }
    }

    /// The box with the given axis intervals.
    pub fn from_intervals(x: Interval, y: Interval, z: Interval) -> (r: AABB)
        ensures
            r.x == x,
            r.y == y,
            r.z == z,
    {
        AABB { x, y, z }
    }

    /// The box spanned by two corner points, in either coordinate order.
    pub fn from_points(a: Vec3, b: Vec3) -> (r: AABB)
        ensures
            r.x.min == if a@.0 <= b@.0 {
                a@.0
            } else {
                b@.0
            },
            r.x.max == if a@.0 <= b@.0 {
                b@.0
            } else {
                a@.0
            },
            r.y.min == if a@.1 <= b@.1 {
                a@.1
            } else {
                b@.1
            },
            r.y.max == if a@.1 <= b@.1 {
                b@.1
            } else {
                a@.1
            },
            r.z.min == if a@.2 <= b@.2 {
                a@.2
            } else {
                b@.2
            },
            r.z.max == if a@.2 <= b@.2 {
                b@.2
            } else {
                a@.2
            },
    {
        AABB {
            x: Interval {
                min: if a.x <= b.x {
                    a.x
                } else {
                    b.x
                },
                max: if a.x <= b.x {
                    b.x
                } else {
                    a.x
                },
            },
            y: Interval {
                min: if a.y <= b.y {
                    a.y
                } else {
                    b.y
                },
                max: if a.y <= b.y {
                    b.y
                } else {
                    a.y
                },
            },
            z: Interval {
                min: if a.z <= b.z {
                    a.z
                } else {
                    b.z
                },
                max: if a.z <= b.z {
                    b.z
                } else {
                    a.z
                },
            },
        }
    }

    /// The union of two boxes: the per-axis union of their intervals.
    pub fn from_boxes(box0: &AABB, box1: &AABB) -> (r: AABB)
        ensures
            r.x.min == if box0.x.min <= box1.x.min {
                box0.x.min
            } else {
                box1.x.min
            },
            r.x.max == if box0.x.max >= box1.x.max {
                box0.x.max
            } else {
                box1.x.max
            },
            r.y.min == if box0.y.min <= box1.y.min {
                box0.y.min
            } else {
                box1.y.min
            },
            r.y.max == if box0.y.max >= box1.y.max {
                box0.y.max
            } else {
                box1.y.max
            },
            r.z.min == if box0.z.min <= box1.z.min {
                box0.z.min
            } else {
                box1.z.min
            },
            r.z.max == if box0.z.max >= box1.z.max {
                box0.z.max
            } else {
                box1.z.max
            },
    {
        AABB {
            x: Interval::from_intervals(box0.x, box1.x),
            y: Interval::from_intervals(box0.y, box1.y),
            z: Interval::from_intervals(box0.z, box1.z),
        }
    }

    /// The interval of the given axis: 0 is x, 1 is y, anything else z.
    pub fn axis_interval(&self, axis: i32) -> (r: Interval)
        ensures
            r == if axis == 0 {
                self.x
            } else if axis == 1 {
                self.y
            } else {
                self.z
            },
    {
        match axis {
            0 => self.x,
            1 => self.y,
            _ => self.z,
        }
    }

    /// The slab test: whether some parameter strictly inside `ray_t` puts the
    /// ray inside the box on all three axes. A zero direction component
    /// constrains nothing when the origin lies inside that axis's slab and
    /// rejects otherwise, with no division by zero.
    pub fn hit(&self, r: Ray, ray_t: Interval) -> (res: bool)
        ensures
            res == aabb_hit_spec(*self, r, ray_t),
    {
        let lo0: i128 = (ray_t.min as i128) + 1;
        let hi0: i128 = (ray_t.max as i128) - 1;
        let b0 = narrow_axis(self.x.min, self.x.max, r.origin.x, r.direction.x, lo0, hi0);
        let b1 = narrow_axis(self.y.min, self.y.max, r.origin.y, r.direction.y, b0.0, b0.1);
        let b2 = narrow_axis(self.z.min, self.z.max, r.origin.z, r.direction.z, b1.0, b1.1);
        let res = b2.0 <= b2.1;
        proof {
            if res {
                let t = b2.0 as int;
                assert(axis_ok(
                    self.z.min as int,
                    self.z.max as int,
                    r.origin@.2,
                    r.direction@.2,
                    t,
                ));
                assert(b1.0 <= t <= b1.1);
                assert(axis_ok(
                    self.y.min as int,
                    self.y.max as int,
                    r.origin@.1,
                    r.direction@.1,
                    t,
                ));
                assert(b0.0 <= t <= b0.1);
                assert(axis_ok(
                    self.x.min as int,
                    self.x.max as int,
                    r.origin@.0,
                    r.direction@.0,
                    t,
                ));
                assert((ray_t.min as int) < t < (ray_t.max as int) && ray_in_box_at(*self, r, t));
            } else {
                assert forall|t: int|
                    !((ray_t.min as int) < t < (ray_t.max as int) && #[trigger] ray_in_box_at(
                        *self,
                        r,
                        t,
                    )) by {
                    if (ray_t.min as int) < t < (ray_t.max as int) && ray_in_box_at(*self, r, t) {
                        assert(b0.0 <= t <= b0.1);
                        assert(b1.0 <= t <= b1.1);
                        assert(b2.0 <= t <= b2.1);
                    }
                }
            }
        }
        res
    }
}

/// The slab test has no false negatives: a ray that some parameter strictly
/// inside the search interval places inside the box on every axis is
/// accepted, also when direction components are zero.
pub proof fn lemma_aabb_no_false_negative(b: AABB, r: Ray, ray_t: Interval, t: int)
    requires
        (ray_t.min as int) < t < (ray_t.max as int),
        ray_in_box_at(b, r, t),
    ensures
        aabb_hit_spec(b, r, ray_t),
{
}

impl Default for AABB {
    /// The default box is empty, since intervals are empty by default.
    fn default() -> (r: AABB)
        ensures
            r.x == crate::interval::empty_interval(),
            r.y == crate::interval::empty_interval(),
            r.z == crate::interval::empty_interval(),
    {
        AABB::new()
    }
}

} // verus!
