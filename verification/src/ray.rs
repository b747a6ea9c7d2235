//! Rays: a parametrized line with an optional time for moving geometry.

use crate::fx::{fx_mul, SCALE};
use crate::vec3::{add3, scale3, within3, Vec3, DIR_MAX, HIT_MAX};
use vstd::prelude::*;

verus! {

/// A half-line `origin + direction * t`, carrying the scene time at which it
/// was cast. The direction is not required to have unit length.
#[derive(Clone, Copy, PartialEq, Eq, Structural, Debug)]
pub struct Ray {
    pub origin: Vec3,
    pub direction: Vec3,
    pub time: i64,
}

/// The point a ray reaches at parameter `t`, over the model.
pub open spec fn at_spec(r: Ray, t: int) -> (int, int, int) {
    add3(r.origin@, scale3(t, r.direction@))
}

/// Bounds under which every ray operation in the crate stays exact: the
/// origin lies in the hit-point range (which encloses the world cube), the
/// direction is bounded, and the time lies in `[0, 1]`.
pub open spec fn ray_wf(r: Ray) -> bool {
    &&& within3(r.origin@, HIT_MAX as int)
    &&& within3(r.direction@, DIR_MAX as int)
    &&& 0 <= r.time <= SCALE
}

impl Ray {
    /// A degenerate ray standing still at `origin`, at time zero.
    pub fn new(origin: Vec3) -> (r: Ray)
        ensures
            r.origin == origin,
            r.direction@ == (0int, 0int, 0int),
            r.time == 0,
    {
        Ray { origin, direction: Vec3::zero(), time: 0 }
    }

    /// A ray cast at time zero.
    pub fn with_direction(origin: Vec3, direction: Vec3) -> (r: Ray)
        ensures
            r.origin == origin,
            r.direction == direction,
            r.time == 0,
    {
        Ray { origin, direction, time: 0 }
    }

    /// A ray cast at the given time.
    pub fn with_time(origin: Vec3, direction: Vec3, time: i64) -> (r: Ray)
        ensures
            r.origin == origin,
            r.direction == direction,
            r.time == time,
    {
        Ray { origin, direction, time }
    }

    /// The point reached at parameter `t`.
    pub fn at(&self, t: i64) -> (p: Vec3)
        requires
            i64::MIN <= self.origin@.0 + fx_mul(t as int, self.direction@.0) <= i64::MAX,
            i64::MIN <= self.origin@.1 + fx_mul(t as int, self.direction@.1) <= i64::MAX,
            i64::MIN <= self.origin@.2 + fx_mul(t as int, self.direction@.2) <= i64::MAX,
        ensures
            p@ == at_spec(*self, t as int),
    {
        proof {
            let b = 0x8000_0000_0000_0000int;
            crate::vec3::lemma_mul_bound(t as int, self.direction@.0, b, b);
            crate::vec3::lemma_mul_bound(t as int, self.direction@.1, b, b);
            crate::vec3::lemma_mul_bound(t as int, self.direction@.2, b, b);
            crate::fx::lemma_tdiv_abs_le((t as int) * self.direction@.0, SCALE as int);
            crate::fx::lemma_tdiv_abs_le((t as int) * self.direction@.1, SCALE as int);
            crate::fx::lemma_tdiv_abs_le((t as int) * self.direction@.2, SCALE as int);
        }
        Vec3 {
            x: ((self.origin.x as i128) + ((t as i128) * (self.direction.x as i128)) / (
            SCALE as i128)) as i64,
            y: ((self.origin.y as i128) + ((t as i128) * (self.direction.y as i128)) / (
            SCALE as i128)) as i64,
            z: ((self.origin.z as i128) + ((t as i128) * (self.direction.z as i128)) / (
            SCALE as i128)) as i64,
        }
    }
}

} // verus!
