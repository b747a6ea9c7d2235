//! Random direction helpers built over the sampler, and small vector tests.

use crate::fx::{SCALE, SCALE_SQ};
use crate::sampler::Sampler;
use crate::vec3::{norm_sq3, unit3, within3, Vec3, DIR_MAX};
use vstd::prelude::*;

verus! {

/// How many times a rejection loop redraws before falling back to a fixed
/// axis; with a sound generator a fallback is never seen.
pub const MAX_REDRAWS: u32 = 64;

/// Draws a vector with components in `[min, max]` and scales it to unit
/// length, redrawing a zero vector; after `MAX_REDRAWS` zero draws it falls
/// back to the z axis. Every outcome is the normalization of some nonzero
/// in-range draw, or that fallback axis.
pub fn random_dvec3_range(s: &mut Sampler, min: i64, max: i64) -> (r: Vec3)
    requires
        -DIR_MAX <= min <= max <= DIR_MAX,
    ensures
        within3(r@, SCALE as int),
        r@ == (0int, 0int, SCALE as int) || exists|p: (int, int, int)|
            {
                &&& min <= p.0 <= max
                &&& min <= p.1 <= max
                &&& min <= p.2 <= max
                &&& norm_sq3(p) > 0
                &&& r@ == #[trigger] unit3(p)
            },
{
    let mut tries: u32 = 0;
    while tries < MAX_REDRAWS
        invariant
            -DIR_MAX <= min <= max <= DIR_MAX,
        decreases MAX_REDRAWS - tries,
    {
        let x = s.next_in(min, max);
        let y = s.next_in(min, max);
        let z = s.next_in(min, max);
        let v = Vec3 { x, y, z };
        let nz: i128 = v.length_sq_raw();
        if nz > 0 {
            let u = v.normalized();
            proof {
                assert(u@ == unit3(v@));
            }
            return u;
        }
        tries = tries + 1;
    }
    Vec3 { x: 0, y: 0, z: SCALE }
}

/// Draws a unit vector: rejection-samples normalized draws, accepting one
/// whose squared length lies between a quarter unit (below which the
/// normalization would be too coarse, the fixed-point counterpart of the
/// original's epsilon floor) and one, and rescales it to unit length. Every
/// outcome is the normalization of an accepted vector, or the fallback z
/// axis, and its squared length overshoots one by at most eight quanta.
pub fn random_dvec3_unit(s: &mut Sampler) -> (r: Vec3)
    ensures
        within3(r@, SCALE as int),
        norm_sq3(r@) <= SCALE_SQ as int + 8 * SCALE,
        r@ == (0int, 0int, SCALE as int) || exists|p: (int, int, int)|
            {
                &&& within3(p, SCALE as int)
                &&& 0x10000000 <= norm_sq3(p) <= SCALE_SQ as int
                &&& r@ == #[trigger] unit3(p)
            },
{
    let mut tries: u32 = 0;
    while tries < MAX_REDRAWS
        invariant
            true,
        decreases MAX_REDRAWS - tries,
    {
        let p = random_dvec3_range(s, -SCALE, SCALE);
        let len_sq: i128 = p.length_sq_raw();
        proof {
            assert((SCALE as i128) * (SCALE as i128) == 0x1_0000_0000) by (nonlinear_arith);
        }
        if 0x10000000 <= len_sq && len_sq <= (SCALE as i128) * (SCALE as i128) {
            let u = p.normalized();
            proof {
                assert(u@ == unit3(p@));
                crate::vec3::lemma_unit_norm_upper(p@);
            }
            return u;
        }
        tries = tries + 1;
    }
    proof {
        assert((SCALE as int) * (SCALE as int) == SCALE_SQ as int) by (nonlinear_arith);
    }
    Vec3 { x: 0, y: 0, z: SCALE }
}

/// Draws a unit direction in the `z = 0` plane, rejecting draws shorter
/// than a quarter unit (whose normalization would be too coarse) and falling
/// back to the y axis after `MAX_REDRAWS` rejections.
fn random_plane_unit(s: &mut Sampler) -> (r: Vec3)
    ensures
        within3(r@, SCALE as int),
        r@.2 == 0,
        norm_sq3(r@) <= SCALE_SQ as int + 8 * SCALE,
{
    let half: i64 = SCALE / 2;
    let mut tries: u32 = 0;
    while tries < MAX_REDRAWS
        invariant
            half == SCALE / 2,
        decreases MAX_REDRAWS - tries,
    {
        let x = s.next_in(-half, half);
        let y = s.next_in(-half, half);
        let v = Vec3 { x, y, z: 0 };
        let nz: i128 = v.length_sq_raw();
        if nz >= 0x10000000 {
            let u = v.normalized();
            proof {
                crate::vec3::lemma_norm_sq_nonneg(v@);
                crate::fx::lemma_sqrt_floor(norm_sq3(v@) as nat);
                assert(0 * SCALE == 0);
                crate::fx::lemma_tdiv_abs_le(0, crate::vec3::length3(v@));
                crate::vec3::lemma_unit_norm_upper(v@);
            }
            return u;
        }
        tries = tries + 1;
    }
    proof {
        assert((SCALE as int) * (SCALE as int) == SCALE_SQ as int) by (nonlinear_arith);
    }
    Vec3 { x: 0, y: SCALE, z: 0 }
}

/// Draws a point in the unit disc in the `z = 0` plane: a random direction
/// in the plane, scaled by a uniform radius. The squared length overshoots
/// one by at most eight quanta of rounding.
pub fn random_in_unit_disc(s: &mut Sampler) -> (r: Vec3)
    ensures
        within3(r@, SCALE as int),
        r@.2 == 0,
        norm_sq3(r@) <= SCALE_SQ as int + 8 * SCALE,
{
    let dir = random_plane_unit(s);
    let t = s.next_in(0, SCALE);
    proof {
        crate::fx::lemma_fx_mul_keeps_bound(t as int, dir@.0, SCALE as int);
        crate::fx::lemma_fx_mul_keeps_bound(t as int, dir@.1, SCALE as int);
        crate::fx::lemma_fx_mul_keeps_bound(t as int, dir@.2, SCALE as int);
        assert(crate::fx::fx_mul(t as int, 0) == crate::fx::tdiv(0, SCALE as int));
        crate::fx::lemma_tdiv_abs_le(0, SCALE as int);
        crate::vec3::lemma_scale_norm_le(t as int, dir@);
    }
    dir.scale(t)
}

/// Whether a vector is too short to normalize: below one raw quantum, that
/// is, exactly zero.
pub fn near_zero(test: &Vec3) -> (r: bool)
    requires
        within3(test@, DIR_MAX as int),
    ensures
        r == (norm_sq3(test@) == 0),
{
    let nz: i128 = test.length_sq_raw();
    nz == 0
}

} // verus!
