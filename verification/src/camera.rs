//! Camera sampling and the recursive radiance estimator.
//!
//! The camera owes its trigonometry (the tangent of the half field of view
//! and of the half defocus angle) to its caller: everything after those two
//! scalars is fixed-point arithmetic with exact contracts. Ray origins and
//! pixel positions are saturated into the world range, so every primary ray
//! is well formed whatever the configuration.

use crate::fx::{fx_div, fx_mul, isqrt, sqrt_floor, tdiv, SCALE};
use crate::hittable::{candidate, list_wf, HittableList};
use crate::interval::Interval;
use crate::hittable::{hit_record_wf, HitRecord};
use crate::material::{color01, scatter_matches, scatter_spec};
use crate::ray::{ray_wf, Ray};
use crate::sampler::Sampler;
use crate::sphere::matches_hit;
use crate::utils::random_in_unit_disc;
use crate::vec3::{
    cmul3, cross3, neg3, norm_sq3, scale3, sub3, unit3, within3, Vec3, DIR_MAX, POS_MAX,
};
use vstd::prelude::*;

verus! {

/// The smallest ray parameter the estimator searches from: a little above
/// zero, to suppress self-intersection at a scattered ray's origin.
pub const T_EPS: i64 = 66;

/// Largest position a camera looks from, leaving room for the lens offset.
pub const LOOK_MAX: i64 = 0x600_0000;

/// The horizon color of the background gradient.
pub open spec fn white3() -> (int, int, int) {
    (SCALE as int, SCALE as int, SCALE as int)
}

/// The zenith color of the background gradient.
pub open spec fn blue3() -> (int, int, int) {
    (32768, 45875, SCALE as int)
}

/// The background a missed ray sees: a vertical gradient from white at the
/// horizon to blue at the zenith, keyed by the unit direction's height.
pub open spec fn background_spec(dir: (int, int, int)) -> (int, int, int) {
    let a = tdiv(unit3(dir).1 + SCALE, 2);
    lerp3(white3(), blue3(), a)
}

/// Componentwise linear interpolation by the fixed-point factor `a`.
pub open spec fn lerp3(from: (int, int, int), to: (int, int, int), a: int) -> (int, int, int) {
    (
        from.0 + fx_mul(a, to.0 - from.0),
        from.1 + fx_mul(a, to.1 - from.1),
        from.2 + fx_mul(a, to.2 - from.2),
    )
}

/// `x` saturated into `[-POS_MAX, POS_MAX]`.
pub open spec fn clamp_pos(x: int) -> int {
    if x < -POS_MAX {
        -POS_MAX as int
    } else if x > POS_MAX as int {
        POS_MAX as int
    } else {
        x
    }
}

/// Saturates a wide value into the world position range.
fn clamp_pos64(x: i128) -> (r: i64)
    ensures
        r as int == clamp_pos(x as int),
        -POS_MAX <= r <= POS_MAX,
{
    if x < -(POS_MAX as i128) {
        -POS_MAX
    } else if x > POS_MAX as i128 {
        POS_MAX
    } else {
        x as i64
    }
}

/// A pinhole-or-lens camera over fixed-point scalars.
pub struct Camera {
    pub aspect_ratio: i64,
    pub image_width: i64,
    pub image_height: i64,
    pub center: Vec3,
    pub pixel00_loc: Vec3,
    pub pixel_delta_u: Vec3,
    pub pixel_delta_v: Vec3,
    pub samples_per_pixel: i64,
    pub pixel_samples_scale: i64,
    pub max_depth: i32,
    pub vfov: i64,
    pub look_from: Vec3,
    pub look_at: Vec3,
    pub look_up: Vec3,
    pub defocus_angle: i64,
    pub focus_dist: i64,
    pub defocus_disc_u: Vec3,
    pub defocus_disc_v: Vec3,
}

/// The bounds `initialize` asks of a configuration: the eye and target are
/// well inside the world, distinct, the up vector is near unit length, and
/// the image and lens parameters are bounded; aspect ratios from one eighth
/// (tall portrait) upward are accepted.
pub open spec fn camera_config_wf(c: Camera, tan_half_vfov: int, tan_half_defocus: int) -> bool {
    &&& within3(c.look_from@, LOOK_MAX as int)
    &&& within3(c.look_at@, LOOK_MAX as int)
    &&& within3(c.look_up@, 2 * SCALE)
    &&& norm_sq3(sub3(c.look_from@, c.look_at@)) > 0
    &&& 1 <= c.image_width <= 4096
    &&& 8192 <= c.aspect_ratio
    &&& 1 <= c.samples_per_pixel <= SCALE
    &&& 1 <= tan_half_vfov <= 4 * SCALE
    &&& 0 <= tan_half_defocus <= SCALE as int
    &&& 1 <= c.focus_dist <= 0x400_0000
}

/// At least one.
pub open spec fn imax1(x: int) -> int {
    if x < 1 {
        1
    } else {
        x
    }
}

/// The image height derived from width and aspect ratio, at least one.
pub open spec fn cam_height(c: Camera) -> int {
    imax1(fx_div(c.image_width as int, c.aspect_ratio as int))
}

/// The basis the camera derives from its configuration: `w` looks backward,
/// `u` spans the viewport rightward and `v` upward.
pub open spec fn cam_w(c: Camera) -> (int, int, int) {
    unit3(sub3(c.look_from@, c.look_at@))
}

/// The rightward viewport direction.
pub open spec fn cam_u(c: Camera) -> (int, int, int) {
    cross3(c.look_up@, cam_w(c))
}

/// The upward viewport direction.
pub open spec fn cam_v(c: Camera) -> (int, int, int) {
    cross3(cam_w(c), cam_u(c))
}

/// The viewport height for a given half-field-of-view tangent.
pub open spec fn cam_viewport_height(c: Camera, tan_half_vfov: int) -> int {
    2 * fx_mul(tan_half_vfov, c.focus_dist as int)
}

/// The viewport width: the height scaled by the realized aspect ratio.
pub open spec fn cam_viewport_width(c: Camera, tan_half_vfov: int) -> int {
    fx_mul(
        cam_viewport_height(c, tan_half_vfov),
        fx_div((c.image_width as int) * (SCALE as int), cam_height(c) * (SCALE as int)),
    )
}

/// The viewport-spanning vector along `u`.
pub open spec fn cam_viewport_u(c: Camera, tan_half_vfov: int) -> (int, int, int) {
    scale3(cam_viewport_width(c, tan_half_vfov), cam_u(c))
}

/// The viewport-spanning vector along `-v`.
pub open spec fn cam_viewport_v(c: Camera, tan_half_vfov: int) -> (int, int, int) {
    scale3(cam_viewport_height(c, tan_half_vfov), neg3(cam_v(c)))
}

/// The pixel-to-pixel step along the width.
pub open spec fn cam_pixel_delta_u(c: Camera, tan_half_vfov: int) -> (int, int, int) {
    let vu = cam_viewport_u(c, tan_half_vfov);
    let wfx = (c.image_width as int) * (SCALE as int);
    (fx_div(vu.0, wfx), fx_div(vu.1, wfx), fx_div(vu.2, wfx))
}

/// The pixel-to-pixel step along the height.
pub open spec fn cam_pixel_delta_v(c: Camera, tan_half_vfov: int) -> (int, int, int) {
    let vv = cam_viewport_v(c, tan_half_vfov);
    let hfx = cam_height(c) * (SCALE as int);
    (fx_div(vv.0, hfx), fx_div(vv.1, hfx), fx_div(vv.2, hfx))
}

/// The center of the upper-left pixel.
pub open spec fn cam_pixel00(c: Camera, tan_half_vfov: int) -> (int, int, int) {
    let w = cam_w(c);
    let vu = cam_viewport_u(c, tan_half_vfov);
    let vv = cam_viewport_v(c, tan_half_vfov);
    let du = cam_pixel_delta_u(c, tan_half_vfov);
    let dv = cam_pixel_delta_v(c, tan_half_vfov);
    let fd = c.focus_dist as int;
    (
        c.look_from@.0 - fx_mul(fd, w.0) - tdiv(vu.0, 2) - tdiv(vv.0, 2) + tdiv(du.0 + dv.0, 2),
        c.look_from@.1 - fx_mul(fd, w.1) - tdiv(vu.1, 2) - tdiv(vv.1, 2) + tdiv(du.1 + dv.1, 2),
        c.look_from@.2 - fx_mul(fd, w.2) - tdiv(vu.2, 2) - tdiv(vv.2, 2) + tdiv(du.2 + dv.2, 2),
    )
}

/// The lens-disc basis vector along `u`.
pub open spec fn cam_defocus_u(c: Camera, tan_half_vfov: int, tan_half_defocus: int) -> (
    int,
    int,
    int,
) {
    scale3(fx_mul(c.focus_dist as int, tan_half_defocus), cam_u(c))
}

/// The lens-disc basis vector along `v`.
pub open spec fn cam_defocus_v(c: Camera, tan_half_vfov: int, tan_half_defocus: int) -> (
    int,
    int,
    int,
) {
    scale3(fx_mul(c.focus_dist as int, tan_half_defocus), cam_v(c))
}

/// The jittered viewport point for pixel `(x, y)` under offsets `(ox, oy)`,
/// saturated into the world range.
pub open spec fn pixel_sample_spec(c: Camera, x: int, y: int, ox: int, oy: int) -> (int, int, int) {
    let sx = x * SCALE + ox;
    let sy = y * SCALE + oy;
    (
        clamp_pos(
            c.pixel00_loc@.0 + tdiv(sx * c.pixel_delta_u@.0, SCALE as int) + tdiv(
                sy * c.pixel_delta_v@.0,
                SCALE as int,
            ),
        ),
        clamp_pos(
            c.pixel00_loc@.1 + tdiv(sx * c.pixel_delta_u@.1, SCALE as int) + tdiv(
                sy * c.pixel_delta_v@.1,
                SCALE as int,
            ),
        ),
        clamp_pos(
            c.pixel00_loc@.2 + tdiv(sx * c.pixel_delta_u@.2, SCALE as int) + tdiv(
                sy * c.pixel_delta_v@.2,
                SCALE as int,
            ),
        ),
    )
}

/// The lens origin for a disc point `p`, saturated into the world range.
pub open spec fn lens_origin_spec(c: Camera, p: (int, int, int)) -> (int, int, int) {
    (
        clamp_pos(
            c.center@.0 + tdiv(p.0 * c.defocus_disc_u@.0, SCALE as int) + tdiv(
                p.1 * c.defocus_disc_v@.0,
                SCALE as int,
            ),
        ),
        clamp_pos(
            c.center@.1 + tdiv(p.0 * c.defocus_disc_u@.1, SCALE as int) + tdiv(
                p.1 * c.defocus_disc_v@.1,
                SCALE as int,
            ),
        ),
        clamp_pos(
            c.center@.2 + tdiv(p.0 * c.defocus_disc_u@.2, SCALE as int) + tdiv(
                p.1 * c.defocus_disc_v@.2,
                SCALE as int,
            ),
        ),
    )
}

/// Where a ray starts: the saturated camera center for a pinhole camera,
/// else the lens origin for the drawn disc point.
pub open spec fn ray_origin_spec(c: Camera, p: (int, int, int)) -> (int, int, int) {
    if c.defocus_angle <= 0 {
        (clamp_pos(c.center@.0), clamp_pos(c.center@.1), clamp_pos(c.center@.2))
    } else {
        lens_origin_spec(c, p)
    }
}

/// On a hit, the estimator's color is explained by one scattering outcome:
/// some well-formed record a held sphere reports for the estimator's search
/// window, and some admissible draws, such that an absorbed path yields
/// black and a continuing path yields the outcome's attenuation times a
/// unit-range radiance.
pub open spec fn hit_outcome_explains(world: HittableList, r: Ray, c: (int, int, int)) -> bool {
    exists|rec: HitRecord, ru: (int, int, int), q: int|
        {
            &&& hit_record_wf(rec)
            &&& within3(ru, SCALE as int)
            &&& 0 <= q <= SCALE as int
            &&& exists|i: int|
                0 <= i < world.objects@.len() && (match #[trigger] candidate(
                    world,
                    r,
                    Interval { min: T_EPS, max: crate::interval::T_INF },
                    i,
                ) {
                    Some(sh) => matches_hit(world.objects@[i], r, sh, rec),
                    None => false,
                })
            &&& {
                let out = #[trigger] scatter_spec(rec.mat, r, rec, ru, q);
                ||| (!out.continues && c == (0int, 0int, 0int))
                ||| (out.continues && exists|c2: (int, int, int)|
                    color01(c2) && c == cmul3(out.attenuation, c2))
            }
        }
}

impl Camera {
    /// A default camera: square image, ten samples, shallow recursion,
    /// looking down the negative z axis.
    pub fn new() -> (c: Camera)
        ensures
            c.aspect_ratio == SCALE,
            c.image_width == 600,
            c.image_height == 600,
            c.center@ == (0int, 0int, 0int),
            c.pixel00_loc@ == (0int, 0int, 0int),
            c.pixel_delta_u@ == (0int, 0int, 0int),
            c.pixel_delta_v@ == (0int, 0int, 0int),
            c.samples_per_pixel == 10,
            c.pixel_samples_scale == 0,
            c.max_depth == 10,
            c.vfov == 90 * SCALE,
            c.look_from@ == (0int, 0int, 0int),
            c.look_at@ == (0int, 0int, -(SCALE as int)),
            c.look_up@ == (0int, SCALE as int, 0int),
            c.defocus_angle == 0,
            c.focus_dist == 10 * SCALE,
            c.defocus_disc_u@ == (0int, SCALE as int, 0int),
            c.defocus_disc_v@ == (0int, SCALE as int, 0int),
    {
        Camera {
            aspect_ratio: SCALE,
            image_width: 600,
            image_height: 600,
            center: Vec3::zero(),
            pixel00_loc: Vec3::zero(),
            pixel_delta_u: Vec3::zero(),
            pixel_delta_v: Vec3::zero(),
            samples_per_pixel: 10,
            pixel_samples_scale: 0,
            max_depth: 10,
            vfov: 90 * SCALE,
            look_from: Vec3::zero(),
            look_at: Vec3 { x: 0, y: 0, z: -SCALE },
            look_up: Vec3 { x: 0, y: SCALE, z: 0 },
            defocus_angle: 0,
            focus_dist: 10 * SCALE,
            defocus_disc_u: Vec3 { x: 0, y: SCALE, z: 0 },
            defocus_disc_v: Vec3 { x: 0, y: SCALE, z: 0 },
        }
    }

    /// Derives the viewport geometry from the configuration. The caller
    /// supplies the tangent of half the vertical field of view and of half
    /// the defocus angle, the only trigonometry the camera needs.
    #[verifier::rlimit(100)]
    pub fn initialize(&mut self, tan_half_vfov: i64, tan_half_defocus: i64)
        requires
            camera_config_wf(*old(self), tan_half_vfov as int, tan_half_defocus as int),
        ensures
            final (self).image_height as int == cam_height(*old(self)),
            final (self).pixel_samples_scale as int == tdiv(
                SCALE as int,
                old(self).samples_per_pixel as int,
            ),
            final (self).center == old(self).look_from,
            final (self).pixel_delta_u@ == cam_pixel_delta_u(*old(self), tan_half_vfov as int),
            final (self).pixel_delta_v@ == cam_pixel_delta_v(*old(self), tan_half_vfov as int),
            final (self).pixel00_loc@ == cam_pixel00(*old(self), tan_half_vfov as int),
            final (self).defocus_disc_u@ == cam_defocus_u(
                *old(self),
                tan_half_vfov as int,
                tan_half_defocus as int,
            ),
            final (self).defocus_disc_v@ == cam_defocus_v(
                *old(self),
                tan_half_vfov as int,
                tan_half_defocus as int,
            ),
            final (self).image_width == old(self).image_width,
            final (self).samples_per_pixel == old(self).samples_per_pixel,
            final (self).max_depth == old(self).max_depth,
            final (self).defocus_angle == old(self).defocus_angle,
            1 <= final (self).image_height <= 0x10000000,
    {
        let ghost orig = *self;
        proof {
            crate::vec3::lemma_mul_bound(self.image_width as int, SCALE as int, 4096, 0x10000);
            crate::fx::lemma_tdiv_abs_le(
                (self.image_width as int) * (SCALE as int),
                self.aspect_ratio as int,
            );
        }
        let ih: i64 = crate::fx::fx_div64(self.image_width, self.aspect_ratio);
        self.image_height = if ih < 1 {
            1
        } else {
            ih
        };
        self.pixel_samples_scale = SCALE / self.samples_per_pixel;
        self.center = self.look_from;
        proof {
            crate::vec3::lemma_mul_bound(
                tan_half_vfov as int,
                self.focus_dist as int,
                0x40000,
                0x4000000,
            );
            crate::fx::lemma_tdiv_bound(
                (tan_half_vfov as int) * (self.focus_dist as int),
                SCALE as int,
                0x10000000,
            );
        }
        let viewport_height: i64 = 2 * crate::fx::fx_mul64(tan_half_vfov, self.focus_dist);
        let wfx: i64 = self.image_width * SCALE;
        let hfx: i64 = self.image_height * SCALE;
        proof {
            crate::vec3::lemma_mul_bound(wfx as int, SCALE as int, 0x10000000, 0x10000);
            crate::fx::lemma_tdiv_bound((wfx as int) * (SCALE as int), hfx as int, 0x10000000);
        }
        let ratio: i64 = crate::fx::fx_div64(wfx, hfx);
        proof {
            crate::vec3::lemma_mul_bound(
                viewport_height as int,
                ratio as int,
                0x20000000,
                0x10000000,
            );
            crate::fx::lemma_tdiv_bound(
                (viewport_height as int) * (ratio as int),
                SCALE as int,
                0x20000000000,
            );
        }
        let viewport_width: i64 = crate::fx::fx_mul64(viewport_height, ratio);
        let diff = self.look_from.sub(&self.look_at);
        let w = diff.normalized();
        let u = self.look_up.cross(&w);
        proof {
            lemma_cross_within(self.look_up@, w@, 2 * SCALE, SCALE as int, 4 * SCALE);
        }
        let v = w.cross(&u);
        proof {
            lemma_cross_within(w@, u@, SCALE as int, 4 * SCALE, 8 * SCALE);
            lemma_scale_fits(viewport_width as int, u@, 0x20000000000, 4 * SCALE);
            lemma_scale_fits(viewport_height as int, v@, 0x20000000, 8 * SCALE);
            lemma_scale_fits(viewport_height as int, neg3(v@), 0x20000000, 8 * SCALE);
        }
        let viewport_u = u.scale(viewport_width);
        let viewport_v = v.neg().scale(viewport_height);
        proof {
            lemma_scale_div_fits(viewport_u@, wfx as int, 0x800000000000000);
            lemma_scale_div_fits(viewport_v@, hfx as int, 0x100000000000000);
        }
        self.pixel_delta_u = Vec3 {
            x: crate::fx::fx_div64(viewport_u.x, wfx),
            y: crate::fx::fx_div64(viewport_u.y, wfx),
            z: crate::fx::fx_div64(viewport_u.z, wfx),
        };
        self.pixel_delta_v = Vec3 {
            x: crate::fx::fx_div64(viewport_v.x, hfx),
            y: crate::fx::fx_div64(viewport_v.y, hfx),
            z: crate::fx::fx_div64(viewport_v.z, hfx),
        };
        proof {
            lemma_scale_fits(self.focus_dist as int, w@, 0x4000000, SCALE as int);
            crate::fx::lemma_tdiv_abs_le(viewport_u@.0, 2);
            crate::fx::lemma_tdiv_abs_le(viewport_u@.1, 2);
            crate::fx::lemma_tdiv_abs_le(viewport_u@.2, 2);
            crate::fx::lemma_tdiv_abs_le(viewport_v@.0, 2);
            crate::fx::lemma_tdiv_abs_le(viewport_v@.1, 2);
            crate::fx::lemma_tdiv_abs_le(viewport_v@.2, 2);
        }
        let fw = w.scale(self.focus_dist);
        let upper_left = Vec3 {
            x: self.center.x - fw.x - viewport_u.x / 2 - viewport_v.x / 2,
            y: self.center.y - fw.y - viewport_u.y / 2 - viewport_v.y / 2,
            z: self.center.z - fw.z - viewport_u.z / 2 - viewport_v.z / 2,
        };
        self.pixel00_loc = Vec3 {
            x: upper_left.x + (self.pixel_delta_u.x + self.pixel_delta_v.x) / 2,
            y: upper_left.y + (self.pixel_delta_u.y + self.pixel_delta_v.y) / 2,
            z: upper_left.z + (self.pixel_delta_u.z + self.pixel_delta_v.z) / 2,
        };
        proof {
            crate::vec3::lemma_mul_bound(
                self.focus_dist as int,
                tan_half_defocus as int,
                0x4000000,
                0x10000,
            );
            crate::fx::lemma_tdiv_bound(
                (self.focus_dist as int) * (tan_half_defocus as int),
                SCALE as int,
                0x4000000,
            );
        }
        let defocus_radius = crate::fx::fx_mul64(self.focus_dist, tan_half_defocus);
        proof {
            lemma_scale_fits(defocus_radius as int, u@, 0x4000000, 4 * SCALE);
            lemma_scale_fits(defocus_radius as int, v@, 0x4000000, 8 * SCALE);
        }
        self.defocus_disc_u = u.scale(defocus_radius);
        self.defocus_disc_v = v.scale(defocus_radius);
        proof {
            assert(self.pixel_delta_u@ == cam_pixel_delta_u(orig, tan_half_vfov as int));
            assert(self.pixel_delta_v@ == cam_pixel_delta_v(orig, tan_half_vfov as int));
            assert(self.pixel00_loc@ == cam_pixel00(orig, tan_half_vfov as int));
        }
    }

    /// A ray through pixel `(x, y)`: draws the sub-pixel jitter (and, when
    /// the camera defocuses, a lens-disc point) and hands them to
    /// `get_ray_with`, which pins the result exactly.
    pub fn get_ray(&self, x: i64, y: i64, sampler: &mut Sampler) -> (r: Ray)
        requires
            0 <= x <= 0x10000000,
            0 <= y <= 0x10000000,
        ensures
            within3(r.origin@, POS_MAX as int),
            within3(r.direction@, DIR_MAX as int),
            r.time == 0,
            self.defocus_angle <= 0 ==> r.origin@ == (
                clamp_pos(self.center@.0),
                clamp_pos(self.center@.1),
                clamp_pos(self.center@.2),
            ),
            exists|ox: int, oy: int, l: (int, int, int)|
                #![trigger pixel_sample_spec(*self, x as int, y as int, ox, oy), ray_origin_spec(*self, l)]
                {
                    &&& -SCALE / 2 <= ox <= SCALE / 2
                    &&& -SCALE / 2 <= oy <= SCALE / 2
                    &&& within3(l, SCALE as int)
                    &&& l.2 == 0
                    &&& r.origin@ == ray_origin_spec(*self, l)
                    &&& r.direction@ == sub3(
                        pixel_sample_spec(*self, x as int, y as int, ox, oy),
                        r.origin@,
                    )
                },
    {
        let offset = Self::sample_square(sampler);
        let lens_point = if self.defocus_angle > 0 {
            random_in_unit_disc(sampler)
        } else {
            Vec3::zero()
        };
        let r = self.get_ray_with(x, y, offset, lens_point);
        proof {
            assert(r.direction@ == sub3(
                pixel_sample_spec(*self, x as int, y as int, offset@.0, offset@.1),
                r.origin@,
            ));
        }
        r
    }

    /// The ray for pixel `(x, y)` under the given sub-pixel offset and
    /// lens-disc point: a pure function, pinned exactly by the camera's
    /// derivation; positions saturate into the world range, so the ray is
    /// always well formed.
    pub fn get_ray_with(&self, x: i64, y: i64, offset: Vec3, lens_point: Vec3) -> (r: Ray)
        requires
            0 <= x <= 0x10000000,
            0 <= y <= 0x10000000,
            within3(offset@, SCALE as int),
            within3(lens_point@, SCALE as int),
        ensures
            r.time == 0,
            within3(r.origin@, POS_MAX as int),
            within3(r.direction@, DIR_MAX as int),
            r.origin@ == ray_origin_spec(*self, lens_point@),
            r.direction@ == sub3(
                pixel_sample_spec(*self, x as int, y as int, offset@.0, offset@.1),
                r.origin@,
            ),
    {
        let sx: i128 = (x as i128) * (SCALE as i128) + (offset.x as i128);
        let sy: i128 = (y as i128) * (SCALE as i128) + (offset.y as i128);
        proof {
            let bd = 0x8000000000000000int;
            crate::vec3::lemma_mul_bound(sx as int, self.pixel_delta_u@.0, 0x200000000000, bd);
            crate::vec3::lemma_mul_bound(sy as int, self.pixel_delta_v@.0, 0x200000000000, bd);
            crate::vec3::lemma_mul_bound(sx as int, self.pixel_delta_u@.1, 0x200000000000, bd);
            crate::vec3::lemma_mul_bound(sy as int, self.pixel_delta_v@.1, 0x200000000000, bd);
            crate::vec3::lemma_mul_bound(sx as int, self.pixel_delta_u@.2, 0x200000000000, bd);
            crate::vec3::lemma_mul_bound(sy as int, self.pixel_delta_v@.2, 0x200000000000, bd);
            crate::fx::lemma_tdiv_abs_le((sx as int) * self.pixel_delta_u@.0, SCALE as int);
            crate::fx::lemma_tdiv_abs_le((sy as int) * self.pixel_delta_v@.0, SCALE as int);
            crate::fx::lemma_tdiv_abs_le((sx as int) * self.pixel_delta_u@.1, SCALE as int);
            crate::fx::lemma_tdiv_abs_le((sy as int) * self.pixel_delta_v@.1, SCALE as int);
            crate::fx::lemma_tdiv_abs_le((sx as int) * self.pixel_delta_u@.2, SCALE as int);
            crate::fx::lemma_tdiv_abs_le((sy as int) * self.pixel_delta_v@.2, SCALE as int);
        }
        let px: i128 = (self.pixel00_loc.x as i128) + sx * (self.pixel_delta_u.x as i128) / (
        SCALE as i128) + sy * (self.pixel_delta_v.x as i128) / (SCALE as i128);
        let py: i128 = (self.pixel00_loc.y as i128) + sx * (self.pixel_delta_u.y as i128) / (
        SCALE as i128) + sy * (self.pixel_delta_v.y as i128) / (SCALE as i128);
        let pz: i128 = (self.pixel00_loc.z as i128) + sx * (self.pixel_delta_u.z as i128) / (
        SCALE as i128) + sy * (self.pixel_delta_v.z as i128) / (SCALE as i128);
        let pixel_sample = Vec3 { x: clamp_pos64(px), y: clamp_pos64(py), z: clamp_pos64(pz) };
        let ray_origin = if self.defocus_angle <= 0 {
            Vec3 {
                x: clamp_pos64(self.center.x as i128),
                y: clamp_pos64(self.center.y as i128),
                z: clamp_pos64(self.center.z as i128),
            }
        } else {
            self.lens_origin(&lens_point)
        };
        let ray_direction = pixel_sample.sub(&ray_origin);
        Ray::with_direction(ray_origin, ray_direction)
    }

    /// A lens origin: the camera center offset by a random point of the
    /// defocus disc, saturated into the world range.
    pub fn defocus_disc_sample(&self, sampler: &mut Sampler) -> (r: Vec3)
        ensures
            within3(r@, POS_MAX as int),
            exists|p: (int, int, int)|
                within3(p, SCALE as int) && p.2 == 0 && r@ == #[trigger] lens_origin_spec(
                    *self,
                    p,
                ),
    {
        let p = random_in_unit_disc(sampler);
        let r = self.lens_origin(&p);
        proof {
            assert(r@ == lens_origin_spec(*self, p@));
        }
        r
    }

    /// The lens origin for the given disc point: the camera center offset
    /// along the two lens basis vectors, saturated into the world range.
    fn lens_origin(&self, p: &Vec3) -> (r: Vec3)
        requires
            within3(p@, SCALE as int),
        ensures
            r@ == lens_origin_spec(*self, p@),
            within3(r@, POS_MAX as int),
    {
        proof {
            let bd = 0x8000000000000000int;
            crate::vec3::lemma_mul_bound(p@.0, self.defocus_disc_u@.0, 0x10000, bd);
            crate::vec3::lemma_mul_bound(p@.1, self.defocus_disc_v@.0, 0x10000, bd);
            crate::vec3::lemma_mul_bound(p@.0, self.defocus_disc_u@.1, 0x10000, bd);
            crate::vec3::lemma_mul_bound(p@.1, self.defocus_disc_v@.1, 0x10000, bd);
            crate::vec3::lemma_mul_bound(p@.0, self.defocus_disc_u@.2, 0x10000, bd);
            crate::vec3::lemma_mul_bound(p@.1, self.defocus_disc_v@.2, 0x10000, bd);
            crate::fx::lemma_tdiv_abs_le(p@.0 * self.defocus_disc_u@.0, SCALE as int);
            crate::fx::lemma_tdiv_abs_le(p@.1 * self.defocus_disc_v@.0, SCALE as int);
            crate::fx::lemma_tdiv_abs_le(p@.0 * self.defocus_disc_u@.1, SCALE as int);
            crate::fx::lemma_tdiv_abs_le(p@.1 * self.defocus_disc_v@.1, SCALE as int);
            crate::fx::lemma_tdiv_abs_le(p@.0 * self.defocus_disc_u@.2, SCALE as int);
            crate::fx::lemma_tdiv_abs_le(p@.1 * self.defocus_disc_v@.2, SCALE as int);
        }
        let ox: i128 = (self.center.x as i128) + (p.x as i128) * (self.defocus_disc_u.x as i128)
            / (SCALE as i128) + (p.y as i128) * (self.defocus_disc_v.x as i128) / (SCALE as i128);
        let oy: i128 = (self.center.y as i128) + (p.x as i128) * (self.defocus_disc_u.y as i128)
            / (SCALE as i128) + (p.y as i128) * (self.defocus_disc_v.y as i128) / (SCALE as i128);
        let oz: i128 = (self.center.z as i128) + (p.x as i128) * (self.defocus_disc_u.z as i128)
            / (SCALE as i128) + (p.y as i128) * (self.defocus_disc_v.z as i128) / (SCALE as i128);
        Vec3 { x: clamp_pos64(ox), y: clamp_pos64(oy), z: clamp_pos64(oz) }
    }

    /// A random offset inside the unit pixel square.
    pub fn sample_square(sampler: &mut Sampler) -> (r: Vec3)
        ensures
            -SCALE / 2 <= r@.0 <= SCALE / 2,
            -SCALE / 2 <= r@.1 <= SCALE / 2,
            r@.2 == 0,
    {
        let half: i64 = SCALE / 2;
        Vec3 { x: sampler.next_in(-half, half), y: sampler.next_in(-half, half), z: 0 }
    }

    /// The radiance along a ray, recursively: black once the bounce budget
    /// is spent and for a degenerate zero direction; the background gradient
    /// on a miss; on a hit, black when the surface absorbs, else the
    /// scattering outcome's attenuation times the recursive radiance, with
    /// the bounce budget decremented by one. Every component stays in
    /// `[0, 1]`.
    pub fn ray_color(r: &Ray, depth: i32, world: &HittableList, sampler: &mut Sampler) -> (c: Vec3)
        requires
            list_wf(*world),
            ray_wf(*r),
        ensures
            color01(c@),
            depth <= 0 ==> c@ == (0int, 0int, 0int),
            depth > 0 && norm_sq3(r.direction@) == 0 ==> c@ == (0int, 0int, 0int),
            (depth > 0 && norm_sq3(r.direction@) > 0 && (forall|i: int|
                0 <= i < world.objects@.len() ==> (#[trigger] candidate(
                    *world,
                    *r,
                    Interval { min: T_EPS, max: crate::interval::T_INF },
                    i,
                )) is None)) ==> c@ == background_spec(r.direction@),
            depth > 0 && norm_sq3(r.direction@) > 0 ==> (c@ == background_spec(r.direction@)
                || hit_outcome_explains(*world, *r, c@)),
        decreases depth,
    {
        if depth <= 0 {
            return Vec3::zero();
        }
        let nz: i128 = r.direction.length_sq_raw();
        if nz == 0 {
            return Vec3::zero();
        }
        let found = world.hit(r, Interval::new(T_EPS, crate::interval::T_INF));
        match found {
            Some(rec) => {
                let scatter_result = rec.mat.scatter(*r, &rec, sampler).unwrap();
                let (attenuation, scattered, keeps_bouncing) = scatter_result;
                if keeps_bouncing {
                    let deeper = Self::ray_color(&scattered, depth - 1, world, sampler);
                    proof {
                        crate::fx::lemma_fx_mul_unit(attenuation@.0, deeper@.0);
                        crate::fx::lemma_fx_mul_unit(attenuation@.1, deeper@.1);
                        crate::fx::lemma_fx_mul_unit(attenuation@.2, deeper@.2);
                    }
                    let blended = attenuation.mul_comp(&deeper);
                    proof {
                        let (ru, q) = choose|ru: (int, int, int), q: int|
                            {
                                &&& within3(ru, SCALE as int)
                                &&& 0 <= q <= SCALE as int
                                &&& #[trigger] scatter_matches(
                                    scatter_spec(rec.mat, *r, rec, ru, q),
                                    attenuation,
                                    scattered,
                                    keeps_bouncing,
                                )
                            };
                        let out = scatter_spec(rec.mat, *r, rec, ru, q);
                        assert(out.continues && color01(deeper@) && blended@ == cmul3(
                            out.attenuation,
                            deeper@,
                        ));
                        assert(hit_outcome_explains(*world, *r, blended@));
                    }
                    blended
                } else {
                    proof {
                        let (ru, q) = choose|ru: (int, int, int), q: int|
                            {
                                &&& within3(ru, SCALE as int)
                                &&& 0 <= q <= SCALE as int
                                &&& #[trigger] scatter_matches(
                                    scatter_spec(rec.mat, *r, rec, ru, q),
                                    attenuation,
                                    scattered,
                                    keeps_bouncing,
                                )
                            };
                        let out = scatter_spec(rec.mat, *r, rec, ru, q);
                        assert(!out.continues);
                        assert(hit_outcome_explains(*world, *r, (0int, 0int, 0int)));
                    }
                    Vec3::zero()
                }
            },
            None => {
                let unit_direction = r.direction.normalized();
                let a: i64 = (unit_direction.y + SCALE) / 2;
                let white = Vec3 { x: SCALE, y: SCALE, z: SCALE };
                let blue = Vec3 { x: 32768, y: 45875, z: SCALE };
                proof {
                    lemma_lerp_unit(a as int, white@.0, blue@.0);
                    lemma_lerp_unit(a as int, white@.1, blue@.1);
                    lemma_lerp_unit(a as int, white@.2, blue@.2);
                }
                Vec3 {
                    x: white.x + crate::fx::fx_mul64(a, blue.x - white.x),
                    y: white.y + crate::fx::fx_mul64(a, blue.y - white.y),
                    z: white.z + crate::fx::fx_mul64(a, blue.z - white.z),
                }
            },
        }
    }

    /// Gamma correction: the square root of a nonnegative linear component.
    /// Correction precedes clamping, so the input never exceeds one: the
    /// estimator's colors stay in unit range.
    pub fn linear_to_gamma(linear_component: i64) -> (r: i64)
        requires
            linear_component <= SCALE,
        ensures
            r as int == gamma_spec(linear_component as int),
            0 <= r <= SCALE,
    {
        if linear_component > 0 {
            proof {
                assert((linear_component as int) * (SCALE as int) <= (SCALE as int) * (
                SCALE as int)) by (nonlinear_arith)
                    requires
                        0 < linear_component <= SCALE,
                ;
                crate::vec3::lemma_sqrt_le(
                    ((linear_component as int) * (SCALE as int)) as nat,
                    ((SCALE as int) * (SCALE as int)) as nat,
                );
                assert((SCALE as int) * (SCALE as int) < (SCALE as int + 1) * (SCALE as int + 1))
                    by (nonlinear_arith);
                crate::fx::lemma_sqrt_floor_unique(
                    ((SCALE as int) * (SCALE as int)) as nat,
                    SCALE as nat,
                );
            }
            let root: u64 = isqrt((linear_component as u128) * (SCALE as u128));
            root as i64
        } else {
            0
        }
    }

    /// One pixel's color as clamped, gamma-corrected byte channels.
    pub fn color_to_rgb(color: &Vec3) -> (rgb: (u8, u8, u8))
        requires
            within3(color@, SCALE as int),
        ensures
            rgb.0 as int == channel_spec(color@.0),
            rgb.1 as int == channel_spec(color@.1),
            rgb.2 as int == channel_spec(color@.2),
    {
        let r = Self::channel(color.x);
        let g = Self::channel(color.y);
        let b = Self::channel(color.z);
        (r, g, b)
    }

    /// One channel: gamma-corrected, clamped to just below one, widened to
    /// the byte range.
    fn channel(x: i64) -> (r: u8)
        requires
            -SCALE <= x <= SCALE,
        ensures
            r as int == channel_spec(x as int),
    {
        let g = Self::linear_to_gamma(x);
        let intensity = Interval::new(0, 65470);
        let clamped = intensity.clamp(g);
        proof {
            vstd::arithmetic::div_mod::lemma_div_pos_is_pos((clamped as int) * 256, SCALE as int);
            crate::fx::lemma_le_floor_iff(256, (clamped as int) * 256, SCALE as int);
        }
        ((clamped as i128) * 256 / (SCALE as i128)) as u8
    }
}

/// The gamma-corrected value of a linear component.
pub open spec fn gamma_spec(x: int) -> int {
    if x > 0 {
        sqrt_floor((x * (SCALE as int)) as nat) as int
    } else {
        0
    }
}

/// A channel byte: gamma, then clamp to `[0, 0.999]`, then scale to 8 bits.
pub open spec fn channel_spec(x: int) -> int {
    tdiv(crate::interval::clamp_spec(0, 65470, gamma_spec(x)) * 256, SCALE as int)
}

/// Linear interpolation between unit-range endpoints stays in unit range.
proof fn lemma_lerp_unit(a: int, from: int, to: int)
    requires
        0 <= a <= SCALE as int,
        0 <= from <= SCALE as int,
        0 <= to <= SCALE as int,
    ensures
        0 <= from + fx_mul(a, to - from) <= SCALE as int,
        i64::MIN <= fx_mul(a, to - from) <= i64::MAX,
{
    if to >= from {
        crate::fx::lemma_fx_mul_unit(a, to - from);
    } else {
        crate::fx::lemma_fx_mul_keeps_bound(a, to - from, from - to);
        assert(fx_mul(a, to - from) <= 0) by {
            assert(a * (to - from) <= 0) by (nonlinear_arith)
                requires
                    a >= 0 && to - from <= 0,
            ;
            crate::fx::lemma_tdiv_abs_le(a * (to - from), SCALE as int);
        }
    }
}

/// A cross product of bounded vectors is bounded: `2 ba bb <= bc * SCALE`
/// makes every component of the cross product at most `bc`.
proof fn lemma_cross_within(a: (int, int, int), b: (int, int, int), ba: int, bb: int, bc: int)
    requires
        within3(a, ba),
        within3(b, bb),
        0 <= ba,
        0 <= bb,
        0 <= bc,
        2 * (ba * bb) <= bc * (SCALE as int),
    ensures
        within3(cross3(a, b), bc),
{
    crate::vec3::lemma_mul_bound(a.1, b.2, ba, bb);
    crate::vec3::lemma_mul_bound(a.2, b.1, ba, bb);
    crate::vec3::lemma_mul_bound(a.2, b.0, ba, bb);
    crate::vec3::lemma_mul_bound(a.0, b.2, ba, bb);
    crate::vec3::lemma_mul_bound(a.0, b.1, ba, bb);
    crate::vec3::lemma_mul_bound(a.1, b.0, ba, bb);
    crate::fx::lemma_tdiv_bound(a.1 * b.2 - a.2 * b.1, SCALE as int, bc);
    crate::fx::lemma_tdiv_bound(a.2 * b.0 - a.0 * b.2, SCALE as int, bc);
    crate::fx::lemma_tdiv_bound(a.0 * b.1 - a.1 * b.0, SCALE as int, bc);
}

/// Scaling a bounded vector by a bounded factor fits in 64 bits.
proof fn lemma_scale_fits(t: int, a: (int, int, int), bt: int, ba: int)
    requires
        within3(a, ba),
        -bt <= t <= bt,
        0 <= bt,
        0 <= ba,
        bt * ba <= 0x4000_0000_0000_0000,
    ensures
        i64::MIN <= fx_mul(t, a.0) <= i64::MAX,
        i64::MIN <= fx_mul(t, a.1) <= i64::MAX,
        i64::MIN <= fx_mul(t, a.2) <= i64::MAX,
        within3(scale3(t, a), bt * ba),
{
    crate::vec3::lemma_mul_bound(t, a.0, bt, ba);
    crate::vec3::lemma_mul_bound(t, a.1, bt, ba);
    crate::vec3::lemma_mul_bound(t, a.2, bt, ba);
    crate::fx::lemma_tdiv_abs_le(t * a.0, SCALE as int);
    crate::fx::lemma_tdiv_abs_le(t * a.1, SCALE as int);
    crate::fx::lemma_tdiv_abs_le(t * a.2, SCALE as int);
}

/// Dividing a vector's components by a scalar of at least one unit keeps
/// their bound.
proof fn lemma_scale_div_fits(a: (int, int, int), d: int, ba: int)
    requires
        d >= SCALE,
        within3(a, ba),
        0 <= ba <= 0x7FFF_FFFF_FFFF_FFFF,
    ensures
        d != 0,
        within3((fx_div(a.0, d), fx_div(a.1, d), fx_div(a.2, d)), ba),
        i64::MIN <= fx_div(a.0, d) <= i64::MAX,
        i64::MIN <= fx_div(a.1, d) <= i64::MAX,
        i64::MIN <= fx_div(a.2, d) <= i64::MAX,
{
    assert(ba * d >= ba * (SCALE as int)) by (nonlinear_arith)
        requires
            ba >= 0 && d >= SCALE as int,
    ;
    crate::fx::lemma_tdiv_bound(a.0 * (SCALE as int), d, ba);
    crate::fx::lemma_tdiv_bound(a.1 * (SCALE as int), d, ba);
    crate::fx::lemma_tdiv_bound(a.2 * (SCALE as int), d, ba);
}

} // verus!
