//! Surface materials: a closed set of scattering behaviors.
//!
//! `scatter_with` is a pure function of the material, the incoming ray, the
//! hit record and the drawn random samples; `scatter` draws those samples
//! from a sampler and hands them to it. Every numeric step is mirrored
//! exactly by a spec function over `int`.

use crate::fx::{
    fx_div, fx_mul, isqrt, sqrt_floor, tdiv, SCALE, SCALE_CU, SCALE_P4, SCALE_P6, SCALE_SQ,
};
use crate::hittable::{hit_record_wf, HitRecord};
use crate::ray::{ray_wf, Ray};
use crate::sampler::Sampler;
use crate::utils::{near_zero, random_dvec3_unit};
use crate::vec3::{
    add3, dot3, norm_sq3, scale3, unit3, within3, Vec3, DIR_MAX, HIT_MAX,
};
use vstd::prelude::*;

verus! {

/// Smallest refraction index a dielectric may carry (an eighth).
pub const ETA_MIN: i64 = 8192;

/// Largest refraction index a dielectric may carry (eight).
pub const ETA_MAX: i64 = 524288;

/// Every component lies in `[0, 1]`: a color that attenuates.
pub open spec fn color01(c: (int, int, int)) -> bool {
    &&& 0 <= c.0 <= SCALE as int
    &&& 0 <= c.1 <= SCALE as int
    &&& 0 <= c.2 <= SCALE as int
}

/// The closed set of surface behaviors.
#[derive(Clone, Copy, Debug, Default, PartialEq, Eq, Structural)]
pub enum Material {
    #[default]
    Default,
    Lambertian { albedo: Vec3 },
    Metal { albedo: Vec3, fuzz: i64 },
    Dielectric { refraction_index: i64 },
}

/// Bounds every material of this crate meets: albedos are colors, fuzz is
/// never negative, and refraction indices lie in `[1/8, 8]`.
pub open spec fn material_wf(m: Material) -> bool {
    match m {
        Material::Default => true,
        Material::Lambertian { albedo } => color01(albedo@),
        Material::Metal { albedo, fuzz } => color01(albedo@) && fuzz >= 0,
        Material::Dielectric { refraction_index } => ETA_MIN <= refraction_index <= ETA_MAX,
    }
}

/// The incoming direction mirrored about the normal: `v - 2 (v . n) n`, the
/// correction term rounded toward zero.
pub open spec fn reflect3(v: (int, int, int), n: (int, int, int)) -> (int, int, int) {
    let d = dot3(v, n);
    (
        v.0 - tdiv(2 * d * n.0, SCALE_SQ as int),
        v.1 - tdiv(2 * d * n.1, SCALE_SQ as int),
        v.2 - tdiv(2 * d * n.2, SCALE_SQ as int),
    )
}

/// The refracted direction for relative index `eta`: the perpendicular part
/// `eta (uv + cos n)` and the parallel part `-sqrt(|1 - |perp|^2|) n`,
/// computed over raw values with a single rounding per component.
pub open spec fn refract3(uv: (int, int, int), n: (int, int, int), eta: int) -> (int, int, int) {
    let c0 = -dot3(uv, n);
    let c = if c0 > SCALE_SQ as int {
        SCALE_SQ as int
    } else {
        c0
    };
    let k0 = (SCALE_SQ as int) * uv.0 + c * n.0;
    let k1 = (SCALE_SQ as int) * uv.1 + c * n.1;
    let k2 = (SCALE_SQ as int) * uv.2 + c * n.2;
    let q = tdiv(k0 * k0 + k1 * k1 + k2 * k2, SCALE_SQ as int);
    let dd = (SCALE_P6 as int) - eta * eta * q;
    let ad = if dd >= 0 {
        dd
    } else {
        -dd
    };
    let par = sqrt_floor(ad as nat) as int;
    (
        tdiv(eta * k0 - par * n.0, SCALE_CU as int),
        tdiv(eta * k1 - par * n.1, SCALE_CU as int),
        tdiv(eta * k2 - par * n.2, SCALE_CU as int),
    )
}

/// Schlick's base reflectance `((1 - n) / (1 + n))^2`.
pub open spec fn schlick_r0(ri: int) -> int {
    let u = tdiv((SCALE as int - ri) * (SCALE as int), SCALE as int + ri);
    fx_mul(u, u)
}

/// Schlick's reflectance approximation `r0 + (1 - r0) (1 - cos)^5`.
pub open spec fn reflectance_spec(cos: int, ri: int) -> int {
    let r0 = schlick_r0(ri);
    let d = SCALE as int - cos;
    let p2 = fx_mul(d, d);
    let p4 = fx_mul(p2, p2);
    let p5 = fx_mul(p4, d);
    r0 + fx_mul(SCALE as int - r0, p5)
}

/// The model of one scattering outcome.
pub struct ScatterOut {
    pub attenuation: (int, int, int),
    pub origin: (int, int, int),
    pub direction: (int, int, int),
    pub time: int,
    pub continues: bool,
}

/// What `scatter_with` returns, as a function of the material, the incoming
/// ray, the hit and the two drawn samples. Only a metal absorbs, when its
/// fuzzed reflection leaves the surface inward; a reflection that rounds to
/// the zero vector stays zero (its dot with the normal is then zero, so the
/// path is absorbed by the same test).
pub open spec fn scatter_spec(
    m: Material,
    r_in: Ray,
    rec: HitRecord,
    ru: (int, int, int),
    q: int,
) -> ScatterOut {
    match m {
        Material::Default => ScatterOut {
            attenuation: (0int, 0int, 0int),
            origin: (SCALE as int, SCALE as int, SCALE as int),
            direction: (SCALE as int, SCALE as int, SCALE as int),
            time: 0,
            continues: true,
        },
        Material::Lambertian { albedo } => {
            let d0 = add3(rec.normal@, ru);
            let dir = if norm_sq3(d0) == 0 {
                rec.normal@
            } else {
                d0
            };
            ScatterOut {
                attenuation: albedo@,
                origin: rec.p@,
                direction: dir,
                time: r_in.time as int,
                continues: true,
            }
        },
        Material::Metal { albedo, fuzz } => {
            let f = if fuzz > SCALE {
                SCALE as int
            } else {
                fuzz as int
            };
            let refl = reflect3(r_in.direction@, rec.normal@);
            let reflu = if norm_sq3(refl) == 0 {
                refl
            } else {
                unit3(refl)
            };
            let dir = add3(reflu, scale3(f, ru));
            ScatterOut {
                attenuation: albedo@,
                origin: rec.p@,
                direction: dir,
                time: r_in.time as int,
                continues: dot3(dir, rec.normal@) > 0,
            }
        },
        Material::Dielectric { refraction_index } => {
            let eta = if rec.front_face {
                fx_div(SCALE as int, refraction_index as int)
            } else {
                refraction_index as int
            };
            let uv = unit3(r_in.direction@);
            let c0 = -dot3(uv, rec.normal@);
            let c = if c0 > SCALE_SQ as int {
                SCALE_SQ as int
            } else {
                c0
            };
            let sin2 = (SCALE_P4 as int) - c * c;
            let cannot = sin2 < 0 || eta * eta * sin2 > SCALE_P6 as int;
            let dir = if cannot || reflectance_spec(tdiv(c, SCALE as int), eta) > q {
                reflect3(uv, rec.normal@)
            } else {
                refract3(uv, rec.normal@, eta)
            };
            ScatterOut {
                attenuation: (SCALE as int, SCALE as int, SCALE as int),
                origin: rec.p@,
                direction: dir,
                time: r_in.time as int,
                continues: true,
            }
        },
    }
}

impl Material {
    /// Scatters the incoming ray at the hit, drawing the needed samples from
    /// the sampler and handing them to `scatter_with`.
    pub fn scatter(&self, r_in: Ray, rec: &HitRecord, sampler: &mut Sampler) -> (res: Option<
        (Vec3, Ray, bool),
    >)
        requires
            material_wf(*self),
            hit_record_wf(*rec),
            ray_wf(r_in),
            norm_sq3(r_in.direction@) > 0,
        ensures
            res matches Some(out) && exists|ru: (int, int, int), q: int|
                {
                    &&& within3(ru, SCALE as int)
                    &&& 0 <= q <= SCALE as int
                    &&& #[trigger] scatter_matches(
                        scatter_spec(*self, r_in, *rec, ru, q),
                        out.0,
                        out.1,
                        out.2,
                    )
                },
            res matches Some(out) && color01(out.0@) && (out.2 ==> within3(
                out.1.direction@,
                DIR_MAX as int,
            ) && within3(out.1.origin@, HIT_MAX as int) && 0 <= out.1.time <= SCALE),
    {
        let ru = random_dvec3_unit(sampler);
        let q = sampler.next_in(0, SCALE);
        let res = self.scatter_with(r_in, rec, ru, q);
        proof {
            let out = res->Some_0;
            assert(scatter_matches(
                scatter_spec(*self, r_in, *rec, ru@, q as int),
                out.0,
                out.1,
                out.2,
            ));
        }
        res
    }

    /// Scatters with explicitly supplied samples: a pure function, mirrored
    /// exactly by `scatter_spec`.
    pub fn scatter_with(&self, r_in: Ray, rec: &HitRecord, rand_unit: Vec3, rand_uniform: i64) -> (
    res: Option<(Vec3, Ray, bool)>)
        requires
            material_wf(*self),
            hit_record_wf(*rec),
            ray_wf(r_in),
            norm_sq3(r_in.direction@) > 0,
            within3(rand_unit@, SCALE as int),
            0 <= rand_uniform <= SCALE,
        ensures
            res matches Some(out) && scatter_matches(
                scatter_spec(*self, r_in, *rec, rand_unit@, rand_uniform as int),
                out.0,
                out.1,
                out.2,
            ),
            res matches Some(out) && color01(out.0@) && (out.2 ==> within3(
                out.1.direction@,
                DIR_MAX as int,
            ) && within3(out.1.origin@, HIT_MAX as int) && 0 <= out.1.time <= SCALE),
    {
        match self {
            Material::Default => {
                let one = Vec3 { x: SCALE, y: SCALE, z: SCALE };
                proof {
                    assert(norm_sq3(one@) > 0) by (nonlinear_arith)
                        requires
                            one@ == (SCALE as int, SCALE as int, SCALE as int),
                    ;
                }
                Some((Vec3::zero(), Ray::with_direction(one, one), true))
            },
            Material::Lambertian { albedo } => {
                let mut direction = rec.normal.add(&rand_unit);
                if near_zero(&direction) {
                    direction = rec.normal;
                }
                proof {
                    crate::vec3::lemma_norm_sq_nonneg(direction@);
                }
                let scattered = Ray::with_time(rec.p, direction, r_in.time);
                Some((*albedo, scattered, true))
            },
            Material::Metal { albedo, fuzz } => {
                let f: i64 = if *fuzz > SCALE {
                    SCALE
                } else {
                    *fuzz
                };
                let reflected0 = Material::reflect(r_in.direction, rec.normal).unwrap();
                let r_sq: i128 = reflected0.length_sq_raw();
                let reflected = if r_sq == 0 {
                    proof {
                        crate::vec3::lemma_norm_sq_zero(reflected0@);
                    }
                    reflected0
                } else {
                    reflected0.normalized()
                };
                proof {
                    crate::fx::lemma_fx_mul_keeps_bound(f as int, rand_unit@.0, SCALE as int);
                    crate::fx::lemma_fx_mul_keeps_bound(f as int, rand_unit@.1, SCALE as int);
                    crate::fx::lemma_fx_mul_keeps_bound(f as int, rand_unit@.2, SCALE as int);
                }
                let fuzzed = rand_unit.scale(f);
                let direction = reflected.add(&fuzzed);
                let d: i128 = direction.dot_raw(&rec.normal);
                let keeps = d > 0;
                let scattered = Ray::with_time(rec.p, direction, r_in.time);
                Some((*albedo, scattered, keeps))
            },
            Material::Dielectric { refraction_index } => {
                let ri: i64 = *refraction_index;
                let eta: i64 = if rec.front_face {
                    proof {
                        lemma_recip_eta_range(ri as int);
                    }
                    crate::fx::fx_div64(SCALE, ri)
                } else {
                    ri
                };
                let attenuation = Vec3 { x: SCALE, y: SCALE, z: SCALE };
                let uv = r_in.direction.normalized();
                let dp: i128 = uv.dot_raw(&rec.normal);
                proof {
                    crate::vec3::lemma_dot_bound(uv@, rec.normal@, SCALE as int, 2 * SCALE);
                }
                let c0: i128 = -dp;
                let c: i128 = if c0 > SCALE_SQ as i128 {
                    SCALE_SQ as i128
                } else {
                    c0
                };
                proof {
                    crate::vec3::lemma_mul_bound(c as int, c as int, 0xC00000000, 0xC00000000);
                    crate::vec3::lemma_mul_bound(eta as int, eta as int, 0x80000, 0x80000);
                }
                let sin2: i128 = SCALE_P4 - c * c;
                let e2: i128 = (eta as i128) * (eta as i128);
                proof {
                    crate::vec3::lemma_mul_bound(
                        e2 as int,
                        sin2 as int,
                        0x4000000000,
                        0xA00000000000000000,
                    );
                }
                let cannot_refract = sin2 < 0 || e2 * sin2 > SCALE_P6;
                proof {
                    crate::fx::lemma_tdiv_bound(c as int, SCALE as int, 786432);
                }
                let cos_fx: i64 = (c / (SCALE as i128)) as i64;
                let chooses_reflect = cannot_refract || Material::reflectance(cos_fx, eta)
                    > rand_uniform;
                let direction = if chooses_reflect {
                    Material::reflect(uv, rec.normal).unwrap()
                } else {
                    Material::refract(uv, rec.normal, eta).unwrap()
                };
                let scattered = Ray::with_time(rec.p, direction, r_in.time);
                Some((attenuation, scattered, true))
            },
        }
    }

    /// Schlick's reflectance approximation; within `[0, 1]` whenever the
    /// cosine is.
    pub fn reflectance(cosine: i64, refraction_index: i64) -> (res: i64)
        requires
            -786432 <= cosine <= SCALE,
            ETA_MIN <= refraction_index <= ETA_MAX,
        ensures
            res == reflectance_spec(cosine as int, refraction_index as int),
            cosine >= 0 ==> 0 <= res <= SCALE,
    {
        proof {
            lemma_schlick_r0_range(refraction_index as int);
        }
        proof {
            crate::vec3::lemma_mul_bound(
                (SCALE - refraction_index) as int,
                SCALE as int,
                458752,
                65536,
            );
        }
        let num: i128 = ((SCALE - refraction_index) as i128) * (SCALE as i128);
        let u: i64 = (num / ((SCALE + refraction_index) as i128)) as i64;
        proof {
            crate::vec3::lemma_mul_bound(u as int, u as int, SCALE as int, SCALE as int);
            crate::fx::lemma_tdiv_bound(
                (u as int) * (u as int),
                SCALE as int,
                SCALE as int,
            );
        }
        let r0: i64 = crate::fx::fx_mul64(u, u);
        let d: i64 = SCALE - cosine;
        proof {
            crate::vec3::lemma_mul_bound(d as int, d as int, 851968, 851968);
            crate::fx::lemma_tdiv_bound((d as int) * (d as int), SCALE as int, 11075584);
        }
        let p2: i64 = crate::fx::fx_mul64(d, d);
        proof {
            crate::vec3::lemma_mul_bound(p2 as int, p2 as int, 11075584, 11075584);
            crate::fx::lemma_tdiv_bound((p2 as int) * (p2 as int), SCALE as int, 1871773696);
        }
        let p4: i64 = crate::fx::fx_mul64(p2, p2);
        proof {
            crate::vec3::lemma_mul_bound(p4 as int, d as int, 1871773696, 851968);
            crate::fx::lemma_tdiv_bound((p4 as int) * (d as int), SCALE as int, 24333058048);
        }
        let p5: i64 = crate::fx::fx_mul64(p4, d);
        proof {
            crate::vec3::lemma_mul_bound((SCALE - r0) as int, p5 as int, 65536, 24333058048);
            crate::fx::lemma_tdiv_bound(
                ((SCALE - r0) as int) * (p5 as int),
                SCALE as int,
                24333058048,
            );
            if cosine >= 0 {
                crate::fx::lemma_fx_mul_unit(d as int, d as int);
                crate::fx::lemma_fx_mul_unit(p2 as int, p2 as int);
                crate::fx::lemma_fx_mul_unit(p4 as int, d as int);
                crate::fx::lemma_fx_mul_unit((SCALE - r0) as int, p5 as int);
            }
        }
        let tail: i64 = crate::fx::fx_mul64(SCALE - r0, p5);
        r0 + tail
    }

    /// Mirrors the incoming direction about the normal.
    pub fn reflect(v: Vec3, n: Vec3) -> (res: Option<Vec3>)
        requires
            within3(v@, DIR_MAX as int),
            within3(n@, 2 * SCALE),
        ensures
            res matches Some(u) && u@ == reflect3(v@, n@),
            res matches Some(u) ==> within3(u@, DIR_MAX as int + 0x300000000),
            res matches Some(u) && (within3(v@, 2 * SCALE) ==> within3(u@, 0x340000)),
    {
        let d: i128 = v.dot_raw(&n);
        proof {
            crate::vec3::lemma_dot_bound(v@, n@, DIR_MAX as int, 2 * SCALE);
            if within3(v@, 2 * SCALE) {
                crate::vec3::lemma_dot_bound(v@, n@, 2 * SCALE, 2 * SCALE);
                crate::vec3::lemma_mul_bound(2 * (d as int), n@.0, 0x1800000000, 0x20000);
                crate::vec3::lemma_mul_bound(2 * (d as int), n@.1, 0x1800000000, 0x20000);
                crate::vec3::lemma_mul_bound(2 * (d as int), n@.2, 0x1800000000, 0x20000);
                crate::fx::lemma_tdiv_bound(2 * (d as int) * n@.0, SCALE_SQ as int, 0x300000);
                crate::fx::lemma_tdiv_bound(2 * (d as int) * n@.1, SCALE_SQ as int, 0x300000);
                crate::fx::lemma_tdiv_bound(2 * (d as int) * n@.2, SCALE_SQ as int, 0x300000);
            }
            crate::vec3::lemma_mul_bound(2 * (d as int), n@.0, 0x1800000000000, 0x20000);
            crate::vec3::lemma_mul_bound(2 * (d as int), n@.1, 0x1800000000000, 0x20000);
            crate::vec3::lemma_mul_bound(2 * (d as int), n@.2, 0x1800000000000, 0x20000);
            crate::fx::lemma_tdiv_bound(2 * (d as int) * n@.0, SCALE_SQ as int, 0x300000000);
            crate::fx::lemma_tdiv_bound(2 * (d as int) * n@.1, SCALE_SQ as int, 0x300000000);
            crate::fx::lemma_tdiv_bound(2 * (d as int) * n@.2, SCALE_SQ as int, 0x300000000);
        }
        let rx: i128 = (v.x as i128) - (2 * d * (n.x as i128)) / (SCALE_SQ as i128);
        let ry: i128 = (v.y as i128) - (2 * d * (n.y as i128)) / (SCALE_SQ as i128);
        let rz: i128 = (v.z as i128) - (2 * d * (n.z as i128)) / (SCALE_SQ as i128);
        Some(Vec3 { x: rx as i64, y: ry as i64, z: rz as i64 })
    }

    /// Refracts the (unit) incoming direction through the surface for the
    /// given relative index.
    pub fn refract(v: Vec3, n: Vec3, ni_over_nt: i64) -> (res: Option<Vec3>)
        requires
            within3(v@, 2 * SCALE),
            within3(n@, 2 * SCALE),
            ETA_MIN <= ni_over_nt <= ETA_MAX,
        ensures
            res matches Some(u) && u@ == refract3(v@, n@, ni_over_nt as int),
            res matches Some(u) ==> within3(u@, 0x8000000),
    {
        let dp: i128 = v.dot_raw(&n);
        proof {
            crate::vec3::lemma_dot_bound(v@, n@, 2 * SCALE, 2 * SCALE);
        }
        let c0: i128 = -dp;
        let c: i128 = if c0 > SCALE_SQ as i128 {
            SCALE_SQ as i128
        } else {
            c0
        };
        proof {
            crate::vec3::lemma_mul_bound(c as int, n@.0, 0xC00000000, 0x20000);
            crate::vec3::lemma_mul_bound(c as int, n@.1, 0xC00000000, 0x20000);
            crate::vec3::lemma_mul_bound(c as int, n@.2, 0xC00000000, 0x20000);
            crate::vec3::lemma_mul_bound(SCALE_SQ as int, v@.0, SCALE_SQ as int, 0x20000);
            crate::vec3::lemma_mul_bound(SCALE_SQ as int, v@.1, SCALE_SQ as int, 0x20000);
            crate::vec3::lemma_mul_bound(SCALE_SQ as int, v@.2, SCALE_SQ as int, 0x20000);
        }
        let kx: i128 = (SCALE_SQ as i128) * (v.x as i128) + c * (n.x as i128);
        let ky: i128 = (SCALE_SQ as i128) * (v.y as i128) + c * (n.y as i128);
        let kz: i128 = (SCALE_SQ as i128) * (v.z as i128) + c * (n.z as i128);
        proof {
            crate::vec3::lemma_mul_bound(kx as int, kx as int, 0x1A000000000000, 0x1A000000000000);
            crate::vec3::lemma_mul_bound(ky as int, ky as int, 0x1A000000000000, 0x1A000000000000);
            crate::vec3::lemma_mul_bound(kz as int, kz as int, 0x1A000000000000, 0x1A000000000000);
            assert(kx as int * (kx as int) >= 0) by (nonlinear_arith);
            assert(ky as int * (ky as int) >= 0) by (nonlinear_arith);
            assert(kz as int * (kz as int) >= 0) by (nonlinear_arith);
        }
        let ksq: i128 = kx * kx + ky * ky + kz * kz;
        proof {
            crate::fx::lemma_tdiv_abs_le(ksq as int, SCALE_SQ as int);
        }
        let q: i128 = ksq / (SCALE_SQ as i128);
        proof {
            crate::vec3::lemma_mul_bound(ni_over_nt as int, ni_over_nt as int, 0x80000, 0x80000);
        }
        let e2: i128 = (ni_over_nt as i128) * (ni_over_nt as i128);
        proof {
            crate::vec3::lemma_mul_bound(e2 as int, q as int, 0x4000000000, 0x8000000000000000000);
        }
        let w: i128 = e2 * q;
        let dd: i128 = SCALE_P6 - w;
        let ad: i128 = if dd >= 0 {
            dd
        } else {
            -dd
        };
        let par64: u64 = isqrt(ad as u128);
        proof {
            assert(par64 as int <= 0x200000000000000) by (nonlinear_arith)
                requires
                    (par64 as int) * (par64 as int) <= ad as int,
                    0 <= ad as int <= 0x40000000000000000000000000000,
                    par64 >= 0,
            ;
        }
        let par: i128 = par64 as i128;
        proof {
            crate::vec3::lemma_mul_bound(ni_over_nt as int, kx as int, 0x80000, 0x1A000000000000);
            crate::vec3::lemma_mul_bound(ni_over_nt as int, ky as int, 0x80000, 0x1A000000000000);
            crate::vec3::lemma_mul_bound(ni_over_nt as int, kz as int, 0x80000, 0x1A000000000000);
            crate::vec3::lemma_mul_bound(par as int, n@.0, 0x200000000000000, 0x20000);
            crate::vec3::lemma_mul_bound(par as int, n@.1, 0x200000000000000, 0x20000);
            crate::vec3::lemma_mul_bound(par as int, n@.2, 0x200000000000000, 0x20000);
            crate::fx::lemma_tdiv_bound(
                (ni_over_nt as int) * (kx as int) - (par as int) * n@.0,
                SCALE_CU as int,
                0x8000000,
            );
            crate::fx::lemma_tdiv_bound(
                (ni_over_nt as int) * (ky as int) - (par as int) * n@.1,
                SCALE_CU as int,
                0x8000000,
            );
            crate::fx::lemma_tdiv_bound(
                (ni_over_nt as int) * (kz as int) - (par as int) * n@.2,
                SCALE_CU as int,
                0x8000000,
            );
        }
        let ox: i128 = ((ni_over_nt as i128) * kx - par * (n.x as i128)) / (SCALE_CU as i128);
        let oy: i128 = ((ni_over_nt as i128) * ky - par * (n.y as i128)) / (SCALE_CU as i128);
        let oz: i128 = ((ni_over_nt as i128) * kz - par * (n.z as i128)) / (SCALE_CU as i128);
        Some(Vec3 { x: ox as i64, y: oy as i64, z: oz as i64 })
    }
}

/// Whether a spec outcome agrees with an executable one, field by field.
pub open spec fn scatter_matches(o: ScatterOut, att: Vec3, sc: Ray, cont: bool) -> bool {
    &&& att@ == o.attenuation
    &&& sc.origin@ == o.origin
    &&& sc.direction@ == o.direction
    &&& sc.time as int == o.time
    &&& cont == o.continues
}

/// The reciprocal of a refraction index in `[1/8, 8]` lies in `[1/8, 8]`.
proof fn lemma_recip_eta_range(ri: int)
    requires
        ETA_MIN <= ri <= ETA_MAX,
    ensures
        ETA_MIN <= fx_div(SCALE as int, ri) <= ETA_MAX,
{
    let num = (SCALE as int) * (SCALE as int);
    assert(num == 0x100000000);
    crate::fx::lemma_tdiv_bound(num, ri, ETA_MAX as int);
    vstd::arithmetic::div_mod::lemma_fundamental_div_mod(num, ri);
    assert(num / ri >= ETA_MIN) by (nonlinear_arith)
        requires
            num == ri * (num / ri) + num % ri,
            0 <= num % ri < ri,
            ETA_MIN <= ri <= ETA_MAX,
            num == 0x100000000,
            ETA_MIN == 8192,
            ETA_MAX == 524288,
    ;
}

/// Schlick's base reflectance lies in `[0, 1]`.
proof fn lemma_schlick_r0_range(ri: int)
    requires
        ETA_MIN <= ri <= ETA_MAX,
    ensures
        0 <= schlick_r0(ri) <= SCALE as int,
        -SCALE as int <= tdiv((SCALE as int - ri) * (SCALE as int), SCALE as int + ri)
            <= SCALE as int,
{
    let u = tdiv((SCALE as int - ri) * (SCALE as int), SCALE as int + ri);
    assert(-((SCALE as int) * (SCALE as int + ri)) <= (SCALE as int - ri) * (SCALE as int) <= (
    SCALE as int) * (SCALE as int + ri)) by (nonlinear_arith)
        requires
            ri >= 1,
    ;
    crate::fx::lemma_tdiv_bound(
        (SCALE as int - ri) * (SCALE as int),
        SCALE as int + ri,
        SCALE as int,
    );
    crate::vec3::lemma_mul_bound(u, u, SCALE as int, SCALE as int);
    assert(u * u >= 0) by (nonlinear_arith);
    crate::fx::lemma_tdiv_bound(u * u, SCALE as int, SCALE as int);
    vstd::arithmetic::div_mod::lemma_div_pos_is_pos(u * u, SCALE as int);
}


/// Refracting with a relative index of one returns the direction unchanged:
/// for exactly unit-length vectors with the normal opposing the direction,
/// every rounding in `refract3` is exact and the output equals the input.
pub proof fn lemma_refract_identity(uv: (int, int, int), n: (int, int, int))
    requires
        norm_sq3(uv) == SCALE_SQ as int,
        norm_sq3(n) == SCALE_SQ as int,
        dot3(uv, n) <= 0,
    ensures
        refract3(uv, n, SCALE as int) == uv,
{
    let s = SCALE as int;
    let ssq = SCALE_SQ as int;
    assert(ssq == 0x1_0000_0000);
    assert(0x1_0000_0000int == 65536 * 65536) by (nonlinear_arith);
    assert(ssq == s * s);
    // The cosine is clamped only above one; Cauchy-Schwarz rules that out.
    crate::vec3::lemma_cauchy_schwarz(uv, n);
    let d = dot3(uv, n);
    let c = -dot3(uv, n);
    assert(c * c == d * d) by (nonlinear_arith)
        requires
            c == -d,
    ;
    assert(c * c <= ssq * ssq);
    assert(c <= ssq) by (nonlinear_arith)
        requires
            c * c <= ssq * ssq && c >= 0 && ssq > 0,
    ;
    let k0 = ssq * uv.0 + c * n.0;
    let k1 = ssq * uv.1 + c * n.1;
    let k2 = ssq * uv.2 + c * n.2;
    // Sum of squared components of k telescopes to ssq^2 * ssq - ssq * c^2.
    lemma_k_expand(uv.0, n.0, ssq, c);
    lemma_k_expand(uv.1, n.1, ssq, c);
    lemma_k_expand(uv.2, n.2, ssq, c);
    assert(norm_sq3(uv) * (ssq * ssq) == (uv.0 * uv.0) * (ssq * ssq) + (uv.1 * uv.1) * (ssq * ssq)
        + (uv.2 * uv.2) * (ssq * ssq)) by (nonlinear_arith)
        requires
            norm_sq3(uv) == uv.0 * uv.0 + uv.1 * uv.1 + uv.2 * uv.2,
    ;
    assert(dot3(uv, n) * (ssq * c) == (uv.0 * n.0) * (ssq * c) + (uv.1 * n.1) * (ssq * c) + (uv.2
        * n.2) * (ssq * c)) by (nonlinear_arith)
        requires
            dot3(uv, n) == uv.0 * n.0 + uv.1 * n.1 + uv.2 * n.2,
    ;
    assert(norm_sq3(n) * (c * c) == (n.0 * n.0) * (c * c) + (n.1 * n.1) * (c * c) + (n.2 * n.2) * (
    c * c)) by (nonlinear_arith)
        requires
            norm_sq3(n) == n.0 * n.0 + n.1 * n.1 + n.2 * n.2,
    ;
    assert(dot3(uv, n) * (ssq * c) == -(ssq * (c * c))) by (nonlinear_arith)
        requires
            dot3(uv, n) == -c,
    ;
    assert(norm_sq3(uv) * (ssq * ssq) == ssq * (ssq * ssq)) by (nonlinear_arith)
        requires
            norm_sq3(uv) == ssq,
    ;
    assert(norm_sq3(n) * (c * c) == ssq * (c * c)) by (nonlinear_arith)
        requires
            norm_sq3(n) == ssq,
    ;
    let ksq = k0 * k0 + k1 * k1 + k2 * k2;
    assert(ksq == ssq * (ssq * ssq) - 2 * (ssq * (c * c)) + ssq * (c * c));
    assert(ksq == (ssq * ssq - c * c) * ssq) by (nonlinear_arith)
        requires
            ksq == ssq * (ssq * ssq) - 2 * (ssq * (c * c)) + ssq * (c * c),
    ;
    assert(ssq * ssq - c * c >= 0) by (nonlinear_arith)
        requires
            c * c <= ssq * ssq,
    ;
    crate::fx::lemma_tdiv_multiple(ssq * ssq - c * c, ssq);
    let q = tdiv(ksq, ssq);
    assert(q == ssq * ssq - c * c);
    // The discriminant of the parallel part is a perfect square.
    let dd = (SCALE_P6 as int) - s * s * q;
    assert(SCALE_P6 as int == ssq * (ssq * ssq)) by (nonlinear_arith)
        requires
            ssq == 0x1_0000_0000 && SCALE_P6 as int == 0x1_0000_0000_0000_0000_0000_0000,
    ;
    assert(dd == ssq * (c * c)) by (nonlinear_arith)
        requires
            dd == ssq * (ssq * ssq) - s * s * (ssq * ssq - c * c) && ssq == s * s,
    ;
    assert(c * c >= 0) by (nonlinear_arith);
    assert(dd >= 0) by (nonlinear_arith)
        requires
            dd == ssq * (c * c) && c * c >= 0 && ssq > 0,
    ;
    assert((s * c) * (s * c) == ssq * (c * c)) by (nonlinear_arith)
        requires
            ssq == s * s,
    ;
    assert(s * c >= 0) by (nonlinear_arith)
        requires
            s > 0 && c >= 0,
    ;
    assert((s * c) * (s * c) < (s * c + 1) * (s * c + 1)) by (nonlinear_arith)
        requires
            s * c >= 0,
    ;
    crate::fx::lemma_sqrt_floor_unique(dd as nat, (s * c) as nat);
    let par = sqrt_floor(dd as nat) as int;
    assert(par == s * c);
    // The numerators collapse to uv scaled by SCALE cubed exactly.
    assert(SCALE_CU as int == s * ssq) by (nonlinear_arith)
        requires
            s == 65536 && ssq == 0x1_0000_0000 && SCALE_CU as int == 0x1_0000_0000_0000,
    ;
    lemma_out_collapse(uv.0, n.0, s, ssq, c, k0, par);
    lemma_out_collapse(uv.1, n.1, s, ssq, c, k1, par);
    lemma_out_collapse(uv.2, n.2, s, ssq, c, k2, par);
    crate::fx::lemma_tdiv_multiple(uv.0, s * ssq);
    crate::fx::lemma_tdiv_multiple(uv.1, s * ssq);
    crate::fx::lemma_tdiv_multiple(uv.2, s * ssq);
}

/// One squared component of `ssq uv + c n`, expanded.
proof fn lemma_k_expand(x: int, y: int, ssq: int, c: int)
    ensures
        (ssq * x + c * y) * (ssq * x + c * y) == (x * x) * (ssq * ssq) + 2 * ((x * y) * (ssq * c))
            + (y * y) * (c * c),
{
    let u = ssq * x;
    let v = c * y;
    assert((u + v) * (u + v) == u * u + 2 * (u * v) + v * v) by (nonlinear_arith);
    assert(u * u == (x * x) * (ssq * ssq)) by (nonlinear_arith)
        requires
            u == ssq * x,
    ;
    assert(u * v == (x * y) * (ssq * c)) by (nonlinear_arith)
        requires
            u == ssq * x && v == c * y,
    ;
    assert(v * v == (y * y) * (c * c)) by (nonlinear_arith)
        requires
            v == c * y,
    ;
}

/// One output numerator of the identity refraction collapses to the input
/// component scaled by `s * ssq`.
proof fn lemma_out_collapse(x: int, y: int, s: int, ssq: int, c: int, k: int, par: int)
    requires
        k == ssq * x + c * y,
        par == s * c,
    ensures
        s * k - par * y == x * (s * ssq),
{
    assert(s * (ssq * x + c * y) - (s * c) * y == x * (s * ssq)) by (nonlinear_arith);
}

/// Schlick's reflectance at a head-on cosine of one is exactly the base
/// reflectance.
pub proof fn lemma_reflectance_head_on(ri: int)
    requires
        ETA_MIN <= ri <= ETA_MAX,
    ensures
        reflectance_spec(SCALE as int, ri) == schlick_r0(ri),
{
    let r0 = schlick_r0(ri);
    assert(fx_mul(0, 0) == 0) by {
        assert(0int * 0int == 0) by (nonlinear_arith);
        crate::fx::lemma_tdiv_multiple(0, SCALE as int);
        assert(0int * (SCALE as int) == 0) by (nonlinear_arith);
    }
    assert((SCALE as int - r0) * 0 == 0) by (nonlinear_arith);
    assert(fx_mul(SCALE as int - r0, 0) == 0) by {
        crate::fx::lemma_tdiv_multiple(0, SCALE as int);
        assert(0int * (SCALE as int) == 0) by (nonlinear_arith);
    }
}

/// Schlick's reflectance at a grazing cosine of zero is exactly one.
pub proof fn lemma_reflectance_grazing(ri: int)
    requires
        ETA_MIN <= ri <= ETA_MAX,
    ensures
        reflectance_spec(0, ri) == SCALE as int,
{
    let s = SCALE as int;
    let r0 = schlick_r0(ri);
    crate::fx::lemma_tdiv_multiple(s, s);
    assert(fx_mul(s, s) == s);
    crate::fx::lemma_tdiv_multiple(s - r0, s);
    assert(fx_mul(s - r0, s) == s - r0);
}

/// Schlick's reflectance never decreases as the cosine falls from head-on
/// toward grazing: together with the exact value of one at a cosine of zero,
/// the reflectance climbs to one at grazing incidence.
pub proof fn lemma_reflectance_antitone(cos1: int, cos2: int, ri: int)
    requires
        ETA_MIN <= ri <= ETA_MAX,
        0 <= cos1 <= cos2 <= SCALE as int,
    ensures
        reflectance_spec(cos2, ri) <= reflectance_spec(cos1, ri),
{
    let s = SCALE as int;
    lemma_schlick_r0_range(ri);
    let r0 = schlick_r0(ri);
    let d1 = s - cos1;
    let d2 = s - cos2;
    crate::fx::lemma_fx_mul_unit(d1, d1);
    crate::fx::lemma_fx_mul_unit(d2, d2);
    crate::fx::lemma_fx_mul_mono(d2, d2, d1, d1);
    let p2a = fx_mul(d1, d1);
    let p2b = fx_mul(d2, d2);
    crate::fx::lemma_fx_mul_unit(p2a, p2a);
    crate::fx::lemma_fx_mul_unit(p2b, p2b);
    crate::fx::lemma_fx_mul_mono(p2b, p2b, p2a, p2a);
    let p4a = fx_mul(p2a, p2a);
    let p4b = fx_mul(p2b, p2b);
    crate::fx::lemma_fx_mul_unit(p4a, d1);
    crate::fx::lemma_fx_mul_unit(p4b, d2);
    crate::fx::lemma_fx_mul_mono(p4b, d2, p4a, d1);
    let p5a = fx_mul(p4a, d1);
    let p5b = fx_mul(p4b, d2);
    crate::fx::lemma_fx_mul_mono(s - r0, p5b, s - r0, p5a);
}

/// Scattering is a pure function of the material, the incoming ray, the hit
/// record and the drawn samples: repeated with the same draws, it yields an
/// identical outcome.
pub proof fn lemma_scatter_deterministic(
    m: Material,
    r_in: Ray,
    rec: HitRecord,
    ru1: (int, int, int),
    q1: int,
    ru2: (int, int, int),
    q2: int,
)
    requires
        ru1 == ru2,
        q1 == q2,
    ensures
        scatter_spec(m, r_in, rec, ru1, q1) == scatter_spec(m, r_in, rec, ru2, q2),
{
}

} // verus!
