//! The material model: how a surface absorbs, reflects or re-emits an
//! incoming ray.

use vstd::prelude::*;
use crate::fx::{Fx, SCALE, fxmul_s, fx_wf};
use crate::vec3::{
    Vec3, V3i, v3, add_s, sub_s, smul_s, dot_s, unit_s, v3_wf, v3_bounded, in_ball,
    random_in_unit_sphere, lemma_fxmul_bound, lemma_dot_bound, lemma_dot_bound2, LEN_LIM,
};
use crate::ray::{Ray, RayS};
use crate::hittable::{HitRecord, HitS, hit_wf};

verus! {

#[derive(Debug, Clone, Copy)]
pub enum Material {
    Lambertian { albedo: Vec3 },
    Metal { albedo: Vec3, fuzz: Fx },
    Dielectric {},
    Emissive { emittance: Vec3 },
}

impl Material {
    /// What `default` returns: a black diffuse surface.
    pub open spec fn default_spec() -> Material {
        Material::Lambertian {
            albedo: Vec3 { x: Fx { v: 0 }, y: Fx { v: 0 }, z: Fx { v: 0 } },
        }
    }
}

impl Default for Material {
    fn default() -> (r: Material)
        ensures
            r == Material::default_spec(),
    {
        Material::Lambertian {
            albedo: Vec3 { x: Fx { v: 0 }, y: Fx { v: 0 }, z: Fx { v: 0 } },
        }
    }
}

/// Every color channel of the material is a nonnegative scene-bounded value,
/// and metal roughness is scene-bounded.
pub open spec fn mat_wf(m: Material) -> bool {
    match m {
        Material::Lambertian { albedo } => color_wf(albedo@),
        Material::Metal { albedo, fuzz } => color_wf(albedo@) && fx_wf(fuzz@),
        Material::Dielectric {} => true,
        Material::Emissive { emittance } => color_wf(emittance@),
    }
}

/// Nonnegative, scene-bounded channels.
pub open spec fn color_wf(c: V3i) -> bool {
    v3_wf(c) && c.x >= 0 && c.y >= 0 && c.z >= 0
}

/// Mirror reflection about a surface normal: exactly what `reflect` returns.
pub open spec fn reflect_s(v: V3i, n: V3i) -> V3i {
    sub_s(v, smul_s(fxmul_s(2 * SCALE, dot_s(v, n)), n))
}

/// Metal roughness clamped to `[0, 1]`.
pub open spec fn clamp01_s(f: int) -> int {
    if f < 0 {
        0
    } else if f > SCALE {
        SCALE as int
    } else {
        f
    }
}

/// What `scatter` promises of its outcome.  The perturbation `q` is the one
/// random draw the outcome depends on; nothing more is known of it than that
/// it lies in the unit ball.
pub open spec fn scatter_post(
    m: Material,
    ray_in: RayS,
    rec: HitS,
    att: V3i,
    sc: RayS,
    b: bool,
) -> bool {
    match m {
        Material::Lambertian { albedo } => {
            b && att == albedo@ && sc.origin == rec.p && exists|q: V3i|
                #[trigger] in_ball(q) && sc.direction == add_s(rec.normal, q)
        },
        Material::Metal { albedo, fuzz } => {
            if dot_s(ray_in.direction, ray_in.direction) < 1 {
                !b
            } else {
                att == albedo@ && sc.origin == rec.p && b == (dot_s(sc.direction, rec.normal)
                    > 0) && exists|q: V3i|
                    #[trigger] in_ball(q) && sc.direction == add_s(
                        reflect_s(unit_s(ray_in.direction), rec.normal),
                        smul_s(clamp01_s(fuzz@), q),
                    )
            }
        },
        Material::Dielectric {} => !b,
        Material::Emissive { emittance } => {
            b && att == emittance@ && sc == (RayS { origin: rec.p, direction: rec.normal })
        },
    }
}

/// Applies the material rule at a hit: fills in the attenuation and the
/// scattered ray and says whether the path continues.
pub fn scatter(
    material: &Material,
    ray_in: &Ray,
    rec: &HitRecord,
    attentuation: &mut Vec3,
    scattered: &mut Ray,
) -> (b: bool)
    requires
        mat_wf(*material),
        hit_wf(rec@),
        v3_wf(ray_in@.direction),
    ensures
        scatter_post(*material, ray_in@, rec@, final(attentuation)@, final(scattered)@, b),
        b ==> color_wf(final(attentuation)@),
        *material matches Material::Dielectric { .. } ==> *final(attentuation) == *old(
            attentuation,
        ) && *final(scattered) == *old(scattered),
        (*material matches Material::Metal { .. } && dot_s(ray_in@.direction, ray_in@.direction)
            < 1) ==> *final(attentuation) == *old(attentuation) && *final(scattered) == *old(
            scattered,
        ),
{
    match *material {
        Material::Lambertian { albedo } => {
            let ball = random_in_unit_sphere();
            let target = rec.p.add(rec.normal).add(ball);
            *scattered = Ray::ray(rec.p, target.sub(rec.p));
            *attentuation = albedo;
            proof {
                let q = ball@;
                assert(in_ball(q) && (*scattered)@.direction == add_s(rec@.normal, q));
            }
            true
        },
        Material::Metal { albedo, fuzz } => {
            let sq = ray_in.direction().squared_length();
            if sq.v < 1 {
                // a degenerate (vanishing) direction cannot be mirrored: absorb
                return false;
            }
            let f = if fuzz.v < 0 {
                Fx { v: 0 }
            } else if fuzz.v > 1_000_000 {
                Fx { v: 1_000_000 }
            } else {
                fuzz
            };
            let unit_in = Vec3::unit_vector(&ray_in.direction());
            proof {
                lemma_unit_wfish(ray_in@.direction);
            }
            let reflected = reflect(unit_in, rec.normal);
            let ball = random_in_unit_sphere();
            let fq = ball.scale(f);
            proof {
                let wf = crate::fx::FX_WF as int;
                let u = unit_s(ray_in@.direction);
                let nv = rec@.normal;
                crate::vec3::lemma_unit_bound(ray_in@.direction);
                lemma_dot_bound2(u, nv, 2 * SCALE, wf);
                lemma_fxmul_bound(2 * SCALE, dot_s(u, nv), 2 * SCALE, 3 * ((2 * SCALE * wf) / (
                SCALE as int)));
                let k = fxmul_s(2 * SCALE, dot_s(u, nv));
                let kb = ((2 * SCALE) * (3 * ((2 * SCALE * wf) / (SCALE as int)))) / (SCALE as int);
                lemma_fxmul_bound(k, nv.x, kb, wf);
                lemma_fxmul_bound(k, nv.y, kb, wf);
                lemma_fxmul_bound(k, nv.z, kb, wf);
                lemma_fxmul_bound(f@, ball@.x, SCALE as int, SCALE as int);
                lemma_fxmul_bound(f@, ball@.y, SCALE as int, SCALE as int);
                lemma_fxmul_bound(f@, ball@.z, SCALE as int, SCALE as int);
            }
            *scattered = Ray::ray(rec.p, reflected.add(fq));
            *attentuation = albedo;
            proof {
                let q = ball@;
                assert(in_ball(q) && (*scattered)@.direction == add_s(
                    reflect_s(unit_s(ray_in@.direction), rec@.normal),
                    smul_s(clamp01_s(fuzz@), q),
                ));
            }
            Vec3::dot(&scattered.direction(), &rec.normal).v > 0
        },
        Material::Dielectric {  } => { false },
        Material::Emissive { emittance } => {
            *scattered = Ray::ray(rec.p, rec.normal);
            *attentuation = emittance;
            true
        },
    }
}

/// Mirror reflection: `v - 2 * dot(v, n) * n`.
pub fn reflect(v: Vec3, n: Vec3) -> (r: Vec3)
    requires
        v3_wf(v@),
        v3_wf(n@),
    ensures
        r@ == reflect_s(v@, n@),
{
    let d = Vec3::dot(&v, &n);
    proof {
        lemma_dot_bound(v@, n@, crate::fx::FX_WF as int);
    }
    let two = Fx { v: 2_000_000 };
    let k = two.mul(d);
    proof {
        lemma_fxmul_bound(2 * SCALE, d@, 2 * SCALE, 3 * (
        ((crate::fx::FX_WF as int) * (crate::fx::FX_WF as int)) / (SCALE as int)));
        lemma_fxmul_bound(k@, n@.x, crate::fx::FX_LIM as int, crate::fx::FX_WF as int);
        lemma_fxmul_bound(k@, n@.y, crate::fx::FX_LIM as int, crate::fx::FX_WF as int);
        lemma_fxmul_bound(k@, n@.z, crate::fx::FX_LIM as int, crate::fx::FX_WF as int);
    }
    let kn = n.scale(k);
    Vec3 {
        x: Fx { v: v.x.v - kn.x.v },
        y: Fx { v: v.y.v - kn.y.v },
        z: Fx { v: v.z.v - kn.z.v },
    }
}

/// A unit-rescaled scene vector stays within the scene bound.
proof fn lemma_unit_wfish(d: V3i)
    requires
        v3_wf(d),
        dot_s(d, d) >= 1,
    ensures
        v3_wf(unit_s(d)),
{
    crate::vec3::lemma_unit_bound(d);
}

} // verus!
