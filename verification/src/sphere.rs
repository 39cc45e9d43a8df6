//! Sphere intersection: the quadratic solve, preferring the nearer root.

use vstd::prelude::*;
use crate::fx::{
    Fx, SCALE, FX_LIM, FX_WF, FX_SQRT_LIM, abs_i, fxmul_s, fxdiv_s, fx_ok, fx_wf, isqrt_s,
    is_isqrt, lemma_isqrt_le,
};
use crate::vec3::{
    Vec3, V3i, v3, sub_s, sdiv_s, dot_s, v3_wf, v3_bounded, v3_ok, lemma_dot_bound2,
    lemma_dot_self_nonneg, lemma_fxmul_bound,
};
use crate::ray::{Ray, RayS, point_at_s, ray_wf, window_wf, T_RANGE};
use crate::hittable::{HitRecord, HitS, opt_rec_matches};
use crate::material::Material;

verus! {

pub struct Sphere {
    pub center: Vec3,
    pub radius: Fx,
    pub material: Material,
}

/// Scene-bounded center and radius.
pub open spec fn sphere_wf(s: Sphere) -> bool {
    v3_wf(s.center@) && fx_wf(s.radius@)
}

/// The quadratic coefficients of `|origin + t * direction - center|^2 = radius^2`,
/// computed in stored arithmetic.
pub open spec fn sphere_a(s: Sphere, ray: RayS) -> int {
    dot_s(ray.direction, ray.direction)
}

pub open spec fn sphere_b(s: Sphere, ray: RayS) -> int {
    dot_s(sub_s(ray.origin, s.center@), ray.direction)
}

pub open spec fn sphere_c(s: Sphere, ray: RayS) -> int {
    dot_s(sub_s(ray.origin, s.center@), sub_s(ray.origin, s.center@)) - fxmul_s(
        s.radius@,
        s.radius@,
    )
}

pub open spec fn sphere_disc(s: Sphere, ray: RayS) -> int {
    fxmul_s(sphere_b(s, ray), sphere_b(s, ray)) - fxmul_s(sphere_a(s, ray), sphere_c(s, ray))
}

/// The nearer and farther roots of the quadratic, in stored units.
pub open spec fn sphere_t1(s: Sphere, ray: RayS) -> int {
    fxdiv_s(0 - sphere_b(s, ray) - isqrt_s(sphere_disc(s, ray) * SCALE), sphere_a(s, ray))
}

pub open spec fn sphere_t2(s: Sphere, ray: RayS) -> int {
    fxdiv_s(0 - sphere_b(s, ray) + isqrt_s(sphere_disc(s, ray) * SCALE), sphere_a(s, ray))
}

/// The record reported for a hit at parameter `t`: the point on the ray and
/// the outward normal `(p - center) / radius`.
pub open spec fn sphere_rec_s(s: Sphere, ray: RayS, t: int) -> HitS {
    HitS {
        t,
        p: point_at_s(ray, t),
        normal: sdiv_s(sub_s(point_at_s(ray, t), s.center@), s.radius@),
        material: s.material,
    }
}

/// Exactly what `hit` returns: the nearer root if it lies inside the window,
/// else the farther root if it does, else nothing.  A vanishing direction or
/// radius is degenerate geometry and reports no hit.
pub open spec fn sphere_hit_s(s: Sphere, ray: RayS, t_min: int, t_max: int) -> Option<HitS> {
    if sphere_disc(s, ray) > 0 && sphere_a(s, ray) > 0 && s.radius@ != 0 {
        if t_min < sphere_t1(s, ray) < t_max {
            Some(sphere_rec_s(s, ray, sphere_t1(s, ray)))
        } else if t_min < sphere_t2(s, ray) < t_max {
            Some(sphere_rec_s(s, ray, sphere_t2(s, ray)))
        } else {
            None
        }
    } else {
        None
    }
}

impl Sphere {
    pub fn sphere(center: Vec3, radius: Fx, material: Material) -> (r: Sphere)
        ensures
            r.center == center,
            r.radius == radius,
            r.material == material,
    {
        Sphere { center, radius, material }
    }

    /// The closest intersection with parameter strictly inside
    /// `(t_min, t_max)`, if any.
    pub fn hit(&self, r: &Ray, t_min: Fx, t_max: Fx) -> (res: Option<HitRecord>)
        requires
            sphere_wf(*self),
            ray_wf(r@),
            window_wf(t_min@, t_max@),
        ensures
            opt_rec_matches(res, sphere_hit_s(*self, r@, t_min@, t_max@)),
    {
        let oc = r.origin().sub(self.center);
        let a = Vec3::dot(&r.direction(), &r.direction());
        let b = Vec3::dot(&oc, &r.direction());
        let rr = self.radius.mul(self.radius);
        let cdot = Vec3::dot(&oc, &oc);
        proof {
            let w = FX_WF as int;
            lemma_dot_bound2(r@.direction, r@.direction, w, w);
            lemma_dot_bound2(sub_s(r@.origin, self.center@), r@.direction, 2 * w, w);
            lemma_dot_bound2(sub_s(r@.origin, self.center@), sub_s(r@.origin, self.center@), 2 * w, 2 * w);
            lemma_fxmul_bound(self.radius@, self.radius@, w, w);
        }
        let c = Fx { v: cdot.v - rr.v };
        proof {
            let w = FX_WF as int;
            lemma_fxmul_bound(b@, b@, 3 * ((2 * w * w) / (SCALE as int)), 3 * ((2 * w * w) / (
            SCALE as int)));
            lemma_fxmul_bound(
                a@,
                c@,
                3 * ((w * w) / (SCALE as int)),
                3 * ((2 * w * (2 * w)) / (SCALE as int)) + (w * w) / (SCALE as int),
            );
        }
        proof {
            // evaluate the coefficient bounds to concrete numbers, so that the
            // discriminant provably fits under the square-root limit
            let w = FX_WF as int;
            assert(abs_i(b@) <= 3 * ((2 * w * w) / (SCALE as int)));
            assert(abs_i(a@) <= 3 * ((w * w) / (SCALE as int)));
            assert(abs_i(c@) <= 3 * ((2 * w * (2 * w)) / (SCALE as int)) + (w * w) / (SCALE as int));
            assert(274877906944int * 274877906944 == 75557863725914323419136)
                by (nonlinear_arith);
            assert(75557863725914323419136int / 1_000_000 == 75557863725914323);
            assert(549755813888int * 274877906944 == 151115727451828646838272)
                by (nonlinear_arith);
            assert(151115727451828646838272int / 1_000_000 == 151115727451828646);
            assert(549755813888int * 549755813888 == 302231454903657293676544)
                by (nonlinear_arith);
            assert(302231454903657293676544int / 1_000_000 == 302231454903657293);
            assert(453347182355485938int * 453347182355485938
                == 205523667749658220592223684115739844) by (nonlinear_arith);
            assert(205523667749658220592223684115739844int / 1_000_000
                == 205523667749658220592223684115);
            assert(226673591177742969int * 982252228436886202
                == 222650640062129739654929764658613738) by (nonlinear_arith);
            assert(222650640062129739654929764658613738int / 1_000_000
                == 222650640062129739654929764658);
            assert(abs_i(fxmul_s(b@, b@)) <= 205_600_000_000_000_000_000_000_000_000);
            assert(abs_i(fxmul_s(a@, c@)) <= 222_700_000_000_000_000_000_000_000_000);
        }
        let bb = b.mul(b);
        let ac = a.mul(c);
        let discriminant = Fx { v: bb.v - ac.v };
        if discriminant.v > 0 && a.v > 0 && self.radius.v != 0 {
            proof {
                assert(discriminant@ <= 633_825_300_114_114_700_748_351_602_688);
            }
            let sq = discriminant.sqrt();
            proof {
                assert(discriminant@ * SCALE <= 1_152_921_504_606_846_976
                    * 1_152_921_504_606_846_976) by (nonlinear_arith)
                    requires
                        0 < discriminant@ <= 633_825_300_114_114_700_748_351_602_688,
                ;
                lemma_isqrt_le(discriminant@ * SCALE, 1_152_921_504_606_846_976);
            }
            let num1 = Fx { v: 0 - b.v - sq.v };
            let temp = num1.div(a);
            if temp.lt(t_max) && t_min.lt(temp) {
                let p = r.point_at_parameter(temp);
                proof {
                    lemma_point_bound(r@, temp@);
                }
                return Some(
                    HitRecord {
                        t: temp,
                        p,
                        normal: p.sub(self.center).div(self.radius),
                        material: self.material,
                    },
                );
            }
            let num2 = Fx { v: 0 - b.v + sq.v };
            let temp2 = num2.div(a);
            if temp2.lt(t_max) && t_min.lt(temp2) {
                let p = r.point_at_parameter(temp2);
                proof {
                    lemma_point_bound(r@, temp2@);
                }
                return Some(
                    HitRecord {
                        t: temp2,
                        p,
                        normal: p.sub(self.center).div(self.radius),
                        material: self.material,
                    },
                );
            }
            return None;
        }
        None
    }
}

/// A point of a scene-bounded ray at a horizon-bounded parameter has
/// operation-safe components.
pub proof fn lemma_point_bound(ray: RayS, t: int)
    requires
        ray_wf(ray),
        abs_i(t) <= T_RANGE,
    ensures
        v3_bounded(point_at_s(ray, t), (T_RANGE as int) * (FX_WF as int) / (SCALE as int) + (
        FX_WF as int)),
        v3_ok(point_at_s(ray, t)),
        v3_ok(sub_s(point_at_s(ray, t), v3(0, 0, 0))),
{
    lemma_fxmul_bound(t, ray.direction.x, T_RANGE as int, FX_WF as int);
    lemma_fxmul_bound(t, ray.direction.y, T_RANGE as int, FX_WF as int);
    lemma_fxmul_bound(t, ray.direction.z, T_RANGE as int, FX_WF as int);
}

} // verus!
