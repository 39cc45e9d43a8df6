//! Infinite planes, axis-aligned boxes (as a pre-test) and finite
//! parallelogram rectangles.

use vstd::prelude::*;
use crate::fx::{Fx, SCALE, FX_WF, abs_i, fxmul_s, fxdiv_s, fx_ok, fx_wf};
use crate::vec3::{
    Vec3, V3i, v3, sub_s, neg_s, dot_s, cross_s, unit_s, v3_wf, v3_bounded, v3_ok,
    lemma_dot_bound2, lemma_fxmul_bound, lemma_unit_bound, LEN_LIM,
};
use crate::ray::{Ray, RayS, point_at_s, ray_wf, window_wf, T_RANGE};
use crate::hittable::{HitRecord, HitS, opt_rec_matches};
use crate::material::Material;
use crate::sphere::lemma_point_bound;

verus! {

pub struct Plane {
    pub normal: Vec3,
    pub distance: Fx,
    pub material: Material,
}

/// Scene-bounded normal and offset.
pub open spec fn plane_wf(p: Plane) -> bool {
    v3_wf(p.normal@) && fx_wf(p.distance@)
}

/// The denominator of the plane solve; zero means the ray runs parallel.
pub open spec fn plane_denom(p: Plane, ray: RayS) -> int {
    dot_s(ray.direction, p.normal@)
}

/// The solved parameter `(distance - n . origin) / (n . direction)`.
pub open spec fn plane_t(p: Plane, ray: RayS) -> int {
    fxdiv_s(dot_s(neg_s(ray.origin), p.normal@) + p.distance@, plane_denom(p, ray))
}

/// Exactly what `Plane::hit` returns: nothing for a parallel ray, else the
/// single solve if it lies strictly inside the window.  The normal reported
/// is the plane's own, never flipped toward the ray.
pub open spec fn plane_hit_s(p: Plane, ray: RayS, t_min: int, t_max: int) -> Option<HitS> {
    if plane_denom(p, ray) == 0 {
        None
    } else {
        let t = plane_t(p, ray);
        if t_min < t < t_max {
            Some(HitS { t, p: point_at_s(ray, t), normal: p.normal@, material: p.material })
        } else {
            None
        }
    }
}

impl Plane {
    pub fn plane(normal: Vec3, distance: Fx, material: Material) -> (r: Plane)
        ensures
            r.normal == normal,
            r.distance == distance,
            r.material == material,
    {
        Plane { normal, distance, material }
    }

    /// The intersection with parameter strictly inside `(t_min, t_max)`, if
    /// any; a ray parallel to the plane reports none.
    pub fn hit(&self, ray: &Ray, t_min: Fx, t_max: Fx) -> (res: Option<HitRecord>)
        requires
            plane_wf(*self),
            ray_wf(ray@),
            window_wf(t_min@, t_max@),
        ensures
            opt_rec_matches(res, plane_hit_s(*self, ray@, t_min@, t_max@)),
    {
        let denom = Vec3::dot(&ray.direction(), &self.normal);
        if denom.v == 0 {
            return None;
        }
        let num = Vec3::dot(&ray.origin().neg(), &self.normal);
        proof {
            let w = FX_WF as int;
            lemma_dot_bound2(neg_s(ray@.origin), self.normal@, w, w);
            lemma_dot_bound2(ray@.direction, self.normal@, w, w);
        }
        let t = Fx { v: num.v + self.distance.v }.div(denom);
        if t_min.lt(t) && t.lt(t_max) {
            let p = ray.point_at_parameter(t);
            proof {
                lemma_point_bound(ray@, t@);
            }
            Some(HitRecord { t, p, normal: self.normal, material: self.material })
        } else {
            None
        }
    }
}

/// A ray with direction orthogonal to the plane's normal is never reported
/// as a hit, whatever the window.
pub proof fn lemma_plane_parallel_rejected(p: Plane, ray: RayS, t_min: int, t_max: int)
    requires
        dot_s(ray.direction, p.normal@) == 0,
    ensures
        plane_hit_s(p, ray, t_min, t_max) is None,
{
}

pub struct Aabb {
    pub min: Vec3,
    pub max: Vec3,
}

pub open spec fn aabb_wf(b: Aabb) -> bool {
    v3_wf(b.min@) && v3_wf(b.max@)
}

/// One slab step of the box test: intersect the parameter window with the
/// interval in which the ray is between the two planes of this axis.  A ray
/// parallel to the axis passes only if its origin lies strictly between them.
pub open spec fn axis_window_s(bmin: int, bmax: int, o: int, d: int, lo: int, hi: int) -> Option<
    (int, int),
> {
    if d == 0 {
        if bmin < o < bmax {
            Some((lo, hi))
        } else {
            None
        }
    } else {
        let ta = fxdiv_s(bmin - o, d);
        let tb = fxdiv_s(bmax - o, d);
        let t0 = if ta <= tb {
            ta
        } else {
            tb
        };
        let t1 = if ta >= tb {
            ta
        } else {
            tb
        };
        let nlo = if t0 >= lo {
            t0
        } else {
            lo
        };
        let nhi = if t1 <= hi {
            t1
        } else {
            hi
        };
        if nhi <= nlo {
            None
        } else {
            Some((nlo, nhi))
        }
    }
}

/// Exactly what `Aabb::hit` returns: the three slab steps chained.
pub open spec fn aabb_hit_s(b: Aabb, ray: RayS, t_min: int, t_max: int) -> bool {
    match axis_window_s(b.min@.x, b.max@.x, ray.origin.x, ray.direction.x, t_min, t_max) {
        None => false,
        Some((lx, hx)) => match axis_window_s(
            b.min@.y,
            b.max@.y,
            ray.origin.y,
            ray.direction.y,
            lx,
            hx,
        ) {
            None => false,
            Some((ly, hy)) => axis_window_s(
                b.min@.z,
                b.max@.z,
                ray.origin.z,
                ray.direction.z,
                ly,
                hy,
            ) is Some,
        },
    }
}

/// One executable slab step.
fn axis_step(bmin: Fx, bmax: Fx, o: Fx, d: Fx, lo: Fx, hi: Fx) -> (r: Option<(Fx, Fx)>)
    requires
        fx_wf(bmin@),
        fx_wf(bmax@),
        fx_wf(o@),
        fx_wf(d@),
    ensures
        match (r, axis_window_s(bmin@, bmax@, o@, d@, lo@, hi@)) {
            (Some((rl, rh)), Some((sl, sh))) => rl@ == sl && rh@ == sh,
            (None, None) => true,
            _ => false,
        },
{
    if d.v == 0 {
        if bmin.v < o.v && o.v < bmax.v {
            Some((lo, hi))
        } else {
            None
        }
    } else {
        let ta = bmin.sub(o).div(d);
        let tb = bmax.sub(o).div(d);
        let t0 = ta.min(tb);
        let t1 = ta.max(tb);
        let nlo = t0.max(lo);
        let nhi = t1.min(hi);
        if nhi.v <= nlo.v {
            None
        } else {
            Some((nlo, nhi))
        }
    }
}

impl Aabb {
    pub fn new(min: Vec3, max: Vec3) -> (r: Aabb)
        ensures
            r.min == min,
            r.max == max,
    {
        Aabb { min, max }
    }

    /// Whether the ray passes through the box within the window.
    pub fn hit(&self, ray: &Ray, t_min: Fx, t_max: Fx) -> (res: bool)
        requires
            aabb_wf(*self),
            ray_wf(ray@),
        ensures
            res == aabb_hit_s(*self, ray@, t_min@, t_max@),
    {
        let wx = axis_step(
            self.min.x,
            self.max.x,
            ray.origin.x,
            ray.direction.x,
            t_min,
            t_max,
        );
        match wx {
            None => false,
            Some((lx, hx)) => {
                let wy = axis_step(self.min.y, self.max.y, ray.origin.y, ray.direction.y, lx, hx);
                match wy {
                    None => false,
                    Some((ly, hy)) => {
                        let wz = axis_step(
                            self.min.z,
                            self.max.z,
                            ray.origin.z,
                            ray.direction.z,
                            ly,
                            hy,
                        );
                        match wz {
                            None => false,
                            Some(_) => true,
                        }
                    },
                }
            },
        }
    }
}

pub struct Rectangle {
    pub p0: Vec3,
    pub p1: Vec3,
    pub p2: Vec3,
    pub material: Material,
    pub aabb: Aabb,
}

pub open spec fn rect_wf(r: Rectangle) -> bool {
    v3_wf(r.p0@) && v3_wf(r.p1@) && v3_wf(r.p2@) && aabb_wf(r.aabb)
}

/// The plane normal of the rectangle: the rescaled cross product of its two
/// edge vectors.
pub open spec fn rect_normal_s(r: Rectangle) -> V3i {
    unit_s(cross_s(sub_s(r.p1@, r.p0@), sub_s(r.p2@, r.p0@)))
}

/// Exactly what `Rectangle::hit` returns: the box pre-test, then the plane
/// solve through the three corners, then the two edge-projection containment
/// tests.  Degenerate corner sets (a vanishing cross product) report no hit.
pub open spec fn rect_hit_s(r: Rectangle, ray: RayS, t_min: int, t_max: int) -> Option<HitS> {
    if !aabb_hit_s(r.aabb, ray, t_min, t_max) {
        None
    } else {
        let e1 = sub_s(r.p1@, r.p0@);
        let e2 = sub_s(r.p2@, r.p0@);
        let cr = cross_s(e1, e2);
        if dot_s(cr, cr) < 1 {
            None
        } else {
            let n = unit_s(cr);
            if dot_s(ray.direction, n) == 0 {
                None
            } else {
                let t = fxdiv_s(dot_s(sub_s(r.p0@, ray.origin), n), dot_s(ray.direction, n));
                if !(t_min < t < t_max) {
                    None
                } else {
                    let p = point_at_s(ray, t);
                    let d1 = dot_s(e1, sub_s(p, r.p0@));
                    let d2 = dot_s(e1, e1);
                    if d1 < 0 || d2 < d1 {
                        None
                    } else {
                        let d3 = dot_s(e2, sub_s(p, r.p0@));
                        let d4 = dot_s(e2, e2);
                        if d3 < 0 || d4 < d3 {
                            None
                        } else {
                            Some(HitS { t, p, normal: n, material: r.material })
                        }
                    }
                }
            }
        }
    }
}

impl Rectangle {
    pub fn rectangle(p0: Vec3, p1: Vec3, p2: Vec3, material: Material, aabb: Aabb) -> (r:
        Rectangle)
        ensures
            r.p0 == p0,
            r.p1 == p1,
            r.p2 == p2,
            r.material == material,
            r.aabb == aabb,
    {
        Rectangle { p0, p1, p2, material, aabb }
    }

    /// The intersection with parameter strictly inside `(t_min, t_max)`, if
    /// any.
    pub fn hit(&self, ray: &Ray, t_min: Fx, t_max: Fx) -> (res: Option<HitRecord>)
        requires
            rect_wf(*self),
            ray_wf(ray@),
            window_wf(t_min@, t_max@),
        ensures
            opt_rec_matches(res, rect_hit_s(*self, ray@, t_min@, t_max@)),
    {
        if !self.aabb.hit(ray, t_min, t_max) {
            return None;
        }
        let e1 = self.p1.sub(self.p0);
        let e2 = self.p2.sub(self.p0);
        let cr = Vec3::cross(&e1, &e2);
        proof {
            let w = FX_WF as int;
            lemma_fxmul_bound(e1@.y, e2@.z, 2 * w, 2 * w);
            lemma_fxmul_bound(e1@.z, e2@.y, 2 * w, 2 * w);
            lemma_fxmul_bound(e1@.z, e2@.x, 2 * w, 2 * w);
            lemma_fxmul_bound(e1@.x, e2@.z, 2 * w, 2 * w);
            lemma_fxmul_bound(e1@.x, e2@.y, 2 * w, 2 * w);
            lemma_fxmul_bound(e1@.y, e2@.x, 2 * w, 2 * w);
        }
        let crsq = cr.squared_length();
        if crsq.v < 1 {
            return None;
        }
        let normal = Vec3::unit_vector(&cr);
        proof {
            lemma_unit_bound(cr@);
        }
        let denom = Vec3::dot(&ray.direction(), &normal);
        if denom.v == 0 {
            return None;
        }
        let num = Vec3::dot(&self.p0.sub(ray.origin()), &normal);
        proof {
            let w = FX_WF as int;
            lemma_dot_bound2(sub_s(self.p0@, ray@.origin), normal@, 2 * w, 2 * SCALE);
            lemma_dot_bound2(ray@.direction, normal@, w, 2 * SCALE);
        }
        let t = num.div(denom);
        if !(t_min.lt(t) && t.lt(t_max)) {
            return None;
        }
        let p = ray.point_at_parameter(t);
        proof {
            lemma_point_bound(ray@, t@);
        }
        let d1 = Vec3::dot(&e1, &p.sub(self.p0));
        let d2 = Vec3::dot(&e1, &e1);
        if d1.v < 0 || d2.v < d1.v {
            return None;
        }
        let d3 = Vec3::dot(&e2, &p.sub(self.p0));
        let d4 = Vec3::dot(&e2, &e2);
        if d3.v < 0 || d4.v < d3.v {
            return None;
        }
        Some(HitRecord { t, p, normal, material: self.material })
    }
}

} // verus!
