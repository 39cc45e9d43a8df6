//! The uniform result of a ray/primitive intersection: where it hit, at what
//! parameter, with what outward normal, and which material owns the surface.

use vstd::prelude::*;
use crate::fx::{Fx, abs_i};
use crate::ray::T_LIM;
use crate::vec3::{Vec3, V3i, v3_wf};
use crate::material::Material;

verus! {

/// The mathematical value of a hit record.
pub ghost struct HitS {
    pub t: int,
    pub p: V3i,
    pub normal: V3i,
    pub material: Material,
}

#[derive(Clone, Copy, Debug)]
pub struct HitRecord {
    pub t: Fx,
    pub p: Vec3,
    pub normal: Vec3,
    pub material: Material,
}

impl View for HitRecord {
    type V = HitS;

    open spec fn view(&self) -> HitS {
        HitS { t: self.t@, p: self.p@, normal: self.normal@, material: self.material }
    }
}

/// A record whose point and normal are inside the scene-data bound, so that
/// scattering arithmetic on it is safe.
pub open spec fn hit_wf(h: HitS) -> bool {
    v3_wf(h.p) && v3_wf(h.normal) && abs_i(h.t) <= T_LIM
}

/// An executable optional record agrees with its mathematical counterpart.
pub open spec fn opt_rec_matches(r: Option<HitRecord>, m: Option<HitS>) -> bool {
    match (r, m) {
        (Some(h), Some(s)) => h@ == s,
        (None, None) => true,
        _ => false,
    }
}

/// The capability every primitive implements: report the closest hit with a
/// parameter strictly inside the given window, or nothing.
pub trait Hittable {
    /// The well-formedness the implementor needs of itself.
    spec fn hittable_wf(&self) -> bool
    ;

    fn hit(&self, r: &crate::ray::Ray, t_min: Fx, t_max: Fx) -> (res: Option<HitRecord>)
        requires
            self.hittable_wf(),
            crate::ray::ray_wf(r@),
            crate::ray::window_wf(t_min@, t_max@),
        ensures
            res matches Some(h) ==> t_min@ < h@.t < t_max@,
    ;
}

impl HitRecord {
    pub fn t(&self) -> (r: Fx)
        ensures
            r@ == self@.t,
    {
        self.t
    }

    pub fn p(&self) -> (r: Vec3)
        ensures
            r@ == self@.p,
    {
        self.p
    }

    pub fn normal(&self) -> (r: Vec3)
        ensures
            r@ == self@.normal,
    {
        self.normal
    }

    pub fn material(&self) -> (r: Material)
        ensures
            r == self@.material,
    {
        self.material
    }

    pub fn set_t(&mut self, val: Fx)
        ensures
            final(self)@ == (HitS { t: val@, ..old(self)@ }),
    {
        self.t = val
    }

    pub fn set_p(&mut self, val: Vec3)
        ensures
            final(self)@ == (HitS { p: val@, ..old(self)@ }),
    {
        self.p = val
    }

    pub fn set_normal(&mut self, val: Vec3)
        ensures
            final(self)@ == (HitS { normal: val@, ..old(self)@ }),
    {
        self.normal = val
    }

    pub fn set_material(&mut self, val: Material)
        ensures
            final(self)@ == (HitS { material: val, ..old(self)@ }),
    {
        self.material = val
    }
}

impl Default for HitRecord {
    /// The all-zero record with the default material.
    fn default() -> (r: HitRecord)
        ensures
            r@.t == 0,
            r@.p == (V3i { x: 0, y: 0, z: 0 }),
            r@.normal == (V3i { x: 0, y: 0, z: 0 }),
            r@.material == Material::default_spec(),
    {
        HitRecord {
            t: Fx { v: 0 },
            p: Vec3 { x: Fx { v: 0 }, y: Fx { v: 0 }, z: Fx { v: 0 } },
            normal: Vec3 { x: Fx { v: 0 }, y: Fx { v: 0 }, z: Fx { v: 0 } },
            material: Material::default(),
        }
    }
}

} // verus!
