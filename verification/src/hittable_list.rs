//! The scene aggregate: an ordered list of primitives, intersected by
//! keeping the closest hit found so far as the shrinking search horizon.

use vstd::prelude::*;
use crate::fx::Fx;
use crate::vec3::V3i;
use crate::ray::{Ray, RayS, ray_wf, window_wf};
use crate::hittable::{HitRecord, HitS, opt_rec_matches};
use crate::material::{Material, mat_wf};
use crate::sphere::{Sphere, sphere_wf, sphere_hit_s};
use crate::plane::{Plane, plane_wf, plane_hit_s, Rectangle, rect_wf, rect_hit_s};

verus! {

/// The closed set of primitives a scene may hold.
pub enum Object {
    Sphere(Sphere),
    Plane(Plane),
    Rectangle(Rectangle),
}

pub open spec fn object_wf(o: Object) -> bool {
    match o {
        Object::Sphere(s) => sphere_wf(s),
        Object::Plane(p) => plane_wf(p),
        Object::Rectangle(r) => rect_wf(r),
    }
}

/// The material attached to a primitive.
pub open spec fn object_material(o: Object) -> Material {
    match o {
        Object::Sphere(s) => s.material,
        Object::Plane(p) => p.material,
        Object::Rectangle(r) => r.material,
    }
}

/// Exactly what `Object::hit` returns: the dispatch over the primitive kinds.
pub open spec fn object_hit_s(o: Object, ray: RayS, t_min: int, t_max: int) -> Option<HitS> {
    match o {
        Object::Sphere(s) => sphere_hit_s(s, ray, t_min, t_max),
        Object::Plane(p) => plane_hit_s(p, ray, t_min, t_max),
        Object::Rectangle(r) => rect_hit_s(r, ray, t_min, t_max),
    }
}

impl Object {
    pub fn hit(&self, ray: &Ray, t_min: Fx, t_max: Fx) -> (res: Option<HitRecord>)
        requires
            object_wf(*self),
            ray_wf(ray@),
            window_wf(t_min@, t_max@),
        ensures
            opt_rec_matches(res, object_hit_s(*self, ray@, t_min@, t_max@)),
    {
        match self {
            Object::Sphere(s) => s.hit(ray, t_min, t_max),
            Object::Plane(p) => p.hit(ray, t_min, t_max),
            Object::Rectangle(r) => r.hit(ray, t_min, t_max),
        }
    }
}

/// A reported hit lies strictly inside the window it was searched in, and
/// carries the primitive's own material.
pub proof fn lemma_object_hit_frame(o: Object, ray: RayS, t_min: int, t_max: int)
    ensures
        object_hit_s(o, ray, t_min, t_max) matches Some(h) ==> t_min < h.t < t_max && h.material
            == object_material(o),
{
}

impl crate::hittable::Hittable for Sphere {
    open spec fn hittable_wf(&self) -> bool {
        sphere_wf(*self)
    }

    fn hit(&self, r: &Ray, t_min: Fx, t_max: Fx) -> (res: Option<HitRecord>) {
        proof {
            lemma_object_hit_frame(Object::Sphere(*self), r@, t_min@, t_max@);
        }
        Sphere::hit(self, r, t_min, t_max)
    }
}

impl crate::hittable::Hittable for Plane {
    open spec fn hittable_wf(&self) -> bool {
        plane_wf(*self)
    }

    fn hit(&self, r: &Ray, t_min: Fx, t_max: Fx) -> (res: Option<HitRecord>) {
        proof {
            lemma_object_hit_frame(Object::Plane(*self), r@, t_min@, t_max@);
        }
        Plane::hit(self, r, t_min, t_max)
    }
}

impl crate::hittable::Hittable for Rectangle {
    open spec fn hittable_wf(&self) -> bool {
        rect_wf(*self)
    }

    fn hit(&self, r: &Ray, t_min: Fx, t_max: Fx) -> (res: Option<HitRecord>) {
        proof {
            lemma_object_hit_frame(Object::Rectangle(*self), r@, t_min@, t_max@);
        }
        Rectangle::hit(self, r, t_min, t_max)
    }
}

impl crate::hittable::Hittable for Object {
    open spec fn hittable_wf(&self) -> bool {
        object_wf(*self)
    }

    fn hit(&self, r: &Ray, t_min: Fx, t_max: Fx) -> (res: Option<HitRecord>) {
        proof {
            lemma_object_hit_frame(*self, r@, t_min@, t_max@);
        }
        Object::hit(self, r, t_min, t_max)
    }
}

pub struct HittableList {
    pub objects: Vec<Object>,
}

/// Every primitive of the scene is scene-bounded and its material has
/// nonnegative, bounded channels.
pub open spec fn list_wf(l: HittableList) -> bool {
    forall|i: int|
        0 <= i < l.objects@.len() ==> object_wf(#[trigger] l.objects@[i]) && mat_wf(
            object_material(l.objects@[i]),
        )
}

/// Exactly what `HittableList::hit` returns: fold the primitives in order,
/// each searched up to the closest parameter found before it.
pub open spec fn list_hit_s(s: Seq<Object>, ray: RayS, t_min: int, t_max: int) -> Option<HitS>
    decreases s.len(),
{
    if s.len() == 0 {
        None
    } else {
        let prev = list_hit_s(s.drop_last(), ray, t_min, t_max);
        let cur_max = match prev {
            Some(h) => h.t,
            None => t_max,
        };
        match object_hit_s(s.last(), ray, t_min, cur_max) {
            Some(h) => Some(h),
            None => prev,
        }
    }
}

/// A hit reported by the fold lies strictly inside the original window and
/// carries the material of one of the primitives.
pub proof fn lemma_list_hit_frame(s: Seq<Object>, ray: RayS, t_min: int, t_max: int)
    ensures
        list_hit_s(s, ray, t_min, t_max) matches Some(h) ==> t_min < h.t < t_max && exists|i: int|
            0 <= i < s.len() && h.material == object_material(#[trigger] s[i]),
    decreases s.len(),
{
    if s.len() > 0 {
        lemma_list_hit_frame(s.drop_last(), ray, t_min, t_max);
        let prev = list_hit_s(s.drop_last(), ray, t_min, t_max);
        let cur_max = match prev {
            Some(h) => h.t,
            None => t_max,
        };
        lemma_object_hit_frame(s.last(), ray, t_min, cur_max);
        match object_hit_s(s.last(), ray, t_min, cur_max) {
            Some(hl) => {
                assert(hl.material == object_material(s[s.len() - 1]));
            },
            None => {
                match prev {
                    Some(h) => {
                        let j = choose|i: int|
                            0 <= i < s.drop_last().len() && h.material == object_material(
                                #[trigger] s.drop_last()[i],
                            );
                        assert(s.drop_last()[j] == s[j]);
                        assert(h.material == object_material(s[j]));
                    },
                    None => {},
                }
            },
        }
    }
}

impl HittableList {
    pub fn new(objects: Vec<Object>) -> (r: HittableList)
        ensures
            r.objects == objects,
    {
        HittableList { objects }
    }

    /// The globally closest hit: every primitive is tried, each against the
    /// closest parameter found so far.
    pub fn hit(&self, r: &Ray, t_min: Fx, t_max: Fx) -> (res: Option<HitRecord>)
        requires
            list_wf(*self),
            ray_wf(r@),
            window_wf(t_min@, t_max@),
        ensures
            opt_rec_matches(res, list_hit_s(self.objects@, r@, t_min@, t_max@)),
    {
        let mut best: Option<HitRecord> = None;
        let mut closest = t_max;
        let mut i: usize = 0;
        while i < self.objects.len()
            invariant
                0 <= i <= self.objects@.len(),
                list_wf(*self),
                ray_wf(r@),
                window_wf(t_min@, t_max@),
                opt_rec_matches(
                    best,
                    list_hit_s(self.objects@.take(i as int), r@, t_min@, t_max@),
                ),
                closest@ == match list_hit_s(self.objects@.take(i as int), r@, t_min@, t_max@) {
                    Some(h) => h.t,
                    None => t_max@,
                },
            decreases self.objects@.len() - i,
        {
            proof {
                lemma_list_hit_frame(self.objects@.take(i as int), r@, t_min@, t_max@);
            }
            let obj = &self.objects[i];
            match obj.hit(r, t_min, closest) {
                Some(h) => {
                    closest = h.t;
                    best = Some(h);
                },
                None => {},
            }
            proof {
                assert(self.objects@.take(i + 1 as int).drop_last() =~= self.objects@.take(
                    i as int,
                ));
                assert(self.objects@.take(i + 1 as int).last() == self.objects@[i as int]);
            }
            i = i + 1;
        }
        proof {
            assert(self.objects@.take(i as int) =~= self.objects@);
        }
        best
    }
}

impl crate::hittable::Hittable for HittableList {
    open spec fn hittable_wf(&self) -> bool {
        list_wf(*self)
    }

    fn hit(&self, r: &Ray, t_min: Fx, t_max: Fx) -> (res: Option<HitRecord>) {
        proof {
            lemma_list_hit_frame(self.objects@, r@, t_min@, t_max@);
        }
        HittableList::hit(self, r, t_min, t_max)
    }
}

} // verus!
