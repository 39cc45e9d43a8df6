//! Rays: an origin plus a direction of arbitrary nonzero magnitude, evaluated
//! by parameter.

use vstd::prelude::*;
use crate::fx::{Fx, FX_WF, abs_i, fxmul_s, fx_ok};
use crate::vec3::{Vec3, V3i, v3, add_s, smul_s, v3_wf, lemma_fxmul_bound};

verus! {

/// The mathematical value of a ray.
pub ghost struct RayS {
    pub origin: V3i,
    pub direction: V3i,
}

#[derive(Clone, Copy, Debug, PartialEq, Eq, Structural)]
pub struct Ray {
    pub origin: Vec3,
    pub direction: Vec3,
}

impl View for Ray {
    type V = RayS;

    open spec fn view(&self) -> RayS {
        RayS { origin: self.origin@, direction: self.direction@ }
    }
}

/// Largest parameter magnitude accepted by `point_at_parameter`; the scene
/// search horizon stays below it.
pub const T_LIM: i128 = 4_611_686_018_427_387_904;

/// The search horizon: intersections are looked for with parameters inside
/// `(-T_RANGE, T_RANGE)`, far beyond any scene-bounded coordinate.
pub const T_RANGE: i128 = 17_592_186_044_416;

/// A parameter window the intersection routines accept.
pub open spec fn window_wf(t_min: int, t_max: int) -> bool {
    -(T_RANGE as int) <= t_min && t_max <= T_RANGE as int
}

/// Both endpoints of a ray within the scene-data bound.
pub open spec fn ray_wf(r: RayS) -> bool {
    v3_wf(r.origin) && v3_wf(r.direction)
}

/// Where the ray is at parameter `t`.
pub open spec fn point_at_s(r: RayS, t: int) -> V3i {
    add_s(r.origin, smul_s(t, r.direction))
}

impl Ray {
    pub fn ray(origin: Vec3, direction: Vec3) -> (r: Ray)
        ensures
            r@ == (RayS { origin: origin@, direction: direction@ }),
    {
        Ray { origin, direction }
    }

    pub fn origin(&self) -> (r: Vec3)
        ensures
            r@ == self@.origin,
    {
        self.origin
    }

    pub fn direction(&self) -> (r: Vec3)
        ensures
            r@ == self@.direction,
    {
        self.direction
    }

    pub fn point_at_parameter(&self, t: Fx) -> (r: Vec3)
        requires
            ray_wf(self@),
            abs_i(t@) <= T_LIM,
        ensures
            r@ == point_at_s(self@, t@),
    {
        let sx = t.mul(self.direction.x);
        let sy = t.mul(self.direction.y);
        let sz = t.mul(self.direction.z);
        proof {
            lemma_fxmul_bound(t@, self@.direction.x, T_LIM as int, FX_WF as int);
            lemma_fxmul_bound(t@, self@.direction.y, T_LIM as int, FX_WF as int);
            lemma_fxmul_bound(t@, self@.direction.z, T_LIM as int, FX_WF as int);
        }
        Vec3 {
            x: Fx { v: self.origin.x.v + sx.v },
            y: Fx { v: self.origin.y.v + sy.v },
            z: Fx { v: self.origin.z.v + sz.v },
        }
    }
}

} // verus!
