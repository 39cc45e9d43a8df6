//! The camera: an orthonormal viewing basis and a viewport one unit in front
//! of the eye, mapping normalized image coordinates to world rays.

use vstd::prelude::*;
use crate::fx::{Fx, SCALE, FX_WF, abs_i, fxmul_s, fx_ok, fx_wf};
use crate::vec3::{
    Vec3, V3i, v3, add_s, sub_s, smul_s, dot_s, cross_s, unit_s, in_ball, v3_wf, v3_bounded,
    v3_ok, random_in_unit_sphere, lemma_fxmul_bound, lemma_unit_bound, lemma_dot_bound2, LEN_LIM,
};
use crate::ray::{Ray, RayS};

verus! {

/// Bound on the camera's derived vectors: wider than the scene bound because
/// the viewport spans are products of scene-bounded values.
pub const CAM_LIM: i128 = 1_152_921_504_606_846_976;

#[derive(Clone, Copy, Debug)]
pub struct Camera {
    pub origin: Vec3,
    pub lower_left_corner: Vec3,
    pub horizontal: Vec3,
    pub vertical: Vec3,
    pub u: Vec3,
    pub v: Vec3,
    pub lens_radius: Fx,
}

pub open spec fn camera_wf(c: Camera) -> bool {
    v3_wf(c.origin@) && v3_bounded(c.lower_left_corner@, CAM_LIM as int) && v3_bounded(
        c.horizontal@,
        CAM_LIM as int,
    ) && v3_bounded(c.vertical@, CAM_LIM as int) && v3_bounded(c.u@, 8 * SCALE as int)
        && v3_bounded(c.v@, 8 * SCALE as int) && fx_wf(c.lens_radius@)
}

/// The basis vector pointing from the target back to the eye.
pub open spec fn cam_w_s(look_from: V3i, look_at: V3i) -> V3i {
    unit_s(sub_s(look_from, look_at))
}

pub open spec fn cam_u_s(look_from: V3i, look_at: V3i, v_up: V3i) -> V3i {
    unit_s(cross_s(v_up, cam_w_s(look_from, look_at)))
}

pub open spec fn cam_v_s(look_from: V3i, look_at: V3i, v_up: V3i) -> V3i {
    cross_s(cam_w_s(look_from, look_at), cam_u_s(look_from, look_at, v_up))
}

/// The lens offset for one ball sample `q`: `u * rd.x + v * rd.y` with
/// `rd = lens_radius * q`.
pub open spec fn cam_offset_s(c: Camera, q: V3i) -> V3i {
    add_s(
        smul_s(fxmul_s(c.lens_radius@, q.x), c.u@),
        smul_s(fxmul_s(c.lens_radius@, q.y), c.v@),
    )
}

/// The ray cast for image coordinates `(s, t)` when the lens drew `q`.
pub open spec fn get_ray_s(c: Camera, s: int, t: int, q: V3i) -> RayS {
    let off = cam_offset_s(c, q);
    RayS {
        origin: add_s(c.origin@, off),
        direction: sub_s(
            sub_s(
                add_s(add_s(c.lower_left_corner@, smul_s(s, c.horizontal@)), smul_s(t, c.vertical@)),
                c.origin@,
            ),
            off,
        ),
    }
}

/// With a zero lens radius the offset vanishes and the ray is a function of
/// `(camera, s, t)` alone: from the origin toward the viewport point.
pub open spec fn center_ray_s(c: Camera, s: int, t: int) -> RayS {
    RayS {
        origin: c.origin@,
        direction: sub_s(
            add_s(add_s(c.lower_left_corner@, smul_s(s, c.horizontal@)), smul_s(t, c.vertical@)),
            c.origin@,
        ),
    }
}

impl Camera {
    /// Builds the viewing basis.  `half_height` is the tangent of half the
    /// vertical field of view, a value the caller computes; the viewport sits
    /// one unit in front of the eye along the viewing axis.
    pub fn new(look_from: Vec3, look_at: Vec3, v_up: Vec3, half_height: Fx, aspect_ratio: Fx) -> (c:
        Camera)
        requires
            v3_wf(look_from@),
            v3_wf(look_at@),
            v3_wf(v_up@),
            fx_wf(half_height@),
            fx_wf(aspect_ratio@),
            dot_s(sub_s(look_from@, look_at@), sub_s(look_from@, look_at@)) >= 1,
            dot_s(
                cross_s(v_up@, cam_w_s(look_from@, look_at@)),
                cross_s(v_up@, cam_w_s(look_from@, look_at@)),
            ) >= 1,
        ensures
            camera_wf(c),
            c.origin@ == look_from@,
            c.u@ == cam_u_s(look_from@, look_at@, v_up@),
            c.v@ == cam_v_s(look_from@, look_at@, v_up@),
            c.horizontal@ == smul_s(
                fxmul_s(2 * SCALE, fxmul_s(aspect_ratio@, half_height@)),
                cam_u_s(look_from@, look_at@, v_up@),
            ),
            c.vertical@ == smul_s(
                fxmul_s(2 * SCALE, half_height@),
                cam_v_s(look_from@, look_at@, v_up@),
            ),
            c.lower_left_corner@ == sub_s(
                sub_s(
                    sub_s(
                        look_from@,
                        smul_s(
                            fxmul_s(aspect_ratio@, half_height@),
                            cam_u_s(look_from@, look_at@, v_up@),
                        ),
                    ),
                    smul_s(half_height@, cam_v_s(look_from@, look_at@, v_up@)),
                ),
                cam_w_s(look_from@, look_at@),
            ),
            c.lens_radius@ == 0,
    {
        let half_width = aspect_ratio.mul(half_height);
        let gaze = look_from.sub(look_at);
        let w = Vec3::unit_vector(&gaze);
        proof {
            lemma_unit_bound(sub_s(look_from@, look_at@));
        }
        let cuw = Vec3::cross(&v_up, &w);
        proof {
            let wf = FX_WF as int;
            lemma_fxmul_bound(v_up@.y, w@.z, wf, 2 * SCALE);
            lemma_fxmul_bound(v_up@.z, w@.y, wf, 2 * SCALE);
            lemma_fxmul_bound(v_up@.z, w@.x, wf, 2 * SCALE);
            lemma_fxmul_bound(v_up@.x, w@.z, wf, 2 * SCALE);
            lemma_fxmul_bound(v_up@.x, w@.y, wf, 2 * SCALE);
            lemma_fxmul_bound(v_up@.y, w@.x, wf, 2 * SCALE);
        }
        let u = Vec3::unit_vector(&cuw);
        proof {
            lemma_unit_bound(cuw@);
        }
        let v = Vec3::cross(&w, &u);
        proof {
            lemma_fxmul_bound(w@.y, u@.z, 2 * SCALE, 2 * SCALE);
            lemma_fxmul_bound(w@.z, u@.y, 2 * SCALE, 2 * SCALE);
            lemma_fxmul_bound(w@.z, u@.x, 2 * SCALE, 2 * SCALE);
            lemma_fxmul_bound(w@.x, u@.z, 2 * SCALE, 2 * SCALE);
            lemma_fxmul_bound(w@.x, u@.y, 2 * SCALE, 2 * SCALE);
            lemma_fxmul_bound(w@.y, u@.x, 2 * SCALE, 2 * SCALE);
            lemma_fxmul_bound(aspect_ratio@, half_height@, FX_WF as int, FX_WF as int);
        }
        let hwu = u.scale(half_width);
        let hhv = v.scale(half_height);
        proof {
            let hw = ((FX_WF as int) * (FX_WF as int)) / (SCALE as int);
            lemma_fxmul_bound(half_width@, u@.x, hw, 2 * SCALE);
            lemma_fxmul_bound(half_width@, u@.y, hw, 2 * SCALE);
            lemma_fxmul_bound(half_width@, u@.z, hw, 2 * SCALE);
            lemma_fxmul_bound(half_height@, v@.x, FX_WF as int, 8 * SCALE);
            lemma_fxmul_bound(half_height@, v@.y, FX_WF as int, 8 * SCALE);
            lemma_fxmul_bound(half_height@, v@.z, FX_WF as int, 8 * SCALE);
        }
        let lower_left_corner = look_from.sub(hwu).sub(hhv).sub(w);
        let two = Fx { v: 2_000_000 };
        let two_hw = two.mul(half_width);
        let two_hh = two.mul(half_height);
        proof {
            let hw = ((FX_WF as int) * (FX_WF as int)) / (SCALE as int);
            lemma_fxmul_bound(2 * SCALE, half_width@, 2 * SCALE, hw);
            lemma_fxmul_bound(2 * SCALE, half_height@, 2 * SCALE, FX_WF as int);
            let hw2 = ((2 * SCALE) * hw) / (SCALE as int);
            lemma_fxmul_bound(two_hw@, u@.x, hw2, 2 * SCALE);
            lemma_fxmul_bound(two_hw@, u@.y, hw2, 2 * SCALE);
            lemma_fxmul_bound(two_hw@, u@.z, hw2, 2 * SCALE);
            lemma_fxmul_bound(two_hh@, v@.x, 2 * (FX_WF as int), 8 * SCALE);
            lemma_fxmul_bound(two_hh@, v@.y, 2 * (FX_WF as int), 8 * SCALE);
            lemma_fxmul_bound(two_hh@, v@.z, 2 * (FX_WF as int), 8 * SCALE);
        }
        let horizontal = u.scale(two_hw);
        let vertical = v.scale(two_hh);
        Camera {
            origin: look_from,
            lower_left_corner,
            horizontal,
            vertical,
            u,
            v,
            lens_radius: Fx { v: 0 },
        }
    }

    /// The ray through image coordinates `(s, t)`, jittered by the lens
    /// aperture when one is configured.  With a zero lens radius the result
    /// is a function of `(self, s, t)` alone.
    pub fn get_ray(&self, s: Fx, t: Fx) -> (r: Ray)
        requires
            camera_wf(*self),
            0 <= s@ <= SCALE,
            0 <= t@ <= SCALE,
        ensures
            exists|q: V3i| #[trigger] in_ball(q) && r@ == get_ray_s(*self, s@, t@, q),
            self.lens_radius@ == 0 ==> r@ == center_ray_s(*self, s@, t@),
    {
        let ball = random_in_unit_sphere();
        let rd = ball.scale(self.lens_radius);
        proof {
            lemma_fxmul_bound(self.lens_radius@, ball@.x, FX_WF as int, SCALE as int);
            lemma_fxmul_bound(self.lens_radius@, ball@.y, FX_WF as int, SCALE as int);
            lemma_fxmul_bound(self.lens_radius@, ball@.z, FX_WF as int, SCALE as int);
            let rb = ((FX_WF as int) * (SCALE as int)) / (SCALE as int);
            lemma_fxmul_bound(fxmul_s(self.lens_radius@, ball@.x), self.u@.x, rb, 8 * SCALE as int);
            lemma_fxmul_bound(fxmul_s(self.lens_radius@, ball@.x), self.u@.y, rb, 8 * SCALE as int);
            lemma_fxmul_bound(fxmul_s(self.lens_radius@, ball@.x), self.u@.z, rb, 8 * SCALE as int);
            lemma_fxmul_bound(fxmul_s(self.lens_radius@, ball@.y), self.v@.x, rb, 8 * SCALE as int);
            lemma_fxmul_bound(fxmul_s(self.lens_radius@, ball@.y), self.v@.y, rb, 8 * SCALE as int);
            lemma_fxmul_bound(fxmul_s(self.lens_radius@, ball@.y), self.v@.z, rb, 8 * SCALE as int);
            lemma_fxmul_bound(s@, self.horizontal@.x, SCALE as int, CAM_LIM as int);
            lemma_fxmul_bound(s@, self.horizontal@.y, SCALE as int, CAM_LIM as int);
            lemma_fxmul_bound(s@, self.horizontal@.z, SCALE as int, CAM_LIM as int);
            lemma_fxmul_bound(t@, self.vertical@.x, SCALE as int, CAM_LIM as int);
            lemma_fxmul_bound(t@, self.vertical@.y, SCALE as int, CAM_LIM as int);
            lemma_fxmul_bound(t@, self.vertical@.z, SCALE as int, CAM_LIM as int);
        }
        let offset = self.u.scale(rd.x()).add(self.v.scale(rd.y()));
        let dir = self.lower_left_corner.add(self.horizontal.scale(s)).add(
            self.vertical.scale(t),
        ).sub(self.origin).sub(offset);
        let r = Ray::ray(self.origin.add(offset), dir);
        proof {
            let q = ball@;
            assert(in_ball(q) && r@ == get_ray_s(*self, s@, t@, q));
            if self.lens_radius@ == 0 {
                crate::fx::lemma_fxmul_zero(q.x);
                crate::fx::lemma_fxmul_zero(q.y);
                crate::fx::lemma_fxmul_zero(self.u@.x);
                crate::fx::lemma_fxmul_zero(self.u@.y);
                crate::fx::lemma_fxmul_zero(self.u@.z);
                crate::fx::lemma_fxmul_zero(self.v@.x);
                crate::fx::lemma_fxmul_zero(self.v@.y);
                crate::fx::lemma_fxmul_zero(self.v@.z);
            }
        }
        r
    }
}

} // verus!
