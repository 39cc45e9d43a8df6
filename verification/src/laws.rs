//! Laws of the intersection and scattering model, stated and proved against
//! the specification functions that the executable contracts use.

use vstd::prelude::*;
use crate::fx::{
    SCALE, abs_i, tdiv, fxmul_s, fxdiv_s, isqrt_s, is_isqrt, lemma_isqrt, lemma_isqrt_unique,
    lemma_fxmul_one, lemma_fxmul_zero, lemma_fxmul_exact, lemma_tdiv_monotone, lemma_tdiv_multiple,
};
use crate::vec3::{V3i, v3, add_s, sub_s, neg_s, smul_s, dot_s, unit_s, in_ball};
use crate::ray::{RayS, point_at_s};
use crate::hittable::HitS;
use crate::material::{Material, reflect_s, clamp01_s, scatter_post};
use crate::sphere::{
    Sphere, sphere_a, sphere_b, sphere_c, sphere_disc, sphere_t1, sphere_t2, sphere_hit_s,
    sphere_rec_s,
};
use crate::plane::Plane;
use crate::hittable_list::{
    Object, object_hit_s, list_hit_s, lemma_object_hit_frame, lemma_list_hit_frame,
};

verus! {

/// A polished metal surface absorbs a ray whose mirror reflection would
/// leave below the surface: with no roughness, a reflection not strictly
/// above the surface scatters nothing.
pub proof fn lemma_metal_grazing_absorbed(
    m: Material,
    ray_in: RayS,
    rec: HitS,
    att: V3i,
    sc: RayS,
    b: bool,
)
    requires
        m matches Material::Metal { albedo, fuzz } && fuzz@ == 0,
        dot_s(ray_in.direction, ray_in.direction) >= 1,
        dot_s(reflect_s(unit_s(ray_in.direction), rec.normal), rec.normal) <= 0,
        scatter_post(m, ray_in, rec, att, sc, b),
    ensures
        !b,
{
    if b {
        let refl = reflect_s(unit_s(ray_in.direction), rec.normal);
        let q = choose|q: V3i|
            #[trigger] in_ball(q) && sc.direction == add_s(refl, smul_s(clamp01_s(0), q));
        lemma_fxmul_zero(q.x);
        lemma_fxmul_zero(q.y);
        lemma_fxmul_zero(q.z);
        assert(sc.direction == refl);
    }
}

/// A ray aimed exactly at a sphere's center from outside, with a unit
/// direction and no rounding in the stored products involved, hits at
/// parameter `distance - radius`, and the normal there is the unit vector
/// opposite the direction, parallel to the vector from the center to the
/// hit point.
pub proof fn lemma_sphere_center_hit(s: Sphere, ray: RayS, dist: int, t_min: int, t_max: int)
    requires
        // a unit direction, exactly
        dot_s(ray.direction, ray.direction) == SCALE,
        // the origin stands `dist` along the reverse direction from the center,
        // with no rounding in any component
        sub_s(ray.origin, s.center@) == neg_s(smul_s(dist, ray.direction)),
        (dist * ray.direction.x) % (SCALE as int) == 0,
        (dist * ray.direction.y) % (SCALE as int) == 0,
        (dist * ray.direction.z) % (SCALE as int) == 0,
        (s.radius@ * ray.direction.x) % (SCALE as int) == 0,
        (s.radius@ * ray.direction.y) % (SCALE as int) == 0,
        (s.radius@ * ray.direction.z) % (SCALE as int) == 0,
        // the dot products of the solve incur no rounding either
        dot_s(sub_s(ray.origin, s.center@), ray.direction) == -dist,
        dot_s(sub_s(ray.origin, s.center@), sub_s(ray.origin, s.center@)) == tdiv(
            dist * dist,
            SCALE as int,
        ),
        (s.radius@ * s.radius@) % (SCALE as int) == 0,
        // the origin is outside the sphere and the window covers the hit
        0 < s.radius@ < dist,
        t_min < dist - s.radius@ < t_max,
    ensures
        sphere_hit_s(s, ray, t_min, t_max) matches Some(h) && h.t == dist - s.radius@ && h.normal
            == neg_s(ray.direction) && dot_s(h.normal, h.normal) == SCALE && sub_s(h.p, s.center@)
            == smul_s(s.radius@, h.normal),
{
    let rad = s.radius@;
    let d = ray.direction;
    let oc = sub_s(ray.origin, s.center@);
    let a = sphere_a(s, ray);
    let b = sphere_b(s, ray);
    let c = sphere_c(s, ray);

    // the discriminant collapses to the rescaled squared radius
    lemma_fxmul_exact(rad, rad);
    assert(fxmul_s(rad, rad) == tdiv(rad * rad, SCALE as int));
    assert((-dist) * (-dist) == dist * dist) by (nonlinear_arith);
    assert(fxmul_s(b, b) == tdiv(dist * dist, SCALE as int));
    lemma_fxmul_one(c);
    assert(fxmul_s(a, c) == c);
    let disc = sphere_disc(s, ray);
    assert(disc == fxmul_s(rad, rad));

    // the discriminant is positive: the squared radius is a positive
    // multiple of the scale
    assert(rad * rad > 0) by (nonlinear_arith)
        requires
            rad > 0,
    ;
    vstd::arithmetic::div_mod::lemma_fundamental_div_mod(rad * rad, SCALE as int);
    assert(rad * rad == (SCALE as int) * ((rad * rad) / (SCALE as int)));
    assert(disc > 0) by (nonlinear_arith)
        requires
            rad * rad == (SCALE as int) * disc,
            rad * rad > 0,
    ;

    // its square root is exactly the radius
    assert(disc * SCALE == rad * rad) by (nonlinear_arith)
        requires
            rad * rad == (SCALE as int) * disc,
    ;
    assert(is_isqrt(rad * rad, rad)) by (nonlinear_arith)
        requires
            rad > 0,
    ;
    lemma_isqrt(disc * SCALE);
    lemma_isqrt_unique(disc * SCALE, rad, isqrt_s(disc * SCALE));
    let sq = isqrt_s(sphere_disc(s, ray) * SCALE);
    assert(sq == rad);

    // the nearer root is exactly `dist - radius`
    assert(0 - b - sq == dist - rad);
    lemma_fxmul_one(dist - rad);
    assert(sphere_t1(s, ray) == fxmul_s(dist - rad, SCALE as int));
    let t = sphere_t1(s, ray);
    assert(t == dist - rad);

    // the hit point stands one radius from the center, against the direction
    let h = sphere_rec_s(s, ray, t);
    lemma_exact_components(ray, s, dist, rad);
    assert(sphere_hit_s(s, ray, t_min, t_max) == Some(h));

    // the normal is a unit vector: its self dot product matches the
    // direction's
    assert(h.normal == neg_s(d));
    assert((-d.x) * (-d.x) == d.x * d.x) by (nonlinear_arith);
    assert((-d.y) * (-d.y) == d.y * d.y) by (nonlinear_arith);
    assert((-d.z) * (-d.z) == d.z * d.z) by (nonlinear_arith);
    assert(dot_s(neg_s(d), neg_s(d)) == dot_s(d, d));
}

/// Componentwise: with no rounding, the hit point minus the center is the
/// radius-scaled reverse direction, and the stored normal is exactly that
/// reverse direction.
proof fn lemma_exact_components(ray: RayS, s: Sphere, dist: int, rad: int)
    requires
        rad == s.radius@,
        sub_s(ray.origin, s.center@) == neg_s(smul_s(dist, ray.direction)),
        (dist * ray.direction.x) % (SCALE as int) == 0,
        (dist * ray.direction.y) % (SCALE as int) == 0,
        (dist * ray.direction.z) % (SCALE as int) == 0,
        (rad * ray.direction.x) % (SCALE as int) == 0,
        (rad * ray.direction.y) % (SCALE as int) == 0,
        (rad * ray.direction.z) % (SCALE as int) == 0,
        rad > 0,
    ensures
        sub_s(point_at_s(ray, dist - rad), s.center@) == smul_s(rad, neg_s(ray.direction)),
        crate::vec3::sdiv_s(sub_s(point_at_s(ray, dist - rad), s.center@), rad) == neg_s(
            ray.direction,
        ),
{
    lemma_exact_component(ray.direction.x, dist, rad);
    lemma_exact_component(ray.direction.y, dist, rad);
    lemma_exact_component(ray.direction.z, dist, rad);
}

/// One component of the exact hit-point algebra.
proof fn lemma_exact_component(dc: int, dist: int, rad: int)
    requires
        (dist * dc) % (SCALE as int) == 0,
        (rad * dc) % (SCALE as int) == 0,
        rad > 0,
    ensures
        fxmul_s(dist - rad, dc) == fxmul_s(dist, dc) - fxmul_s(rad, dc),
        fxmul_s(rad, -dc) == 0 - fxmul_s(rad, dc),
        fxdiv_s(0 - fxmul_s(rad, dc), rad) == -dc,
{
    lemma_fxmul_exact(dist, dc);
    lemma_fxmul_exact(rad, dc);
    assert(((dist - rad) * dc) == dist * dc - rad * dc) by (nonlinear_arith);
    assert(((dist - rad) * dc) % (SCALE as int) == 0) by {
        vstd::arithmetic::div_mod::lemma_mod_adds(dist * dc, -(rad * dc), SCALE as int);
        lemma_mod_of_neg(rad * dc);
    }
    lemma_fxmul_exact(dist - rad, dc);
    assert((fxmul_s(dist, dc) - fxmul_s(rad, dc)) * SCALE == (dist - rad) * dc)
        by (nonlinear_arith)
        requires
            fxmul_s(dist, dc) * SCALE == dist * dc,
            fxmul_s(rad, dc) * SCALE == rad * dc,
            (dist - rad) * dc == dist * dc - rad * dc,
    ;
    lemma_scale_cancel(fxmul_s(dist - rad, dc), fxmul_s(dist, dc) - fxmul_s(rad, dc));

    // negation distributes over the exact product
    assert((rad * (-dc)) == -(rad * dc)) by (nonlinear_arith);
    lemma_mod_of_neg(rad * dc);
    lemma_fxmul_exact(rad, -dc);
    assert((0 - fxmul_s(rad, dc)) * SCALE == rad * (-dc)) by (nonlinear_arith)
        requires
            fxmul_s(rad, dc) * SCALE == rad * dc,
    ;
    lemma_scale_cancel(fxmul_s(rad, -dc), 0 - fxmul_s(rad, dc));

    // dividing the scaled component by the radius returns the component
    lemma_tdiv_multiple(-dc, rad);
    assert(fxdiv_s(0 - fxmul_s(rad, dc), rad) == tdiv((0 - fxmul_s(rad, dc)) * SCALE, rad));
    assert(tdiv(rad * (-dc), rad) == -dc);
}

/// The nearer sphere root never exceeds the farther one.
proof fn lemma_sphere_roots_ordered(s: Sphere, ray: RayS)
    requires
        sphere_disc(s, ray) > 0,
        sphere_a(s, ray) > 0,
    ensures
        sphere_t1(s, ray) <= sphere_t2(s, ray),
{
    let disc = sphere_disc(s, ray);
    assert(disc * SCALE > 0) by (nonlinear_arith)
        requires
            disc > 0,
    ;
    lemma_isqrt(disc * SCALE);
    let sq = isqrt_s(disc * SCALE);
    let b = sphere_b(s, ray);
    assert((0 - b - sq) * SCALE <= (0 - b + sq) * SCALE) by (nonlinear_arith)
        requires
            sq >= 0,
    ;
    lemma_tdiv_monotone((0 - b - sq) * SCALE, (0 - b + sq) * SCALE, sphere_a(s, ray));
}

/// A primitive the shrink argument covers: a sphere or an infinite plane.
pub open spec fn simple_object(o: Object) -> bool {
    o matches Object::Sphere(_) || o matches Object::Plane(_)
}

/// Narrowing the far end of the window keeps exactly the hits whose
/// parameter still lies inside it, for spheres and planes.
proof fn lemma_object_hit_shrink(o: Object, ray: RayS, t_min: int, t_big: int, c: int)
    requires
        simple_object(o),
        c <= t_big,
    ensures
        object_hit_s(o, ray, t_min, c) == (match object_hit_s(o, ray, t_min, t_big) {
            Some(h) => if h.t < c {
                Some(h)
            } else {
                None::<HitS>
            },
            None => None::<HitS>,
        }),
{
    match o {
        Object::Sphere(s) => {
            if sphere_disc(s, ray) > 0 && sphere_a(s, ray) > 0 && s.radius@ != 0 {
                lemma_sphere_roots_ordered(s, ray);
            }
        },
        Object::Plane(p) => {},
        Object::Rectangle(r) => {},
    }
}

/// Nearest-hit selection: whenever one primitive of the scene reports a hit
/// on its own, the aggregate reports a hit at a parameter no larger.  In
/// particular, of two spheres along the same ray the aggregate returns the
/// one with the smaller parameter.
///
/// Stated for scenes of spheres and planes: a rectangle's box pre-test runs
/// over the narrowed window the fold hands it, and on a ray that grazes a box
/// corner the narrowed slab intervals can become empty, so a rectangle does
/// not satisfy the shrink step the induction rests on.
pub proof fn lemma_list_hit_nearest(s: Seq<Object>, ray: RayS, t_min: int, t_max: int, i: int)
    requires
        forall|j: int| 0 <= j < s.len() ==> simple_object(#[trigger] s[j]),
        0 <= i < s.len(),
        object_hit_s(s[i], ray, t_min, t_max) is Some,
    ensures
        list_hit_s(s, ray, t_min, t_max) matches Some(h) && (match object_hit_s(
            s[i],
            ray,
            t_min,
            t_max,
        ) {
            Some(hi) => h.t <= hi.t,
            None => false,
        }),
    decreases s.len(),
{
    let prev = list_hit_s(s.drop_last(), ray, t_min, t_max);
    let cur_max = match prev {
        Some(h) => h.t,
        None => t_max,
    };
    lemma_list_hit_frame(s.drop_last(), ray, t_min, t_max);
    lemma_object_hit_frame(s.last(), ray, t_min, cur_max);
    let hi = object_hit_s(s[i], ray, t_min, t_max)->Some_0;
    if i == s.len() - 1 {
        match prev {
            None => {
                assert(object_hit_s(s.last(), ray, t_min, cur_max) == Some(hi));
            },
            Some(hp) => {
                lemma_object_hit_shrink(s.last(), ray, t_min, t_max, hp.t);
            },
        }
    } else {
        assert(s.drop_last()[i] == s[i]);
        lemma_list_hit_nearest(s.drop_last(), ray, t_min, t_max, i);
    }
}

/// The background gradient hits its endpoints exactly: a ray pointing
/// straight up is pure sky blue.
pub proof fn lemma_background_straight_up()
    ensures
        crate::render::bg_color_s(v3(0, SCALE as int, 0)) == v3(500_000, 700_000, SCALE as int),
{
    let d = v3(0, SCALE as int, 0);
    lemma_fxmul_zero(0);
    lemma_fxmul_one(SCALE as int);
    assert(dot_s(d, d) == SCALE);
    lemma_bg_unit_axis(SCALE as int);
    let uy = crate::render::bg_uy_s(d);
    assert(uy == SCALE);
    assert(500_000int * (SCALE + SCALE) == 1_000_000_000_000) by (nonlinear_arith);
    lemma_tdiv_multiple(SCALE as int, SCALE as int);
    assert(1_000_000_000_000int == (SCALE as int) * (SCALE as int)) by (nonlinear_arith);
    let t = crate::render::bg_t_s(d);
    assert(t == SCALE);
    lemma_fxmul_zero(SCALE as int);
    lemma_fxmul_zero(500_000);
    lemma_fxmul_zero(700_000);
    lemma_fxmul_one(500_000);
    lemma_fxmul_one(700_000);
}

/// ... and a ray pointing straight down is pure white.
pub proof fn lemma_background_straight_down()
    ensures
        crate::render::bg_color_s(v3(0, -(SCALE as int), 0)) == v3(
            SCALE as int,
            SCALE as int,
            SCALE as int,
        ),
{
    let d = v3(0, -(SCALE as int), 0);
    lemma_fxmul_zero(0);
    assert((-(SCALE as int)) * (-(SCALE as int)) == (SCALE as int) * (SCALE as int))
        by (nonlinear_arith);
    lemma_fxmul_one(SCALE as int);
    assert(fxmul_s(-(SCALE as int), -(SCALE as int)) == SCALE);
    assert(dot_s(d, d) == SCALE);
    lemma_bg_unit_axis(-(SCALE as int));
    let uy = crate::render::bg_uy_s(d);
    assert(uy == -(SCALE as int));
    lemma_fxmul_zero(500_000);
    let t = crate::render::bg_t_s(d);
    assert(t == 0);
    lemma_fxmul_one(SCALE as int);
    lemma_fxmul_zero(SCALE as int);
    lemma_fxmul_zero(700_000);
}

/// The unit rescaling of an axis-aligned vector of one unit length returns
/// the signed unit component.
proof fn lemma_bg_unit_axis(y: int)
    requires
        y == SCALE || y == -(SCALE as int),
    ensures
        fxdiv_s(y, crate::vec3::len_s(v3(0, y, 0))) == y,
        crate::vec3::unit_s(v3(0, y, 0)).y == y,
        crate::vec3::unit_s(v3(0, y, 0)).x == 0,
        crate::vec3::unit_s(v3(0, y, 0)).z == 0,
{
    let d = v3(0, y, 0);
    lemma_fxmul_zero(0);
    lemma_fxmul_one(SCALE as int);
    assert(y * y == (SCALE as int) * (SCALE as int)) by (nonlinear_arith)
        requires
            y == SCALE || y == -(SCALE as int),
    ;
    assert(fxmul_s(y, y) == SCALE) by {
        assert(fxmul_s(SCALE as int, SCALE as int) == SCALE);
        assert(abs_i(y * y) == abs_i((SCALE as int) * (SCALE as int)));
    }
    assert(dot_s(d, d) == SCALE);
    let n = dot_s(d, d) * (SCALE as int);
    assert(dot_s(d, d) * (SCALE as int) == (SCALE as int) * (SCALE as int)) by (nonlinear_arith)
        requires
            dot_s(d, d) == SCALE,
    ;
    assert(is_isqrt(n, SCALE as int)) by (nonlinear_arith)
        requires
            n == (SCALE as int) * (SCALE as int),
    ;
    lemma_isqrt(n);
    lemma_isqrt_unique(n, SCALE as int, isqrt_s(n));
    assert(crate::vec3::len_s(d) == SCALE);
    lemma_fxmul_one(y);
    assert(fxdiv_s(y, SCALE as int) == fxmul_s(y, SCALE as int)) by {
        assert(y * SCALE == y * SCALE);
    }
    lemma_fxmul_zero(SCALE as int);
    assert(fxdiv_s(0, SCALE as int) == 0) by {
        vstd::arithmetic::div_mod::lemma_div_of0(SCALE as int);
    }
}

/// Two integers with equal scale multiples are equal.
proof fn lemma_scale_cancel(x: int, y: int)
    requires
        x * SCALE == y * SCALE,
    ensures
        x == y,
{
    assert((x - y) * SCALE == 0) by (nonlinear_arith)
        requires
            x * SCALE == y * SCALE,
    ;
    assert(x == y) by (nonlinear_arith)
        requires
            (x - y) * (SCALE as int) == 0,
            SCALE != 0,
    ;
}

/// Negating the dividend of a whole multiple negates the remainder class.
proof fn lemma_mod_of_neg(x: int)
    requires
        x % (SCALE as int) == 0,
    ensures
        (-x) % (SCALE as int) == 0,
{
    vstd::arithmetic::div_mod::lemma_fundamental_div_mod(x, SCALE as int);
    assert(-x == (SCALE as int) * (-(x / (SCALE as int)))) by (nonlinear_arith)
        requires
            x == (SCALE as int) * (x / (SCALE as int)),
    ;
    vstd::arithmetic::div_mod::lemma_mod_multiples_basic(-(x / (SCALE as int)), SCALE as int);
}

} // verus!
