//! The path integrator and the per-pixel sampler: intersect, scatter,
//! recurse; then average jittered samples, gamma-correct and quantize.

use vstd::prelude::*;
use crate::fx::{
    Fx, SCALE, FX_LIM, FX_WF, abs_i, tdiv, fxmul_s, fxdiv_s, fx_ok, fx_wf, lemma_tdiv_abs,
    lemma_fxmul_zero,
};
use crate::vec3::{
    Vec3, V3i, v3, add_s, sub_s, smul_s, cmul_s, dot_s, unit_s, len_s, v3_wf, v3_bounded, v3_ok,
    lemma_fxmul_bound, lemma_unit_bound, lemma_dot_self_nonneg, LEN_LIM,
};
use crate::ray::{Ray, RayS, ray_wf, window_wf, T_RANGE};
use crate::hittable::{HitRecord, HitS, hit_wf};
use crate::material::{Material, scatter, mat_wf, color_wf, scatter_post};
use crate::hittable_list::{
    HittableList, Object, list_wf, list_hit_s, object_material, lemma_list_hit_frame,
};
use crate::camera::{Camera, camera_wf};
use crate::rng::random_fraction;

verus! {

/// The intersection window of the integrator: a small positive start to
/// avoid re-hitting the surface a ray just left, and a far horizon.
pub const T_EPS: i128 = 1000;

/// The normalized vertical component that keys the background gradient;
/// zero for a degenerate (vanishing) direction.
pub open spec fn bg_uy_s(d: V3i) -> int {
    if dot_s(d, d) >= 1 {
        unit_s(d).y
    } else {
        0
    }
}

/// The gradient parameter `0.5 * (unit_y + 1)`.
pub open spec fn bg_t_s(d: V3i) -> int {
    fxmul_s(500_000, bg_uy_s(d) + SCALE)
}

/// The background: a linear blend from white to sky blue keyed by the
/// direction's normalized vertical component.
pub open spec fn bg_color_s(d: V3i) -> V3i {
    let t = bg_t_s(d);
    add_s(
        smul_s(SCALE - t, v3(SCALE as int, SCALE as int, SCALE as int)),
        smul_s(t, v3(500_000, 700_000, SCALE as int)),
    )
}

/// What any returned path color satisfies: channels are never negative.
pub open spec fn color_nonneg(c: V3i) -> bool {
    c.x >= 0 && c.y >= 0 && c.z >= 0
}

/// The background of a scene-bounded direction has nonnegative channels, and
/// its gradient parameter is within half a unit of the `[0, 1]` range.
pub proof fn lemma_bg_nonneg(d: V3i)
    requires
        v3_wf(d),
    ensures
        color_nonneg(bg_color_s(d)),
        -1_500_000 <= bg_t_s(d) <= 1_500_000,
{
    let uy = bg_uy_s(d);
    if dot_s(d, d) >= 1 {
        lemma_unit_bound(d);
    }
    assert(-(SCALE as int) <= uy + SCALE <= 3 * SCALE);
    lemma_fxmul_bound(500_000, uy + SCALE, 500_000, 3 * SCALE as int);
    let t = bg_t_s(d);
    crate::fx::lemma_fxmul_one(SCALE - t);
    crate::fx::lemma_fxmul_one(t);
    lemma_half_bound(t);
    lemma_seven_tenths_bound(t);
}

/// Twice the rescaled half of `t` is within one of `t`.
proof fn lemma_half_bound(t: int)
    ensures
        t - 1 <= 2 * fxmul_s(t, 500_000) <= t + 1,
{
    lemma_tdiv_abs(t * 500_000, SCALE as int);
    vstd::arithmetic::div_mod::lemma_fundamental_div_mod(abs_i(t * 500_000), SCALE as int);
    assert(abs_i(t * 500_000) == abs_i(t) * 500_000) by (nonlinear_arith);
    let q = abs_i(t * 500_000) / (SCALE as int);
    assert(2 * q <= abs_i(t) <= 2 * q + 1) by (nonlinear_arith)
        requires
            abs_i(t) * 500_000 == (SCALE as int) * q + (abs_i(t) * 500_000) % (SCALE as int),
            0 <= (abs_i(t) * 500_000) % (SCALE as int) < SCALE,
    ;
}

/// Ten times the rescaled seven tenths of `t` is within ten of `7 * t`.
proof fn lemma_seven_tenths_bound(t: int)
    ensures
        7 * t - 10 <= 10 * fxmul_s(t, 700_000) <= 7 * t + 10,
{
    lemma_tdiv_abs(t * 700_000, SCALE as int);
    vstd::arithmetic::div_mod::lemma_fundamental_div_mod(abs_i(t * 700_000), SCALE as int);
    assert(abs_i(t * 700_000) == abs_i(t) * 700_000) by (nonlinear_arith);
    let q = abs_i(t * 700_000) / (SCALE as int);
    assert(7 * abs_i(t) - 10 <= 10 * q <= 7 * abs_i(t)) by (nonlinear_arith)
        requires
            abs_i(t) * 700_000 == (SCALE as int) * q + (abs_i(t) * 700_000) % (SCALE as int),
            0 <= (abs_i(t) * 700_000) % (SCALE as int) < SCALE,
    ;
}

/// The background color of a ray that escapes the scene.
pub fn background(d: &Vec3) -> (c: Vec3)
    requires
        v3_wf(d@),
    ensures
        c@ == bg_color_s(d@),
        color_nonneg(c@),
{
    let sq = d.squared_length();
    let uy = if sq.v >= 1 {
        proof {
            lemma_unit_bound(d@);
        }
        Vec3::unit_vector(d).y
    } else {
        Fx { v: 0 }
    };
    let half = Fx { v: 500_000 };
    let one = Fx { v: 1_000_000 };
    let t = half.mul(uy.add(one));
    proof {
        lemma_bg_nonneg(d@);
    }
    let white = Vec3 { x: one, y: one, z: one };
    let blue = Vec3 { x: half, y: Fx { v: 700_000 }, z: one };
    white.scale(one.sub(t)).add(blue.scale(t))
}

/// Checks at run time that a vector is inside the scene-data bound.
fn v3_wf_check(v: &Vec3) -> (b: bool)
    ensures
        b == v3_wf(v@),
{
    -274_877_906_944 <= v.x.v && v.x.v <= 274_877_906_944 && -274_877_906_944 <= v.y.v && v.y.v
        <= 274_877_906_944 && -274_877_906_944 <= v.z.v && v.z.v <= 274_877_906_944
}

/// Caps each channel at the operation-safe bound, keeping it nonnegative.
fn cap_channel(c: Fx) -> (r: Fx)
    ensures
        r@ == if c@ > FX_LIM {
            FX_LIM as int
        } else {
            c@
        },
{
    if c.v > 9_223_372_036_854_775_808 {
        Fx { v: 9_223_372_036_854_775_808 }
    } else {
        c
    }
}

/// Everything `color` promises of one outcome for a given ray and depth:
/// channels are never negative; a spent depth budget gives exactly black; a
/// miss gives exactly the background gradient; a hit on the unimplemented
/// dielectric is absorbed to exactly black; and so is a hit on a polished
/// (zero-roughness) metal whose mirror reflection does not leave the surface.
pub open spec fn color_outcome_ok(world: HittableList, r: RayS, depth: u32, c: V3i) -> bool {
    &&& color_nonneg(c)
    &&& depth == 0 ==> c == v3(0, 0, 0)
    &&& (depth > 0 && list_hit_s(world.objects@, r, T_EPS as int, T_RANGE as int) is None ==> c
        == bg_color_s(r.direction))
    &&& (depth > 0 && (list_hit_s(world.objects@, r, T_EPS as int, T_RANGE as int) matches Some(h)
        && h.material matches Material::Dielectric { .. }) ==> c == v3(0, 0, 0))
    &&& (depth > 0 && (list_hit_s(world.objects@, r, T_EPS as int, T_RANGE as int) matches Some(h)
        && h.material matches Material::Metal { albedo, fuzz } && fuzz@ == 0 && dot_s(
        crate::material::reflect_s(unit_s(r.direction), h.normal),
        h.normal,
    ) <= 0) ==> c == v3(0, 0, 0))
}

/// The color carried back along a ray: black once the depth budget is spent;
/// the background gradient if the scene is missed; else the scattered
/// contribution, or black on absorption.  Hit records or scattered rays that
/// leave the scene-data bound are treated as absorbed, so the integrator is
/// total.
pub fn color(r: &Ray, world: &HittableList, depth: u32) -> (c: Vec3)
    requires
        list_wf(*world),
        ray_wf(r@),
    ensures
        color_outcome_ok(*world, r@, depth, c@),
    decreases depth,
{
    if depth == 0 {
        return Vec3 { x: Fx { v: 0 }, y: Fx { v: 0 }, z: Fx { v: 0 } };
    }
    let t_min = Fx { v: T_EPS };
    let t_max = Fx { v: T_RANGE };
    proof {
        lemma_list_hit_frame(world.objects@, r@, T_EPS as int, T_RANGE as int);
    }
    match world.hit(r, t_min, t_max) {
        Some(rec) => {
            if !(v3_wf_check(&rec.p) && v3_wf_check(&rec.normal)) {
                // out-of-range geometry: treat as absorbed
                return Vec3 { x: Fx { v: 0 }, y: Fx { v: 0 }, z: Fx { v: 0 } };
            }
            let mut attentuation = Vec3 { x: Fx { v: 0 }, y: Fx { v: 0 }, z: Fx { v: 0 } };
            let mut scattered = Ray::ray(attentuation, attentuation);
            proof {
                let s = world.objects@;
                let i = choose|i: int|
                    0 <= i < s.len() && rec@.material == object_material(#[trigger] s[i]);
                assert(mat_wf(rec@.material));
            }
            if scatter(&rec.material, r, &rec, &mut attentuation, &mut scattered) {
                // a polished metal hit whose mirror reflection stays below the
                // surface never scatters, so this branch contradicts it
                proof {
                    match list_hit_s(world.objects@, r@, T_EPS as int, T_RANGE as int) {
                        Some(h) => {
                            match h.material {
                                Material::Metal { albedo, fuzz } => {
                                    if fuzz@ == 0 && dot_s(
                                        crate::material::reflect_s(unit_s(r@.direction), h.normal),
                                        h.normal,
                                    ) <= 0 && dot_s(r@.direction, r@.direction) >= 1 {
                                        crate::laws::lemma_metal_grazing_absorbed(
                                            rec.material,
                                            r@,
                                            rec@,
                                            attentuation@,
                                            scattered@,
                                            true,
                                        );
                                    }
                                },
                                _ => {},
                            }
                        },
                        None => {},
                    }
                }
                if v3_wf_check(&scattered.direction) {
                    let rest = color(&scattered, world, depth - 1);
                    let capped = Vec3 {
                        x: cap_channel(rest.x),
                        y: cap_channel(rest.y),
                        z: cap_channel(rest.z),
                    };
                    proof {
                        lemma_att_nonneg(rec@.material, attentuation@, capped@);
                    }
                    attentuation.mul(capped)
                } else {
                    // a scattered ray outside the scene bound: absorbed
                    Vec3 { x: Fx { v: 0 }, y: Fx { v: 0 }, z: Fx { v: 0 } }
                }
            } else {
                Vec3 { x: Fx { v: 0 }, y: Fx { v: 0 }, z: Fx { v: 0 } }
            }
        },
        None => { background(&r.direction()) },
    }
}

/// An attenuation with nonnegative channels applied to a nonnegative color
/// keeps every channel nonnegative.
proof fn lemma_att_nonneg(m: Material, att: V3i, rest: V3i)
    requires
        mat_wf(m),
        att.x >= 0 && att.y >= 0 && att.z >= 0,
        color_nonneg(rest),
    ensures
        color_nonneg(cmul_s(att, rest)),
{
    lemma_fxmul_nonneg(att.x, rest.x);
    lemma_fxmul_nonneg(att.y, rest.y);
    lemma_fxmul_nonneg(att.z, rest.z);
}

/// A rescaled product of nonnegatives is nonnegative.
pub proof fn lemma_fxmul_nonneg(a: int, b: int)
    requires
        a >= 0,
        b >= 0,
    ensures
        fxmul_s(a, b) >= 0,
{
    assert(a * b >= 0) by (nonlinear_arith)
        requires
            a >= 0,
            b >= 0,
    ;
}

/// A rescaled quotient of a nonnegative by a positive is nonnegative and no
/// larger than the numerator when the divisor is at least one.
pub proof fn lemma_fxdiv_avg(a: int, k: int)
    requires
        a >= 0,
        k >= SCALE,
    ensures
        0 <= fxdiv_s(a, k) <= a,
{
    lemma_tdiv_abs(a * SCALE, k);
    assert(a * SCALE >= 0) by (nonlinear_arith)
        requires
            a >= 0,
    ;
    vstd::arithmetic::div_mod::lemma_div_is_ordered_by_denominator(a * SCALE, SCALE as int, k);
    assert(abs_i(a * SCALE) == a * SCALE);
    assert((a * (SCALE as int)) / (SCALE as int) == a) by {
        assert(a * (SCALE as int) == (SCALE as int) * a) by (nonlinear_arith);
        vstd::arithmetic::div_mod::lemma_div_multiples_vanish(a, SCALE as int);
    }
}

/// Per-sample brightness cap, so that sample sums and averages stay inside
/// the bounds of the gamma and quantization arithmetic.
pub const SAMPLE_CAP: i128 = 1_099_511_627_776;

/// One channel capped at the brightness cap.
pub open spec fn cap_s(a: int) -> int {
    if a > SAMPLE_CAP {
        SAMPLE_CAP as int
    } else {
        a
    }
}

/// A sample color capped channelwise.
pub open spec fn cap3_s(c: V3i) -> V3i {
    v3(cap_s(c.x), cap_s(c.y), cap_s(c.z))
}

/// Caps one channel of a path sample at the brightness cap.
fn cap_sample(c: Fx) -> (r: Fx)
    requires
        c@ >= 0,
    ensures
        0 <= r@ <= SAMPLE_CAP,
        r@ == cap_s(c@),
{
    if c.v > 1_099_511_627_776 {
        Fx { v: 1_099_511_627_776 }
    } else {
        c
    }
}

/// A finished pixel: nonnegative whole channel values.
pub open spec fn pixel_ok(c: Vec3) -> bool {
    color_nonneg(c@) && c@.x % (SCALE as int) == 0 && c@.y % (SCALE as int) == 0 && c@.z % (
    SCALE as int) == 0
}

/// One jittered normalized image coordinate: `(i + f) / n` in stored units,
/// for a jitter fraction `f` in `[0, 1)`.
pub open spec fn jitter_s(i: int, n: int, f: int) -> int {
    fxdiv_s(i * SCALE + f, n * SCALE)
}

/// One path sample for pixel `(x, y)`, witnessed by its random draws: the
/// jitter fractions `fu`, `fv` and the lens draw `q` fix the sample ray; `c`
/// obeys everything `color` promises of that ray (black if the ray left the
/// scene bound, as the sampler then skips it); and the sample recorded is `c`
/// capped at the brightness cap.
pub open spec fn sample_witness(
    cam: Camera,
    world: HittableList,
    x: int,
    y: int,
    width: int,
    height: int,
    depth: u32,
    fu: int,
    fv: int,
    q: V3i,
    c: V3i,
    val: V3i,
) -> bool {
    let ray = crate::camera::get_ray_s(cam, jitter_s(x, width, fu), jitter_s(y, height, fv), q);
    &&& 0 <= fu < SCALE
    &&& 0 <= fv < SCALE
    &&& crate::vec3::in_ball(q)
    &&& if ray_wf(ray) {
        color_outcome_ok(world, ray, depth, c)
    } else {
        c == v3(0, 0, 0)
    }
    &&& val == cap3_s(c)
}

/// `val` is an admissible path sample for pixel `(x, y)`: some draws witness
/// it.
pub open spec fn sample_ok(
    cam: Camera,
    world: HittableList,
    x: int,
    y: int,
    width: int,
    height: int,
    depth: u32,
    val: V3i,
) -> bool {
    exists|fu: int, fv: int, q: V3i, c: V3i|
        #[trigger] sample_witness(cam, world, x, y, width, height, depth, fu, fv, q, c, val)
}

/// The channelwise sum of a sequence of sample colors.
pub open spec fn sum_samples(vals: Seq<V3i>) -> V3i
    decreases vals.len(),
{
    if vals.len() == 0 {
        v3(0, 0, 0)
    } else {
        add_s(sum_samples(vals.drop_last()), vals.last())
    }
}

/// One averaged channel after square-root gamma, byte scaling and flooring.
pub open spec fn gamma_byte_s(a: int) -> int {
    (fxmul_s(crate::fx::isqrt_s(a * SCALE), 255_990_000) / (SCALE as int)) * SCALE
}

/// The finished pixel from the channelwise sum of the drawn samples.
pub open spec fn quantize_s(acc: V3i, samples: int) -> V3i {
    let avg = crate::vec3::sdiv_s(acc, samples * SCALE);
    v3(gamma_byte_s(avg.x), gamma_byte_s(avg.y), gamma_byte_s(avg.z))
}

/// The pixel is the quantized average of `samples` admissible path samples
/// for its own coordinates: in particular, when the scene is empty every
/// sample of a scene-bounded ray is the background gradient, never black.
pub open spec fn pixel_sampled(
    cam: Camera,
    world: HittableList,
    x: int,
    y: int,
    width: int,
    height: int,
    samples: u32,
    depth: u32,
    c: V3i,
) -> bool {
    exists|vals: Seq<V3i>|
        #![trigger sum_samples(vals)]
        vals.len() == samples as int && (forall|i: int|
            0 <= i < vals.len() ==> sample_ok(
                cam,
                world,
                x,
                y,
                width,
                height,
                depth,
                #[trigger] vals[i],
            )) && c == quantize_s(sum_samples(vals), samples as int)
}

/// One jittered normalized image coordinate `(i + u) / n` with `u` uniform in
/// `[0, 1)`.
fn jitter(i: u32, n: u32) -> (r: Fx)
    requires
        i < n,
        n <= 100_000,
    ensures
        0 <= r@ <= SCALE,
        exists|f: int| 0 <= f < SCALE && r@ == #[trigger] jitter_s(i as int, n as int, f),
{
    let f = random_fraction();
    let num = Fx { v: (i as i128) * 1_000_000 + f.v };
    let den = Fx { v: (n as i128) * 1_000_000 };
    proof {
        assert(num@ < den@);
        assert(num@ >= 0);
    }
    let r = num.div(den);
    proof {
        lemma_tdiv_abs(num@ * SCALE, den@);
        assert(num@ * SCALE >= 0) by (nonlinear_arith)
            requires
                num@ >= 0,
        ;
        assert(num@ * SCALE <= den@ * SCALE) by (nonlinear_arith)
            requires
                num@ <= den@,
                SCALE > 0,
        ;
        vstd::arithmetic::div_mod::lemma_div_is_ordered(num@ * SCALE, den@ * SCALE, den@);
        assert((den@ * (SCALE as int)) / den@ == SCALE) by {
            vstd::arithmetic::div_mod::lemma_div_multiples_vanish(SCALE as int, den@);
            assert(den@ * (SCALE as int) == den@ * (SCALE as int));
        }
        assert(0 <= f@ < SCALE && r@ == jitter_s(i as int, n as int, f@));
    }
    r
}

/// One pixel: average `samples` jittered path samples, apply square-root
/// gamma, scale to byte range and round down to whole channel values.
pub fn render_pixel(
    cam: &Camera,
    world: &HittableList,
    x: u32,
    y: u32,
    width: u32,
    height: u32,
    samples: u32,
    max_depth: u32,
) -> (c: Vec3)
    requires
        camera_wf(*cam),
        list_wf(*world),
        x < width,
        y < height,
        width <= 100_000,
        height <= 100_000,
        1 <= samples <= 1_000_000,
    ensures
        pixel_ok(c),
        pixel_sampled(
            *cam,
            *world,
            x as int,
            y as int,
            width as int,
            height as int,
            samples,
            max_depth,
            c@,
        ),
{
    let mut acc = Vec3 { x: Fx { v: 0 }, y: Fx { v: 0 }, z: Fx { v: 0 } };
    let mut s: u32 = 0;
    let ghost mut vals: Seq<V3i> = Seq::empty();
    while s < samples
        invariant
            camera_wf(*cam),
            list_wf(*world),
            x < width <= 100_000,
            y < height <= 100_000,
            1 <= samples <= 1_000_000,
            s <= samples,
            0 <= acc@.x <= s * SAMPLE_CAP,
            0 <= acc@.y <= s * SAMPLE_CAP,
            0 <= acc@.z <= s * SAMPLE_CAP,
            vals.len() == s as int,
            forall|i: int|
                0 <= i < vals.len() ==> sample_ok(
                    *cam,
                    *world,
                    x as int,
                    y as int,
                    width as int,
                    height as int,
                    max_depth,
                    #[trigger] vals[i],
                ),
            acc@ == sum_samples(vals),
        decreases samples - s,
    {
        let u = jitter(x, width);
        let v = jitter(y, height);
        let r = cam.get_ray(u, v);
        let sample = if v3_wf_check(&r.origin) && v3_wf_check(&r.direction) {
            color(&r, world, max_depth)
        } else {
            // a viewport outside the scene bound contributes nothing
            Vec3 { x: Fx { v: 0 }, y: Fx { v: 0 }, z: Fx { v: 0 } }
        };
        let capped = Vec3 {
            x: cap_sample(sample.x),
            y: cap_sample(sample.y),
            z: cap_sample(sample.z),
        };
        acc = Vec3 {
            x: Fx { v: acc.x.v + capped.x.v },
            y: Fx { v: acc.y.v + capped.y.v },
            z: Fx { v: acc.z.v + capped.z.v },
        };
        proof {
            let fu = choose|f: int|
                0 <= f < SCALE && u@ == #[trigger] jitter_s(x as int, width as int, f);
            let fv = choose|f: int|
                0 <= f < SCALE && v@ == #[trigger] jitter_s(y as int, height as int, f);
            let q = choose|q: V3i|
                #[trigger] crate::vec3::in_ball(q) && r@ == crate::camera::get_ray_s(
                    *cam,
                    u@,
                    v@,
                    q,
                );
            assert(sample_witness(
                *cam,
                *world,
                x as int,
                y as int,
                width as int,
                height as int,
                max_depth,
                fu,
                fv,
                q,
                sample@,
                capped@,
            ));
            let ghost prev = vals;
            vals = vals.push(capped@);
            assert(vals.drop_last() =~= prev);
            assert(vals.last() == capped@);
            assert forall|i: int| 0 <= i < vals.len() implies sample_ok(
                *cam,
                *world,
                x as int,
                y as int,
                width as int,
                height as int,
                max_depth,
                #[trigger] vals[i],
            ) by {
                if i < prev.len() {
                    assert(vals[i] == prev[i]);
                }
            }
        }
        s = s + 1;
    }
    let den = Fx { v: (samples as i128) * 1_000_000 };
    proof {
        lemma_fxdiv_avg(acc@.x, den@);
        lemma_fxdiv_avg(acc@.y, den@);
        lemma_fxdiv_avg(acc@.z, den@);
    }
    let avg = acc.div(den);
    let gx = avg.x.sqrt();
    let gy = avg.y.sqrt();
    let gz = avg.z.sqrt();
    let bytes = Fx { v: 255_990_000 };
    proof {
        assert(avg@.x * SCALE <= 1_099_511_627_776int * 1_099_511_627_776) by (nonlinear_arith)
            requires
                0 <= avg@.x <= 1_000_000 * SAMPLE_CAP,
        ;
        assert(avg@.y * SCALE <= 1_099_511_627_776int * 1_099_511_627_776) by (nonlinear_arith)
            requires
                0 <= avg@.y <= 1_000_000 * SAMPLE_CAP,
        ;
        assert(avg@.z * SCALE <= 1_099_511_627_776int * 1_099_511_627_776) by (nonlinear_arith)
            requires
                0 <= avg@.z <= 1_000_000 * SAMPLE_CAP,
        ;
        crate::fx::lemma_isqrt_le(avg@.x * SCALE, 1_099_511_627_776);
        crate::fx::lemma_isqrt_le(avg@.y * SCALE, 1_099_511_627_776);
        crate::fx::lemma_isqrt_le(avg@.z * SCALE, 1_099_511_627_776);
        lemma_fxmul_nonneg(gx@, bytes@);
        lemma_fxmul_nonneg(gy@, bytes@);
        lemma_fxmul_nonneg(gz@, bytes@);
        lemma_fxmul_bound(gx@, bytes@, SAMPLE_CAP as int, 255_990_000);
        lemma_fxmul_bound(gy@, bytes@, SAMPLE_CAP as int, 255_990_000);
        lemma_fxmul_bound(gz@, bytes@, SAMPLE_CAP as int, 255_990_000);
    }
    let mut out = Vec3 { x: gx.mul(bytes), y: gy.mul(bytes), z: gz.mul(bytes) };
    out.colorize();
    proof {
        lemma_floor_props(fxmul_s(gx@, bytes@));
        lemma_floor_props(fxmul_s(gy@, bytes@));
        lemma_floor_props(fxmul_s(gz@, bytes@));
        assert(out@ == quantize_s(sum_samples(vals), samples as int));
    }
    out
}

/// Rounding a nonnegative value down to whole units gives a nonnegative
/// multiple of the scale.
proof fn lemma_floor_props(a: int)
    requires
        a >= 0,
    ensures
        (a / (SCALE as int)) * SCALE >= 0,
        ((a / (SCALE as int)) * SCALE) % (SCALE as int) == 0,
{
    vstd::arithmetic::div_mod::lemma_div_pos_is_pos(a, SCALE as int);
    let q = a / (SCALE as int);
    assert(q * SCALE >= 0) by (nonlinear_arith)
        requires
            q >= 0,
    ;
    assert(q * (SCALE as int) == (SCALE as int) * q) by (nonlinear_arith);
    vstd::arithmetic::div_mod::lemma_mod_multiples_basic(q, SCALE as int);
}

/// The whole frame, rows from the top of the image down, pixels left to
/// right, as the image writer expects them.
pub fn render(
    world: &HittableList,
    cam: &Camera,
    width: u32,
    height: u32,
    samples: u32,
    max_depth: u32,
) -> (img: Vec<Vec<Vec3>>)
    requires
        camera_wf(*cam),
        list_wf(*world),
        1 <= width <= 100_000,
        1 <= height <= 100_000,
        1 <= samples <= 1_000_000,
    ensures
        img@.len() == height as int,
        forall|i: int| 0 <= i < img@.len() ==> (#[trigger] img@[i])@.len() == width as int,
        forall|i: int, j: int|
            0 <= i < img@.len() && 0 <= j < img@[i]@.len() ==> pixel_ok(#[trigger] img@[i]@[j]),
        forall|i: int, j: int|
            0 <= i < img@.len() && 0 <= j < img@[i]@.len() ==> pixel_sampled(
                *cam,
                *world,
                j,
                height - 1 - i,
                width as int,
                height as int,
                samples,
                max_depth,
                (#[trigger] img@[i]@[j])@,
            ),
{
    let mut img: Vec<Vec<Vec3>> = Vec::new();
    let mut y_rev: u32 = 0;
    while y_rev < height
        invariant
            camera_wf(*cam),
            list_wf(*world),
            1 <= width <= 100_000,
            1 <= height <= 100_000,
            1 <= samples <= 1_000_000,
            y_rev <= height,
            img@.len() == y_rev as int,
            forall|i: int| 0 <= i < img@.len() ==> (#[trigger] img@[i])@.len() == width as int,
            forall|i: int, j: int|
                0 <= i < img@.len() && 0 <= j < img@[i]@.len() ==> pixel_ok(
                    #[trigger] img@[i]@[j],
                ),
            forall|i: int, j: int|
                0 <= i < img@.len() && 0 <= j < img@[i]@.len() ==> pixel_sampled(
                    *cam,
                    *world,
                    j,
                    height - 1 - i,
                    width as int,
                    height as int,
                    samples,
                    max_depth,
                    (#[trigger] img@[i]@[j])@,
                ),
        decreases height - y_rev,
    {
        let y = height - 1 - y_rev;
        let mut row: Vec<Vec3> = Vec::new();
        let mut x: u32 = 0;
        while x < width
            invariant
                camera_wf(*cam),
                list_wf(*world),
                1 <= width <= 100_000,
                1 <= height <= 100_000,
                1 <= samples <= 1_000_000,
                y < height,
                y == height - 1 - y_rev,
                x <= width,
                row@.len() == x as int,
                forall|j: int| 0 <= j < row@.len() ==> pixel_ok(#[trigger] row@[j]),
                forall|j: int|
                    0 <= j < row@.len() ==> pixel_sampled(
                        *cam,
                        *world,
                        j,
                        y as int,
                        width as int,
                        height as int,
                        samples,
                        max_depth,
                        (#[trigger] row@[j])@,
                    ),
            decreases width - x,
        {
            let px = render_pixel(cam, world, x, y, width, height, samples, max_depth);
            row.push(px);
            x = x + 1;
        }
        img.push(row);
        y_rev = y_rev + 1;
    }
    img
}

} // verus!
