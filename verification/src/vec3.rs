//! Three-component vectors over the scaled-integer scalars, used as points,
//! directions, normals and linear-RGB colors.

use vstd::prelude::*;
use crate::fx::{
    Fx, SCALE, FX_LIM, FX_WF, FX_SQRT_LIM, abs_i, tdiv, fxmul_s, fxdiv_s, fx_ok, fx_wf,
    is_isqrt, isqrt_s, lemma_tdiv_abs, lemma_isqrt, lemma_isqrt_unique,
};
use crate::rng::random_fraction;

verus! {

/// The mathematical value of a vector: its three stored components.
pub ghost struct V3i {
    pub x: int,
    pub y: int,
    pub z: int,
}

/// A triple of scaled-integer scalars.
#[derive(Clone, Copy, Debug, PartialEq, Eq, Structural)]
pub struct Vec3 {
    pub x: Fx,
    pub y: Fx,
    pub z: Fx,
}

impl View for Vec3 {
    type V = V3i;

    open spec fn view(&self) -> V3i {
        V3i { x: self.x@, y: self.y@, z: self.z@ }
    }
}

pub open spec fn v3(x: int, y: int, z: int) -> V3i {
    V3i { x, y, z }
}

pub open spec fn add_s(a: V3i, b: V3i) -> V3i {
    v3(a.x + b.x, a.y + b.y, a.z + b.z)
}

pub open spec fn sub_s(a: V3i, b: V3i) -> V3i {
    v3(a.x - b.x, a.y - b.y, a.z - b.z)
}

pub open spec fn neg_s(a: V3i) -> V3i {
    v3(-a.x, -a.y, -a.z)
}

/// Scalar times vector, each component rescaled as `mul` does.
pub open spec fn smul_s(k: int, a: V3i) -> V3i {
    v3(fxmul_s(k, a.x), fxmul_s(k, a.y), fxmul_s(k, a.z))
}

/// Component-wise product, as colors attenuate.
pub open spec fn cmul_s(a: V3i, b: V3i) -> V3i {
    v3(fxmul_s(a.x, b.x), fxmul_s(a.y, b.y), fxmul_s(a.z, b.z))
}

/// Vector divided by a scalar, component-wise.
pub open spec fn sdiv_s(a: V3i, k: int) -> V3i {
    v3(fxdiv_s(a.x, k), fxdiv_s(a.y, k), fxdiv_s(a.z, k))
}

pub open spec fn dot_s(a: V3i, b: V3i) -> int {
    fxmul_s(a.x, b.x) + fxmul_s(a.y, b.y) + fxmul_s(a.z, b.z)
}

pub open spec fn cross_s(a: V3i, b: V3i) -> V3i {
    v3(
        fxmul_s(a.y, b.z) - fxmul_s(a.z, b.y),
        fxmul_s(a.z, b.x) - fxmul_s(a.x, b.z),
        fxmul_s(a.x, b.y) - fxmul_s(a.y, b.x),
    )
}

/// The stored length: the rounded-down square root of the squared length,
/// rescaled back to stored units.
pub open spec fn len_s(a: V3i) -> int {
    isqrt_s(dot_s(a, a) * SCALE)
}

pub open spec fn unit_s(a: V3i) -> V3i {
    sdiv_s(a, len_s(a))
}

/// Every component within `m` in magnitude.
pub open spec fn v3_bounded(a: V3i, m: int) -> bool {
    abs_i(a.x) <= m && abs_i(a.y) <= m && abs_i(a.z) <= m
}

/// Safe for one scalar operation per component.
pub open spec fn v3_ok(a: V3i) -> bool {
    fx_ok(a.x) && fx_ok(a.y) && fx_ok(a.z)
}

/// Scene-data bound, component-wise.
pub open spec fn v3_wf(a: V3i) -> bool {
    v3_bounded(a, FX_WF as int)
}

/// Magnitude bound accepted by `length` and `unit_vector`.
pub const LEN_LIM: i128 = 2_305_843_009_213_693_952;

/// `|fxmul_s(a, b)|` is at most `aa * bb / SCALE` when `|a| <= aa, |b| <= bb`.
pub proof fn lemma_fxmul_bound(a: int, b: int, aa: int, bb: int)
    requires
        abs_i(a) <= aa,
        abs_i(b) <= bb,
    ensures
        abs_i(fxmul_s(a, b)) <= (aa * bb) / (SCALE as int),
        abs_i(a * b) <= aa * bb,
{
    assert(abs_i(a * b) <= aa * bb) by (nonlinear_arith)
        requires
            abs_i(a) <= aa,
            abs_i(b) <= bb,
    ;
    lemma_tdiv_abs(a * b, SCALE as int);
    vstd::arithmetic::div_mod::lemma_div_is_ordered(abs_i(a * b), aa * bb, SCALE as int);
}

/// A dot product of vectors bounded by `m` is bounded by `3 * (m * m / SCALE)`.
pub proof fn lemma_dot_bound(a: V3i, b: V3i, m: int)
    requires
        v3_bounded(a, m),
        v3_bounded(b, m),
        0 <= m,
    ensures
        abs_i(dot_s(a, b)) <= 3 * ((m * m) / (SCALE as int)),
{
    lemma_fxmul_bound(a.x, b.x, m, m);
    lemma_fxmul_bound(a.y, b.y, m, m);
    lemma_fxmul_bound(a.z, b.z, m, m);
}

/// A dot product of vectors bounded by `ma` and `mb` is bounded by
/// `3 * (ma * mb / SCALE)`.
pub proof fn lemma_dot_bound2(a: V3i, b: V3i, ma: int, mb: int)
    requires
        v3_bounded(a, ma),
        v3_bounded(b, mb),
        0 <= ma,
        0 <= mb,
    ensures
        abs_i(dot_s(a, b)) <= 3 * ((ma * mb) / (SCALE as int)),
{
    lemma_fxmul_bound(a.x, b.x, ma, mb);
    lemma_fxmul_bound(a.y, b.y, ma, mb);
    lemma_fxmul_bound(a.z, b.z, ma, mb);
}

/// Rescaling a nonzero vector to unit length keeps every component within
/// two real units: the rounded-down length never falls below half of any
/// single component.
pub proof fn lemma_unit_bound(v: V3i)
    requires
        v3_bounded(v, LEN_LIM as int),
        dot_s(v, v) >= 1,
    ensures
        v3_bounded(unit_s(v), 2 * SCALE),
        len_s(v) >= 1000,
{
    let d = dot_s(v, v);
    let n = d * (SCALE as int);
    lemma_dot_self_nonneg(v);
    assert(d * (SCALE as int) >= SCALE) by (nonlinear_arith)
        requires
            d >= 1,
    ;
    lemma_isqrt(n);
    let len = isqrt_s(n);
    assert(len >= 1000) by (nonlinear_arith)
        requires
            is_isqrt(n, len),
            n >= SCALE,
    ;
    lemma_unit_component(v.x, d, len);
    lemma_unit_component(v.y, d, len);
    lemma_unit_component(v.z, d, len);
}

/// One component of the unit rescaling is within two real units.
proof fn lemma_unit_component(c: int, d: int, len: int)
    requires
        fxmul_s(c, c) <= d,
        d >= 1,
        is_isqrt(d * (SCALE as int), len),
        len >= 1000,
    ensures
        abs_i(fxdiv_s(c, len)) <= 2 * SCALE,
{
    let n = d * (SCALE as int);
    // the component squared is within one scale unit of its rescaled square
    lemma_tdiv_abs(c * c, SCALE as int);
    assert(c * c >= 0) by (nonlinear_arith);
    vstd::arithmetic::div_mod::lemma_fundamental_div_mod(c * c, SCALE as int);
    assert(c * c < (fxmul_s(c, c) + 1) * SCALE) by (nonlinear_arith)
        requires
            c * c == (SCALE as int) * ((c * c) / (SCALE as int)) + ((c * c) % (SCALE as int)),
            (c * c) % (SCALE as int) < SCALE,
            (c * c) % (SCALE as int) >= 0,
            fxmul_s(c, c) == (c * c) / (SCALE as int),
    ;
    assert(c * c < n + SCALE) by (nonlinear_arith)
        requires
            c * c < (fxmul_s(c, c) + 1) * SCALE,
            fxmul_s(c, c) <= d,
            n == d * (SCALE as int),
    ;
    // hence the magnitude of the component is at most twice the length
    assert(abs_i(c) <= 2 * len) by (nonlinear_arith)
        requires
            c * c < n + SCALE,
            is_isqrt(n, len),
            len >= 1000,
            n >= SCALE,
    ;
    // and dividing by the length leaves at most two scale units
    lemma_tdiv_abs(c * (SCALE as int), len);
    assert(abs_i(c * SCALE) <= (2 * len) * SCALE) by (nonlinear_arith)
        requires
            abs_i(c) <= 2 * len,
    ;
    vstd::arithmetic::div_mod::lemma_div_is_ordered(abs_i(c * (SCALE as int)), 2 * len * SCALE, len);
    assert(2 * len * SCALE == len * (2 * SCALE)) by (nonlinear_arith);
    vstd::arithmetic::div_mod::lemma_div_multiples_vanish(2 * SCALE, len);
}

/// A square is nonnegative, and so is a dot product of a vector with itself.
pub proof fn lemma_dot_self_nonneg(a: V3i)
    ensures
        dot_s(a, a) >= 0,
        fxmul_s(a.x, a.x) >= 0,
        fxmul_s(a.y, a.y) >= 0,
        fxmul_s(a.z, a.z) >= 0,
{
    assert(a.x * a.x >= 0 && a.y * a.y >= 0 && a.z * a.z >= 0) by (nonlinear_arith);
    lemma_tdiv_abs(a.x * a.x, SCALE as int);
    lemma_tdiv_abs(a.y * a.y, SCALE as int);
    lemma_tdiv_abs(a.z * a.z, SCALE as int);
}

impl Vec3 {
    pub fn new(e0: Fx, e1: Fx, e2: Fx) -> (r: Vec3)
        ensures
            r@ == v3(e0@, e1@, e2@),
    {
        Vec3 { x: e0, y: e1, z: e2 }
    }

    /// A color with each channel the product of two uniform draws from `[0, 1)`.
    pub fn random() -> (r: Vec3)
        ensures
            0 <= r@.x < SCALE,
            0 <= r@.y < SCALE,
            0 <= r@.z < SCALE,
    {
        let x = random_fraction().mul(random_fraction());
        let y = random_fraction().mul(random_fraction());
        let z = random_fraction().mul(random_fraction());
        proof {
            lemma_mul_fraction_range();
        }
        Vec3 { x, y, z }
    }

    pub fn x(self) -> (r: Fx)
        ensures
            r@ == self@.x,
    {
        self.x
    }

    pub fn y(self) -> (r: Fx)
        ensures
            r@ == self@.y,
    {
        self.y
    }

    pub fn z(self) -> (r: Fx)
        ensures
            r@ == self@.z,
    {
        self.z
    }

    pub fn add(self, rhs: Vec3) -> (r: Vec3)
        requires
            v3_ok(self@),
            v3_ok(rhs@),
        ensures
            r@ == add_s(self@, rhs@),
    {
        Vec3 { x: self.x.add(rhs.x), y: self.y.add(rhs.y), z: self.z.add(rhs.z) }
    }

    pub fn sub(self, rhs: Vec3) -> (r: Vec3)
        requires
            v3_ok(self@),
            v3_ok(rhs@),
        ensures
            r@ == sub_s(self@, rhs@),
    {
        Vec3 { x: self.x.sub(rhs.x), y: self.y.sub(rhs.y), z: self.z.sub(rhs.z) }
    }

    pub fn neg(self) -> (r: Vec3)
        requires
            v3_ok(self@),
        ensures
            r@ == neg_s(self@),
    {
        Vec3 { x: self.x.neg(), y: self.y.neg(), z: self.z.neg() }
    }

    /// Scalar times vector.
    pub fn scale(self, k: Fx) -> (r: Vec3)
        requires
            v3_ok(self@),
            fx_ok(k@),
        ensures
            r@ == smul_s(k@, self@),
    {
        Vec3 { x: k.mul(self.x), y: k.mul(self.y), z: k.mul(self.z) }
    }

    /// Component-wise product.
    pub fn mul(self, rhs: Vec3) -> (r: Vec3)
        requires
            v3_ok(self@),
            v3_ok(rhs@),
        ensures
            r@ == cmul_s(self@, rhs@),
    {
        Vec3 { x: self.x.mul(rhs.x), y: self.y.mul(rhs.y), z: self.z.mul(rhs.z) }
    }

    /// Vector divided by a scalar.
    pub fn div(self, k: Fx) -> (r: Vec3)
        requires
            v3_ok(self@),
            fx_ok(k@),
            k@ != 0,
        ensures
            r@ == sdiv_s(self@, k@),
    {
        Vec3 { x: self.x.div(k), y: self.y.div(k), z: self.z.div(k) }
    }

    pub fn add_assign(&mut self, rhs: Vec3)
        requires
            v3_ok(old(self)@),
            v3_ok(rhs@),
        ensures
            final(self)@ == add_s(old(self)@, rhs@),
    {
        *self = Vec3 { x: self.x.add(rhs.x), y: self.y.add(rhs.y), z: self.z.add(rhs.z) };
    }

    pub fn dot(a: &Vec3, b: &Vec3) -> (r: Fx)
        requires
            v3_ok(a@),
            v3_ok(b@),
        ensures
            r@ == dot_s(a@, b@),
    {
        let t1 = a.x.mul(b.x);
        let t2 = a.y.mul(b.y);
        let t3 = a.z.mul(b.z);
        proof {
            lemma_fxmul_bound(a@.x, b@.x, FX_LIM as int, FX_LIM as int);
            lemma_fxmul_bound(a@.y, b@.y, FX_LIM as int, FX_LIM as int);
            lemma_fxmul_bound(a@.z, b@.z, FX_LIM as int, FX_LIM as int);
        }
        Fx { v: t1.v + t2.v + t3.v }
    }

    pub fn squared_length(self) -> (r: Fx)
        requires
            v3_ok(self@),
        ensures
            r@ == dot_s(self@, self@),
            r@ >= 0,
    {
        proof {
            lemma_dot_self_nonneg(self@);
        }
        Vec3::dot(&self, &self)
    }

    pub fn cross(a: &Vec3, b: &Vec3) -> (r: Vec3)
        requires
            v3_ok(a@),
            v3_ok(b@),
        ensures
            r@ == cross_s(a@, b@),
    {
        proof {
            lemma_fxmul_bound(a@.y, b@.z, FX_LIM as int, FX_LIM as int);
            lemma_fxmul_bound(a@.z, b@.y, FX_LIM as int, FX_LIM as int);
            lemma_fxmul_bound(a@.z, b@.x, FX_LIM as int, FX_LIM as int);
            lemma_fxmul_bound(a@.x, b@.z, FX_LIM as int, FX_LIM as int);
            lemma_fxmul_bound(a@.x, b@.y, FX_LIM as int, FX_LIM as int);
            lemma_fxmul_bound(a@.y, b@.x, FX_LIM as int, FX_LIM as int);
        }
        Vec3 {
            x: Fx { v: a.y.mul(b.z).v - a.z.mul(b.y).v },
            y: Fx { v: a.z.mul(b.x).v - a.x.mul(b.z).v },
            z: Fx { v: a.x.mul(b.y).v - a.y.mul(b.x).v },
        }
    }

    pub fn length(self) -> (r: Fx)
        requires
            v3_bounded(self@, LEN_LIM as int),
        ensures
            r@ == len_s(self@),
            is_isqrt(dot_s(self@, self@) * SCALE, r@),
            0 <= r@ <= FX_LIM,
    {
        proof {
            lemma_dot_self_nonneg(self@);
            lemma_dot_bound(self@, self@, LEN_LIM as int);
            assert(3 * (((LEN_LIM as int) * (LEN_LIM as int)) / (SCALE as int)) <= FX_SQRT_LIM)
                by (nonlinear_arith);
            assert(LEN_LIM <= FX_LIM);
        }
        let sq = self.squared_length();
        sq.sqrt()
    }

    /// The vector rescaled to unit length; the argument must not be the zero
    /// vector (its squared length must reach one stored unit).
    pub fn unit_vector(v: &Vec3) -> (r: Vec3)
        requires
            v3_bounded(v@, LEN_LIM as int),
            dot_s(v@, v@) >= 1,
        ensures
            r@ == unit_s(v@),
            len_s(v@) >= 1000,
    {
        let len = v.length();
        proof {
            assert(len@ * len@ <= dot_s(v@, v@) * SCALE);
            assert(dot_s(v@, v@) * SCALE >= SCALE) by (nonlinear_arith)
                requires
                    dot_s(v@, v@) >= 1,
            ;
            assert(len@ >= 1000) by (nonlinear_arith)
                requires
                    is_isqrt(dot_s(v@, v@) * SCALE, len@),
                    dot_s(v@, v@) * SCALE >= SCALE,
            ;
        }
        self_div(v, len)
    }

    /// Rounds each component down to a whole number of real units; colors are
    /// integer channel values after this.
    pub fn colorize(&mut self)
        requires
            v3_ok(old(self)@),
            old(self)@.x >= 0,
            old(self)@.y >= 0,
            old(self)@.z >= 0,
        ensures
            final(self)@ == v3(
                (old(self)@.x / (SCALE as int)) * SCALE,
                (old(self)@.y / (SCALE as int)) * SCALE,
                (old(self)@.z / (SCALE as int)) * SCALE,
            ),
    {
        *self = Vec3 { x: self.x.floor(), y: self.y.floor(), z: self.z.floor() };
    }
}

/// Strictly inside the unit ball, components no larger than one.
pub open spec fn in_ball(p: V3i) -> bool {
    v3_bounded(p, SCALE as int) && dot_s(p, p) < SCALE
}

/// A point drawn uniformly from the unit ball by rejection: draw from the
/// cube `[-1, 1)^3` until the squared length is below one.  Each draw lands
/// inside the ball with odds better than even, so the retry bound is never
/// reached in practice; if it were, the center of the ball is returned.
pub fn random_in_unit_sphere() -> (r: Vec3)
    ensures
        in_ball(r@),
{
    let mut tries: u32 = 0;
    while tries < 1_000_000
        invariant
            true,
        decreases 1_000_000 - tries,
    {
        let two = Fx { v: 2_000_000 };
        let one = Fx { v: 1_000_000 };
        let ones = Vec3 { x: one, y: one, z: one };
        let f = Vec3::new(random_fraction(), random_fraction(), random_fraction());
        let p = f.scale(two).sub(ones);
        proof {
            lemma_double_fraction(f@.x);
            lemma_double_fraction(f@.y);
            lemma_double_fraction(f@.z);
        }
        if p.squared_length().lt(one) {
            return p;
        }
        tries = tries + 1;
    }
    let zero = Fx { v: 0 };
    proof {
        lemma_dot_self_nonneg(v3(0, 0, 0));
    }
    Vec3 { x: zero, y: zero, z: zero }
}

/// Division helper so that `unit_vector` can divide by the computed length.
fn self_div(v: &Vec3, len: Fx) -> (r: Vec3)
    requires
        v3_bounded(v@, LEN_LIM as int),
        0 < len@ <= FX_LIM,
    ensures
        r@ == sdiv_s(v@, len@),
{
    Vec3 { x: v.x.div(len), y: v.y.div(len), z: v.z.div(len) }
}

/// Scaling a fraction by the stored two doubles it exactly.
proof fn lemma_double_fraction(f: int)
    requires
        0 <= f < SCALE,
    ensures
        fxmul_s(2_000_000, f) == 2 * f,
{
    assert(2_000_000 * f == (SCALE as int) * (2 * f)) by (nonlinear_arith);
    assert(2_000_000 * f >= 0) by (nonlinear_arith)
        requires
            f >= 0,
    ;
    vstd::arithmetic::div_mod::lemma_div_multiples_vanish(2 * f, SCALE as int);
}

/// The product of two stored fractions in `[0, SCALE)` stays in `[0, SCALE)`.
proof fn lemma_mul_fraction_range()
    ensures
        forall|a: int, b: int|
            0 <= a < SCALE && 0 <= b < SCALE ==> 0 <= #[trigger] fxmul_s(a, b) < SCALE,
{
    assert forall|a: int, b: int|
        0 <= a < SCALE && 0 <= b < SCALE implies 0 <= #[trigger] fxmul_s(a, b) < SCALE by {
        lemma_fxmul_bound(a, b, SCALE as int, SCALE as int);
        lemma_tdiv_abs(a * b, SCALE as int);
        assert(a * b >= 0) by (nonlinear_arith)
            requires
                a >= 0,
                b >= 0,
        ;
        assert(a * b < SCALE * SCALE) by (nonlinear_arith)
            requires
                0 <= a < SCALE,
                0 <= b < SCALE,
        ;
        vstd::arithmetic::div_mod::lemma_div_is_ordered(a * b, SCALE * SCALE - 1, SCALE as int);
        assert((SCALE * SCALE - 1) / (SCALE as int) < SCALE);
    }
}

} // verus!
