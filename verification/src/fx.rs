//! Scaled-integer scalars: the real number `r` is stored as the integer
//! `r * SCALE`, rounded toward zero.  All geometry in this crate computes on
//! these scalars, so every arithmetic step has an exact integer meaning.

use vstd::prelude::*;

verus! {

/// How many stored units make one real unit.
pub const SCALE: i128 = 1_000_000;

/// Magnitude bound under which every scalar operation in this module is safe.
pub const FX_LIM: i128 = 9_223_372_036_854_775_808;

/// Magnitude bound for scene coordinates, radii and colors; small enough that
/// the intersection formulas stay below `FX_LIM` in every intermediate step.
pub const FX_WF: i128 = 274_877_906_944;

/// A real number stored as `value * SCALE`, rounded toward zero.
#[derive(Clone, Copy, Debug, PartialEq, Eq, Structural)]
pub struct Fx {
    pub v: i128,
}

impl View for Fx {
    type V = int;

    open spec fn view(&self) -> int {
        self.v as int
    }
}

pub open spec fn abs_i(a: int) -> int {
    if a >= 0 {
        a
    } else {
        -a
    }
}

/// Division rounding toward zero, as machine division does.
pub open spec fn tdiv(a: int, d: int) -> int {
    if (a >= 0) == (d >= 0) {
        abs_i(a) / abs_i(d)
    } else {
        -(abs_i(a) / abs_i(d))
    }
}

/// The product of two stored scalars, rescaled: exactly what `mul` returns.
pub open spec fn fxmul_s(a: int, b: int) -> int {
    tdiv(a * b, SCALE as int)
}

/// The quotient of two stored scalars, rescaled: exactly what `div` returns.
pub open spec fn fxdiv_s(a: int, b: int) -> int {
    tdiv(a * SCALE, b)
}

/// Safe-magnitude predicate for one scalar operation.
pub open spec fn fx_ok(a: int) -> bool {
    -FX_LIM <= a <= FX_LIM
}

/// Scene-data magnitude bound.
pub open spec fn fx_wf(a: int) -> bool {
    -FX_WF <= a <= FX_WF
}

impl Fx {
    /// Wraps a raw stored value.
    pub fn raw(v: i128) -> (r: Fx)
        ensures
            r@ == v,
    {
        Fx { v }
    }

    /// The zero scalar.
    pub fn zero() -> (r: Fx)
        ensures
            r@ == 0,
    {
        Fx { v: 0 }
    }

    /// The scalar one, i.e. `SCALE` stored units.
    pub fn one() -> (r: Fx)
        ensures
            r@ == SCALE,
    {
        Fx { v: SCALE }
    }

    pub fn add(self, rhs: Fx) -> (r: Fx)
        requires
            fx_ok(self@),
            fx_ok(rhs@),
        ensures
            r@ == self@ + rhs@,
    {
        Fx { v: self.v + rhs.v }
    }

    pub fn sub(self, rhs: Fx) -> (r: Fx)
        requires
            fx_ok(self@),
            fx_ok(rhs@),
        ensures
            r@ == self@ - rhs@,
    {
        Fx { v: self.v - rhs.v }
    }

    pub fn neg(self) -> (r: Fx)
        requires
            fx_ok(self@),
        ensures
            r@ == -self@,
    {
        Fx { v: -self.v }
    }

    pub fn mul(self, rhs: Fx) -> (r: Fx)
        requires
            fx_ok(self@),
            fx_ok(rhs@),
        ensures
            r@ == fxmul_s(self@, rhs@),
    {
        let neg = (self.v < 0) != (rhs.v < 0);
        let ma: u128 = if self.v < 0 {
            (-self.v) as u128
        } else {
            self.v as u128
        };
        let mb: u128 = if rhs.v < 0 {
            (-rhs.v) as u128
        } else {
            rhs.v as u128
        };
        proof {
            assert(ma == abs_i(self@) && mb == abs_i(rhs@));
            assert(ma * mb == abs_i(self@ * rhs@) && ma * mb <= FX_LIM * FX_LIM)
                by (nonlinear_arith)
                requires
                    ma == abs_i(self@),
                    mb == abs_i(rhs@),
                    fx_ok(self@),
                    fx_ok(rhs@),
            ;
        }
        let q: u128 = (ma * mb) / 1_000_000u128;
        proof {
            assert(q == abs_i(self@ * rhs@) / (SCALE as int));
            lemma_tdiv_abs(self@ * rhs@, SCALE as int);
            assert((self.v < 0) != (rhs.v < 0) ==> self@ * rhs@ <= 0) by (nonlinear_arith);
            assert((self.v < 0) == (rhs.v < 0) ==> self@ * rhs@ >= 0) by (nonlinear_arith);
            assert(q <= FX_LIM * FX_LIM);
        }
        if neg {
            Fx { v: -(q as i128) }
        } else {
            Fx { v: q as i128 }
        }
    }

    pub fn div(self, rhs: Fx) -> (r: Fx)
        requires
            fx_ok(self@),
            fx_ok(rhs@),
            rhs@ != 0,
        ensures
            r@ == fxdiv_s(self@, rhs@),
    {
        let neg = (self.v < 0) != (rhs.v < 0);
        let ma: u128 = if self.v < 0 {
            (-self.v) as u128
        } else {
            self.v as u128
        };
        let mb: u128 = if rhs.v < 0 {
            (-rhs.v) as u128
        } else {
            rhs.v as u128
        };
        proof {
            assert(ma == abs_i(self@) && mb == abs_i(rhs@));
            assert(ma * 1_000_000 == abs_i(self@ * SCALE) && ma * 1_000_000 <= FX_LIM * SCALE)
                by (nonlinear_arith)
                requires
                    ma == abs_i(self@),
                    fx_ok(self@),
            ;
        }
        let q: u128 = (ma * 1_000_000u128) / mb;
        proof {
            lemma_tdiv_abs(self@ * SCALE, rhs@);
            assert(self@ < 0 ==> self@ * SCALE < 0) by (nonlinear_arith);
            assert(self@ >= 0 ==> self@ * SCALE >= 0) by (nonlinear_arith);
            vstd::arithmetic::div_mod::lemma_div_is_ordered(
                abs_i(self@ * SCALE),
                FX_LIM * SCALE,
                abs_i(rhs@),
            );
            vstd::arithmetic::div_mod::lemma_div_is_ordered_by_denominator(
                FX_LIM * SCALE,
                1,
                abs_i(rhs@),
            );
            assert(q <= FX_LIM * SCALE);
        }
        if neg {
            Fx { v: -(q as i128) }
        } else {
            Fx { v: q as i128 }
        }
    }

    /// Strictly-less comparison.
    pub fn lt(self, rhs: Fx) -> (r: bool)
        ensures
            r == (self@ < rhs@),
    {
        self.v < rhs.v
    }
}

/// Magnitude bound on radicands accepted by `sqrt`.
pub const FX_SQRT_LIM: i128 = 81_129_638_414_606_681_695_789_005_144_064;

/// `r` is the integer square root of `n`, rounded down.
pub open spec fn is_isqrt(n: int, r: int) -> bool {
    0 <= r && r * r <= n && n < (r + 1) * (r + 1)
}

/// The integer square root, rounded down.
pub open spec fn isqrt_s(n: int) -> int {
    choose|r: int| is_isqrt(n, r)
}

proof fn lemma_isqrt_exists(n: int) -> (r: int)
    requires
        n >= 0,
    ensures
        is_isqrt(n, r),
    decreases n,
{
    if n == 0 {
        assert(is_isqrt(0, 0)) by (nonlinear_arith);
        0
    } else {
        let p = lemma_isqrt_exists(n - 1);
        if n < (p + 1) * (p + 1) {
            assert(is_isqrt(n, p));
            p
        } else {
            assert(n == (p + 1) * (p + 1));
            assert(is_isqrt((p + 1) * (p + 1), p + 1)) by (nonlinear_arith)
                requires
                    p >= 0,
            ;
            p + 1
        }
    }
}

/// Two integers that both bracket `n` as its rounded-down square root are equal.
pub proof fn lemma_isqrt_unique(n: int, r1: int, r2: int)
    requires
        is_isqrt(n, r1),
        is_isqrt(n, r2),
    ensures
        r1 == r2,
{
    assert(r1 < r2 ==> (r1 + 1) * (r1 + 1) <= r2 * r2) by (nonlinear_arith)
        requires
            0 <= r1,
            0 <= r2,
    ;
    assert(r2 < r1 ==> (r2 + 1) * (r2 + 1) <= r1 * r1) by (nonlinear_arith)
        requires
            0 <= r1,
            0 <= r2,
    ;
}

/// A nonnegative integer has a rounded-down square root, and `isqrt_s` is it.
pub proof fn lemma_isqrt(n: int)
    requires
        n >= 0,
    ensures
        is_isqrt(n, isqrt_s(n)),
{
    let r = lemma_isqrt_exists(n);
    assert(is_isqrt(n, isqrt_s(n))) by {
        assert(exists|q: int| is_isqrt(n, q)) by {
            assert(is_isqrt(n, r));
        }
    }
}

/// Integer square root by bisection.
pub fn isqrt_u128(n: u128) -> (r: u128)
    ensures
        r as int == isqrt_s(n as int),
        is_isqrt(n as int, r as int),
{
    proof {
        lemma_isqrt(n as int);
    }
    let mut lo: u128 = 0;
    let mut hi: u128 = 18_446_744_073_709_551_616;
    proof {
        assert((n as int) < 18_446_744_073_709_551_616 * 18_446_744_073_709_551_616) by (nonlinear_arith);
    }
    while hi - lo > 1
        invariant
            lo < hi,
            hi <= 18_446_744_073_709_551_616,
            lo * lo <= n,
            (n as int) < (hi as int) * (hi as int),
        decreases hi - lo,
    {
        let mid = lo + (hi - lo) / 2;
        proof {
            assert(lo < mid < hi);
            assert((mid as int) * (mid as int)
                < 18_446_744_073_709_551_616 * 18_446_744_073_709_551_616) by (nonlinear_arith)
                requires
                    0 <= (mid as int) < 18_446_744_073_709_551_616,
            ;
        }
        let sq = mid * mid;
        if sq <= n {
            lo = mid;
        } else {
            hi = mid;
        }
    }
    proof {
        assert(is_isqrt(n as int, lo as int));
        lemma_isqrt_unique(n as int, lo as int, isqrt_s(n as int));
    }
    lo
}

impl Fx {
    /// Square root of a nonnegative scalar, rounded down to a stored unit.
    pub fn sqrt(self) -> (r: Fx)
        requires
            0 <= self@ <= FX_SQRT_LIM,
        ensures
            r@ == isqrt_s(self@ * SCALE),
            is_isqrt(self@ * SCALE, r@),
            0 <= r@ <= FX_LIM,
    {
        let n: u128 = (self.v as u128) * 1_000_000u128;
        proof {
            assert((self.v as u128) == self@);
            assert((self@) * (1_000_000int) <= FX_SQRT_LIM * 1_000_000) by (nonlinear_arith)
                requires
                    0 <= self@ <= FX_SQRT_LIM,
            ;
            assert(FX_SQRT_LIM * 1_000_000 < 0x100000000000000000000000000000000) by (nonlinear_arith);
        }
        let r = isqrt_u128(n);
        proof {
            lemma_isqrt(n as int);
            assert((r as int) * (r as int) <= n as int);
            assert(r as int <= FX_LIM) by (nonlinear_arith)
                requires
                    0 <= r as int,
                    (r as int) * (r as int) <= (n as int),
                    (n as int) <= FX_SQRT_LIM * 1_000_000,
                    FX_LIM * FX_LIM >= FX_SQRT_LIM * 1_000_000,
            ;
        }
        Fx { v: r as i128 }
    }

    /// Rounds down to a whole number of real units.
    pub fn floor(self) -> (r: Fx)
        requires
            0 <= self@,
        ensures
            r@ == (self@ / (SCALE as int)) * SCALE,
    {
        let q: u128 = (self.v as u128) / 1_000_000u128;
        proof {
            vstd::arithmetic::div_mod::lemma_fundamental_div_mod(self@, SCALE as int);
            vstd::arithmetic::div_mod::lemma_div_pos_is_pos(self@, SCALE as int);
            assert((self@ / (SCALE as int)) * SCALE + (self@ % (SCALE as int)) == self@);
            assert(self@ % (SCALE as int) >= 0);
        }
        Fx { v: (q as i128) * 1_000_000 }
    }

    /// The smaller of two scalars.
    pub fn min(self, rhs: Fx) -> (r: Fx)
        ensures
            r@ == if self@ <= rhs@ { self@ } else { rhs@ },
    {
        if self.v <= rhs.v {
            self
        } else {
            rhs
        }
    }

    /// The larger of two scalars.
    pub fn max(self, rhs: Fx) -> (r: Fx)
        ensures
            r@ == if self@ >= rhs@ { self@ } else { rhs@ },
    {
        if self.v >= rhs.v {
            self
        } else {
            rhs
        }
    }
}

/// Truncating division by a positive divisor is monotone in the numerator.
pub proof fn lemma_tdiv_monotone(x1: int, x2: int, d: int)
    requires
        x1 <= x2,
        d > 0,
    ensures
        tdiv(x1, d) <= tdiv(x2, d),
{
    if x1 >= 0 {
        vstd::arithmetic::div_mod::lemma_div_is_ordered(x1, x2, d);
    } else if x2 < 0 {
        vstd::arithmetic::div_mod::lemma_div_is_ordered(-x2, -x1, d);
    } else {
        vstd::arithmetic::div_mod::lemma_div_pos_is_pos(-x1, d);
        vstd::arithmetic::div_mod::lemma_div_pos_is_pos(x2, d);
    }
}

/// When the product is a whole multiple of the scale, rescaling is exact.
pub proof fn lemma_fxmul_exact(a: int, b: int)
    requires
        (a * b) % (SCALE as int) == 0,
    ensures
        fxmul_s(a, b) * SCALE == a * b,
{
    let x = a * b;
    vstd::arithmetic::div_mod::lemma_fundamental_div_mod(x, SCALE as int);
    let q = x / (SCALE as int);
    if x >= 0 {
        assert(fxmul_s(a, b) == q);
        assert(q * SCALE == x) by (nonlinear_arith)
            requires
                x == (SCALE as int) * q,
        ;
    } else {
        assert(-x == (SCALE as int) * (-q)) by (nonlinear_arith)
            requires
                x == (SCALE as int) * q,
        ;
        vstd::arithmetic::div_mod::lemma_div_multiples_vanish(-q, SCALE as int);
        assert(abs_i(x) / (SCALE as int) == -q);
        assert(fxmul_s(a, b) == q);
        assert(q * SCALE == x) by (nonlinear_arith)
            requires
                x == (SCALE as int) * q,
        ;
    }
}

/// Dividing a whole multiple of a positive divisor returns the cofactor.
pub proof fn lemma_tdiv_multiple(k: int, d: int)
    requires
        d > 0,
    ensures
        tdiv(d * k, d) == k,
{
    if k >= 0 {
        assert(d * k >= 0 && abs_i(d * k) == d * k) by (nonlinear_arith)
            requires
                d > 0,
                k >= 0,
        ;
        vstd::arithmetic::div_mod::lemma_div_multiples_vanish(k, d);
    } else {
        assert(d * k < 0 && abs_i(d * k) == d * (-k)) by (nonlinear_arith)
            requires
                d > 0,
                k < 0,
        ;
        vstd::arithmetic::div_mod::lemma_div_multiples_vanish(-k, d);
    }
}

/// Multiplying by the stored one is exact.
pub proof fn lemma_fxmul_one(a: int)
    ensures
        fxmul_s(a, SCALE as int) == a,
        fxmul_s(SCALE as int, a) == a,
{
    assert(abs_i(a * SCALE) == (SCALE as int) * abs_i(a)) by (nonlinear_arith);
    assert(abs_i((SCALE as int) * a) == (SCALE as int) * abs_i(a)) by (nonlinear_arith);
    vstd::arithmetic::div_mod::lemma_div_multiples_vanish(abs_i(a), SCALE as int);
    assert(a < 0 ==> a * SCALE < 0 && (SCALE as int) * a < 0) by (nonlinear_arith);
    assert(a >= 0 ==> a * SCALE >= 0 && (SCALE as int) * a >= 0) by (nonlinear_arith);
}

/// A product with zero rescales to zero.
pub proof fn lemma_fxmul_zero(b: int)
    ensures
        fxmul_s(0, b) == 0,
        fxmul_s(b, 0) == 0,
{
    assert(0 * b == 0) by (nonlinear_arith);
    assert(b * 0 == 0) by (nonlinear_arith);
    vstd::arithmetic::div_mod::lemma_div_of0(SCALE as int);
}

/// An integer square root is bounded by anything whose square covers the
/// radicand.
pub proof fn lemma_isqrt_le(n: int, m: int)
    requires
        0 <= n,
        0 <= m,
        n <= m * m,
    ensures
        isqrt_s(n) <= m,
{
    lemma_isqrt(n);
    let r = isqrt_s(n);
    assert(r > m ==> r * r > m * m) by (nonlinear_arith)
        requires
            0 <= m,
    ;
}

/// The magnitude of a truncating quotient is the quotient of the magnitudes.
pub proof fn lemma_tdiv_abs(a: int, d: int)
    requires
        d != 0,
    ensures
        abs_i(tdiv(a, d)) == abs_i(a) / abs_i(d),
        tdiv(a, d) == abs_i(a) / abs_i(d) || tdiv(a, d) == -(abs_i(a) / abs_i(d)),
{
    vstd::arithmetic::div_mod::lemma_div_pos_is_pos(abs_i(a), abs_i(d));
}

} // verus!
