//! Fixed-point numbers for continuous world units.
//!
//! A `Fixed` counts 1/3600 of a tile. The denominator is chosen so that
//! the physics timestep 1/60 s and the standard speeds and accelerations
//! are all representable exactly: multiplying by the timestep divides the
//! raw value by 60, an exact operation for the values the engine uses.
//!
//! Executable operations mirror Rust's truncating (round-toward-zero)
//! division, which the spec functions model explicitly over `int`.

use vstd::prelude::*;

verus! {

/// Raw units per tile.
pub const FIXED_SCALE: i64 = 3600;

/// Half of `FIXED_SCALE`, the rounding offset.
pub const FIXED_HALF: i64 = 1800;

/// Truncating (round-toward-zero) division, for positive divisors.
pub open spec fn div_trunc(a: int, b: int) -> int
    recommends
        b > 0,
{
    if a >= 0 {
        a / b
    } else {
        -((-a) / b)
    }
}

/// The product of two fixed-point numbers, on raw values.
pub open spec fn fixed_mul(a: int, b: int) -> int {
    div_trunc(a * b, FIXED_SCALE as int)
}

/// The quotient of two fixed-point numbers, on raw values (positive divisor).
pub open spec fn fixed_div(a: int, b: int) -> int
    recommends
        b > 0,
{
    div_trunc(a * FIXED_SCALE, b)
}

/// The nearest tile index, halves rounding away from zero.
pub open spec fn fixed_round(a: int) -> int {
    if a >= 0 {
        (a + FIXED_HALF) / (FIXED_SCALE as int)
    } else {
        -((-a + FIXED_HALF) / (FIXED_SCALE as int))
    }
}

/// The greatest tile index at or below the value.
pub open spec fn fixed_floor(a: int) -> int {
    a / (FIXED_SCALE as int)
}

/// The least tile index at or above the value.
pub open spec fn fixed_ceil(a: int) -> int {
    -((-a) / (FIXED_SCALE as int))
}

pub open spec fn clamp_int(x: int, lo: int, hi: int) -> int {
    if x < lo {
        lo
    } else if x > hi {
        hi
    } else {
        x
    }
}

pub open spec fn sign_int(x: int) -> int {
    if x > 0 {
        1
    } else if x < 0 {
        -1
    } else {
        0
    }
}

pub open spec fn abs_int(x: int) -> int {
    if x >= 0 {
        x
    } else {
        -x
    }
}

/// A continuous world quantity, in 1/3600 of a tile.
#[derive(Clone, Copy, PartialEq, Eq, Structural, Debug)]
pub struct Fixed {
    pub raw: i64,
}

/// Quotient of nonnegative dividend and positive divisor, by way of
/// unsigned machine division.
fn div_pos(a: i64, b: i64) -> (q: i64)
    requires
        a >= 0,
        b > 0,
    ensures
        q == a as int / b as int,
{
    let q: u64 = (a as u64) / (b as u64);
    q as i64
}

impl Fixed {
    /// A whole number of tiles.
    pub fn from_int(v: i64) -> (r: Fixed)
        requires
            -(i64::MAX as int) <= v * (FIXED_SCALE as int) <= i64::MAX as int,
        ensures
            r.raw == v * (FIXED_SCALE as int),
    {
        Fixed { raw: v * FIXED_SCALE }
    }

    pub fn zero() -> (r: Fixed)
        ensures
            r.raw == 0,
    {
        Fixed { raw: 0 }
    }

    pub fn add(self, rhs: Fixed) -> (r: Fixed)
        requires
            i64::MIN as int <= self.raw + rhs.raw <= i64::MAX as int,
        ensures
            r.raw == self.raw + rhs.raw,
    {
        Fixed { raw: self.raw + rhs.raw }
    }

    pub fn sub(self, rhs: Fixed) -> (r: Fixed)
        requires
            i64::MIN as int <= self.raw - rhs.raw <= i64::MAX as int,
        ensures
            r.raw == self.raw - rhs.raw,
    {
        Fixed { raw: self.raw - rhs.raw }
    }

    pub fn neg(self) -> (r: Fixed)
        requires
            self.raw > i64::MIN,
        ensures
            r.raw == -self.raw,
    {
        Fixed { raw: -self.raw }
    }

    pub fn abs(self) -> (r: Fixed)
        requires
            self.raw > i64::MIN,
        ensures
            r.raw == abs_int(self.raw as int),
    {
        if self.raw < 0 {
            Fixed { raw: -self.raw }
        } else {
            self
        }
    }

    pub fn is_neg(self) -> (r: bool)
        ensures
            r == (self.raw < 0),
    {
        self.raw < 0
    }

    pub fn mul(self, rhs: Fixed) -> (r: Fixed)
        requires
            self.raw > i64::MIN,
            rhs.raw > i64::MIN,
            -(i64::MAX as int) <= fixed_mul(self.raw as int, rhs.raw as int) <= i64::MAX as int,
        ensures
            r.raw == fixed_mul(self.raw as int, rhs.raw as int),
    {
        let neg: bool = (self.raw < 0) != (rhs.raw < 0);
        let ua: u64 = if self.raw < 0 {
            (-self.raw) as u64
        } else {
            self.raw as u64
        };
        let ub: u64 = if rhs.raw < 0 {
            (-rhs.raw) as u64
        } else {
            rhs.raw as u64
        };
        proof {
            assert(ua as int * ub as int <= u128::MAX as int) by (nonlinear_arith)
                requires
                    0 <= ua <= u64::MAX,
                    0 <= ub <= u64::MAX,
            {}
        }
        let prod: u128 = (ua as u128) * (ub as u128);
        let q: u128 = prod / (FIXED_SCALE as u128);
        proof {
            assert(prod == abs_int(self.raw as int * rhs.raw as int)) by (nonlinear_arith)
                requires
                    ua == abs_int(self.raw as int),
                    ub == abs_int(rhs.raw as int),
                    prod == ua * ub,
            {}
            assert(q == abs_int(self.raw as int * rhs.raw as int) / (FIXED_SCALE as int));
            if neg {
                assert(self.raw as int * rhs.raw as int <= 0) by (nonlinear_arith)
                    requires
                        (self.raw < 0) != (rhs.raw < 0),
                {}
            } else {
                assert(self.raw as int * rhs.raw as int >= 0) by (nonlinear_arith)
                    requires
                        (self.raw < 0) == (rhs.raw < 0),
                {}
            }
            assert(fixed_mul(self.raw as int, rhs.raw as int) == if neg {
                -(q as int)
            } else {
                q as int
            });
        }
        if neg {
            let qi: i64 = q as i64;
            Fixed { raw: -qi }
        } else {
            let qi: i64 = q as i64;
            Fixed { raw: qi }
        }
    }

    pub fn div(self, rhs: Fixed) -> (r: Fixed)
        requires
            self.raw > i64::MIN,
            rhs.raw > 0,
            -(i64::MAX as int) <= fixed_div(self.raw as int, rhs.raw as int) <= i64::MAX as int,
        ensures
            r.raw == fixed_div(self.raw as int, rhs.raw as int),
    {
        let neg: bool = self.raw < 0;
        let ua: u64 = if self.raw < 0 {
            (-self.raw) as u64
        } else {
            self.raw as u64
        };
        let prod: u128 = (ua as u128) * (FIXED_SCALE as u128);
        let q: u128 = prod / (rhs.raw as u128);
        proof {
            assert(prod == abs_int(self.raw as int * FIXED_SCALE as int)) by (nonlinear_arith)
                requires
                    ua == abs_int(self.raw as int),
                    prod == ua * (FIXED_SCALE as u128),
                    FIXED_SCALE == 3600,
            {}
            if neg {
                assert(self.raw as int * (FIXED_SCALE as int) <= 0) by (nonlinear_arith)
                    requires
                        self.raw < 0,
                        FIXED_SCALE == 3600,
                {}
            } else {
                assert(self.raw as int * (FIXED_SCALE as int) >= 0) by (nonlinear_arith)
                    requires
                        self.raw >= 0,
                        FIXED_SCALE == 3600,
                {}
            }
            assert(q == abs_int(self.raw as int * FIXED_SCALE as int) / (rhs.raw as int));
            assert(fixed_div(self.raw as int, rhs.raw as int) == if neg {
                -(q as int)
            } else {
                q as int
            });
        }
        if neg {
            let qi: i64 = q as i64;
            Fixed { raw: -qi }
        } else {
            let qi: i64 = q as i64;
            Fixed { raw: qi }
        }
    }

    /// Clamp into the closed interval `[lo, hi]`.
    pub fn clamp(self, lo: Fixed, hi: Fixed) -> (r: Fixed)
        requires
            lo.raw <= hi.raw,
        ensures
            r.raw == clamp_int(self.raw as int, lo.raw as int, hi.raw as int),
    {
        if self.raw < lo.raw {
            lo
        } else if self.raw > hi.raw {
            hi
        } else {
            self
        }
    }

    /// The nearest tile index, halves rounding away from zero.
    pub fn round_int(self) -> (r: i64)
        requires
            self.raw > i64::MIN,
        ensures
            r == fixed_round(self.raw as int),
    {
        if self.raw >= 0 {
            let shifted: u64 = (self.raw as u64) + (FIXED_HALF as u64);
            (shifted / (FIXED_SCALE as u64)) as i64
        } else {
            let shifted: u64 = ((-self.raw) as u64) + (FIXED_HALF as u64);
            -((shifted / (FIXED_SCALE as u64)) as i64)
        }
    }

    /// The greatest tile index at or below the value.
    pub fn floor_int(self) -> (r: i64)
        requires
            self.raw > i64::MIN,
        ensures
            r == fixed_floor(self.raw as int),
    {
        if self.raw >= 0 {
            div_pos(self.raw, FIXED_SCALE)
        } else {
            let m: u64 = (-self.raw) as u64;
            let q: u64 = (m + (FIXED_SCALE as u64) - 1) / (FIXED_SCALE as u64);
            proof {
                lemma_neg_floor_div(self.raw as int, q as int, FIXED_SCALE as int);
            }
            -(q as i64)
        }
    }

    /// The greatest tile boundary at or below the value, as a whole value.
    pub fn floor(self) -> (r: Fixed)
        requires
            self.raw > i64::MIN,
            -(i64::MAX as int) <= fixed_floor(self.raw as int) * (FIXED_SCALE as int),
        ensures
            r.raw == fixed_floor(self.raw as int) * (FIXED_SCALE as int),
    {
        if self.raw >= 0 {
            let q: i64 = div_pos(self.raw, FIXED_SCALE);
            proof {
                assert(q * (FIXED_SCALE as int) <= self.raw as int) by (nonlinear_arith)
                    requires
                        q == self.raw as int / (FIXED_SCALE as int),
                        self.raw >= 0,
                        FIXED_SCALE == 3600,
                {}
            }
            Fixed { raw: q * FIXED_SCALE }
        } else {
            let m: u64 = (-self.raw) as u64;
            let q: u64 = (m + (FIXED_SCALE as u64) - 1) / (FIXED_SCALE as u64);
            proof {
                lemma_neg_floor_div(self.raw as int, q as int, FIXED_SCALE as int);
                assert(q as int * (FIXED_SCALE as int) <= i64::MAX as int);
            }
            Fixed { raw: -((q as i64) * FIXED_SCALE) }
        }
    }

    /// The least tile boundary at or above the value, as a whole value.
    pub fn ceil(self) -> (r: Fixed)
        requires
            self.raw > i64::MIN,
            fixed_ceil(self.raw as int) * (FIXED_SCALE as int) <= i64::MAX as int,
        ensures
            r.raw == fixed_ceil(self.raw as int) * (FIXED_SCALE as int),
    {
        if self.raw >= 0 {
            let q: u64 = ((self.raw as u64) + (FIXED_SCALE as u64) - 1) / (FIXED_SCALE as u64);
            proof {
                lemma_neg_floor_div(-(self.raw as int), q as int, FIXED_SCALE as int);
                assert(fixed_ceil(self.raw as int) == q as int);
                assert(q as int * (FIXED_SCALE as int) <= i64::MAX as int);
            }
            Fixed { raw: (q as i64) * FIXED_SCALE }
        } else {
            let q: i64 = div_pos(-self.raw, FIXED_SCALE);
            proof {
                assert(q * (FIXED_SCALE as int) <= (-self.raw) as int) by (nonlinear_arith)
                    requires
                        q == (-(self.raw as int)) / (FIXED_SCALE as int),
                        self.raw < 0,
                        FIXED_SCALE == 3600,
                {}
            }
            Fixed { raw: -(q * FIXED_SCALE) }
        }
    }
}

/// Truncating division shrinks magnitudes: the quotient times the divisor
/// stays within the dividend's magnitude.
pub proof fn lemma_div_trunc_abs(a: int, b: int)
    requires
        b >= 1,
    ensures
        abs_int(div_trunc(a, b)) * b <= abs_int(a),
        abs_int(div_trunc(a, b)) <= abs_int(a),
        a >= 0 ==> 0 <= div_trunc(a, b),
        a <= 0 ==> div_trunc(a, b) <= 0,
{
    if a >= 0 {
        assert((a / b) * b <= a && 0 <= a / b <= a) by (nonlinear_arith)
            requires
                a >= 0,
                b >= 1,
        {}
    } else {
        assert(((-a) / b) * b <= -a && 0 <= (-a) / b <= -a) by (nonlinear_arith)
            requires
                -a >= 0,
                b >= 1,
        {}
    }
}

/// Rounding to tiles moves a value by at most half a tile: the rounded
/// tile times the scale stays within the value's magnitude plus half the
/// scale.
pub proof fn lemma_round_bound(a: int)
    ensures
        abs_int(fixed_round(a)) * (FIXED_SCALE as int) <= abs_int(a) + FIXED_HALF as int,
        0 <= abs_int(fixed_round(a)),
{
    let s: int = FIXED_SCALE as int;
    let h: int = FIXED_HALF as int;
    if a >= 0 {
        assert(((a + h) / s) * s <= a + h && 0 <= (a + h) / s) by (nonlinear_arith)
            requires
                a >= 0,
                s == 3600,
                h == 1800,
        {}
    } else {
        assert((((-a) + h) / s) * s <= (-a) + h && 0 <= ((-a) + h) / s) by (nonlinear_arith)
            requires
                a < 0,
                s == 3600,
                h == 1800,
        {}
    }
}

/// Rounding a value within half a tile of an exact tile boundary gives
/// that tile.
pub proof fn lemma_round_near(k: int, delta: int)
    requires
        -(FIXED_HALF as int) < delta < FIXED_HALF as int,
    ensures
        fixed_round(k * (FIXED_SCALE as int) + delta) == k,
{
    let s: int = FIXED_SCALE as int;
    let h: int = FIXED_HALF as int;
    let a: int = k * s + delta;
    if a >= 0 {
        vstd::arithmetic::div_mod::lemma_fundamental_div_mod_converse(a + h, s, k, delta + h);
    } else {
        vstd::arithmetic::div_mod::lemma_fundamental_div_mod_converse(-a + h, s, -k, h - delta);
    }
}

/// A magnitude bound for the fixed-point product: with `|a| <= ma` and
/// `|b| <= mb`, the product's magnitude times the scale stays within
/// `ma * mb`.
pub proof fn lemma_fixed_mul_bound(a: int, b: int, ma: int, mb: int)
    requires
        abs_int(a) <= ma,
        abs_int(b) <= mb,
    ensures
        abs_int(fixed_mul(a, b)) * (FIXED_SCALE as int) <= ma * mb,
        abs_int(fixed_mul(a, b)) <= ma * mb,
{
    assert(abs_int(a * b) <= ma * mb) by (nonlinear_arith)
        requires
            abs_int(a) <= ma,
            abs_int(b) <= mb,
    {}
    lemma_div_trunc_abs(a * b, FIXED_SCALE as int);
    assert(abs_int(fixed_mul(a, b)) * (FIXED_SCALE as int) <= ma * mb);
}

/// Ceiling division of a nonnegative magnitude gives the floor of the
/// negated value: for `a <= 0`, `s > 0` and `q == (-a + s - 1) / s`,
/// `-q == floor(a / s)`.
pub proof fn lemma_neg_floor_div(a: int, q: int, s: int)
    requires
        s > 0,
        a <= 0,
        q == ((-a) + s - 1) / s,
    ensures
        -q == a / s,
{
    let m: int = -a;
    assert(q == (m + s - 1) / s);
    assert(m >= 0);
    assert(s * ((m + s - 1) / s) + (m + s - 1) % s == m + s - 1) by (nonlinear_arith)
        requires
            s > 0,
            m >= 0,
    {}
    assert(s * (a / s) + a % s == a) by (nonlinear_arith)
        requires
            s > 0,
    {}
    assert(0 <= (m + s - 1) % s < s);
    assert(0 <= a % s < s);
    assert(s * q == m + s - 1 - (m + s - 1) % s);
    assert(s * (a / s) == a - a % s);
    // Both q and -(a / s) are the ceiling of m / s; machine-checkable by
    // pinning each between the same multiples of s.
    assert(-q == a / s) by (nonlinear_arith)
        requires
            s > 0,
            s * q == m + s - 1 - ((m + s - 1) % s),
            s * (a / s) == a - a % s,
            0 <= (m + s - 1) % s < s,
            0 <= a % s < s,
            m == -a,
    {}
}

} // verus!
