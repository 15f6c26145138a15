//! Deterministic fixed-point scalars and 2-component vectors.
//!
//! A scalar holds a signed 64-bit raw value; one world unit is `FP_ONE` raw
//! units. All operations are integer arithmetic, so results are bit-identical
//! across platforms.

use vstd::prelude::*;

verus! {

/// Number of raw units in one world unit (the fixed-point scale).
pub const FP_ONE: i64 = 65536;

/// Raw magnitude up to which this library's additive arithmetic is proved
/// exact; sums of a handful of such values still fit in 64 bits.
pub const ARITH_MAX: i64 = 0x1000_0000_0000_0000;

/// Absolute value of a mathematical integer.
pub open spec fn iabs(a: int) -> int {
    if a < 0 {
        -a
    } else {
        a
    }
}

/// Smaller of two mathematical integers.
pub open spec fn imin(a: int, b: int) -> int {
    if a <= b {
        a
    } else {
        b
    }
}

/// Larger of two mathematical integers.
pub open spec fn imax(a: int, b: int) -> int {
    if a >= b {
        a
    } else {
        b
    }
}

/// Exact raw value of a fixed-point product: the magnitudes are multiplied,
/// rescaled by `FP_ONE` rounding toward zero, and the sign is reapplied.
pub open spec fn fp_mul_val(a: int, b: int) -> int {
    let m = (iabs(a) * iabs(b)) / (FP_ONE as int);
    if (a < 0) <==> (b < 0) {
        m
    } else {
        -m
    }
}

/// Exact raw value of a saturating fixed-point quotient: magnitudes are
/// divided after rescaling by `FP_ONE`, rounding toward zero; a zero divisor
/// yields zero and an out-of-range magnitude saturates at `i64::MAX`.
pub open spec fn fp_div_sat_val(a: int, b: int) -> int {
    if b == 0 {
        0
    } else {
        let m0 = (iabs(a) * (FP_ONE as int)) / iabs(b);
        let m = if m0 > i64::MAX as int {
            i64::MAX as int
        } else {
            m0
        };
        if (a < 0) <==> (b < 0) {
            m
        } else {
            -m
        }
    }
}

/// A product with a zero factor is zero.
pub proof fn lemma_fp_mul_zero(a: int)
    ensures
        fp_mul_val(a, 0) == 0,
{
    assert(iabs(0) == 0);
    assert(iabs(a) * iabs(0) == 0) by (nonlinear_arith)
        requires
            iabs(0) == 0,
    ;
}

/// A deterministic fixed-point scalar: `raw` counts units of `1 / FP_ONE`.
#[derive(Clone, Copy, PartialEq, Eq, Structural, Debug)]
pub struct FP {
    pub raw: i64,
}

impl FP {
    /// The raw value lies within the range this library's arithmetic assumes.
    pub open spec fn bounded(self) -> bool {
        -ARITH_MAX <= self.raw <= ARITH_MAX
    }

    pub fn from_raw(raw: i64) -> (r: FP)
        ensures
            r.raw == raw,
    {
        FP { raw }
    }

    /// The scalar representing `v` whole world units.
    pub fn from_int(v: i32) -> (r: FP)
        ensures
            r.raw == v * FP_ONE,
            r.bounded(),
    {
        FP { raw: (v as i64) * FP_ONE }
    }

    pub fn zero() -> (r: FP)
        ensures
            r.raw == 0,
    {
        FP { raw: 0 }
    }

    pub fn add(self, o: FP) -> (r: FP)
        requires
            i64::MIN <= self.raw + o.raw <= i64::MAX,
        ensures
            r.raw == self.raw + o.raw,
    {
        FP { raw: self.raw + o.raw }
    }

    pub fn sub(self, o: FP) -> (r: FP)
        requires
            i64::MIN <= self.raw - o.raw <= i64::MAX,
        ensures
            r.raw == self.raw - o.raw,
    {
        FP { raw: self.raw - o.raw }
    }

    pub fn min(self, o: FP) -> (r: FP)
        ensures
            r.raw == if self.raw <= o.raw { self.raw } else { o.raw },
    {
        if self.raw <= o.raw {
            self
        } else {
            o
        }
    }

    pub fn max(self, o: FP) -> (r: FP)
        ensures
            r.raw == if self.raw >= o.raw { self.raw } else { o.raw },
    {
        if self.raw >= o.raw {
            self
        } else {
            o
        }
    }

    /// Fixed-point multiplication, rounding toward zero.
    pub fn mul(self, o: FP) -> (r: FP)
        requires
            i64::MIN <= fp_mul_val(self.raw as int, o.raw as int) <= i64::MAX,
        ensures
            r.raw == fp_mul_val(self.raw as int, o.raw as int),
    {
        let a = self.raw;
        let b = o.raw;
        let am: u128 = if a < 0 {
            (-(a as i128)) as u128
        } else {
            a as u128
        };
        let bm: u128 = if b < 0 {
            (-(b as i128)) as u128
        } else {
            b as u128
        };
        proof {
            assert(am == iabs(a as int));
            assert(bm == iabs(b as int));
            assert(am * bm <= 0x8000_0000_0000_0000u128 * 0x8000_0000_0000_0000u128)
                by (nonlinear_arith)
                requires
                    am <= 0x8000_0000_0000_0000u128,
                    bm <= 0x8000_0000_0000_0000u128,
            ;
        }
        let m: u128 = (am * bm) / 65536;
        proof {
            assert(m == (iabs(a as int) * iabs(b as int)) / (FP_ONE as int));
        }
        if (a < 0) != (b < 0) {
            proof {
                assert(fp_mul_val(a as int, b as int) == -(m as int));
            }
            FP { raw: (-(m as i128)) as i64 }
        } else {
            FP { raw: m as i64 }
        }
    }

    /// Saturating fixed-point division, rounding toward zero; division by
    /// zero yields zero.
    pub fn div_sat(self, o: FP) -> (r: FP)
        ensures
            r.raw == fp_div_sat_val(self.raw as int, o.raw as int),
    {
        let a = self.raw;
        let b = o.raw;
        if b == 0 {
            return FP { raw: 0 };
        }
        let am: u128 = if a < 0 {
            (-(a as i128)) as u128
        } else {
            a as u128
        };
        let bm: u128 = if b < 0 {
            (-(b as i128)) as u128
        } else {
            b as u128
        };
        proof {
            assert(am == iabs(a as int));
            assert(bm == iabs(b as int));
            assert(am as int * 65536 <= 0x8000_0000_0000_0000 * 65536) by (nonlinear_arith)
                requires
                    am as int <= 0x8000_0000_0000_0000,
            ;
            assert((am as int * 65536) / (bm as int) <= am as int * 65536) by (nonlinear_arith)
                requires
                    bm as int >= 1,
                    am as int >= 0,
            ;
        }
        let m0: u128 = (am * 65536) / bm;
        let m: u128 = if m0 > i64::MAX as u128 {
            i64::MAX as u128
        } else {
            m0
        };
        if (a < 0) != (b < 0) {
            FP { raw: -(m as i64) }
        } else {
            FP { raw: m as i64 }
        }
    }
}

/// A pair of fixed-point scalars: a position, extent or velocity in the plane.
#[derive(Clone, Copy, PartialEq, Eq, Structural, Debug)]
pub struct Vec2 {
    pub x: FP,
    pub y: FP,
}

impl Vec2 {
    /// Both components lie within the range the arithmetic assumes.
    pub open spec fn bounded(self) -> bool {
        self.x.bounded() && self.y.bounded()
    }

    pub fn new(x: FP, y: FP) -> (v: Vec2)
        ensures
            v == (Vec2 { x, y }),
    {
        Vec2 { x, y }
    }

    /// The vector of `x` and `y` whole world units.
    pub fn from_int(x: i32, y: i32) -> (v: Vec2)
        ensures
            v.x.raw == x * FP_ONE,
            v.y.raw == y * FP_ONE,
            v.bounded(),
    {
        Vec2 { x: FP::from_int(x), y: FP::from_int(y) }
    }

    pub fn zero() -> (v: Vec2)
        ensures
            v.x.raw == 0 && v.y.raw == 0,
    {
        Vec2 { x: FP { raw: 0 }, y: FP { raw: 0 } }
    }

    /// Componentwise sum.
    pub fn add(self, o: Vec2) -> (r: Vec2)
        requires
            i64::MIN <= self.x.raw + o.x.raw <= i64::MAX,
            i64::MIN <= self.y.raw + o.y.raw <= i64::MAX,
        ensures
            r.x.raw == self.x.raw + o.x.raw,
            r.y.raw == self.y.raw + o.y.raw,
    {
        Vec2 { x: self.x.add(o.x), y: self.y.add(o.y) }
    }

    /// Both components scaled by a fixed-point factor, rounding toward zero.
    pub fn mul_scalar(self, s: FP) -> (r: Vec2)
        requires
            i64::MIN <= fp_mul_val(self.x.raw as int, s.raw as int) <= i64::MAX,
            i64::MIN <= fp_mul_val(self.y.raw as int, s.raw as int) <= i64::MAX,
        ensures
            r.x.raw == fp_mul_val(self.x.raw as int, s.raw as int),
            r.y.raw == fp_mul_val(self.y.raw as int, s.raw as int),
    {
        Vec2 { x: self.x.mul(s), y: self.y.mul(s) }
    }
}

} // verus!
