//! Fixed-point numbers with 32 fractional bits.
//!
//! Every operation is exact up to one rounding, toward zero, and saturates
//! at the ends of the range instead of wrapping.

use crate::scalar::Scalar;
use vstd::prelude::*;

verus! {

/// The raw count that stands for the number one.
pub const SCALE: i64 = 0x1_0000_0000;

/// The largest whole number a `Fixed` can hold.
pub const WHOLE_MAX: usize = 0x7fff_ffff;

/// A number `raw / 2^32`.
#[derive(Clone, Copy, Debug, PartialEq, Eq, Structural)]
pub struct Fixed {
    pub raw: i64,
}

/// `x`, or the end of the 64-bit range that is nearest to it.
pub open spec fn saturate(x: int) -> i64 {
    if x > i64::MAX {
        i64::MAX
    } else if x < i64::MIN {
        i64::MIN
    } else {
        x as i64
    }
}

/// The distance of `x` from zero.
pub open spec fn magnitude(x: int) -> int {
    if x < 0 {
        -x
    } else {
        x
    }
}

/// `n / d` rounded toward zero, for `d` other than zero.
pub open spec fn truncated(n: int, d: int) -> int {
    if (n < 0) == (d < 0) {
        magnitude(n) / magnitude(d)
    } else {
        -(magnitude(n) / magnitude(d))
    }
}

/// Whether `r` is the square root of `n`, rounded down.
pub open spec fn is_root(n: int, r: int) -> bool {
    0 <= r && r * r <= n < (r + 1) * (r + 1)
}

/// The square root of `n`, rounded down.
pub open spec fn root(n: int) -> int {
    choose|r: int| is_root(n, r)
}

/// At most one number is the rounded-down square root of `n`.
pub proof fn lemma_root_unique(n: int, a: int, b: int)
    requires
        is_root(n, a),
        is_root(n, b),
    ensures
        a == b,
{
    if a < b {
        assert((a + 1) * (a + 1) <= b * b) by (nonlinear_arith)
            requires
                0 <= a,
                a + 1 <= b,
        ;
    }
    if b < a {
        assert((b + 1) * (b + 1) <= a * a) by (nonlinear_arith)
            requires
                0 <= b,
                b + 1 <= a,
        ;
    }
}

fn clamp(x: i128) -> (r: i64)
    ensures
        r == saturate(x as int),
{
    if x > i64::MAX as i128 {
        i64::MAX
    } else if x < i64::MIN as i128 {
        i64::MIN
    } else {
        x as i64
    }
}

/// The distance of `raw * 2^32` from zero.
fn wide_magnitude(raw: i64) -> (n: u128)
    ensures
        n == magnitude(raw * SCALE),
        n <= 0x8000_0000_0000_0000_0000_0000,
{
    let m: u128 = if raw < 0 {
        (-(raw as i128)) as u128
    } else {
        raw as u128
    };
    assert(m * 0x1_0000_0000 <= 0x8000_0000_0000_0000_0000_0000) by (nonlinear_arith)
        requires
            m <= 0x8000_0000_0000_0000,
    ;
    assert(raw * 0x1_0000_0000 < 0 <==> raw < 0) by (nonlinear_arith);
    m * 0x1_0000_0000
}

/// The square root of `n`, rounded down, by bisection.
fn whole_root(n: u128) -> (r: u128)
    requires
        n < 0x8000_0000_0000_0000_0000_0000,
    ensures
        is_root(n as int, r as int),
        r == root(n as int),
        r < 0x1_0000_0000_0000,
{
    let mut lo: u128 = 0;
    let mut hi: u128 = 0x1_0000_0000_0000;
    assert(0x1_0000_0000_0000u128 * 0x1_0000_0000_0000u128 == 0x1_0000_0000_0000_0000_0000_0000u128)
        by (nonlinear_arith);
    while hi - lo > 1
        invariant
            lo < hi <= 0x1_0000_0000_0000,
            lo * lo <= n < hi * hi,
        decreases hi - lo,
    {
        let mid = lo + (hi - lo) / 2;
        assert(mid * mid < 0x1_0000_0000_0000_0000_0000_0000) by (nonlinear_arith)
            requires
                0 <= mid < 0x1_0000_0000_0000,
        ;
        if mid * mid <= n {
            lo = mid;
        } else {
            hi = mid;
        }
    }
    proof {
        let found = root(n as int);
        lemma_root_unique(n as int, lo as int, found);
    }
    lo
}

impl Scalar for Fixed {
    open spec fn spec_zero() -> Self {
        Fixed { raw: 0 }
    }

    open spec fn spec_one() -> Self {
        Fixed { raw: SCALE }
    }

    open spec fn spec_from_index(n: usize) -> Self {
        Fixed { raw: if n > WHOLE_MAX { i64::MAX } else { (n * SCALE) as i64 } }
    }

    open spec fn spec_plus(self, rhs: Self) -> Self {
        Fixed { raw: saturate(self.raw + rhs.raw) }
    }

    open spec fn spec_minus(self, rhs: Self) -> Self {
        Fixed { raw: saturate(self.raw - rhs.raw) }
    }

    open spec fn spec_times(self, rhs: Self) -> Self {
        Fixed { raw: saturate(truncated(self.raw * rhs.raw, SCALE as int)) }
    }

    /// Division by zero gives the end of the range on the side of `self`,
    /// and zero where `self` is zero.
    open spec fn spec_over(self, rhs: Self) -> Self {
        Fixed {
            raw: if rhs.raw == 0 {
                if self.raw > 0 {
                    i64::MAX
                } else if self.raw < 0 {
                    i64::MIN
                } else {
                    0
                }
            } else {
                saturate(truncated(self.raw * SCALE, rhs.raw as int))
            },
        }
    }

    open spec fn spec_neg(self) -> Self {
        Fixed { raw: saturate(-self.raw) }
    }

    open spec fn spec_abs(self) -> Self {
        Fixed { raw: saturate(magnitude(self.raw as int)) }
    }

    /// The root of a number below zero is zero.
    open spec fn spec_sqrt(self) -> Self {
        Fixed { raw: if self.raw <= 0 { 0 } else { root(self.raw * SCALE) as i64 } }
    }

    open spec fn spec_min(self, rhs: Self) -> Self {
        if rhs.raw < self.raw {
            rhs
        } else {
            self
        }
    }

    open spec fn spec_max(self, rhs: Self) -> Self {
        if rhs.raw > self.raw {
            rhs
        } else {
            self
        }
    }

    open spec fn spec_lt(self, rhs: Self) -> bool {
        self.raw < rhs.raw
    }

    open spec fn spec_floor_index(self) -> usize {
        if self.raw < 0 {
            0
        } else {
            (self.raw / SCALE) as usize
        }
    }

    fn zero() -> (r: Self) {
        Fixed { raw: 0 }
    }

    fn one() -> (r: Self) {
        Fixed { raw: SCALE }
    }

    fn from_index(n: usize) -> (r: Self) {
        if n > WHOLE_MAX {
            Fixed { raw: i64::MAX }
        } else {
            Fixed { raw: n as i64 * SCALE }
        }
    }

    fn plus(self, rhs: Self) -> (r: Self) {
        Fixed { raw: clamp(self.raw as i128 + rhs.raw as i128) }
    }

    fn minus(self, rhs: Self) -> (r: Self) {
        Fixed { raw: clamp(self.raw as i128 - rhs.raw as i128) }
    }

    fn times(self, rhs: Self) -> (r: Self) {
        assert(-0x4000_0000_0000_0000_0000_0000_0000_0000 <= self.raw * rhs.raw
            <= 0x4000_0000_0000_0000_0000_0000_0000_0000) by (nonlinear_arith)
            requires
                -0x8000_0000_0000_0000 <= self.raw <= 0x8000_0000_0000_0000,
                -0x8000_0000_0000_0000 <= rhs.raw <= 0x8000_0000_0000_0000,
        ;
        let wide: i128 = self.raw as i128 * rhs.raw as i128;
        Fixed { raw: clamp(wide / SCALE as i128) }
    }

    fn over(self, rhs: Self) -> (r: Self) {
        if rhs.raw == 0 {
            if self.raw > 0 {
                Fixed { raw: i64::MAX }
            } else if self.raw < 0 {
                Fixed { raw: i64::MIN }
            } else {
                Fixed { raw: 0 }
            }
        } else {
            let n: u128 = wide_magnitude(self.raw);
            let d: u128 = if rhs.raw < 0 {
                (-(rhs.raw as i128)) as u128
            } else {
                rhs.raw as u128
            };
            let q: u128 = n / d;
            if (self.raw < 0) == (rhs.raw < 0) {
                Fixed { raw: clamp(q as i128) }
            } else {
                Fixed { raw: clamp(-(q as i128)) }
            }
        }
    }

    fn neg(self) -> (r: Self) {
        Fixed { raw: clamp(-(self.raw as i128)) }
    }

    fn abs(self) -> (r: Self) {
        if self.raw < 0 {
            Fixed { raw: clamp(-(self.raw as i128)) }
        } else {
            self
        }
    }

    fn sqrt(self) -> (r: Self) {
        if self.raw <= 0 {
            Fixed { raw: 0 }
        } else {
            let wide: u128 = wide_magnitude(self.raw);
            Fixed { raw: whole_root(wide) as i64 }
        }
    }

    fn min(self, rhs: Self) -> (r: Self) {
        if rhs.raw < self.raw {
            rhs
        } else {
            self
        }
    }

    fn max(self, rhs: Self) -> (r: Self) {
        if rhs.raw > self.raw {
            rhs
        } else {
            self
        }
    }

    fn lt(self, rhs: Self) -> (r: bool) {
        self.raw < rhs.raw
    }

    fn floor_index(self) -> (r: usize) {
        if self.raw < 0 {
            0
        } else {
            (self.raw / SCALE) as usize
        }
    }
}

} // verus!
