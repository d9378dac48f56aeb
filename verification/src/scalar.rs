//! Fixed-point scalars: the numeric ground the renderer stands on.
//!
//! A `Scalar` holds a signed number of millionths, so `1.0` is
//! `1_000_000` units.  Multiplication and division truncate toward zero;
//! results that leave the representable range saturate at the nearest
//! bound instead of wrapping.  The square root of a negative scalar is
//! taken as zero, so a channel driven negative by numeric error simply
//! contributes no light; this replaces silent non-finite propagation
//! with a recoverable no-contribution outcome.

use vstd::prelude::*;

verus! {

/// Units per 1.0 of scalar value.
pub const SCALE: i64 = 1_000_000;

/// Half of one unit of display value, used to round to whole numbers.
pub const HALF_SCALE: i64 = 500_000;

/// A fixed-point number counted in millionths.
#[derive(Clone, Copy, Debug, PartialEq, Eq, Structural)]
pub struct Scalar {
    pub units: i64,
}

/// Saturation to the `i64` range.
pub open spec fn sat(x: int) -> i64 {
    if x > i64::MAX {
        i64::MAX
    } else if x < i64::MIN {
        i64::MIN
    } else {
        x as i64
    }
}

/// Magnitude of an integer.
pub open spec fn mag(x: int) -> int {
    if x < 0 {
        -x
    } else {
        x
    }
}

/// Division truncating toward zero, the rounding `Scalar` arithmetic uses.
/// Division by zero is given the harmless value zero; executable code
/// never reaches that case.
pub open spec fn trunc_div(a: int, b: int) -> int {
    if b == 0 {
        0
    } else if (a < 0) == (b < 0) {
        mag(a) / mag(b)
    } else {
        -(mag(a) / mag(b))
    }
}

/// The integer square root: the largest `r` with `r * r <= n` (zero for
/// negative `n`).
pub open spec fn spec_isqrt(n: int) -> int
    decreases n,
{
    if n <= 0 {
        0
    } else {
        let r = spec_isqrt(n - 1);
        if (r + 1) * (r + 1) <= n {
            r + 1
        } else {
            r
        }
    }
}

pub proof fn lemma_isqrt_bounds(n: int)
    requires
        n >= 0,
    ensures
        0 <= spec_isqrt(n),
        spec_isqrt(n) * spec_isqrt(n) <= n,
        n < (spec_isqrt(n) + 1) * (spec_isqrt(n) + 1),
    decreases n,
{
    if n > 0 {
        lemma_isqrt_bounds(n - 1);
        let r = spec_isqrt(n - 1);
        if (r + 1) * (r + 1) <= n {
            assert(n < ((r + 1) + 1) * ((r + 1) + 1)) by (nonlinear_arith)
                requires
                    n - 1 < (r + 1) * (r + 1),
                    (r + 1) * (r + 1) <= n,
                    r >= 0,
            ;
        }
    }
}

/// Any `r` within the square-root bracket is the integer square root.
pub proof fn lemma_isqrt_is(n: int, r: int)
    requires
        n >= 0,
        r >= 0,
        r * r <= n,
        n < (r + 1) * (r + 1),
    ensures
        r == spec_isqrt(n),
{
    lemma_isqrt_bounds(n);
    let q = spec_isqrt(n);
    if q < r {
        assert((q + 1) * (q + 1) <= r * r) by (nonlinear_arith)
            requires
                0 <= q + 1 <= r,
        ;
    }
    if r < q {
        assert((r + 1) * (r + 1) <= q * q) by (nonlinear_arith)
            requires
                0 <= r + 1 <= q,
        ;
    }
}

/// Evaluates a scalar product once the factors' unit counts are known;
/// the solver folds the remaining literal arithmetic itself.
pub proof fn lemma_mul_units(a: Scalar, b: Scalar, au: int, bu: int)
    requires
        a.units == au,
        b.units == bu,
    ensures
        a.spec_mul(b).units == sat(trunc_div(au * bu, SCALE as int)),
{
    assert(a.units * b.units == au * bu) by (nonlinear_arith)
        requires
            a.units == au,
            b.units == bu,
    ;
}

/// Widening product of two machine words; the result always fits `i128`.
fn mul_wide(a: i64, b: i64) -> (p: i128)
    ensures
        p == a * b,
        i128::MIN < p,
{
    proof {
        assert(i128::MIN < a * b <= i128::MAX) by (nonlinear_arith)
            requires
                i64::MIN <= a <= i64::MAX,
                i64::MIN <= b <= i64::MAX,
        ;
    }
    (a as i128) * (b as i128)
}

/// Saturating narrowing from `i128` to `i64`.
fn clamp64(x: i128) -> (r: i64)
    ensures
        r == sat(x as int),
{
    if x > (i64::MAX as i128) {
        i64::MAX
    } else if x < (i64::MIN as i128) {
        i64::MIN
    } else {
        x as i64
    }
}

/// Division of `i128` values truncating toward zero.
fn div_trunc(a: i128, b: i128) -> (q: i128)
    requires
        b != 0,
        a != i128::MIN,
        b != i128::MIN,
    ensures
        q == trunc_div(a as int, b as int),
{
    let an: u128 = if a < 0 {
        (-a) as u128
    } else {
        a as u128
    };
    let bn: u128 = if b < 0 {
        (-b) as u128
    } else {
        b as u128
    };
    let qn: u128 = an / bn;
    assert(an == mag(a as int) && bn == mag(b as int));
    assert(qn <= an) by (nonlinear_arith)
        requires
            bn >= 1,
            qn == an / bn,
            an >= 0,
    ;
    if (a < 0) != (b < 0) {
        -(qn as i128)
    } else {
        qn as i128
    }
}

/// The integer square root of a machine word range value.
fn isqrt(n: u128) -> (r: u64)
    ensures
        r == spec_isqrt(n as int),
{
    let mut lo: u128 = 0;
    let mut hi: u128 = 0x1_0000_0000_0000_0000;
    proof {
        assert((0x1_0000_0000_0000_0000 as int) * (0x1_0000_0000_0000_0000 as int)
            > u128::MAX as int);
    }
    while lo + 1 < hi
        invariant
            lo < hi,
            hi <= 0x1_0000_0000_0000_0000,
            lo * lo <= n,
            n < hi * hi,
        decreases hi - lo,
    {
        let mid = lo + (hi - lo) / 2;
        assert(lo < mid < hi);
        proof {
            assert(mid * mid < u128::MAX) by (nonlinear_arith)
                requires
                    0 <= mid <= 0xffff_ffff_ffff_ffff,
            ;
        }
        let sq = mid * mid;
        if sq <= n {
            lo = mid;
        } else {
            hi = mid;
        }
    }
    proof {
        lemma_isqrt_is(n as int, lo as int);
    }
    lo as u64
}

impl Scalar {
    /// The scalar equal to the given whole number, saturating far outside
    /// the representable range.
    pub open spec fn spec_from_int(i: int) -> Scalar {
        Scalar { units: sat(i * SCALE) }
    }

    pub fn from_int(i: i64) -> (r: Scalar)
        ensures
            r == Self::spec_from_int(i as int),
    {
        Scalar { units: clamp64(mul_wide(i, SCALE)) }
    }

    /// Sum, saturating at the ends of the range.
    pub open spec fn spec_add(self, rhs: Scalar) -> Scalar {
        Scalar { units: sat(self.units + rhs.units) }
    }

    pub fn add(self, rhs: Scalar) -> (r: Scalar)
        ensures
            r == self.spec_add(rhs),
    {
        Scalar { units: clamp64((self.units as i128) + (rhs.units as i128)) }
    }

    /// Difference, saturating at the ends of the range.
    pub open spec fn spec_sub(self, rhs: Scalar) -> Scalar {
        Scalar { units: sat(self.units - rhs.units) }
    }

    pub fn sub(self, rhs: Scalar) -> (r: Scalar)
        ensures
            r == self.spec_sub(rhs),
    {
        Scalar { units: clamp64((self.units as i128) - (rhs.units as i128)) }
    }

    /// Negation; the one unrepresentable case saturates.
    pub open spec fn spec_neg(self) -> Scalar {
        Scalar { units: sat(-self.units) }
    }

    pub fn neg(self) -> (r: Scalar)
        ensures
            r == self.spec_neg(),
    {
        Scalar { units: clamp64(-(self.units as i128)) }
    }

    /// Product, truncated toward zero and saturating.
    pub open spec fn spec_mul(self, rhs: Scalar) -> Scalar {
        Scalar { units: sat(trunc_div(self.units * rhs.units, SCALE as int)) }
    }

    pub fn mul(self, rhs: Scalar) -> (r: Scalar)
        ensures
            r == self.spec_mul(rhs),
    {
        let p = mul_wide(self.units, rhs.units);
        Scalar { units: clamp64(div_trunc(p, SCALE as i128)) }
    }

    /// Quotient, truncated toward zero and saturating.  A zero divisor
    /// is the caller's to avoid; the geometric code guards every
    /// division it performs.
    pub open spec fn spec_div(self, rhs: Scalar) -> Scalar {
        Scalar { units: sat(trunc_div(self.units * (SCALE as int), rhs.units as int)) }
    }

    pub fn div(self, rhs: Scalar) -> (r: Scalar)
        requires
            rhs.units != 0,
        ensures
            r == self.spec_div(rhs),
    {
        let p = mul_wide(self.units, SCALE);
        Scalar { units: clamp64(div_trunc(p, rhs.units as i128)) }
    }

    /// Square root, rounded down to the nearest representable scalar;
    /// zero for negative inputs.
    pub open spec fn spec_sqrt(self) -> Scalar {
        if self.units <= 0 {
            Scalar { units: 0 }
        } else {
            Scalar { units: spec_isqrt(self.units * (SCALE as int)) as i64 }
        }
    }

    pub fn sqrt(self) -> (r: Scalar)
        ensures
            r == self.spec_sqrt(),
    {
        if self.units <= 0 {
            Scalar { units: 0 }
        } else {
            let n: u128 = mul_wide(self.units, SCALE) as u128;
            proof {
                lemma_isqrt_bounds(n as int);
                assert(spec_isqrt(n as int) * spec_isqrt(n as int) <= n as int);
                assert(spec_isqrt(n as int) <= 0x400_0000_0000) by (nonlinear_arith)
                    requires
                        0 <= spec_isqrt(n as int),
                        spec_isqrt(n as int) * spec_isqrt(n as int) <= n as int,
                        n as int <= 0x7fff_ffff_ffff_ffff * 1_000_000,
                ;
            }
            let r = isqrt(n);
            Scalar { units: r as i64 }
        }
    }

    /// Rounding to the nearest whole number, halves away from zero; the
    /// rule the renderer uses to derive pixel counts.
    pub open spec fn spec_round(self) -> int {
        let m = mag(self.units as int);
        let whole = m / (SCALE as int);
        let rem = m % (SCALE as int);
        let up = if rem >= HALF_SCALE {
            whole + 1
        } else {
            whole
        };
        if self.units < 0 {
            -up
        } else {
            up
        }
    }

    pub fn round(self) -> (r: i64)
        ensures
            r == self.spec_round(),
    {
        let m: u128 = if self.units < 0 {
            (-(self.units as i128)) as u128
        } else {
            self.units as u128
        };
        let whole = m / (SCALE as u128);
        let rem = m % (SCALE as u128);
        proof {
            assert(whole * (SCALE as u128) + rem == m) by (nonlinear_arith)
                requires
                    whole == m / (SCALE as u128),
                    rem == m % (SCALE as u128),
                    SCALE as u128 > 0,
            ;
        }
        let up: u128 = if rem >= (HALF_SCALE as u128) {
            whole + 1
        } else {
            whole
        };
        if self.units < 0 {
            -(up as i64)
        } else {
            up as i64
        }
    }

    /// Rounding to the nearest whole number, halves to the even neighbour;
    /// the rule whole-number display formatting uses.
    pub open spec fn spec_round_even(self) -> int {
        let m = mag(self.units as int);
        let whole = m / (SCALE as int);
        let rem = m % (SCALE as int);
        let up = if rem > HALF_SCALE || (rem == HALF_SCALE && whole % 2 == 1) {
            whole + 1
        } else {
            whole
        };
        if self.units < 0 {
            -up
        } else {
            up
        }
    }

    pub fn round_even(self) -> (r: i64)
        ensures
            r == self.spec_round_even(),
    {
        let m: u128 = if self.units < 0 {
            (-(self.units as i128)) as u128
        } else {
            self.units as u128
        };
        let whole = m / (SCALE as u128);
        let rem = m % (SCALE as u128);
        proof {
            assert(whole * (SCALE as u128) + rem == m) by (nonlinear_arith)
                requires
                    whole == m / (SCALE as u128),
                    rem == m % (SCALE as u128),
                    SCALE as u128 > 0,
            ;
        }
        let up: u128 = if rem > (HALF_SCALE as u128) || (rem == (HALF_SCALE as u128) && whole
            % 2 == 1) {
            whole + 1
        } else {
            whole
        };
        if self.units < 0 {
            -(up as i64)
        } else {
            up as i64
        }
    }
}

} // verus!
