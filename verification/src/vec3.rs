//! Three-component vectors over fixed-point scalars, used
//! interchangeably as points, directions and colors.

use crate::scalar::SCALE;
use crate::scalar::Scalar;
use crate::scalar::lemma_isqrt_is;
use crate::scalar::lemma_mul_units;
use crate::scalar::mag;
use crate::scalar::spec_isqrt;
use crate::scalar::trunc_div;
use crate::text::push_int;
use crate::text::spec_int_str;
use vstd::prelude::*;
use vstd::string::StringExecFns;

verus! {

/// A triple of fixed-point scalars.
#[derive(Clone, Copy, Debug, PartialEq, Eq, Structural)]
pub struct Vec3(pub Scalar, pub Scalar, pub Scalar);

impl Vec3 {
    /// Componentwise sum.
    pub open spec fn spec_add(self, rhs: Vec3) -> Vec3 {
        Vec3(self.0.spec_add(rhs.0), self.1.spec_add(rhs.1), self.2.spec_add(rhs.2))
    }

    pub fn add(self, rhs: Vec3) -> (r: Vec3)
        ensures
            r == self.spec_add(rhs),
    {
        Vec3(self.0.add(rhs.0), self.1.add(rhs.1), self.2.add(rhs.2))
    }

    /// Componentwise difference.
    pub open spec fn spec_sub(self, rhs: Vec3) -> Vec3 {
        Vec3(self.0.spec_sub(rhs.0), self.1.spec_sub(rhs.1), self.2.spec_sub(rhs.2))
    }

    pub fn sub(self, rhs: Vec3) -> (r: Vec3)
        ensures
            r == self.spec_sub(rhs),
    {
        Vec3(self.0.sub(rhs.0), self.1.sub(rhs.1), self.2.sub(rhs.2))
    }

    /// Scaling by a scalar.
    pub open spec fn spec_mul(self, rhs: Scalar) -> Vec3 {
        Vec3(self.0.spec_mul(rhs), self.1.spec_mul(rhs), self.2.spec_mul(rhs))
    }

    pub fn mul(self, rhs: Scalar) -> (r: Vec3)
        ensures
            r == self.spec_mul(rhs),
    {
        Vec3(self.0.mul(rhs), self.1.mul(rhs), self.2.mul(rhs))
    }

    /// Componentwise product.
    pub open spec fn spec_mul_vec(self, rhs: Vec3) -> Vec3 {
        Vec3(self.0.spec_mul(rhs.0), self.1.spec_mul(rhs.1), self.2.spec_mul(rhs.2))
    }

    pub fn mul_vec(self, rhs: Vec3) -> (r: Vec3)
        ensures
            r == self.spec_mul_vec(rhs),
    {
        Vec3(self.0.mul(rhs.0), self.1.mul(rhs.1), self.2.mul(rhs.2))
    }

    /// Division by a scalar; a zero divisor is the caller's to avoid.
    pub open spec fn spec_div(self, rhs: Scalar) -> Vec3 {
        Vec3(self.0.spec_div(rhs), self.1.spec_div(rhs), self.2.spec_div(rhs))
    }

    pub fn div(self, rhs: Scalar) -> (r: Vec3)
        requires
            rhs.units != 0,
        ensures
            r == self.spec_div(rhs),
    {
        Vec3(self.0.div(rhs), self.1.div(rhs), self.2.div(rhs))
    }

    /// Componentwise division; zero components are the caller's to avoid.
    pub open spec fn spec_div_vec(self, rhs: Vec3) -> Vec3 {
        Vec3(self.0.spec_div(rhs.0), self.1.spec_div(rhs.1), self.2.spec_div(rhs.2))
    }

    pub fn div_vec(self, rhs: Vec3) -> (r: Vec3)
        requires
            rhs.0.units != 0,
            rhs.1.units != 0,
            rhs.2.units != 0,
        ensures
            r == self.spec_div_vec(rhs),
    {
        Vec3(self.0.div(rhs.0), self.1.div(rhs.1), self.2.div(rhs.2))
    }

    /// The dot product, summed left to right.
    pub open spec fn spec_dot(self, rhs: Vec3) -> Scalar {
        self.0.spec_mul(rhs.0).spec_add(self.1.spec_mul(rhs.1)).spec_add(self.2.spec_mul(rhs.2))
    }

    pub fn dot(self, rhs: Vec3) -> (r: Scalar)
        ensures
            r == self.spec_dot(rhs),
    {
        self.0.mul(rhs.0).add(self.1.mul(rhs.1)).add(self.2.mul(rhs.2))
    }

    /// The cross product.
    pub open spec fn spec_cross(self, rhs: Vec3) -> Vec3 {
        Vec3(
            self.1.spec_mul(rhs.2).spec_sub(self.2.spec_mul(rhs.1)),
            self.0.spec_mul(rhs.2).spec_sub(self.2.spec_mul(rhs.0)).spec_neg(),
            self.0.spec_mul(rhs.1).spec_sub(self.1.spec_mul(rhs.0)),
        )
    }

    pub fn cross(self, rhs: Vec3) -> (r: Vec3)
        ensures
            r == self.spec_cross(rhs),
    {
        Vec3(
            self.1.mul(rhs.2).sub(self.2.mul(rhs.1)),
            self.0.mul(rhs.2).sub(self.2.mul(rhs.0)).neg(),
            self.0.mul(rhs.1).sub(self.1.mul(rhs.0)),
        )
    }

    /// The Euclidean length, rounded down to the nearest representable
    /// scalar.
    pub open spec fn spec_length(self) -> Scalar {
        self.spec_dot(self).spec_sqrt()
    }

    pub fn length(self) -> (r: Scalar)
        ensures
            r == self.spec_length(),
    {
        self.dot(self).sqrt()
    }

    /// The vector scaled to unit length.  A vector whose length rounds to
    /// zero cannot be normalized; callers avoid such directions.
    pub open spec fn spec_normalized(self) -> Vec3 {
        self.spec_div(self.spec_length())
    }

    pub fn normalized(self) -> (r: Vec3)
        requires
            self.spec_length().units != 0,
        ensures
            r == self.spec_normalized(),
    {
        let len = self.length();
        self.div(len)
    }

    /// In-place sum.
    pub fn add_assign(&mut self, rhs: Vec3)
        ensures
            *final(self) == old(self).spec_add(rhs),
    {
        *self = self.add(rhs);
    }

    /// In-place difference.
    pub fn sub_assign(&mut self, rhs: Vec3)
        ensures
            *final(self) == old(self).spec_sub(rhs),
    {
        *self = self.sub(rhs);
    }

    /// In-place scaling by a scalar.
    pub fn mul_assign(&mut self, rhs: Scalar)
        ensures
            *final(self) == old(self).spec_mul(rhs),
    {
        *self = self.mul(rhs);
    }

    /// In-place componentwise product.
    pub fn mul_assign_vec(&mut self, rhs: Vec3)
        ensures
            *final(self) == old(self).spec_mul_vec(rhs),
    {
        *self = self.mul_vec(rhs);
    }

    /// In-place division by a scalar.
    pub fn div_assign(&mut self, rhs: Scalar)
        requires
            rhs.units != 0,
        ensures
            *final(self) == old(self).spec_div(rhs),
    {
        *self = self.div(rhs);
    }

    /// In-place componentwise division.
    pub fn div_assign_vec(&mut self, rhs: Vec3)
        requires
            rhs.0.units != 0,
            rhs.1.units != 0,
            rhs.2.units != 0,
        ensures
            *final(self) == old(self).spec_div_vec(rhs),
    {
        *self = self.div_vec(rhs);
    }

    /// The pixel line for this color: each component rounded to the
    /// nearest whole number, halves to the even neighbour, separated by
    /// single spaces.
    pub open spec fn spec_ppm_pixel(self) -> Seq<char> {
        spec_int_str(self.0.spec_round_even()) + seq![' '] + spec_int_str(self.1.spec_round_even())
            + seq![' '] + spec_int_str(self.2.spec_round_even())
    }

    pub fn as_ppm_pixel(&self) -> (r: String)
        ensures
            r@ == self.spec_ppm_pixel(),
    {
        let mut s = String::new();
        push_int(&mut s, self.0.round_even());
        push_space(&mut s);
        push_int(&mut s, self.1.round_even());
        push_space(&mut s);
        push_int(&mut s, self.2.round_even());
        s
    }
}

/// Law: adding a vector and then subtracting it again returns the
/// original vector, whenever the intermediate sums stay representable.
pub proof fn lemma_add_sub_cancel(a: Vec3, b: Vec3)
    requires
        i64::MIN <= a.0.units + b.0.units <= i64::MAX,
        i64::MIN <= a.1.units + b.1.units <= i64::MAX,
        i64::MIN <= a.2.units + b.2.units <= i64::MAX,
    ensures
        a.spec_add(b).spec_sub(b) == a,
{
}

/// Law: the dot product does not depend on the order of its arguments.
pub proof fn lemma_dot_commutes(a: Vec3, b: Vec3)
    ensures
        a.spec_dot(b) == b.spec_dot(a),
{
    assert(a.0.units * b.0.units == b.0.units * a.0.units) by (nonlinear_arith);
    assert(a.1.units * b.1.units == b.1.units * a.1.units) by (nonlinear_arith);
    assert(a.2.units * b.2.units == b.2.units * a.2.units) by (nonlinear_arith);
}

/// Law: swapping the arguments of the cross product negates every
/// component, whenever the componentwise differences stay representable.
pub proof fn lemma_cross_antisymmetric(a: Vec3, b: Vec3)
    requires
        -i64::MAX <= a.1.spec_mul(b.2).units - a.2.spec_mul(b.1).units <= i64::MAX,
        -i64::MAX <= a.0.spec_mul(b.2).units - a.2.spec_mul(b.0).units <= i64::MAX,
        -i64::MAX <= a.0.spec_mul(b.1).units - a.1.spec_mul(b.0).units <= i64::MAX,
    ensures
        a.spec_cross(b).0 == b.spec_cross(a).0.spec_neg(),
        a.spec_cross(b).1 == b.spec_cross(a).1.spec_neg(),
        a.spec_cross(b).2 == b.spec_cross(a).2.spec_neg(),
{
    assert(a.1.units * b.2.units == b.2.units * a.1.units) by (nonlinear_arith);
    assert(a.2.units * b.1.units == b.1.units * a.2.units) by (nonlinear_arith);
    assert(a.0.units * b.2.units == b.2.units * a.0.units) by (nonlinear_arith);
    assert(a.2.units * b.0.units == b.0.units * a.2.units) by (nonlinear_arith);
    assert(a.0.units * b.1.units == b.1.units * a.0.units) by (nonlinear_arith);
    assert(a.1.units * b.0.units == b.0.units * a.1.units) by (nonlinear_arith);
}

/// Law: normalizing scales a vector to length one exactly, stated for
/// an axis-aligned vector whose square is an exact multiple of one
/// unit; elsewhere truncation can leave the length a few millionths off,
/// and the farther the length lies below one, the larger the error.
pub proof fn lemma_normalized_axis_vector_has_unit_length(x: Scalar)
    requires
        0 < x.units <= 1_000_000_000_000,
        (x.units * x.units) % (SCALE as int) == 0,
    ensures
        ({
            let v = Vec3(x, Scalar { units: 0 }, Scalar { units: 0 });
            v.spec_normalized() == Vec3(
                Scalar { units: SCALE },
                Scalar { units: 0 },
                Scalar { units: 0 },
            ) && v.spec_normalized().spec_length() == Scalar { units: SCALE }
        }),
{
    let s = SCALE as int;
    let xu = x.units as int;
    let v = Vec3(x, Scalar { units: 0 }, Scalar { units: 0 });

    let xsq = xu * xu;
    assert(0 < xu * xu <= 1_000_000_000_000_000_000_000_000) by (nonlinear_arith)
        requires
            0 < xu <= 1_000_000_000_000,
    ;
    assert(0 < xsq <= 1_000_000_000_000_000_000_000_000);
    let q = xsq / s;
    vstd::arithmetic::div_mod::lemma_fundamental_div_mod(xsq, s);
    assert(xsq == s * q);
    vstd::arithmetic::div_mod::lemma_div_is_ordered(xsq, 1_000_000_000_000_000_000_000_000, s);
    assert(1 <= q <= 1_000_000_000_000_000_000);

    // |v| = x
    lemma_mul_units(v.0, v.0, xu, xu);
    assert(trunc_div(xsq, s) == q);
    lemma_mul_units(v.1, v.1, 0, 0);
    lemma_mul_units(v.2, v.2, 0, 0);
    assert(v.spec_dot(v).units == q);
    assert(q * s == xsq);
    assert((xu + 1) * (xu + 1) > xu * xu) by (nonlinear_arith)
        requires
            xu > 0,
    ;
    assert((xu + 1) * (xu + 1) > xsq);
    lemma_isqrt_is(xsq, xu);
    let len = v.spec_length();
    assert(len.units == xu);

    // v / |v| = (1, 0, 0)
    vstd::arithmetic::div_mod::lemma_div_by_multiple(s, xu);
    assert(xu * s == s * xu);
    assert(trunc_div(xu * s, xu) == s);
    vstd::arithmetic::div_mod::lemma_div_by_multiple(0, xu);
    assert(trunc_div(0 * s, xu) == 0);
    let unit = v.spec_normalized();
    assert(unit == Vec3(Scalar { units: SCALE }, Scalar { units: 0 }, Scalar { units: 0 }));

    // |(1, 0, 0)| = 1
    lemma_mul_units(unit.0, unit.0, 1_000_000, 1_000_000);
    assert(1_000_000_000_000int / 1_000_000int == 1_000_000int);
    lemma_mul_units(unit.1, unit.1, 0, 0);
    lemma_mul_units(unit.2, unit.2, 0, 0);
    assert(unit.spec_dot(unit).units == 1_000_000);
    assert((1_000_000int + 1) * (1_000_000int + 1) > 1_000_000_000_000int);
    lemma_isqrt_is(1_000_000_000_000, 1_000_000);
    assert(unit.spec_length() == Scalar { units: SCALE });
}

/// Squaring preserves order on nonnegative numbers.
proof fn lemma_square_le(a: int, b: int)
    requires
        0 <= a <= b,
    ensures
        a * a <= b * b,
{
    assert(a * a <= b * b) by (nonlinear_arith)
        requires
            0 <= a <= b,
    ;
}

/// What one component of a vector becomes under division by a positive
/// length: its magnitude is the floor quotient, bracketed by the length.
proof fn lemma_normalized_component(xi: Scalar, len: int)
    requires
        1_000_000 <= len,
        mag(xi.units as int) <= 1_000_000_000_000,
    ensures
        ({
            let m = mag(xi.units as int);
            let mp = (m * 1_000_000) / len;
            let t = trunc_div(xi.units * 1_000_000, len);
            &&& 0 <= mp <= m
            &&& mag(t) == mp
            &&& t * t == mp * mp
            &&& mp * len <= m * 1_000_000 < (mp + 1) * len
        }),
{
    let m = mag(xi.units as int);
    let mp = (m * 1_000_000) / len;
    vstd::arithmetic::div_mod::lemma_div_pos_is_pos(m * 1_000_000, len);
    vstd::arithmetic::div_mod::lemma_fundamental_div_mod(m * 1_000_000, len);
    assert(len * mp == mp * len) by (nonlinear_arith);
    assert((mp + 1) * len == mp * len + len) by (nonlinear_arith);
    assert(mp * len <= m * 1_000_000 < (mp + 1) * len);
    vstd::arithmetic::div_mod::lemma_div_is_ordered_by_denominator(m * 1_000_000, 1_000_000, len);
    vstd::arithmetic::div_mod::lemma_div_by_multiple(m, 1_000_000);
    assert(mp <= m);
    let t = trunc_div(xi.units * 1_000_000, len);
    if xi.units >= 0 {
        assert(mag(xi.units * 1_000_000) == m * 1_000_000);
        assert(t == mp);
    } else {
        assert(mag(xi.units * 1_000_000) == m * 1_000_000);
        assert(t == -mp);
    }
    assert(t * t == mp * mp) by (nonlinear_arith)
        requires
            t == mp || t == -mp,
    ;
}

/// The square of a number is the square of its magnitude.
proof fn lemma_mag_square(x: int)
    ensures
        mag(x) * mag(x) == x * x,
        x * x >= 0,
{
    let m = mag(x);
    assert(m * m == x * x && x * x >= 0) by (nonlinear_arith)
        requires
            m == x || m == -x,
            m >= 0,
    ;
}

/// Law: a vector of length at least one normalizes to a vector whose
/// length is one to within five millionths; the slack is what the
/// truncated division and square root can lose, and it grows without
/// bound only for vectors shorter than one.
pub proof fn lemma_normalized_length_near_one(v: Vec3)
    requires
        mag(v.0.units as int) <= 1_000_000_000_000,
        mag(v.1.units as int) <= 1_000_000_000_000,
        mag(v.2.units as int) <= 1_000_000_000_000,
        v.spec_length().units >= 1_000_000,
    ensures
        999_995 <= v.spec_normalized().spec_length().units <= 1_000_002,
{
    let s = 1_000_000 as int;
    let x0 = v.0.units as int;
    let x1 = v.1.units as int;
    let x2 = v.2.units as int;
    let m0 = mag(x0);
    let m1 = mag(x1);
    let m2 = mag(x2);
    lemma_mag_square(x0);
    lemma_mag_square(x1);
    lemma_mag_square(x2);
    assert(m0 * m0 <= 1_000_000_000_000_000_000_000_000) by (nonlinear_arith)
        requires
            0 <= m0 <= 1_000_000_000_000,
    ;
    assert(m1 * m1 <= 1_000_000_000_000_000_000_000_000) by (nonlinear_arith)
        requires
            0 <= m1 <= 1_000_000_000_000,
    ;
    assert(m2 * m2 <= 1_000_000_000_000_000_000_000_000) by (nonlinear_arith)
        requires
            0 <= m2 <= 1_000_000_000_000,
    ;

    // The squared length before rounding, and the rounded dot product.
    let q = m0 * m0 + m1 * m1 + m2 * m2;
    let t0 = (m0 * m0) / s;
    let t1 = (m1 * m1) / s;
    let t2 = (m2 * m2) / s;
    vstd::arithmetic::div_mod::lemma_div_pos_is_pos(m0 * m0, s);
    vstd::arithmetic::div_mod::lemma_div_pos_is_pos(m1 * m1, s);
    vstd::arithmetic::div_mod::lemma_div_pos_is_pos(m2 * m2, s);
    vstd::arithmetic::div_mod::lemma_div_is_ordered(m0 * m0, 1_000_000_000_000_000_000_000_000, s);
    vstd::arithmetic::div_mod::lemma_div_is_ordered(m1 * m1, 1_000_000_000_000_000_000_000_000, s);
    vstd::arithmetic::div_mod::lemma_div_is_ordered(m2 * m2, 1_000_000_000_000_000_000_000_000, s);
    assert(0 <= t0 <= 1_000_000_000_000_000_000);
    assert(0 <= t1 <= 1_000_000_000_000_000_000);
    assert(0 <= t2 <= 1_000_000_000_000_000_000);
    assert(mag(x0 * x0) == m0 * m0 && mag(x1 * x1) == m1 * m1 && mag(x2 * x2) == m2 * m2);
    assert(trunc_div(x0 * x0, s) == t0);
    assert(trunc_div(x1 * x1, s) == t1);
    assert(trunc_div(x2 * x2, s) == t2);
    let n2 = t0 + t1 + t2;
    assert(v.spec_dot(v).units == n2);
    vstd::arithmetic::div_mod::lemma_fundamental_div_mod(m0 * m0, s);
    vstd::arithmetic::div_mod::lemma_fundamental_div_mod(m1 * m1, s);
    vstd::arithmetic::div_mod::lemma_fundamental_div_mod(m2 * m2, s);
    let rr = q - s * n2;
    assert(0 <= rr < 3 * s);

    // The rounded length and its square-root bracket.
    assert(n2 >= 1) by {
        if n2 <= 0 {
            assert(v.spec_length().units == 0);
        }
    }
    crate::scalar::lemma_isqrt_bounds(n2 * s);
    assert(n2 * s <= 3_000_000_000_000_000_000_000_000);
    assert(spec_isqrt(n2 * s) <= 2_000_000_000_000) by (nonlinear_arith)
        requires
            0 <= spec_isqrt(n2 * s),
            spec_isqrt(n2 * s) * spec_isqrt(n2 * s) <= n2 * s,
            n2 * s <= 3_000_000_000_000_000_000_000_000,
    ;
    assert(v.spec_length().units == spec_isqrt(n2 * s));
    let len = v.spec_length().units as int;
    assert(len * len <= n2 * s < (len + 1) * (len + 1));
    assert(len >= s);
    assert(len <= 2_000_000_000_000);

    // The normalized components and their magnitudes.
    lemma_normalized_component(v.0, len);
    lemma_normalized_component(v.1, len);
    lemma_normalized_component(v.2, len);
    let mp0 = (m0 * s) / len;
    let mp1 = (m1 * s) / len;
    let mp2 = (m2 * s) / len;
    let unit = v.spec_normalized();
    assert(unit.0.units == trunc_div(x0 * s, len));
    assert(unit.1.units == trunc_div(x1 * s, len));
    assert(unit.2.units == trunc_div(x2 * s, len));
    let u0 = unit.0.units as int;
    let u1 = unit.1.units as int;
    let u2 = unit.2.units as int;
    assert(u0 * u0 == mp0 * mp0 && u1 * u1 == mp1 * mp1 && u2 * u2 == mp2 * mp2);
    assert(mag(u0) == mp0 && mag(u1) == mp1 && mag(u2) == mp2);

    // The dot product of the normalized vector.
    let qp = mp0 * mp0 + mp1 * mp1 + mp2 * mp2;
    let tp0 = (mp0 * mp0) / s;
    let tp1 = (mp1 * mp1) / s;
    let tp2 = (mp2 * mp2) / s;
    assert(mp0 * mp0 <= 1_000_000_000_000_000_000_000_000) by (nonlinear_arith)
        requires
            0 <= mp0 <= 1_000_000_000_000,
    ;
    assert(mp1 * mp1 <= 1_000_000_000_000_000_000_000_000) by (nonlinear_arith)
        requires
            0 <= mp1 <= 1_000_000_000_000,
    ;
    assert(mp2 * mp2 <= 1_000_000_000_000_000_000_000_000) by (nonlinear_arith)
        requires
            0 <= mp2 <= 1_000_000_000_000,
    ;
    vstd::arithmetic::div_mod::lemma_div_pos_is_pos(mp0 * mp0, s);
    vstd::arithmetic::div_mod::lemma_div_pos_is_pos(mp1 * mp1, s);
    vstd::arithmetic::div_mod::lemma_div_pos_is_pos(mp2 * mp2, s);
    vstd::arithmetic::div_mod::lemma_div_is_ordered(mp0 * mp0, 1_000_000_000_000_000_000_000_000, s);
    vstd::arithmetic::div_mod::lemma_div_is_ordered(mp1 * mp1, 1_000_000_000_000_000_000_000_000, s);
    vstd::arithmetic::div_mod::lemma_div_is_ordered(mp2 * mp2, 1_000_000_000_000_000_000_000_000, s);
    assert(0 <= tp0 <= 1_000_000_000_000_000_000);
    assert(0 <= tp1 <= 1_000_000_000_000_000_000);
    assert(0 <= tp2 <= 1_000_000_000_000_000_000);
    lemma_mag_square(u0);
    lemma_mag_square(u1);
    lemma_mag_square(u2);
    assert(mag(u0 * u0) == mp0 * mp0 && mag(u1 * u1) == mp1 * mp1 && mag(u2 * u2) == mp2 * mp2);
    assert(trunc_div(u0 * u0, s) == tp0);
    assert(trunc_div(u1 * u1, s) == tp1);
    assert(trunc_div(u2 * u2, s) == tp2);
    let n2p = tp0 + tp1 + tp2;
    assert(unit.spec_dot(unit).units == n2p);
    vstd::arithmetic::div_mod::lemma_fundamental_div_mod(mp0 * mp0, s);
    vstd::arithmetic::div_mod::lemma_fundamental_div_mod(mp1 * mp1, s);
    vstd::arithmetic::div_mod::lemma_fundamental_div_mod(mp2 * mp2, s);
    let rrp = qp - s * n2p;
    assert(0 <= rrp < 3 * s);

    // Upper bound: each scaled component is at most the exact quotient.
    assert(0 <= mp0 * len <= m0 * s) by (nonlinear_arith)
        requires
            0 <= mp0,
            0 <= len,
            mp0 * len <= m0 * s,
    ;
    assert(0 <= mp1 * len <= m1 * s) by (nonlinear_arith)
        requires
            0 <= mp1,
            0 <= len,
            mp1 * len <= m1 * s,
    ;
    assert(0 <= mp2 * len <= m2 * s) by (nonlinear_arith)
        requires
            0 <= mp2,
            0 <= len,
            mp2 * len <= m2 * s,
    ;
    lemma_square_le(mp0 * len, m0 * s);
    lemma_square_le(mp1 * len, m1 * s);
    lemma_square_le(mp2 * len, m2 * s);
    assert((mp0 * len) * (mp0 * len) == (mp0 * mp0) * (len * len)) by (nonlinear_arith);
    assert((mp1 * len) * (mp1 * len) == (mp1 * mp1) * (len * len)) by (nonlinear_arith);
    assert((mp2 * len) * (mp2 * len) == (mp2 * mp2) * (len * len)) by (nonlinear_arith);
    assert((m0 * s) * (m0 * s) == (m0 * m0) * (s * s)) by (nonlinear_arith);
    assert((m1 * s) * (m1 * s) == (m1 * m1) * (s * s)) by (nonlinear_arith);
    assert((m2 * s) * (m2 * s) == (m2 * m2) * (s * s)) by (nonlinear_arith);
    assert(qp * (len * len) == (mp0 * mp0) * (len * len) + (mp1 * mp1) * (len * len) + (mp2
        * mp2) * (len * len)) by (nonlinear_arith)
        requires
            qp == mp0 * mp0 + mp1 * mp1 + mp2 * mp2,
    ;
    assert(q * (s * s) == (m0 * m0) * (s * s) + (m1 * m1) * (s * s) + (m2 * m2) * (s * s))
        by (nonlinear_arith)
        requires
            q == m0 * m0 + m1 * m1 + m2 * m2,
    ;
    assert(qp * (len * len) <= q * (s * s));
    assert(q < (len + 1) * (len + 1) + 3 * s);
    assert(qp < (s + 3) * (s + 3)) by (nonlinear_arith)
        requires
            qp * (len * len) <= q * (s * s),
            q < (len + 1) * (len + 1) + 3 * s,
            s == 1_000_000,
            s <= len,
            0 <= qp,
    ;

    // Lower bound: each scaled component misses the exact quotient by
    // less than one step of the length.
    assert(0 <= m0 * s && m0 * s < (mp0 + 1) * len);
    assert(0 <= m1 * s && m1 * s < (mp1 + 1) * len);
    assert(0 <= m2 * s && m2 * s < (mp2 + 1) * len);
    assert((m0 * s) * (m0 * s) < ((mp0 + 1) * len) * ((mp0 + 1) * len)) by (nonlinear_arith)
        requires
            0 <= m0 * s,
            m0 * s < (mp0 + 1) * len,
    ;
    assert((m1 * s) * (m1 * s) < ((mp1 + 1) * len) * ((mp1 + 1) * len)) by (nonlinear_arith)
        requires
            0 <= m1 * s,
            m1 * s < (mp1 + 1) * len,
    ;
    assert((m2 * s) * (m2 * s) < ((mp2 + 1) * len) * ((mp2 + 1) * len)) by (nonlinear_arith)
        requires
            0 <= m2 * s,
            m2 * s < (mp2 + 1) * len,
    ;
    assert(mp0 <= s + 1734) by {
        if mp0 >= s + 1735 {
            assert(m0 * m0 <= q) by (nonlinear_arith)
                requires
                    q == m0 * m0 + m1 * m1 + m2 * m2,
                    0 <= m1 * m1,
                    0 <= m2 * m2,
            ;
            assert(m0 <= len + 1734) by {
                if m0 >= len + 1735 {
                    assert(m0 * m0 >= (len + 1735) * (len + 1735)) by (nonlinear_arith)
                        requires
                            0 <= len + 1735 <= m0,
                    ;
                    assert((len + 1735) * (len + 1735) > (len + 1) * (len + 1) + 3_000_000)
                        by (nonlinear_arith)
                        requires
                            len >= 1_000_000,
                    ;
                }
            }
            assert(mp0 * len >= (s + 1735) * len) by (nonlinear_arith)
                requires
                    mp0 >= s + 1735,
                    len > 0,
            ;
            assert((s + 1735) * len == s * len + 1735 * len) by (nonlinear_arith);
            assert((len + 1734) * s == len * s + 1734 * s) by (nonlinear_arith);
            assert(s * len == len * s) by (nonlinear_arith);
            assert(1735 * len > 1734 * s);
            assert(m0 * s <= (len + 1734) * s) by (nonlinear_arith)
                requires
                    m0 <= len + 1734,
                    s > 0,
            ;
        }
    }
    assert(mp1 <= s + 1734) by {
        if mp1 >= s + 1735 {
            assert(m1 * m1 <= q) by (nonlinear_arith)
                requires
                    q == m0 * m0 + m1 * m1 + m2 * m2,
                    0 <= m0 * m0,
                    0 <= m2 * m2,
            ;
            assert(m1 <= len + 1734) by {
                if m1 >= len + 1735 {
                    assert(m1 * m1 >= (len + 1735) * (len + 1735)) by (nonlinear_arith)
                        requires
                            0 <= len + 1735 <= m1,
                    ;
                    assert((len + 1735) * (len + 1735) > (len + 1) * (len + 1) + 3_000_000)
                        by (nonlinear_arith)
                        requires
                            len >= 1_000_000,
                    ;
                }
            }
            assert(mp1 * len >= (s + 1735) * len) by (nonlinear_arith)
                requires
                    mp1 >= s + 1735,
                    len > 0,
            ;
            assert((s + 1735) * len == s * len + 1735 * len) by (nonlinear_arith);
            assert((len + 1734) * s == len * s + 1734 * s) by (nonlinear_arith);
            assert(s * len == len * s) by (nonlinear_arith);
            assert(1735 * len > 1734 * s);
            assert(m1 * s <= (len + 1734) * s) by (nonlinear_arith)
                requires
                    m1 <= len + 1734,
                    s > 0,
            ;
        }
    }
    assert(mp2 <= s + 1734) by {
        if mp2 >= s + 1735 {
            assert(m2 * m2 <= q) by (nonlinear_arith)
                requires
                    q == m0 * m0 + m1 * m1 + m2 * m2,
                    0 <= m0 * m0,
                    0 <= m1 * m1,
            ;
            assert(m2 <= len + 1734) by {
                if m2 >= len + 1735 {
                    assert(m2 * m2 >= (len + 1735) * (len + 1735)) by (nonlinear_arith)
                        requires
                            0 <= len + 1735 <= m2,
                    ;
                    assert((len + 1735) * (len + 1735) > (len + 1) * (len + 1) + 3_000_000)
                        by (nonlinear_arith)
                        requires
                            len >= 1_000_000,
                    ;
                }
            }
            assert(mp2 * len >= (s + 1735) * len) by (nonlinear_arith)
                requires
                    mp2 >= s + 1735,
                    len > 0,
            ;
            assert((s + 1735) * len == s * len + 1735 * len) by (nonlinear_arith);
            assert((len + 1734) * s == len * s + 1734 * s) by (nonlinear_arith);
            assert(s * len == len * s) by (nonlinear_arith);
            assert(1735 * len > 1734 * s);
            assert(m2 * s <= (len + 1734) * s) by (nonlinear_arith)
                requires
                    m2 <= len + 1734,
                    s > 0,
            ;
        }
    }
    assert(((mp0 + 1) * len) * ((mp0 + 1) * len) == (mp0 * mp0 + 2 * mp0 + 1) * (len * len))
        by (nonlinear_arith);
    assert(((mp1 + 1) * len) * ((mp1 + 1) * len) == (mp1 * mp1 + 2 * mp1 + 1) * (len * len))
        by (nonlinear_arith);
    assert(((mp2 + 1) * len) * ((mp2 + 1) * len) == (mp2 * mp2 + 2 * mp2 + 1) * (len * len))
        by (nonlinear_arith);
    assert((qp + 2 * (mp0 + mp1 + mp2) + 3) * (len * len) == (mp0 * mp0 + 2 * mp0 + 1) * (len
        * len) + (mp1 * mp1 + 2 * mp1 + 1) * (len * len) + (mp2 * mp2 + 2 * mp2 + 1) * (len
        * len)) by (nonlinear_arith)
        requires
            qp == mp0 * mp0 + mp1 * mp1 + mp2 * mp2,
    ;
    assert(q * (s * s) < (qp + 2 * (mp0 + mp1 + mp2) + 3) * (len * len));
    assert(q >= n2 * s);
    assert(q * (s * s) >= (len * len) * (s * s)) by (nonlinear_arith)
        requires
            q >= len * len,
            s > 0,
    ;
    assert(s * s < qp + 2 * (mp0 + mp1 + mp2) + 3) by (nonlinear_arith)
        requires
            (len * len) * (s * s) <= q * (s * s),
            q * (s * s) < (qp + 2 * (mp0 + mp1 + mp2) + 3) * (len * len),
            1 <= len,
    ;
    assert(qp > s * s - 6 * s - 10_413);

    // The bracket around the normalized length.
    assert(s * n2p <= qp);
    assert(s * n2p > s * s - 9 * s - 10_413);
    assert((s - 5) * (s - 5) < s * s - 9 * s - 10_413);
    assert(n2p * s == s * n2p);
    assert(n2p >= 1) by {
        if n2p <= 0 {
            assert(s * n2p <= 0);
        }
    }
    crate::scalar::lemma_isqrt_bounds(n2p * s);
    let lenp = spec_isqrt(n2p * s);
    assert(lenp * lenp <= n2p * s < (lenp + 1) * (lenp + 1));
    assert(n2p * s <= qp < (s + 3) * (s + 3));
    assert(lenp <= s + 2) by {
        if lenp >= s + 3 {
            lemma_square_le(s + 3, lenp);
        }
    }
    assert(unit.spec_length().units == lenp);
    assert(lenp >= s - 5) by {
        if lenp + 1 <= s - 5 {
            lemma_square_le(lenp + 1, s - 5);
        }
    }
}


fn push_space(s: &mut String)
    ensures
        final(s)@ == old(s)@ + seq![' '],
{
    proof {
        reveal_strlit(" ");
        assert(" "@ =~= seq![' ']);
    }
    s.append(" ");
}

} // verus!
