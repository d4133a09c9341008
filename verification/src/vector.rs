//! Two-dimensional fixed-point vectors.

use vstd::prelude::*;
use crate::fixed::{
    ceil_sqrt, lemma_quotient_magnitude, lemma_root_above_at_least, magnitude, narrow,
    quotient_toward_zero, root_above, saturate, saturating_difference, saturating_sum, scale,
    scaled, RESOLUTION,
};

verus! {

/// A point or a displacement on the canvas, in fixed-point steps.
#[derive(Clone, Copy, Debug, PartialEq, Eq, Structural)]
pub struct Vector {
    pub x: i64,
    pub y: i64,
}

/// Whether `(x, y)` lies in the square from which directions are sampled.
pub open spec fn in_sample_square(x: i64, y: i64) -> bool {
    -RESOLUTION <= x <= RESOLUTION && -RESOLUTION <= y <= RESOLUTION
}

/// The length of `(x, y)` in units of `1 / RESOLUTION` steps, rounded up.
pub open spec fn fine_length(x: i64, y: i64) -> int {
    root_above(((x * x + y * y) * (RESOLUTION * RESOLUTION)) as nat) as int
}

/// The vector of length one that points where the sample `(x, y)` points,
/// for a sample other than the origin.
pub open spec fn unit_of(x: i64, y: i64) -> Vector {
    Vector {
        x: saturate(quotient_toward_zero(x * (RESOLUTION * RESOLUTION), fine_length(x, y))),
        y: saturate(quotient_toward_zero(y * (RESOLUTION * RESOLUTION), fine_length(x, y))),
    }
}

impl Vector {
    /// The component-wise sum, each component stopping at the ends of `i64`.
    pub open spec fn sum(self, other: Vector) -> Vector {
        Vector { x: saturate(self.x + other.x), y: saturate(self.y + other.y) }
    }

    /// The component-wise difference, each component stopping at the ends of `i64`.
    pub open spec fn difference(self, other: Vector) -> Vector {
        Vector { x: saturate(self.x - other.x), y: saturate(self.y - other.y) }
    }

    /// Both components multiplied by the fixed-point factor `scalar`.
    pub open spec fn scaled_by(self, scalar: i64) -> Vector {
        Vector { x: scaled(self.x, scalar), y: scaled(self.y, scalar) }
    }

    /// The square of the vector's length.
    pub open spec fn norm_sq(self) -> int {
        self.x * self.x + self.y * self.y
    }

    /// The vector with both components zero.
    pub fn zero() -> (v: Vector)
        ensures
            v == (Vector { x: 0, y: 0 }),
    {
        Vector { x: 0, y: 0 }
    }

    /// Normalises a sample from the square to length one. The direction of
    /// the sample is kept, so directions towards the corners of the square
    /// come out more often than the others when samples are uniform.
    pub fn unit_from_sample(x: i64, y: i64) -> (u: Vector)
        requires
            in_sample_square(x, y),
            x != 0 || y != 0,
        ensures
            u == unit_of(x, y),
    {
        let ghost square: int = RESOLUTION * RESOLUTION;
        assert(0 <= x * x <= square && 0 <= y * y <= square) by (nonlinear_arith)
            requires
                -RESOLUTION <= x <= RESOLUTION,
                -RESOLUTION <= y <= RESOLUTION,
                square == RESOLUTION * RESOLUTION,
        ;
        let wide_x: i128 = x as i128;
        let wide_y: i128 = y as i128;
        let unit: i128 = RESOLUTION as i128 * RESOLUTION as i128;
        let length_sq: i128 = wide_x * wide_x + wide_y * wide_y;
        assert(length_sq >= 1) by (nonlinear_arith)
            requires
                length_sq == x * x + y * y,
                x != 0 || y != 0,
        ;
        assert(0 <= length_sq * unit <= 2 * square * square) by (nonlinear_arith)
            requires
                0 <= length_sq <= 2 * square,
                unit == square,
                square >= 0,
        ;
        let length: u128 = ceil_sqrt((length_sq * unit) as u128);
        assert(length >= 1) by (nonlinear_arith)
            requires
                length * length >= length_sq * unit,
                length_sq >= 1,
                unit == 1_000_000_000_000,
        ;
        assert(-square * RESOLUTION <= wide_x * unit <= square * RESOLUTION
            && -square * RESOLUTION <= wide_y * unit <= square * RESOLUTION) by (nonlinear_arith)
            requires
                -RESOLUTION <= wide_x <= RESOLUTION,
                -RESOLUTION <= wide_y <= RESOLUTION,
                unit == square,
                square == RESOLUTION * RESOLUTION,
        ;
        assert(length <= 0x1_0000_0000_0000_0000) by (nonlinear_arith)
            requires
                (length - 1) * (length - 1) < length_sq * unit,
                length_sq * unit <= 2_000_000_000_000_000_000_000_000,
                length >= 1,
        ;
        let divisor: i128 = length as i128;
        let unit_x: i128 = (wide_x * unit) / divisor;
        let unit_y: i128 = (wide_y * unit) / divisor;
        Vector { x: narrow(unit_x), y: narrow(unit_y) }
    }
}

impl core::ops::Add for Vector {
    type Output = Vector;

    /// Adds two vectors, component by component.
    fn add(self, other: Vector) -> (r: Vector)
        ensures
            r == self.sum(other),
    {
        Vector { x: saturating_sum(self.x, other.x), y: saturating_sum(self.y, other.y) }
    }
}

/// In contracts, `a + b` on vectors is `a.sum(b)`, for every pair.
impl vstd::std_specs::ops::AddSpecImpl for Vector {
    open spec fn obeys_add_spec() -> bool {
        true
    }

    open spec fn add_req(self, other: Vector) -> bool {
        true
    }

    open spec fn add_spec(self, other: Vector) -> Vector {
        self.sum(other)
    }
}

impl core::ops::Sub for Vector {
    type Output = Vector;

    /// Subtracts `other` from `self`, component by component.
    fn sub(self, other: Vector) -> (r: Vector)
        ensures
            r == self.difference(other),
    {
        Vector {
            x: saturating_difference(self.x, other.x),
            y: saturating_difference(self.y, other.y),
        }
    }
}

/// In contracts, `a - b` on vectors is `a.difference(b)`, for every pair.
impl vstd::std_specs::ops::SubSpecImpl for Vector {
    open spec fn obeys_sub_spec() -> bool {
        true
    }

    open spec fn sub_req(self, other: Vector) -> bool {
        true
    }

    open spec fn sub_spec(self, other: Vector) -> Vector {
        self.difference(other)
    }
}

impl core::ops::Mul<i64> for Vector {
    type Output = Vector;

    /// Scales the vector by the fixed-point factor `scalar`.
    fn mul(self, scalar: i64) -> (r: Vector)
        ensures
            r == self.scaled_by(scalar),
    {
        Vector { x: scale(self.x, scalar), y: scale(self.y, scalar) }
    }
}

/// In contracts, `v * k` is `v.scaled_by(k)`, for every vector and factor.
impl vstd::std_specs::ops::MulSpecImpl<i64> for Vector {
    open spec fn obeys_mul_spec() -> bool {
        true
    }

    open spec fn mul_req(self, scalar: i64) -> bool {
        true
    }

    open spec fn mul_spec(self, scalar: i64) -> Vector {
        self.scaled_by(scalar)
    }
}

/// A sample other than the origin is normalised to a vector that is no
/// longer than one unit, and that is longer than one unit less one step
/// once each of its components is moved one step away from zero.
pub proof fn lemma_unit_length(x: i64, y: i64)
    requires
        in_sample_square(x, y),
        x != 0 || y != 0,
    ensures
        unit_of(x, y).norm_sq() <= RESOLUTION * RESOLUTION,
        (magnitude(unit_of(x, y).x as int) + 1) * (magnitude(unit_of(x, y).x as int) + 1) + (
        magnitude(unit_of(x, y).y as int) + 1) * (magnitude(unit_of(x, y).y as int) + 1) > (
        RESOLUTION - 1) * (RESOLUTION - 1),
{
    let r: int = RESOLUTION as int;
    let unit: int = r * r;
    let a = magnitude(x as int);
    let b = magnitude(y as int);
    let s: int = x * x + y * y;
    assert(s == a * a + b * b && 1 <= s <= 2 * unit && 0 <= a <= r && 0 <= b <= r)
        by (nonlinear_arith)
        requires
            s == x * x + y * y,
            a == magnitude(x as int),
            b == magnitude(y as int),
            x != 0 || y != 0,
            -r <= x <= r,
            -r <= y <= r,
            unit == r * r,
    ;
    assert(s * unit >= r * r) by (nonlinear_arith)
        requires
            s >= 1,
            unit == r * r,
    ;
    lemma_root_above_at_least((s * unit) as nat, r as nat);
    let n: int = fine_length(x, y);
    assert(n >= r);
    assert(n * n >= s * unit);
    assert((n - 1) * (n - 1) < s * unit);
    let qx = quotient_toward_zero(x * unit, n);
    let qy = quotient_toward_zero(y * unit, n);
    lemma_quotient_magnitude(x * unit, n);
    lemma_quotient_magnitude(y * unit, n);
    let ua = magnitude(qx);
    let ub = magnitude(qy);
    assert(magnitude(x * unit) == a * unit && magnitude(y * unit) == b * unit)
        by (nonlinear_arith)
        requires
            a == magnitude(x as int),
            b == magnitude(y as int),
            unit > 0,
    ;
    // Neither component is longer than the whole.
    assert(ua * ua * (n * n) <= a * a * (unit * unit)) by (nonlinear_arith)
        requires
            0 <= ua * n <= a * unit,
    ;
    assert(ub * ub * (n * n) <= b * b * (unit * unit)) by (nonlinear_arith)
        requires
            0 <= ub * n <= b * unit,
    ;
    assert((s * unit) * unit == a * a * (unit * unit) + b * b * (unit * unit))
        by (nonlinear_arith)
        requires
            s == a * a + b * b,
    ;
    assert((s * unit) * unit <= (n * n) * unit) by (nonlinear_arith)
        requires
            s * unit <= n * n,
            unit > 0,
    ;
    assert((ua * ua + ub * ub) * (n * n) == ua * ua * (n * n) + ub * ub * (n * n))
        by (nonlinear_arith);
    assert((n * n) * unit == unit * (n * n)) by (nonlinear_arith);
    assert((ua * ua + ub * ub) * (n * n) <= unit * (n * n));
    assert(ua * ua + ub * ub <= unit) by (nonlinear_arith)
        requires
            (ua * ua + ub * ub) * (n * n) <= unit * (n * n),
            n >= 1,
    ;
    assert(ua <= r && ub <= r) by (nonlinear_arith)
        requires
            ua * ua + ub * ub <= r * r,
            ua >= 0,
            ub >= 0,
            r >= 0,
    ;
    assert(unit_of(x, y).x == qx && unit_of(x, y).y == qy);
    assert(qx * qx == ua * ua && qy * qy == ub * ub) by (nonlinear_arith)
        requires
            ua == magnitude(qx),
            ub == magnitude(qy),
    ;
    // One step further out, the components together pass the unit circle.
    let wa = ua + 1;
    let wb = ub + 1;
    assert(wa * wa * (n * n) >= a * a * (unit * unit)) by (nonlinear_arith)
        requires
            wa * n > a * unit,
            a * unit >= 0,
    ;
    assert(wb * wb * (n * n) >= b * b * (unit * unit)) by (nonlinear_arith)
        requires
            wb * n > b * unit,
            b * unit >= 0,
    ;
    let below: int = (n - 1) * (n - 1);
    assert(below * unit < (s * unit) * unit) by (nonlinear_arith)
        requires
            below < s * unit,
            unit > 0,
    ;
    assert((wa * wa + wb * wb) * (n * n) == wa * wa * (n * n) + wb * wb * (n * n))
        by (nonlinear_arith);
    assert((wa * wa + wb * wb) * (n * n) > below * unit);
    assert(below * unit >= (n * n) * ((r - 1) * (r - 1))) by (nonlinear_arith)
        requires
            below == (n - 1) * (n - 1),
            n >= r,
            r >= 1,
            unit == r * r,
    ;
    assert(wa * wa + wb * wb > (r - 1) * (r - 1)) by (nonlinear_arith)
        requires
            (wa * wa + wb * wb) * (n * n) > (n * n) * ((r - 1) * (r - 1)),
            n >= 1,
    ;
}

} // verus!
