//! Fixed-point scalars.
//!
//! Every coordinate, velocity and factor of the simulation is an `i64` that
//! counts steps of one millionth of a canvas unit. Sums and products that
//! leave the range of `i64` stop at its ends.

use vstd::prelude::*;

verus! {

/// Number of fixed-point steps that make up one canvas unit.
pub const RESOLUTION: i64 = 1_000_000;

/// The `i64` nearest to `v`.
pub open spec fn saturate(v: int) -> i64 {
    if v > i64::MAX {
        i64::MAX
    } else if v < i64::MIN {
        i64::MIN
    } else {
        v as i64
    }
}

/// `n / d` rounded toward zero, for a positive `d`.
pub open spec fn quotient_toward_zero(n: int, d: int) -> int
    recommends
        d > 0,
{
    if n >= 0 {
        n / d
    } else {
        -((-n) / d)
    }
}

/// The absolute value of a component.
pub open spec fn magnitude(v: int) -> int {
    if v >= 0 {
        v
    } else {
        -v
    }
}

/// Rounding a quotient toward zero rounds its magnitude down.
pub proof fn lemma_quotient_magnitude(n: int, d: int)
    requires
        d > 0,
    ensures
        magnitude(quotient_toward_zero(n, d)) == magnitude(n) / d,
        magnitude(quotient_toward_zero(n, d)) * d <= magnitude(n),
        magnitude(n) < (magnitude(quotient_toward_zero(n, d)) + 1) * d,
{
    let m = magnitude(n);
    assert(0 <= m / d && (m / d) * d <= m < (m / d + 1) * d) by (nonlinear_arith)
        requires
            m >= 0,
            d > 0,
    ;
}

/// The product of two fixed-point numbers, rounded toward zero.
pub open spec fn scaled(v: i64, k: i64) -> i64 {
    saturate(quotient_toward_zero(v * k, RESOLUTION as int))
}

/// Adds two fixed-point numbers, stopping at the ends of the range.
pub fn saturating_sum(a: i64, b: i64) -> (r: i64)
    ensures
        r == saturate(a + b),
{
    let wide: i128 = a as i128 + b as i128;
    narrow(wide)
}

/// Subtracts `b` from `a`, stopping at the ends of the range.
pub fn saturating_difference(a: i64, b: i64) -> (r: i64)
    ensures
        r == saturate(a - b),
{
    let wide: i128 = a as i128 - b as i128;
    narrow(wide)
}

/// Brings a wide intermediate result back into `i64`.
pub fn narrow(wide: i128) -> (r: i64)
    ensures
        r == saturate(wide as int),
{
    if wide > i64::MAX as i128 {
        i64::MAX
    } else if wide < i64::MIN as i128 {
        i64::MIN
    } else {
        wide as i64
    }
}

/// Multiplies two fixed-point numbers, rounding toward zero and stopping at
/// the ends of the range.
pub fn scale(v: i64, k: i64) -> (r: i64)
    ensures
        r == scaled(v, k),
{
    assert(-0x4000_0000_0000_0000_0000_0000_0000_0000 <= v * k
        <= 0x4000_0000_0000_0000_0000_0000_0000_0000) by (nonlinear_arith)
        requires
            -0x8000_0000_0000_0000 <= v <= 0x7fff_ffff_ffff_ffff,
            -0x8000_0000_0000_0000 <= k <= 0x7fff_ffff_ffff_ffff,
    ;
    let product: i128 = v as i128 * k as i128;
    let quotient: i128 = product / (RESOLUTION as i128);
    narrow(quotient)
}

/// Whether `r` is the least natural number whose square reaches `v`.
pub open spec fn is_root_above(r: nat, v: nat) -> bool {
    r * r >= v && (r == 0 || (r - 1) * (r - 1) < v)
}

/// The square root of `v`, rounded up.
pub open spec fn root_above(v: nat) -> nat {
    choose|r: nat| is_root_above(r, v)
}

/// Only one number is the rounded-up square root of `v`.
pub proof fn lemma_root_above_unique(r: nat, s: nat, v: nat)
    requires
        is_root_above(r, v),
        is_root_above(s, v),
    ensures
        r == s,
{
    if r < s {
        assert(r * r <= (s - 1) * (s - 1)) by (nonlinear_arith)
            requires
                0 <= r <= s - 1,
        ;
    }
    if s < r {
        assert(s * s <= (r - 1) * (r - 1)) by (nonlinear_arith)
            requires
                0 <= s <= r - 1,
        ;
    }
}

/// The rounded-up root of a number that is at least `floor * floor` is at
/// least `floor`.
pub proof fn lemma_root_above_at_least(v: nat, floor: nat)
    requires
        v >= floor * floor,
    ensures
        is_root_above(root_above(v), v),
        root_above(v) >= floor,
{
    lemma_root_above_exists(v);
    let r = root_above(v);
    if r < floor {
        assert(r * r < floor * floor) by (nonlinear_arith)
            requires
                0 <= r < floor,
        ;
    }
}

/// Every natural number has a rounded-up square root.
pub proof fn lemma_root_above_exists(v: nat)
    ensures
        is_root_above(root_above(v), v),
    decreases v,
{
    if v == 0 {
        assert(is_root_above(0, 0));
    } else {
        lemma_root_above_exists((v - 1) as nat);
        let r = root_above((v - 1) as nat);
        if r * r >= v {
            assert(is_root_above(r, v));
        } else {
            assert((r + 1) * (r + 1) >= v) by (nonlinear_arith)
                requires
                    r * r >= v - 1,
                    r >= 0,
            ;
            assert(is_root_above(r + 1, v));
        }
    }
}

/// Computes the square root of `v`, rounded up.
pub fn ceil_sqrt(v: u128) -> (r: u128)
    ensures
        r == root_above(v as nat),
        is_root_above(r as nat, v as nat),
{
    if v == 0 {
        proof {
            assert(is_root_above(0, 0));
            lemma_root_above_unique(0, root_above(0), 0);
        }
        return 0;
    }
    let mut low: u128 = 0;
    let mut high: u128 = 0x1_0000_0000_0000_0000;
    assert(high * high > v) by (nonlinear_arith)
        requires
            high == 0x1_0000_0000_0000_0000,
            v <= 0xffff_ffff_ffff_ffff_ffff_ffff_ffff_ffff,
    ;
    while high - low > 1
        invariant
            low < high <= 0x1_0000_0000_0000_0000,
            low * low < v,
            high * high >= v,
        decreases high - low,
    {
        let middle: u128 = low + (high - low) / 2;
        assert(middle * middle <= 0xffff_ffff_ffff_ffff * 0xffff_ffff_ffff_ffff)
            by (nonlinear_arith)
            requires
                0 <= middle <= 0xffff_ffff_ffff_ffff,
        ;
        if middle * middle >= v {
            high = middle;
        } else {
            low = middle;
        }
    }
    proof {
        assert(is_root_above(high as nat, v as nat));
        lemma_root_above_unique(high as nat, root_above(v as nat), v as nat);
    }
    high
}

} // verus!
