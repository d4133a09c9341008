//! Random directions and speeds for bursts.

use vstd::prelude::*;
use rand::Rng;
use rand::rngs::ThreadRng;
use crate::fixed::{lemma_quotient_magnitude, magnitude, quotient_toward_zero, scaled, RESOLUTION};
use crate::group::BURST_SIZE;
use crate::vector::{lemma_unit_length, unit_of, Vector};

verus! {

/// Slowest speed of a fragment.
pub const BURST_SPEED_MIN: i64 = 200_000;

/// Bound below which every fragment's speed stays.
pub const BURST_SPEED_MAX: i64 = 400_000;

/// Number of samples that are drawn in search of one that is not the
/// origin.
pub const SAMPLE_ATTEMPTS: usize = 4;

/// Makes `rand::rngs::ThreadRng`, the handle to the random number
/// generator of the current thread, known as a type. Nothing inside a
/// handle is visible to a proof.
#[verifier::external_type_specification]
#[verifier::external_body]
pub struct ExThreadRng(rand::rngs::ThreadRng);

/// Calls `rand::thread_rng`, which hands out a handle to the generator of
/// the current thread. Nothing is claimed of the handle. The call panics if
/// the system cannot seed the generator.
#[verifier::external_body]
pub(crate) fn thread_rng() -> ThreadRng {
    rand::thread_rng()
}

/// Calls `Rng::gen_range` on the half-open range from `low` to `high`. The
/// claim is that the number drawn lies in that range; `gen_range` panics on
/// an empty range, which `requires` excludes.
#[verifier::external_body]
pub(crate) fn gen_range(rng: &mut ThreadRng, low: i64, high: i64) -> (r: i64)
    requires
        low < high,
    ensures
        low <= r < high,
{
    rng.gen_range(low..high)
}

/// Whether `(x, y)` can be drawn as a sample: a point of the half-open
/// square around the origin, other than the origin.
pub open spec fn is_sample(x: i64, y: i64) -> bool {
    &&& -RESOLUTION <= x < RESOLUTION
    &&& -RESOLUTION <= y < RESOLUTION
    &&& (x != 0 || y != 0)
}

/// Whether `u` is the normalised form of some sample.
pub open spec fn is_direction(u: Vector) -> bool {
    exists|x: i64, y: i64| is_sample(x, y) && u == #[trigger] unit_of(x, y)
}

/// Whether `v` is a velocity that a fragment can start with: a direction
/// scaled by a speed of the burst range.
pub open spec fn is_fragment_velocity(v: Vector) -> bool {
    exists|u: Vector, speed: i64|
        is_direction(u) && BURST_SPEED_MIN <= speed < BURST_SPEED_MAX && v == #[trigger] u.scaled_by(
            speed,
        )
}

/// Draws a direction: a point of the square around the origin, normalised
/// to length one. A sample that hits the origin is drawn again; after
/// `SAMPLE_ATTEMPTS` such samples in a row the direction is straight up.
pub fn random_unit_vector(rng: &mut ThreadRng) -> (u: Vector)
    ensures
        is_direction(u),
{
    let mut attempt: usize = 0;
    while attempt < SAMPLE_ATTEMPTS
        invariant
            attempt <= SAMPLE_ATTEMPTS,
        decreases SAMPLE_ATTEMPTS - attempt,
    {
        let x: i64 = gen_range(rng, -RESOLUTION, RESOLUTION);
        let y: i64 = gen_range(rng, -RESOLUTION, RESOLUTION);
        if x != 0 || y != 0 {
            assert(is_sample(x, y));
            return Vector::unit_from_sample(x, y);
        }
        attempt += 1;
    }
    assert(is_sample(0, 1));
    Vector::unit_from_sample(0, 1)
}

/// Draws the velocity of one fragment: a random direction at a random
/// speed of the burst range.
pub fn random_fragment_velocity(rng: &mut ThreadRng) -> (v: Vector)
    ensures
        is_fragment_velocity(v),
{
    let direction = random_unit_vector(rng);
    let speed: i64 = gen_range(rng, BURST_SPEED_MIN, BURST_SPEED_MAX);
    direction * speed
}

/// Draws the velocities of the fragments of one burst.
pub fn random_burst(rng: &mut ThreadRng) -> (velocities: Vec<Vector>)
    ensures
        velocities@.len() == BURST_SIZE,
        forall|k: int| 0 <= k < velocities@.len() ==> is_fragment_velocity(#[trigger] velocities@[k]),
{
    let mut velocities: Vec<Vector> = Vec::new();
    let mut k: usize = 0;
    while k < BURST_SIZE
        invariant
            k <= BURST_SIZE,
            velocities@.len() == k,
            forall|j: int| 0 <= j < k ==> is_fragment_velocity(#[trigger] velocities@[j]),
        decreases BURST_SIZE - k,
    {
        let v = random_fragment_velocity(rng);
        velocities.push(v);
        k += 1;
    }
    velocities
}

/// A component of a direction, scaled by a speed of the burst range, is
/// that component's magnitude times the speed, rounded down.
proof fn lemma_scaled_component(c: i64, speed: i64)
    requires
        magnitude(c as int) <= RESOLUTION,
        0 < speed < RESOLUTION,
    ensures
        magnitude(scaled(c, speed) as int) * RESOLUTION <= magnitude(c as int) * speed,
        magnitude(c as int) * speed < (magnitude(scaled(c, speed) as int) + 1)
            * RESOLUTION,
        magnitude(scaled(c, speed) as int) <= speed,
{
    let m = magnitude(c as int);
    let q = quotient_toward_zero(c * speed, RESOLUTION as int);
    lemma_quotient_magnitude(c * speed, RESOLUTION as int);
    assert(magnitude(c * speed) == m * speed) by (nonlinear_arith)
        requires
            m == magnitude(c as int),
            speed > 0,
    ;
    assert(m * speed <= RESOLUTION * speed) by (nonlinear_arith)
        requires
            0 <= m <= RESOLUTION,
            speed > 0,
    ;
    assert(magnitude(q) <= speed) by (nonlinear_arith)
        requires
            magnitude(q) * RESOLUTION <= m * speed,
            m * speed <= RESOLUTION * speed,
            RESOLUTION > 0,
    ;
}

/// A fragment starts at a speed of the burst range: its velocity is
/// shorter than `BURST_SPEED_MAX`, and once each component is moved two
/// steps away from zero it is longer than `BURST_SPEED_MIN` less one step.
pub proof fn lemma_fragment_speed(v: Vector)
    requires
        is_fragment_velocity(v),
    ensures
        v.norm_sq() < BURST_SPEED_MAX * BURST_SPEED_MAX,
        (magnitude(v.x as int) + 2) * (magnitude(v.x as int) + 2) + (magnitude(v.y as int) + 2) * (
        magnitude(v.y as int) + 2) > (BURST_SPEED_MIN - 1) * (BURST_SPEED_MIN - 1),
{
    let (u, speed) = choose|u: Vector, speed: i64|
        is_direction(u) && BURST_SPEED_MIN <= speed < BURST_SPEED_MAX && v == #[trigger] u.scaled_by(
            speed,
        );
    let (x, y) = choose|x: i64, y: i64| is_sample(x, y) && u == #[trigger] unit_of(x, y);
    lemma_unit_length(x, y);
    let r: int = RESOLUTION as int;
    let s: int = speed as int;
    let ua = magnitude(u.x as int);
    let ub = magnitude(u.y as int);
    assert(u.x * u.x == ua * ua && u.y * u.y == ub * ub) by (nonlinear_arith)
        requires
            ua == magnitude(u.x as int),
            ub == magnitude(u.y as int),
    ;
    assert(ua <= r && ub <= r) by (nonlinear_arith)
        requires
            ua * ua + ub * ub <= r * r,
            ua >= 0,
            ub >= 0,
            r >= 0,
    ;
    lemma_scaled_component(u.x, speed);
    lemma_scaled_component(u.y, speed);
    let va = magnitude(v.x as int);
    let vb = magnitude(v.y as int);
    assert(v.x * v.x == va * va && v.y * v.y == vb * vb) by (nonlinear_arith)
        requires
            va == magnitude(v.x as int),
            vb == magnitude(v.y as int),
    ;
    // No longer than the speed drawn.
    assert(va * va * (r * r) <= ua * ua * (s * s)) by (nonlinear_arith)
        requires
            0 <= va * r <= ua * s,
    ;
    assert(vb * vb * (r * r) <= ub * ub * (s * s)) by (nonlinear_arith)
        requires
            0 <= vb * r <= ub * s,
    ;
    assert((va * va + vb * vb) * (r * r) <= (s * s) * (r * r)) by (nonlinear_arith)
        requires
            va * va * (r * r) <= ua * ua * (s * s),
            vb * vb * (r * r) <= ub * ub * (s * s),
            ua * ua + ub * ub <= r * r,
            s > 0,
    ;
    assert(va * va + vb * vb <= s * s) by (nonlinear_arith)
        requires
            (va * va + vb * vb) * (r * r) <= (s * s) * (r * r),
            r > 0,
    ;
    assert(s * s < BURST_SPEED_MAX * BURST_SPEED_MAX) by (nonlinear_arith)
        requires
            0 < s < BURST_SPEED_MAX,
    ;
    // Two steps further out, longer than the least speed less one step.
    let wa = va + 2;
    let wb = vb + 2;
    assert(wa * r > (ua + 1) * s && wb * r > (ub + 1) * s) by (nonlinear_arith)
        requires
            ua * s < (va + 1) * r,
            ub * s < (vb + 1) * r,
            wa == va + 2,
            wb == vb + 2,
            0 < s < r,
    ;
    assert((ua + 1) * s > 0 && (ub + 1) * s > 0) by (nonlinear_arith)
        requires
            ua >= 0,
            ub >= 0,
            s > 0,
    ;
    assert(wa * wa * (r * r) > (ua + 1) * (ua + 1) * (s * s)) by (nonlinear_arith)
        requires
            wa * r > (ua + 1) * s,
            (ua + 1) * s > 0,
    ;
    assert(wb * wb * (r * r) > (ub + 1) * (ub + 1) * (s * s)) by (nonlinear_arith)
        requires
            wb * r > (ub + 1) * s,
            (ub + 1) * s > 0,
    ;
    let stretched: int = (ua + 1) * (ua + 1) + (ub + 1) * (ub + 1);
    assert(stretched * (s * s) >= (r - 1) * (r - 1) * (s * s)) by (nonlinear_arith)
        requires
            stretched > (r - 1) * (r - 1),
            s > 0,
    ;
    assert(stretched * (s * s) == (ua + 1) * (ua + 1) * (s * s) + (ub + 1) * (ub + 1) * (s * s))
        by (nonlinear_arith)
        requires
            stretched == (ua + 1) * (ua + 1) + (ub + 1) * (ub + 1),
    ;
    assert((wa * wa + wb * wb) * (r * r) == wa * wa * (r * r) + wb * wb * (r * r))
        by (nonlinear_arith);
    assert((r - 1) * (r - 1) * (s * s) >= (s - 1) * (s - 1) * (r * r)) by (nonlinear_arith)
        requires
            1 <= s <= r,
    ;
    assert((wa * wa + wb * wb) * (r * r) > (s - 1) * (s - 1) * (r * r));
    assert(wa * wa + wb * wb > (s - 1) * (s - 1)) by (nonlinear_arith)
        requires
            (wa * wa + wb * wb) * (r * r) > (s - 1) * (s - 1) * (r * r),
            r > 0,
    ;
    assert((s - 1) * (s - 1) >= (BURST_SPEED_MIN - 1) * (BURST_SPEED_MIN - 1))
        by (nonlinear_arith)
        requires
            s >= BURST_SPEED_MIN,
            BURST_SPEED_MIN >= 1,
    ;
}

} // verus!
