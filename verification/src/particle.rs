//! A single point mass and its life cycle.

use vstd::prelude::*;
use crate::fixed::{lemma_quotient_magnitude, magnitude, quotient_toward_zero, scaled, RESOLUTION};
use crate::vector::Vector;

verus! {

/// A rocket retires once its vertical velocity has fallen to this value.
pub const DESCENT_THRESHOLD: i64 = -50_000;

/// Factor by which a fragment's velocity shrinks on every step.
pub const DAMPING: i64 = 980_000;

/// A point mass. A rocket (`is_sub` false) climbs until it starts to fall
/// and then retires; a fragment (`is_sub` true) never retires and only
/// slows down.
#[derive(Clone, Copy, Debug, PartialEq, Eq, Structural)]
pub struct Particle {
    pub position: Vector,
    pub velocity: Vector,
    pub acceleration: Vector,
    /// False once the particle has retired.
    pub alive: bool,
    /// True once the particle has spawned its burst.
    pub exploded: bool,
    pub is_sub: bool,
}

impl Particle {
    /// A particle as it is launched: at rest in acceleration, alive, not
    /// exploded.
    pub open spec fn launched(is_sub: bool, position: Vector, velocity: Vector) -> Particle {
        Particle {
            position,
            velocity,
            acceleration: Vector { x: 0, y: 0 },
            alive: true,
            exploded: false,
            is_sub,
        }
    }

    /// The particle with `force` added to its acceleration.
    pub open spec fn pushed(self, force: Vector) -> Particle {
        Particle { acceleration: self.acceleration.sum(force), ..self }
    }

    /// Whether the next step retires the particle instead of moving it: it
    /// is a rocket that has retired already or has begun to fall.
    pub open spec fn retires(self) -> bool {
        !self.is_sub && (!self.alive || self.velocity.y <= DESCENT_THRESHOLD)
    }

    /// The particle after one integration step.
    pub open spec fn updated(self) -> Particle {
        if self.retires() {
            Particle { alive: false, ..self }
        } else {
            let velocity = self.velocity.sum(self.acceleration);
            Particle {
                position: self.position.sum(velocity),
                velocity: if self.is_sub {
                    velocity.scaled_by(DAMPING)
                } else {
                    velocity
                },
                acceleration: Vector { x: 0, y: 0 },
                ..self
            }
        }
    }

    /// The particle after one step under the constant force `gravity`.
    pub open spec fn ticked(self, gravity: Vector) -> Particle {
        self.pushed(gravity).updated()
    }

    /// The particle after `n` steps under the constant force `gravity`.
    pub open spec fn after_ticks(self, gravity: Vector, n: nat) -> Particle
        decreases n,
    {
        if n == 0 {
            self
        } else {
            self.after_ticks(gravity, (n - 1) as nat).ticked(gravity)
        }
    }

    /// Launches a particle.
    pub fn new(is_sub: bool, position: Vector, velocity: Vector) -> (p: Particle)
        ensures
            p == Particle::launched(is_sub, position, velocity),
    {
        Particle {
            position,
            velocity,
            acceleration: Vector::zero(),
            alive: true,
            exploded: false,
            is_sub,
        }
    }

    /// Adds `force` to what the next step will apply.
    pub fn apply_force(&mut self, force: Vector)
        ensures
            *final(self) == old(self).pushed(force),
    {
        self.acceleration = self.acceleration + force;
    }

    /// One integration step. A rocket that has retired or has begun to fall
    /// is marked retired and left where it is. Any other particle gains its
    /// acceleration in velocity and its new velocity in position, and its
    /// acceleration is cleared; a fragment is then slowed by `DAMPING`.
    pub fn update(&mut self)
        ensures
            *final(self) == old(self).updated(),
    {
        if (!self.alive || self.velocity.y <= DESCENT_THRESHOLD) && !self.is_sub {
            self.alive = false;
            return ;
        }
        self.velocity = self.velocity + self.acceleration;
        self.position = self.position + self.velocity;
        self.acceleration = Vector::zero();
        if self.is_sub {
            self.velocity = self.velocity * DAMPING;
        }
    }
}

/// A rocket in flight stays alive through a step exactly if it has not yet
/// begun to fall, whatever force acts on it.
pub proof fn lemma_rocket_retires_on_descent(p: Particle, gravity: Vector)
    requires
        !p.is_sub,
        p.alive,
    ensures
        p.ticked(gravity).alive <==> p.velocity.y > DESCENT_THRESHOLD,
{
}

/// A rocket that `n` steps have retired had begun to fall at the start of
/// one of them, while it was still alive.
pub proof fn lemma_retired_rocket_fell(p: Particle, gravity: Vector, n: nat)
    requires
        !p.is_sub,
        p.alive,
        !p.after_ticks(gravity, n).alive,
    ensures
        exists|k: nat|
            k < n && (#[trigger] p.after_ticks(gravity, k)).alive && p.after_ticks(
                gravity,
                k,
            ).velocity.y <= DESCENT_THRESHOLD,
    decreases n,
{
    if n > 0 {
        let before = p.after_ticks(gravity, (n - 1) as nat);
        lemma_kind_is_kept(p, gravity, (n - 1) as nat);
        if before.alive {
            assert(before.velocity.y <= DESCENT_THRESHOLD);
        } else {
            lemma_retired_rocket_fell(p, gravity, (n - 1) as nat);
        }
    }
}

/// Steps never turn a rocket into a fragment or a fragment into a rocket.
pub proof fn lemma_kind_is_kept(p: Particle, gravity: Vector, n: nat)
    ensures
        p.after_ticks(gravity, n).is_sub == p.is_sub,
    decreases n,
{
    if n > 0 {
        lemma_kind_is_kept(p, gravity, (n - 1) as nat);
    }
}

/// Retirement is final: a rocket that is retired after `m` steps is retired
/// after any later step.
pub proof fn lemma_retirement_is_final(p: Particle, gravity: Vector, m: nat, n: nat)
    requires
        !p.is_sub,
        m <= n,
        !p.after_ticks(gravity, m).alive,
    ensures
        !p.after_ticks(gravity, n).alive,
    decreases n,
{
    if m < n {
        lemma_retirement_is_final(p, gravity, m, (n - 1) as nat);
        lemma_kind_is_kept(p, gravity, (n - 1) as nat);
    }
}

/// A fragment never retires.
pub proof fn lemma_fragment_never_retires(p: Particle, gravity: Vector, n: nat)
    requires
        p.is_sub,
        p.alive,
    ensures
        p.after_ticks(gravity, n).alive,
    decreases n,
{
    if n > 0 {
        lemma_fragment_never_retires(p, gravity, (n - 1) as nat);
        lemma_kind_is_kept(p, gravity, (n - 1) as nat);
    }
}

/// Scaling by `DAMPING` never lengthens a component.
pub proof fn lemma_damped_component(v: i64)
    ensures
        magnitude(scaled(v, DAMPING) as int) <= magnitude(v as int),
        magnitude(scaled(v, DAMPING) as int) < magnitude(v as int) || v == 0,
{
    let m = magnitude(v as int);
    lemma_quotient_magnitude(v * DAMPING, RESOLUTION as int);
    assert(magnitude(v * DAMPING) == m * DAMPING) by (nonlinear_arith)
        requires
            m == magnitude(v as int),
            DAMPING == 980_000,
    ;
    let q = quotient_toward_zero(v * DAMPING, RESOLUTION as int);
    assert(magnitude(q) * RESOLUTION <= m * DAMPING);
    assert(magnitude(q) <= m);
    assert(magnitude(q) < m || m == 0);
}

/// With no force acting, a step never lengthens a fragment's velocity, and
/// shortens it unless the fragment is at rest.
pub proof fn lemma_fragment_slows(p: Particle)
    requires
        p.is_sub,
        p.acceleration == (Vector { x: 0, y: 0 }),
    ensures
        p.updated().velocity.norm_sq() <= p.velocity.norm_sq(),
        p.updated().velocity.norm_sq() < p.velocity.norm_sq() || p.velocity == (Vector {
            x: 0,
            y: 0,
        }),
{
    let before = p.velocity;
    let after = p.updated().velocity;
    assert(before.sum(p.acceleration) == before);
    lemma_damped_component(before.x);
    lemma_damped_component(before.y);
    lemma_square_of_magnitude(before.x as int, after.x as int);
    lemma_square_of_magnitude(before.y as int, after.y as int);
}

/// A component of smaller magnitude has the smaller square.
proof fn lemma_square_of_magnitude(long: int, short: int)
    requires
        magnitude(short) <= magnitude(long),
    ensures
        short * short <= long * long,
        magnitude(short) < magnitude(long) ==> short * short < long * long,
{
    let a = magnitude(short);
    let b = magnitude(long);
    assert(short * short == a * a && long * long == b * b) by (nonlinear_arith)
        requires
            a == magnitude(short),
            b == magnitude(long),
    ;
    assert(a * a <= b * b && (a < b ==> a * a < b * b)) by (nonlinear_arith)
        requires
            0 <= a <= b,
    ;
}

} // verus!
