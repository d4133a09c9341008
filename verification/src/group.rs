//! Fixed-capacity pools of particles, one per colour.

use vstd::prelude::*;
use rand::rngs::ThreadRng;
use crate::particle::Particle;
use crate::random::{
    is_direction, is_fragment_velocity, is_sample, random_burst, BURST_SPEED_MIN,
};
use crate::vector::{unit_of, Vector};

verus! {

/// Number of slots in every pool.
pub const MAX_PARTICLES_COLOR: usize = 1000;

/// Number of fragments that a retiring rocket leaves behind.
pub const BURST_SIZE: usize = 19;

/// Coordinate, on both axes, of a slot whose particle has retired.
pub const OFF_CANVAS: i64 = 9_999_900_000;

/// Coordinate, on both axes, of a slot that no step has touched yet.
pub const UNTOUCHED: i64 = -9_999_900_000;

/// Position, on both axes, of the particle that stands in a vacant slot.
pub const PARKED: i64 = -999_900_000;

/// The colours in which particles are drawn.
#[derive(Clone, Copy, Debug, PartialEq, Eq, Structural)]
pub enum Color {
    Blue,
    Green,
    Magenta,
    Red,
    Yellow,
    White,
}

/// A pool of `MAX_PARTICLES_COLOR` particles that share one colour, with
/// the coordinates at which they are to be drawn. New particles are written
/// at a cursor that walks through the slots and starts over at the end, so
/// a launch always succeeds and replaces the oldest occupant.
#[derive(Debug)]
pub struct ParticleGroup {
    coordinates: Vec<(i64, i64)>,
    write_cursor: usize,
    particles: Vec<Particle>,
    color: Color,
}

/// What a pool holds.
pub struct GroupView {
    pub coordinates: Seq<(i64, i64)>,
    pub write_cursor: int,
    pub particles: Seq<Particle>,
    pub color: Color,
}

impl GroupView {
    /// Both sequences have one entry per slot, the cursor names a slot, and
    /// every slot is drawn where it should be.
    pub open spec fn wf(self) -> bool {
        &&& self.coordinates.len() == MAX_PARTICLES_COLOR
        &&& self.particles.len() == MAX_PARTICLES_COLOR
        &&& 0 <= self.write_cursor < MAX_PARTICLES_COLOR
        &&& forall|i: int| 0 <= i < MAX_PARTICLES_COLOR ==> self.in_sync(i)
    }

    /// Slot `i` is drawn at its particle's position if the particle is
    /// alive and off the canvas if it has retired, or no step has touched
    /// the slot yet.
    pub open spec fn in_sync(self, i: int) -> bool {
        ||| self.coordinates[i] == Self::drawn_at(self.particles[i])
        ||| self.coordinates[i] == (UNTOUCHED, UNTOUCHED)
    }

    /// What stands in a slot into which nothing has been launched yet: a
    /// rocket that is retired and exploded, so that no step moves it or
    /// makes it burst.
    pub open spec fn vacant() -> Particle {
        Particle {
            alive: false,
            exploded: true,
            ..Particle::launched(false, Vector { x: PARKED, y: PARKED }, Vector { x: 0, y: 0 })
        }
    }

    /// A pool in which nothing has been launched: every slot is vacant and
    /// drawn off the canvas.
    pub open spec fn fresh(color: Color) -> GroupView {
        GroupView {
            coordinates: Seq::new(MAX_PARTICLES_COLOR as nat, |i: int| (UNTOUCHED, UNTOUCHED)),
            write_cursor: 0,
            particles: Seq::new(MAX_PARTICLES_COLOR as nat, |i: int| Self::vacant()),
            color,
        }
    }

    /// The slot after `slot`, starting over after the last one.
    pub open spec fn next_slot(slot: int) -> int {
        if slot + 1 == MAX_PARTICLES_COLOR {
            0
        } else {
            slot + 1
        }
    }

    /// The pool after `p` has been written at the cursor.
    pub open spec fn placed(self, p: Particle) -> GroupView {
        GroupView {
            coordinates: self.coordinates.update(self.write_cursor, Self::drawn_at(p)),
            write_cursor: Self::next_slot(self.write_cursor),
            particles: self.particles.update(self.write_cursor, p),
            color: self.color,
        }
    }

    /// The pool after a launch.
    pub open spec fn spawned(self, is_sub: bool, position: Vector, velocity: Vector) -> GroupView {
        self.placed(Particle::launched(is_sub, position, velocity))
    }

    /// The pool after the particles of `ps` have been written one after the
    /// other.
    pub open spec fn placed_all(self, ps: Seq<Particle>) -> GroupView
        decreases ps.len(),
    {
        if ps.len() == 0 {
            self
        } else {
            self.placed_all(ps.drop_last()).placed(ps.last())
        }
    }

    /// Where a particle is drawn: at its position while it is alive, off
    /// the canvas once it has retired.
    pub open spec fn drawn_at(p: Particle) -> (i64, i64) {
        if p.alive {
            (p.position.x, p.position.y)
        } else {
            (OFF_CANVAS, OFF_CANVAS)
        }
    }

    /// The pool after slot `i` has moved one step under `gravity`.
    pub open spec fn advanced(self, i: int, gravity: Vector) -> GroupView {
        let p = self.particles[i].ticked(gravity);
        GroupView {
            coordinates: self.coordinates.update(i, Self::drawn_at(p)),
            particles: self.particles.update(i, p),
            ..self
        }
    }

    /// Whether slot `i` holds a retired rocket that has not burst yet.
    pub open spec fn due(self, i: int) -> bool {
        !self.particles[i].alive && !self.particles[i].exploded && !self.particles[i].is_sub
    }

    /// The fragments of a burst at `position`, one for each velocity.
    pub open spec fn fragments(position: Vector, velocities: Seq<Vector>) -> Seq<Particle> {
        Seq::new(velocities.len(), |k: int| Particle::launched(true, position, velocities[k]))
    }

    /// The pool after slot `i` has burst: one fragment for each velocity is
    /// launched from the position of slot `i`, and whatever slot `i` holds
    /// afterwards is marked as exploded.
    pub open spec fn burst(self, i: int, velocities: Seq<Vector>) -> GroupView {
        let filled = self.placed_all(Self::fragments(self.particles[i].position, velocities));
        GroupView {
            particles: filled.particles.update(
                i,
                Particle { exploded: true, ..filled.particles[i] },
            ),
            ..filled
        }
    }

    /// The pool after slot `i` has had its part of a tick: it moves one
    /// step, and bursts into `velocities` if that step retired a rocket.
    pub open spec fn stepped(self, i: int, gravity: Vector, velocities: Seq<Vector>) -> GroupView {
        if self.advanced(i, gravity).due(i) {
            self.advanced(i, gravity).burst(i, velocities)
        } else {
            self.advanced(i, gravity)
        }
    }

    /// The pool after the first `n` slots have had their part of a tick, in
    /// order, where a burst at slot `i` takes its velocities from
    /// `draws[i]`.
    pub open spec fn ticked_through(
        self,
        n: nat,
        gravity: Vector,
        draws: Seq<Seq<Vector>>,
    ) -> GroupView
        decreases n,
    {
        if n == 0 {
            self
        } else {
            self.ticked_through((n - 1) as nat, gravity, draws).stepped(
                n - 1,
                gravity,
                draws[n - 1],
            )
        }
    }
}

/// Whether `draws` can be what one tick of a pool draws: for every slot the
/// velocities of a burst.
pub open spec fn is_tick_draws(draws: Seq<Seq<Vector>>) -> bool {
    &&& draws.len() == MAX_PARTICLES_COLOR
    &&& forall|i: int| 0 <= i < draws.len() ==> is_burst_draws(#[trigger] draws[i])
}

/// Whether `velocities` can be what one burst draws.
pub open spec fn is_burst_draws(velocities: Seq<Vector>) -> bool {
    &&& velocities.len() == BURST_SIZE
    &&& forall|k: int|
        0 <= k < velocities.len() ==> is_fragment_velocity(#[trigger] velocities[k])
}

/// A launch keeps a pool well formed.
pub proof fn lemma_placed_wf(pool: GroupView, p: Particle)
    requires
        pool.wf(),
    ensures
        pool.placed(p).wf(),
{
    let after = pool.placed(p);
    assert forall|j: int| 0 <= j < MAX_PARTICLES_COLOR implies after.in_sync(j) by {
        assert(pool.in_sync(j));
    }
}

/// A step of one slot keeps a pool well formed.
pub proof fn lemma_advanced_wf(pool: GroupView, i: int, gravity: Vector)
    requires
        pool.wf(),
        0 <= i < MAX_PARTICLES_COLOR,
    ensures
        pool.advanced(i, gravity).wf(),
{
    let after = pool.advanced(i, gravity);
    assert forall|j: int| 0 <= j < MAX_PARTICLES_COLOR implies after.in_sync(j) by {
        assert(pool.in_sync(j));
    }
}

/// Launches keep a pool well formed.
pub proof fn lemma_placed_all_wf(pool: GroupView, ps: Seq<Particle>)
    requires
        pool.wf(),
    ensures
        pool.placed_all(ps).wf(),
    decreases ps.len(),
{
    if ps.len() > 0 {
        lemma_placed_all_wf(pool, ps.drop_last());
        lemma_placed_wf(pool.placed_all(ps.drop_last()), ps.last());
    }
}

/// A burst keeps a pool well formed.
pub proof fn lemma_burst_wf(pool: GroupView, i: int, velocities: Seq<Vector>)
    requires
        pool.wf(),
        0 <= i < MAX_PARTICLES_COLOR,
    ensures
        pool.burst(i, velocities).wf(),
{
    let filled = pool.placed_all(GroupView::fragments(pool.particles[i].position, velocities));
    lemma_placed_all_wf(pool, GroupView::fragments(pool.particles[i].position, velocities));
    let after = pool.burst(i, velocities);
    assert forall|j: int| 0 <= j < MAX_PARTICLES_COLOR implies after.in_sync(j) by {
        assert(filled.in_sync(j));
    }
}

/// The first `n` slots' part of a tick depends on the draws of those slots
/// alone.
pub proof fn lemma_ticked_through_reads_prefix(
    pool: GroupView,
    n: nat,
    gravity: Vector,
    a: Seq<Seq<Vector>>,
    b: Seq<Seq<Vector>>,
)
    requires
        n <= a.len(),
        n <= b.len(),
        forall|i: int| 0 <= i < n ==> a[i] == b[i],
    ensures
        pool.ticked_through(n, gravity, a) == pool.ticked_through(n, gravity, b),
    decreases n,
{
    if n > 0 {
        lemma_ticked_through_reads_prefix(pool, (n - 1) as nat, gravity, a, b);
    }
}

impl View for ParticleGroup {
    type V = GroupView;

    closed spec fn view(&self) -> GroupView {
        GroupView {
            coordinates: self.coordinates@,
            write_cursor: self.write_cursor as int,
            particles: self.particles@,
            color: self.color,
        }
    }
}

impl ParticleGroup {
    /// The pool is well formed.
    pub open spec fn wf(&self) -> bool {
        self@.wf()
    }

    /// A pool in which nothing has been launched.
    pub fn new(color: Color) -> (group: ParticleGroup)
        ensures
            group.wf(),
            group@ == GroupView::fresh(color),
    {
        let mut vacant = Particle::new(false, Vector { x: PARKED, y: PARKED }, Vector::zero());
        vacant.alive = false;
        vacant.exploded = true;
        let mut coordinates: Vec<(i64, i64)> = Vec::new();
        let mut particles: Vec<Particle> = Vec::new();
        let mut i: usize = 0;
        while i < MAX_PARTICLES_COLOR
            invariant
                i <= MAX_PARTICLES_COLOR,
                coordinates@.len() == i,
                particles@.len() == i,
                vacant == GroupView::vacant(),
                forall|j: int| 0 <= j < i ==> coordinates@[j] == (UNTOUCHED, UNTOUCHED),
                forall|j: int| 0 <= j < i ==> particles@[j] == vacant,
            decreases MAX_PARTICLES_COLOR - i,
        {
            coordinates.push((UNTOUCHED, UNTOUCHED));
            particles.push(vacant);
            i += 1;
        }
        let group = ParticleGroup { coordinates, write_cursor: 0, particles, color };
        assert(group@.coordinates =~= GroupView::fresh(color).coordinates);
        assert(group@.particles =~= GroupView::fresh(color).particles);
        group
    }

    /// Moves slot `i` one step under `gravity` and refreshes its coordinate.
    /// Returns whether the slot now holds a retired rocket that has not
    /// burst yet.
    pub fn advance(&mut self, i: usize, gravity: Vector) -> (due: bool)
        requires
            old(self).wf(),
            i < MAX_PARTICLES_COLOR,
        ensures
            final(self).wf(),
            final(self)@ == old(self)@.advanced(i as int, gravity),
            due == final(self)@.due(i as int),
    {
        self.particles[i].apply_force(gravity);
        self.particles[i].update();
        self.coordinates[i] = (self.particles[i].position.x, self.particles[i].position.y);
        let mut due = false;
        if !self.particles[i].alive {
            self.coordinates[i] = (OFF_CANVAS, OFF_CANVAS);
            due = !self.particles[i].exploded && !self.particles[i].is_sub;
        }
        proof {
            let after = old(self)@.advanced(i as int, gravity);
            assert(self@.particles =~= after.particles);
            assert(self@.coordinates =~= after.coordinates);
            lemma_advanced_wf(old(self)@, i as int, gravity);
        }
        due
    }

    /// Bursts slot `i`: launches one fragment for each of `velocities` from
    /// the position of slot `i`, then marks slot `i` as exploded.
    pub fn burst(&mut self, i: usize, velocities: &Vec<Vector>)
        requires
            old(self).wf(),
            i < MAX_PARTICLES_COLOR,
        ensures
            final(self).wf(),
            final(self)@ == old(self)@.burst(i as int, velocities@),
    {
        let position = self.particles[i].position;
        let ghost all = GroupView::fragments(position, velocities@);
        let mut k: usize = 0;
        while k < velocities.len()
            invariant
                self.wf(),
                k <= velocities.len(),
                all == GroupView::fragments(position, velocities@),
                self@ == old(self)@.placed_all(all.take(k as int)),
            decreases velocities.len() - k,
        {
            create_particle(self, true, position, velocities[k]);
            proof {
                assert(all.take(k + 1).drop_last() =~= all.take(k as int));
            }
            k += 1;
        }
        proof {
            assert(all.take(k as int) =~= all);
            lemma_burst_wf(old(self)@, i as int, velocities@);
        }
        self.particles[i].exploded = true;
    }

    /// One tick of the pool. Every slot, in order, moves one step under
    /// `gravity` and has its coordinate refreshed; a rocket that the step
    /// retired bursts into `BURST_SIZE` fragments with velocities drawn
    /// from `rng`. Fragments that land in a slot further on are stepped in
    /// this same tick.
    pub fn tick(&mut self, gravity: Vector, rng: &mut ThreadRng)
        requires
            old(self).wf(),
        ensures
            final(self).wf(),
            exists|draws: Seq<Seq<Vector>>|
                is_tick_draws(draws) && final(self)@ == #[trigger] old(self)@.ticked_through(
                    MAX_PARTICLES_COLOR as nat,
                    gravity,
                    draws,
                ),
    {
        let ghost unused: Seq<Vector> = Seq::new(
            BURST_SIZE as nat,
            |k: int| unit_of(0, 1).scaled_by(BURST_SPEED_MIN),
        );
        proof {
            assert(is_sample(0, 1));
            assert(is_direction(unit_of(0, 1)));
            assert(is_fragment_velocity(unit_of(0, 1).scaled_by(BURST_SPEED_MIN)));
            assert(is_burst_draws(unused));
        }
        let ghost mut draws: Seq<Seq<Vector>> = Seq::empty();
        let mut i: usize = 0;
        while i < MAX_PARTICLES_COLOR
            invariant
                self.wf(),
                i <= MAX_PARTICLES_COLOR,
                draws.len() == i,
                is_burst_draws(unused),
                forall|j: int| 0 <= j < draws.len() ==> is_burst_draws(#[trigger] draws[j]),
                self@ == old(self)@.ticked_through(i as nat, gravity, draws),
            decreases MAX_PARTICLES_COLOR - i,
        {
            let ghost before = draws;
            let due = self.advance(i, gravity);
            if due {
                let velocities = random_burst(rng);
                self.burst(i, &velocities);
                proof {
                    draws = draws.push(velocities@);
                }
            } else {
                proof {
                    draws = draws.push(unused);
                }
            }
            proof {
                lemma_ticked_through_reads_prefix(old(self)@, i as nat, gravity, before, draws);
            }
            i += 1;
        }
    }

    /// The coordinates at which the slots are to be drawn: a particle's
    /// position, or a point off the canvas.
    pub fn coordinates(&self) -> (r: &Vec<(i64, i64)>)
        ensures
            r@ == self@.coordinates,
    {
        &self.coordinates
    }

    /// The particles, slot by slot.
    pub fn particles(&self) -> (r: &Vec<Particle>)
        ensures
            r@ == self@.particles,
    {
        &self.particles
    }

    /// The slot that the next launch overwrites.
    pub fn write_cursor(&self) -> (r: usize)
        ensures
            r == self@.write_cursor,
    {
        self.write_cursor
    }

    /// The colour of the pool's particles.
    pub fn color(&self) -> (r: Color)
        ensures
            r == self@.color,
    {
        self.color
    }
}

/// Launches a particle into `pgroup`: it takes the slot at the cursor,
/// whatever that slot held, and the cursor moves on.
pub fn create_particle(pgroup: &mut ParticleGroup, is_sub: bool, pos: Vector, vel: Vector)
    requires
        old(pgroup).wf(),
    ensures
        final(pgroup).wf(),
        final(pgroup)@ == old(pgroup)@.spawned(is_sub, pos, vel),
{
    let p = Particle::new(is_sub, pos, vel);
    pgroup.particles[pgroup.write_cursor] = p;
    pgroup.coordinates[pgroup.write_cursor] = (pos.x, pos.y);
    pgroup.write_cursor += 1;
    if pgroup.write_cursor == MAX_PARTICLES_COLOR {
        pgroup.write_cursor = 0;
    }
    proof {
        lemma_placed_wf(old(pgroup)@, p);
    }
}

} // verus!
