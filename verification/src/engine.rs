//! The simulation: one pool for each colour under a common gravity.

use vstd::prelude::*;
use rand::rngs::ThreadRng;
use crate::group::{
    create_particle, is_tick_draws, Color, GroupView, ParticleGroup, MAX_PARTICLES_COLOR,
};
use crate::random::thread_rng;
use crate::vector::Vector;

verus! {

/// Number of colours, and of pools.
pub const COLOR_COUNT: usize = 6;

/// Vertical component of gravity; the horizontal one is zero.
pub const GRAVITY_Y: i64 = -4_000;

/// The colour of the pool at `index`.
pub open spec fn color_at(index: int) -> Color {
    if index == 0 {
        Color::Blue
    } else if index == 1 {
        Color::Green
    } else if index == 2 {
        Color::Magenta
    } else if index == 3 {
        Color::Red
    } else if index == 4 {
        Color::Yellow
    } else {
        Color::White
    }
}

/// Looks up the colour of the pool at `index`.
pub fn palette(index: usize) -> (color: Color)
    ensures
        color == color_at(index as int),
{
    if index == 0 {
        Color::Blue
    } else if index == 1 {
        Color::Green
    } else if index == 2 {
        Color::Magenta
    } else if index == 3 {
        Color::Red
    } else if index == 4 {
        Color::Yellow
    } else {
        Color::White
    }
}

/// The simulation's state: the pools, the gravity that acts on every
/// particle, and the source of the bursts' randomness.
pub struct App {
    particle_groups: Vec<ParticleGroup>,
    gravity: Vector,
    rng: ThreadRng,
}

/// What a simulation holds, but for its source of randomness.
pub struct AppView {
    pub groups: Seq<GroupView>,
    pub gravity: Vector,
}

impl AppView {
    /// There is one well-formed pool for each colour.
    pub open spec fn wf(self) -> bool {
        &&& self.groups.len() == COLOR_COUNT
        &&& forall|g: int| 0 <= g < self.groups.len() ==> (#[trigger] self.groups[g]).wf()
    }

    /// The simulation before anything has been launched.
    pub open spec fn initial() -> AppView {
        AppView {
            groups: Seq::new(COLOR_COUNT as nat, |g: int| GroupView::fresh(color_at(g))),
            gravity: Vector { x: 0, y: GRAVITY_Y },
        }
    }

    /// The simulation after a rocket has been launched into the pool at
    /// `group_index`.
    pub open spec fn launched(self, group_index: int, position: Vector, velocity: Vector) -> AppView {
        AppView {
            groups: self.groups.update(
                group_index,
                self.groups[group_index].spawned(false, position, velocity),
            ),
            ..self
        }
    }

    /// The simulation after one tick in which the pool at `g` drew
    /// `draws[g]`.
    pub open spec fn ticked(self, draws: Seq<Seq<Seq<Vector>>>) -> AppView {
        AppView {
            groups: Seq::new(
                self.groups.len(),
                |g: int|
                    self.groups[g].ticked_through(
                        MAX_PARTICLES_COLOR as nat,
                        self.gravity,
                        draws[g],
                    ),
            ),
            ..self
        }
    }
}

/// Whether `draws` can be what one tick of the simulation draws.
pub open spec fn is_app_draws(draws: Seq<Seq<Seq<Vector>>>) -> bool {
    &&& draws.len() == COLOR_COUNT
    &&& forall|g: int| 0 <= g < draws.len() ==> is_tick_draws(#[trigger] draws[g])
}

impl View for App {
    type V = AppView;

    closed spec fn view(&self) -> AppView {
        AppView {
            groups: Seq::new(self.particle_groups@.len(), |g: int| self.particle_groups@[g]@),
            gravity: self.gravity,
        }
    }
}

impl App {
    /// The simulation is well formed.
    pub open spec fn wf(&self) -> bool {
        self@.wf()
    }

    /// A simulation in which nothing has been launched, with the generator
    /// of the current thread as its source of randomness.
    pub fn new() -> (app: App)
        ensures
            app.wf(),
            app@ == AppView::initial(),
    {
        let mut particle_groups: Vec<ParticleGroup> = Vec::new();
        let mut g: usize = 0;
        while g < COLOR_COUNT
            invariant
                g <= COLOR_COUNT,
                particle_groups@.len() == g,
                forall|h: int|
                    0 <= h < g ==> (#[trigger] particle_groups@[h])@ == GroupView::fresh(
                        color_at(h),
                    ),
            decreases COLOR_COUNT - g,
        {
            particle_groups.push(ParticleGroup::new(palette(g)));
            g += 1;
        }
        let app = App {
            particle_groups,
            gravity: Vector { x: 0, y: GRAVITY_Y },
            rng: thread_rng(),
        };
        assert(app@.groups =~= AppView::initial().groups);
        app
    }

    /// Launches a rocket into the pool at `group_index`.
    pub fn spawn_rocket(&mut self, group_index: usize, position: Vector, velocity: Vector)
        requires
            old(self).wf(),
            group_index < COLOR_COUNT,
        ensures
            final(self).wf(),
            final(self)@ == old(self)@.launched(group_index as int, position, velocity),
    {
        assert(self@.groups[group_index as int].wf());
        create_particle(&mut self.particle_groups[group_index], false, position, velocity);
        assert(self@.groups =~= old(self)@.launched(
            group_index as int,
            position,
            velocity,
        ).groups);
    }

    /// One tick: every pool, in order, has its tick under the simulation's
    /// gravity.
    pub fn on_tick(&mut self)
        requires
            old(self).wf(),
        ensures
            final(self).wf(),
            exists|draws: Seq<Seq<Seq<Vector>>>|
                is_app_draws(draws) && final(self)@ == #[trigger] old(self)@.ticked(draws),
    {
        let ghost mut draws: Seq<Seq<Seq<Vector>>> = Seq::empty();
        let mut g: usize = 0;
        while g < COLOR_COUNT
            invariant
                g <= COLOR_COUNT,
                self.wf(),
                old(self).wf(),
                self.gravity == old(self).gravity,
                draws.len() == g,
                forall|h: int| 0 <= h < g ==> is_tick_draws(#[trigger] draws[h]),
                forall|h: int|
                    0 <= h < g ==> (#[trigger] self@.groups[h]) == old(self)@.groups[h].ticked_through(
                        MAX_PARTICLES_COLOR as nat,
                        old(self).gravity,
                        draws[h],
                    ),
                forall|h: int|
                    g <= h < COLOR_COUNT ==> (#[trigger] self@.groups[h]) == old(self)@.groups[h],
            decreases COLOR_COUNT - g,
        {
            let ghost before = self@;
            assert(self@.groups[g as int].wf());
            self.particle_groups[g].tick(self.gravity, &mut self.rng);
            proof {
                let after = self@.groups[g as int];
                let drawn = choose|d: Seq<Seq<Vector>>|
                    is_tick_draws(d) && after == #[trigger] before.groups[g as int].ticked_through(
                        MAX_PARTICLES_COLOR as nat,
                        self.gravity,
                        d,
                    );
                draws = draws.push(drawn);
                assert forall|h: int| 0 <= h < COLOR_COUNT && h != g implies (
                #[trigger] self@.groups[h]) == before.groups[h] by {}
                assert(self@.groups[g as int] == before.groups[g as int].ticked_through(
                    MAX_PARTICLES_COLOR as nat,
                    self.gravity,
                    drawn,
                ));
                assert(before.groups[g as int] == old(self)@.groups[g as int]);
            }
            g += 1;
        }
        proof {
            assert(self@.groups =~= old(self)@.ticked(draws).groups);
            assert(is_app_draws(draws));
        }
    }

    /// The pool at `group_index`.
    pub fn group(&self, group_index: usize) -> (group: &ParticleGroup)
        requires
            self.wf(),
            group_index < COLOR_COUNT,
        ensures
            group@ == self@.groups[group_index as int],
            group.wf(),
    {
        assert(self@.groups[group_index as int].wf());
        &self.particle_groups[group_index]
    }

    /// The force that acts on every particle on every tick.
    pub fn gravity(&self) -> (gravity: Vector)
        ensures
            gravity == self@.gravity,
    {
        self.gravity
    }
}

} // verus!
