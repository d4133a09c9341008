//! A fireworks particle engine.
//!
//! Rockets are launched into fixed-capacity pools, one pool per colour.
//! A rocket climbs under gravity, retires once it begins to fall, and
//! bursts into fragments that drift and slow down. A caller launches
//! rockets, advances the simulation tick by tick, and reads from every pool
//! the coordinates at which to draw its particles.
//!
//! All quantities are fixed-point numbers with six decimal places, held in
//! `i64` (see [`fixed`]), so that every step of the simulation is exact
//! integer arithmetic.
//!
//! * [`fixed`]: scalar arithmetic.
//! * [`vector`]: two-dimensional vectors, and normalising a sample.
//! * [`particle`]: one particle and its integration step.
//! * [`group`]: a pool of particles with its ring of slots.
//! * [`group_laws`]: what holds of every pool.
//! * [`random`]: the directions and speeds of a burst.
//! * [`engine`]: the simulation as a whole.

pub mod engine;
pub mod fixed;
pub mod group;
pub mod group_laws;
pub mod particle;
pub mod random;
pub mod vector;
