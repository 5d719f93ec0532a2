//! A particle-life engine on a toroidal grid of chunks.
//!
//! Typed point particles attract and repel each other at short range,
//! according to a coefficient for every pair of types, on a plane that wraps
//! around in both directions. The plane is cut into square chunks; each chunk
//! owns the particles that lie in it and knows its four neighbours, so that a
//! particle finds the particles near it in four chunks.
//!
//! All numbers are fixed-point scalars counted in millionths (see `scalar`):
//! sums saturate at a limit, quotients are rounded toward zero. A tick is
//! therefore an exact function of the world and of the tick scale, and
//! `simulation::tick` is specified as one.
//!
//! - `scalar`: the fixed-point numbers.
//! - `particle`: particles and the type table.
//! - `torus`: chunk identifiers and adjacency on the torus.
//! - `world`: the world, its construction, insertion and read access.
//! - `force`: the force between two particles, damping, and the scan of a
//!   list of candidates.
//! - `candidates`: which chunks are scanned for a particle.
//! - `migration`: handing particles over to adjacent chunks.
//! - `simulation`: the three phases of a tick, and the tick.
//! - `seeding`: random type tables and random populations.
//! - `pacing`: on which frames a harness lets the world tick.
pub mod candidates;
pub mod force;
pub mod migration;
pub mod pacing;
pub mod particle;
pub mod scalar;
pub mod seeding;
pub mod simulation;
pub mod torus;
pub mod world;
