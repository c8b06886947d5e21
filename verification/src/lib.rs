//! A discrete-time population simulation on a bounded grid.
//!
//! Entities (people and forage patches) live in a component store with a
//! spatial index. Once per simulated day a fixed pipeline of systems runs over
//! the store: clock, matchmaker, fertility, conception, birth, death, movement.
//! Every system scans the world for candidates, lets chance select among them
//! and applies the selected effects as a batch; the scan and the batch are
//! deterministic functions with exact contracts, stated over [`model::WorldView`].

pub mod audit;
pub mod birth;
pub mod components;
pub mod conception;
pub mod death;
pub mod fertility;
pub mod laws;
pub mod matchmaker;
pub mod model;
pub mod movement;
pub mod params;
pub mod pipeline;
pub mod random;
pub mod seqs;
pub mod spatial;
pub mod stats;
pub mod world;
