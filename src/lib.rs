//! Verified decision core of a neuromorphic swarm: majority-vote consensus,
//! urgency ranking, greedy objective allocation, action selection, the
//! replanning trigger and the wiring plan of spiking layers; route search over
//! zone distance matrices and grid cell numbering; and the domain
//! enumerations the swarm exchanges with its collaborators.
pub mod agent;
pub mod allocation;
pub mod consensus;
pub mod geo;
pub mod grid;
pub mod models;
pub mod ranking;
pub mod routing;
pub mod wiring;
