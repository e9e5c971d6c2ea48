//! Decision-process bridge for a fixed-tick, single-writer simulation.
//!
//! The simulation loop periodically serializes its authoritative state and
//! hands it to decision workers without ever blocking; it drains each
//! worker's replies with a freshest-wins policy, and answers spatial
//! queries from arbitrary clients through a line-delimited protocol.
//! Coordinates and speeds are fixed-point values in thousandths of a world
//! unit, so that every rule in this crate is exact integer arithmetic.

pub mod action;
pub mod channel;
pub mod codec;
pub mod scheduler;
pub mod sorting;
pub mod spatial;
pub mod state;
pub mod team;
pub mod worker;
