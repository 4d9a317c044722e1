//! Movement and command synchronization core of a fixed-tick multiplayer
//! strategy prototype: input capture and buffering, predicted and
//! authoritative movement, pre-spawn correlation, box selection, group
//! targeting, steering toward targets, and proximity scoring.
//!
//! World coordinates are held in fixed point: [`units::SUBUNITS`] subunits
//! per world unit. At 64 simulation ticks per second every per-tick step,
//! the snap threshold and the scoring range are exact integers.

pub mod client;
pub mod components;
pub mod movement;
pub mod networking;
pub mod protocol;
pub mod server;
pub mod steering;
pub mod units;
