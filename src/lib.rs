//! Level engine of a descending horror corridor: an endless shaft of floors,
//! each running a small behaviour script when the player reaches it.
//!
//! - `generator` assigns a behaviour to every floor and a room shell and sign
//!   to every floor slot, from one seeded random stream;
//! - `events` advances the behaviour of the player's floor once per tick and
//!   returns the effects (sounds, spawns, lighting, shake) for the host;
//! - `pool` keeps room instances around the player and reuses released ones;
//! - `signs` picks the floor sign to show and places the vanishing glimpses.
//!
//! Positions are whole micro-units (`geometry`), so that every trigger test
//! is exact.
use vstd::prelude::*;

pub mod dice;
pub mod events;
pub mod generator;
pub mod geometry;
pub mod layout;
pub mod pool;
pub mod signs;

verus! {

} // verus!
