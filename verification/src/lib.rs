//! A seeded game-item randomizer: deterministic shuffling of locations and
//! item pools, followed by an assumed-fill placement pass that only ever
//! puts a progression item into a location that is still reachable under the
//! items not yet placed.

pub mod randomizer;
pub mod rng;
