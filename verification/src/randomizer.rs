//! The placement engine: seeds, item and location models, shuffling, and the
//! two filler passes that assign every item to exactly one location.

pub mod filler;
pub mod item;
pub mod item_shuffler;
pub mod loc_set;
pub mod location;
pub mod seed;
pub mod shuffler;
