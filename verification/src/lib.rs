//! The law of the kitty world: a tile grid, its elements, the kitties'
//! activities and words, and the bookkeeping the engine keeps about them.

pub mod action;
pub mod config;
pub mod critters;
pub mod element;
pub mod events;
pub mod explore;
pub mod grid;
pub mod invariants;
pub mod kitty;
pub mod meow;
pub mod needs;
pub mod rng;
pub mod seam;
pub mod spawn;
pub mod text;
pub mod world;
