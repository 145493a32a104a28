//! Rule engine of a deterministic simulator for a fantastical baseball-like
//! sport.  Every random decision is taken from one seeded stream of draws, so
//! that the same world and seed give the same sequence of game events.

pub mod bases;
pub mod checks;
pub mod entities;
pub mod events;
pub mod formulas;
pub mod game;
pub mod ids;
pub mod laws;
pub mod mods;
pub mod reverb;
pub mod rng;
pub mod sim;
pub mod weather;
