//! What the operations of the library promise.
//!
//! Each law speaks of calls: `call_ensures(f, args, result)` says that `f`,
//! called with `args`, gave `result`. What follows is stated over the fields
//! and values that went in and came out, in words of this module.

pub mod cli;
pub mod icy;
pub mod player;
pub mod screen;
pub mod station;
pub mod text;
pub mod wave;
