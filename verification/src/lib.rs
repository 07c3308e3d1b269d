//! A terminal radio player: browse stations by category, play them, and watch
//! the waveform of what plays.
//!
//! This library holds what the player decides and computes. Whatever talks to
//! the terminal, the network or other programs stands outside: it hands plain
//! values in, and does what it is told.
//!
//! - [`station`]: the stations and their categories
//! - [`search`]: finding a station by its name
//! - [`player`]: the state of the player, and what each key and event does
//! - [`screen`]: the state of the player as drawing commands
//! - [`wave`]: the waveform meter
//! - [`icy`]: track titles out of a stream's metadata
//! - [`cli`]: the command line, and the commands for other programs
//! - [`text`] and [`unicode`]: what the others build on
//! - [`laws`]: what the operations promise, in terms of what goes in and what
//!   comes out

pub mod cli;
pub mod icy;
pub mod laws;
pub mod player;
pub mod screen;
pub mod search;
pub mod station;
pub mod text;
pub mod unicode;
pub mod wave;
