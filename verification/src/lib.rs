//! A `wc`-style text statistics counter.
//!
//! One pass over a text counts its bytes, characters, words and lines and
//! finds the lengths of its shortest and longest line, as far as each is
//! requested. [`counter::Counter`] runs the pass, [`options::CliOptions`] says
//! what is requested, and [`stats::Stats`] holds what was counted.

pub mod counter;
pub mod framework;
pub mod lines;
pub mod options;
pub mod read;
pub mod stats;
pub mod text;
