//! Synchronised lyric display: a parser for timestamped lyric markup, a resolver
//! from playback position to the active line and word, the refresh policy of the
//! render loops, and a fuzzy matcher that finds a lyric file for a song.
//!
//! All times are whole milliseconds.

pub mod color;
pub mod display;
pub mod matcher;
pub mod models;
pub mod parser;
pub mod player;
pub mod text;
pub mod tidal;
pub mod waybar;
