//! A falling character rain: trails of glyphs that scroll down a character
//! grid, fading from a bright head to a dim tail, and are recycled once they
//! have scrolled past the bottom edge.
pub mod config;
pub mod frame;
pub mod gradient;
pub mod random;
pub mod simulation;
pub mod trail;
