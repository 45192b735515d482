//! Decoder for an infrared remote control.
//!
//! The crate turns the stream of edge timestamps delivered by a hardware
//! capture timer into application input symbols: it measures the interval
//! between successive edges, runs a pulse-distance decode state machine over
//! those intervals, maps the decoded command byte to an input symbol, and
//! rate-limits acceptance so that the many protocol repeats of a single
//! button press yield a single event.

pub mod debounce;
pub mod decoder;
pub mod frame;
pub mod game_input;
pub mod rc;
pub mod timing;
