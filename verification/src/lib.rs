//! Core of a terminal sorting visualizer.
//!
//! A sequence engine runs a sorting strategy over a sequence of integers and
//! queues one event for every visible change. A renderer consumes those events
//! and keeps a mirrored list of towers, producing the terminal text that paints
//! them. The two halves share nothing but the events.

pub mod event;
pub mod sequence;
mod shuffle;
pub mod algorithms;
pub mod escape;
pub mod output;
pub mod mirror;
