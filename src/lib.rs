//! Playback bookkeeping for an audio player that annotates its audio with
//! named time markers: a wall-clock playback timer, an ordered collection of
//! markers, a bounded undo/redo log over edits to it, and the decisions of
//! the playback controller that keeps the timer and the output device in step.
//!
//! All time values are whole milliseconds held in `u64`.

pub mod breakpoint;
pub mod collection;
pub mod document;
pub mod files;
pub mod history;
pub mod layout;
pub mod player;
pub mod savefile;
pub mod timefmt;
pub mod timer;
pub mod windows;
