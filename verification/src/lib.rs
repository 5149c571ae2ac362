//! Tempo resolution and event sequencing for tick-based, multi-track note files.
//!
//! A file holds tracks of events. Each event stands a number of ticks after the one
//! before it in its track, and a tempo change in any track sets the length of a
//! quarter note, in microseconds, for the whole file. This library turns such a file
//! into one sequence of timed commands that start and stop the notes of a voice:
//!
//! - [`tempo`] keeps the tempo changes and answers which tempo is in effect at a tick;
//! - [`time`] converts tick deltas into elapsed time, and keeps the position and the
//!   time of a walk through a track;
//! - [`event`] and [`command`] hold what goes in and what comes out;
//! - [`builder`] accumulates the commands, track by track, into a [`sequence`];
//! - [`timeline`] states what a file yields, and what holds of it;
//! - [`pipeline`] runs the two passes over a file;
//! - [`config`] holds what else the synthesizer is told.
//!
//! Times are exact. They count scaled microseconds, that is, microseconds multiplied by
//! the ticks per quarter note of the file; volumes count 128ths of full volume.

pub mod builder;
pub mod command;
pub mod config;
pub mod error;
pub mod event;
pub mod pipeline;
pub mod sequence;
pub mod tempo;
pub mod time;
pub mod timeline;
