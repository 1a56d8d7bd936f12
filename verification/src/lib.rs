//! The core of a MIDI player: timelines built from the tracks of a file, a
//! clock that turns ticks into microseconds under a changing tempo, and the
//! transport that plays a playlist and follows the operator's commands.
//!
//! Nothing here waits, reads a key or drives a device. The transport and the
//! input listener are state machines: a loop outside this library carries
//! out what they ask for and reports back what happened.
//!
//! - [`event`]: tempo changes and musical events, and their transposition.
//! - [`timeline`]: one moment for each tick; sub-tracks laid one after the
//!   other or side by side.
//! - [`timer`]: the clock and the playback speed.
//! - [`midi`]: standard MIDI files, decoded by `midly`.
//! - [`track`]: a file as a track of the playlist.
//! - [`session`]: the playlist before it plays.
//! - [`playback`]: the transport.
//! - [`listener`]: the keys of the operator.
//! - [`args`], [`display`]: text that comes in and text that goes out.

use vstd::prelude::*;

pub mod args;
pub mod display;
pub mod event;
pub mod listener;
pub mod midi;
pub mod playback;
pub mod session;
pub mod timeline;
pub mod timer;
pub mod track;

verus! {

/// A request of the operator, carried from the input listener to the transport.
#[derive(Clone, Copy, Debug, PartialEq, Eq, Structural)]
pub enum Command {
    /// Pause, or go on if paused.
    Pause,
    /// Leave the track for the next one.
    Next,
    /// Leave the track for the one before it.
    Prev,
}

} // verus!
