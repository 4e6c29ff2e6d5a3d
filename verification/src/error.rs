//! Why a MIDI file could not be turned into a timeline.

use vstd::prelude::*;

verus! {

/// The reasons for which decoding fails. Each is final for that attempt.
#[derive(Clone, Copy, Debug, PartialEq, Eq, Structural)]
pub enum DecodeError {
    /// The bytes are not a MIDI file.
    Parse,
    /// The tracks are not laid out as parallel tracks on one clock.
    UnsupportedFormat,
    /// The time base is a time code, or it is zero ticks per beat and there
    /// is a tick to simulate.
    UnsupportedTiming,
    /// A track holds events but no end-of-track event, and no step of the
    /// simulation has failed.
    UnterminatedTrack,
    /// A time signature fired that gives bars without a tick.
    UnsupportedTimeSignature,
    /// A key went down on a channel while it was already down there.
    DuplicateNoteOn,
}

} // verus!
