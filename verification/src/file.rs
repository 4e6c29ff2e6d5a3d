//! A decoded MIDI file as plain values.

use crate::event::TrackEvent;
use crate::model::tracks_view;
use vstd::prelude::*;

verus! {

/// How the tracks of a file relate to one another.
#[derive(Clone, Copy, Debug, PartialEq, Eq, Structural)]
pub enum FileFormat {
    /// One track.
    SingleTrack,
    /// Several tracks that sound together, on one clock.
    Parallel,
    /// Several tracks, each a piece of its own.
    Sequential,
}

/// What a tick of a file means.
#[derive(Clone, Copy, Debug, PartialEq, Eq, Structural)]
pub enum FileTiming {
    /// A beat has this many ticks.
    Metrical(u16),
    /// Ticks divide the frames of a time code.
    Timecode,
}

/// The header of a file.
#[derive(Clone, Copy, Debug, PartialEq, Eq, Structural)]
pub struct FileHeader {
    pub format: FileFormat,
    pub timing: FileTiming,
}

/// A decoded file: its header and the events of its tracks.
#[derive(Debug)]
pub struct MidiFile {
    pub header: FileHeader,
    pub tracks: Vec<Vec<TrackEvent>>,
}

/// A decoded file as plain mathematical values.
pub struct MidiFileView {
    pub header: FileHeader,
    pub tracks: Seq<Seq<TrackEvent>>,
}

impl View for MidiFile {
    type V = MidiFileView;

    open spec fn view(&self) -> MidiFileView {
        MidiFileView { header: self.header, tracks: tracks_view(self.tracks@) }
    }
}

} // verus!
