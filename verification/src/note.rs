//! A note of the timeline.

use vstd::prelude::*;

verus! {

/// One note: when it sounds, which key, how hard, and from which track.
#[derive(Clone, Copy, Debug, PartialEq, Eq, Structural)]
pub struct Note {
    on_time: i128,
    off_time: i128,
    key: u8,
    velocity: u8,
    track: usize,
}

/// A note as plain mathematical values.
pub struct NoteView {
    pub on: int,
    pub off: int,
    pub key: u8,
    pub velocity: u8,
    /// The index of the track that the note came from.
    pub track: int,
}

impl View for Note {
    type V = NoteView;

    closed spec fn view(&self) -> NoteView {
        NoteView {
            on: self.on_time as int,
            off: self.off_time as int,
            key: self.key,
            velocity: self.velocity,
            track: self.track as int,
        }
    }
}

impl Note {
    pub fn new(on_time: i128, off_time: i128, key: u8, velocity: u8, track: usize) -> (note: Self)
        ensures
            note@ == (NoteView {
                on: on_time as int,
                off: off_time as int,
                key,
                velocity,
                track: track as int,
            }),
    {
        Note { on_time, off_time, key, velocity, track }
    }

    pub fn on_time(&self) -> (t: i128)
        ensures
            t == self@.on,
    {
        self.on_time
    }

    pub fn off_time(&self) -> (t: i128)
        ensures
            t == self@.off,
    {
        self.off_time
    }

    pub fn set_off_time(&mut self, off_time: i128)
        ensures
            final(self)@ == (NoteView { off: off_time as int, ..old(self)@ }),
    {
        self.off_time = off_time;
    }

    pub fn key(&self) -> (k: u8)
        ensures
            k == self@.key,
    {
        self.key
    }

    pub fn velocity(&self) -> (v: u8)
        ensures
            v == self@.velocity,
    {
        self.velocity
    }

    pub fn track(&self) -> (t: usize)
        ensures
            t == self@.track,
    {
        self.track
    }
}

/// The notes of a vector as mathematical values.
pub open spec fn notes_view(notes: Seq<Note>) -> Seq<NoteView> {
    Seq::new(notes.len(), |i: int| notes[i]@)
}

} // verus!
