//! Track events as the timeline builder reads them.

use vstd::prelude::*;

verus! {

/// What a track event does, reduced to what timing and notes depend on.
#[derive(Clone, Copy, Debug, PartialEq, Eq, Structural)]
pub enum EventKind {
    /// A key goes down. Velocity zero means the key goes up.
    NoteOn { channel: u8, key: u8, velocity: u8 },
    /// A key goes up.
    NoteOff { channel: u8, key: u8 },
    /// The length of a beat from now on, in microseconds.
    Tempo(u32),
    /// A new time signature: `numerator` beats of one `2^denominator`-th note each.
    TimeSignature { numerator: u8, denominator: u8 },
    /// The track is over.
    EndOfTrack,
    /// Any other event. It only takes up its delta time.
    Other,
}

/// One event of a track, with the ticks that pass between the event before it
/// and itself.
#[derive(Clone, Copy, Debug, PartialEq, Eq, Structural)]
pub struct TrackEvent {
    pub delta: u32,
    pub kind: EventKind,
}

/// Upper bound (exclusive) of a tempo: 24 bits.
pub const TEMPO_LIMIT: u32 = 0x100_0000;

/// Number of MIDI keys, and of velocities.
pub const KEYS: u8 = 128;

impl EventKind {
    /// Key, velocity and tempo are in the ranges that a MIDI file can encode.
    pub open spec fn wf(self) -> bool {
        match self {
            EventKind::NoteOn { key, velocity, .. } => key < KEYS && velocity < KEYS,
            EventKind::NoteOff { key, .. } => key < KEYS,
            EventKind::Tempo(tempo) => tempo < TEMPO_LIMIT,
            _ => true,
        }
    }

    /// Tests `wf` at run time.
    pub fn is_valid(&self) -> (ok: bool)
        ensures
            ok == self.wf(),
    {
        match *self {
            EventKind::NoteOn { key, velocity, .. } => key < KEYS && velocity < KEYS,
            EventKind::NoteOff { key, .. } => key < KEYS,
            EventKind::Tempo(tempo) => tempo < TEMPO_LIMIT,
            _ => true,
        }
    }
}

impl TrackEvent {
    /// The values of the event's kind are in the ranges that a MIDI file can
    /// encode.
    pub open spec fn wf(self) -> bool {
        self.kind.wf()
    }

    /// Tests `wf` at run time.
    pub fn is_valid(&self) -> (ok: bool)
        ensures
            ok == self.wf(),
    {
        self.kind.is_valid()
    }
}

} // verus!
