//! A MIDI timeline library: it turns the event tracks of a Standard MIDI File
//! into bars and notes on one absolute clock, and schedules their playback.
//!
//! All times are integers. One time unit is a microsecond divided by the
//! file's ticks per beat, so a tick lasts exactly as many units as the tempo
//! in effect has microseconds per beat.

pub mod bar;
pub mod builder;
pub mod chunks;
pub mod cursor;
pub mod decode;
pub mod display;
pub mod error;
pub mod event;
pub mod file;
pub mod laws;
pub mod lengths;
pub mod steady;
pub mod model;
pub mod note;
pub mod open_notes;
pub mod player;
pub mod schedule;
pub mod simulate;
pub mod smf;
pub mod timeline;

pub use crate::bar::Bar;
pub use crate::decode::parse_midi;
pub use crate::error::DecodeError;
pub use crate::event::{EventKind, TrackEvent};
pub use crate::note::Note;
pub use crate::player::{MidiPlayer, TickActions, VoiceRequest};
pub use crate::simulate::build;
pub use crate::timeline::Timeline;
