//! From the bytes of a MIDI file to its timeline.

use crate::bar::{bars_view, Bar};
use crate::error::DecodeError;
use crate::file::{FileFormat, FileTiming, MidiFile, MidiFileView};
use crate::model::{all_wf, timeline_of};
use crate::note::{notes_view, Note};
use crate::simulate::build;
use crate::smf::{decode, file_of_bytes};
use crate::timeline::{Timeline, TimelineView};
use vstd::prelude::*;

verus! {

/// The timeline of a decoded file, or why it has none.
///
/// Only parallel tracks are taken, and only a time base in ticks per beat.
/// The format is looked at first, then the time base, then the tracks.
pub open spec fn timeline_of_file(file: MidiFileView) -> Result<TimelineView, DecodeError> {
    if file.header.format != FileFormat::Parallel {
        Err(DecodeError::UnsupportedFormat)
    } else {
        match file.header.timing {
            FileTiming::Timecode => Err(DecodeError::UnsupportedTiming),
            FileTiming::Metrical(ticks_per_beat) => timeline_of(file.tracks, ticks_per_beat as int),
        }
    }
}

/// The timeline of the given bytes, or why they have none: the file that the
/// bytes hold, then the timeline of that file.
pub open spec fn timeline_of_bytes(data: Seq<u8>) -> Result<TimelineView, DecodeError> {
    match file_of_bytes(data) {
        None => Err(DecodeError::Parse),
        Some(file) => timeline_of_file(file),
    }
}

/// Builds the timeline of a decoded file.
pub fn timeline_from_file(file: &MidiFile) -> (result: Result<Timeline, DecodeError>)
    requires
        all_wf(file@.tracks),
    ensures
        match timeline_of_file(file@) {
            Ok(t) => result matches Ok(timeline) && timeline@ == t,
            Err(e) => result matches Err(error) && error == e,
        },
        result matches Ok(timeline) ==> timeline@.wf(),
{
    match file.header.format {
        FileFormat::Parallel => {},
        _ => {
            return Err(DecodeError::UnsupportedFormat);
        },
    }
    match file.header.timing {
        FileTiming::Timecode => Err(DecodeError::UnsupportedTiming),
        FileTiming::Metrical(ticks_per_beat) => build(&file.tracks, ticks_per_beat),
    }
}

/// Decodes a Standard MIDI File and builds its timeline.
pub fn timeline_from_bytes(data: &[u8]) -> (result: Result<Timeline, DecodeError>)
    ensures
        match timeline_of_bytes(data@) {
            Ok(t) => result matches Ok(timeline) && timeline@ == t,
            Err(e) => result matches Err(error) && error == e,
        },
        result matches Ok(timeline) ==> timeline@.wf(),
{
    match decode(data) {
        Some(file) => timeline_from_file(&file),
        None => Err(DecodeError::Parse),
    }
}

/// Decodes a Standard MIDI File into its bars, its notes and the number of
/// its tracks.
pub fn parse_midi(data: &[u8]) -> (result: Result<(Vec<Bar>, Vec<Note>, usize), DecodeError>)
    ensures
        match timeline_of_bytes(data@) {
            Ok(t) => result matches Ok(parts) && bars_view(parts.0@) == t.bars && notes_view(
                parts.1@,
            ) == t.notes && parts.2 == t.track_count && t.wf(),
            Err(e) => result matches Err(error) && error == e,
        },
{
    match timeline_from_bytes(data) {
        Ok(timeline) => Ok(timeline.into_parts()),
        Err(e) => Err(e),
    }
}

} // verus!
