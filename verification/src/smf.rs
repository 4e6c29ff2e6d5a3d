//! Reading Standard MIDI Files with the `midly` crate.
//!
//! Nothing here is proved of `midly`: the contracts of this module say what
//! the rest of the library takes from it.

use crate::chunks::{frame_rate_overflows, has_frame_rate_overflow};
use crate::event::{EventKind, TrackEvent};
use crate::file::{FileFormat, FileHeader, FileTiming, MidiFile, MidiFileView};
use crate::model::all_wf;
use midly::{Format, MetaMessage, MidiMessage, Smf, Timing, TrackEventKind};
use vstd::prelude::*;

verus! {

/// `midly::Smf`, a parsed file. Its contents are known only through
/// `smf_header` and `smf_tracks`.
#[verifier::external_type_specification]
#[verifier::external_body]
pub struct ExSmf<'a>(midly::Smf<'a>);

/// `midly::Error`, the reason for which `midly` could not parse a file.
#[verifier::external_type_specification]
#[verifier::external_body]
pub struct ExMidlyError(midly::Error);

/// What `midly::Smf::parse` makes of the given bytes: the file, or nothing
/// where it reports an error.
pub uninterp spec fn decoded(data: Seq<u8>) -> Option<MidiFileView>;

/// The header of a parsed file: its field `header`, each part as the variant
/// of the same name.
pub uninterp spec fn smf_header(smf: Smf) -> FileHeader;

/// The tracks of a parsed file: its field `tracks`, each event with its delta
/// time as an integer and its kind reduced to an `EventKind`.
pub uninterp spec fn smf_tracks(smf: Smf) -> Seq<Seq<TrackEvent>>;

/// The contents of a parsed file.
pub open spec fn smf_view(smf: Smf) -> MidiFileView {
    MidiFileView { header: smf_header(smf), tracks: smf_tracks(smf) }
}

/// Calls `midly::Smf::parse`. The contract names the outcome `decoded`, which
/// says that it depends on the bytes alone. Left out are bytes on which
/// `midly` negates the frame rate byte 0x80 of a header chunk that it reads,
/// which overflows.
#[verifier::external_body]
fn parse_smf(data: &[u8]) -> (result: Result<Smf, midly::Error>)
    requires
        !frame_rate_overflows(data@),
    ensures
        match result {
            Ok(smf) => decoded(data@) == Some(smf_view(smf)),
            Err(_) => decoded(data@) is None,
        },
{
    Smf::parse(data)
}

/// Reads the field `header` of a `midly::Smf` and hands out its format and
/// timing variant by variant. Of a time code only the variant is kept.
#[verifier::external_body]
fn header_of(smf: &Smf) -> (header: FileHeader)
    ensures
        header == smf_header(*smf),
{
    FileHeader {
        format: match smf.header.format {
            Format::SingleTrack => FileFormat::SingleTrack,
            Format::Parallel => FileFormat::Parallel,
            Format::Sequential => FileFormat::Sequential,
        },
        timing: match smf.header.timing {
            Timing::Metrical(ticks) => FileTiming::Metrical(ticks.as_int()),
            Timing::Timecode(_, _) => FileTiming::Timecode,
        },
    }
}

/// The length of the field `tracks` of a `midly::Smf`.
#[verifier::external_body]
fn track_count(smf: &Smf) -> (count: usize)
    ensures
        count == smf_tracks(*smf).len(),
{
    smf.tracks.len()
}

/// The length of one track of a `midly::Smf`.
#[verifier::external_body]
fn track_len(smf: &Smf, track: usize) -> (len: usize)
    requires
        track < smf_tracks(*smf).len(),
    ensures
        len == smf_tracks(*smf)[track as int].len(),
{
    smf.tracks[track].len()
}

/// The delta time of one event of a `midly::Smf`, from `u28::as_int`.
#[verifier::external_body]
fn event_delta(smf: &Smf, track: usize, index: usize) -> (delta: u32)
    requires
        track < smf_tracks(*smf).len(),
        index < smf_tracks(*smf)[track as int].len(),
    ensures
        delta == smf_tracks(*smf)[track as int][index as int].delta,
{
    smf.tracks[track][index].delta.as_int()
}

/// The kind of one event of a `midly::Smf`: note on, note off, tempo, time
/// signature and end of track keep their values, read with `as_int` from
/// `u4`, `u7` and `u24`; the latter two keep key, velocity and tempo in
/// range. Every other event is `Other`.
#[verifier::external_body]
fn event_kind(smf: &Smf, track: usize, index: usize) -> (kind: EventKind)
    requires
        track < smf_tracks(*smf).len(),
        index < smf_tracks(*smf)[track as int].len(),
    ensures
        kind == smf_tracks(*smf)[track as int][index as int].kind,
        kind.wf(),
{
    match smf.tracks[track][index].kind {
        TrackEventKind::Midi { channel, message: MidiMessage::NoteOn { key, vel } } => {
            EventKind::NoteOn { channel: channel.as_int(), key: key.as_int(), velocity: vel.as_int() }
        },
        TrackEventKind::Midi { channel, message: MidiMessage::NoteOff { key, .. } } => {
            EventKind::NoteOff { channel: channel.as_int(), key: key.as_int() }
        },
        TrackEventKind::Meta(MetaMessage::Tempo(tempo)) => EventKind::Tempo(tempo.as_int()),
        TrackEventKind::Meta(MetaMessage::TimeSignature(numerator, denominator, _, _)) => {
            EventKind::TimeSignature { numerator, denominator }
        },
        TrackEventKind::Meta(MetaMessage::EndOfTrack) => EventKind::EndOfTrack,
        _ => EventKind::Other,
    }
}

/// The events of one track of a parsed file.
fn read_track(smf: &Smf, track: usize) -> (events: Vec<TrackEvent>)
    requires
        track < smf_tracks(*smf).len(),
    ensures
        events@ == smf_tracks(*smf)[track as int],
        forall|i: int| 0 <= i < events.len() ==> (#[trigger] events[i]).wf(),
{
    let len = track_len(smf, track);
    let mut events: Vec<TrackEvent> = Vec::new();
    let mut i: usize = 0;
    while i < len
        invariant
            track < smf_tracks(*smf).len(),
            len == smf_tracks(*smf)[track as int].len(),
            i <= len,
            events.len() == i,
            forall|j: int| 0 <= j < i ==> events[j] == smf_tracks(*smf)[track as int][j],
            forall|j: int| 0 <= j < i ==> (#[trigger] events[j]).wf(),
        decreases len - i,
    {
        let delta = event_delta(smf, track, i);
        let kind = event_kind(smf, track, i);
        events.push(TrackEvent { delta, kind });
        i = i + 1;
    }
    assert(events@ =~= smf_tracks(*smf)[track as int]);
    events
}

/// The contents of a parsed file as values of this library.
fn read_file(smf: &Smf) -> (file: MidiFile)
    ensures
        file@ == smf_view(*smf),
        all_wf(file@.tracks),
{
    let count = track_count(smf);
    let mut tracks: Vec<Vec<TrackEvent>> = Vec::new();
    let mut t: usize = 0;
    while t < count
        invariant
            count == smf_tracks(*smf).len(),
            t <= count,
            tracks.len() == t,
            forall|k: int| 0 <= k < t ==> (#[trigger] tracks[k])@ == smf_tracks(*smf)[k],
            forall|k: int, i: int|
                0 <= k < t && 0 <= i < tracks[k].len() ==> (#[trigger] tracks[k][i]).wf(),
        decreases count - t,
    {
        let events = read_track(smf, t);
        tracks.push(events);
        t = t + 1;
    }
    let file = MidiFile { header: header_of(smf), tracks };
    assert(file@.tracks =~= smf_tracks(*smf));
    file
}

/// The file that the bytes hold, if they hold one that can be read. A file
/// with a header chunk whose frame rate byte is 0x80 cannot.
pub open spec fn file_of_bytes(data: Seq<u8>) -> Option<MidiFileView> {
    if frame_rate_overflows(data) {
        None
    } else {
        decoded(data)
    }
}

/// Decodes the bytes of a Standard MIDI File, or says that they are none.
pub fn decode(data: &[u8]) -> (file: Option<MidiFile>)
    ensures
        match file {
            Some(f) => file_of_bytes(data@) == Some(f@) && all_wf(f@.tracks),
            None => file_of_bytes(data@) is None,
        },
{
    if has_frame_rate_overflow(data) {
        return None;
    }
    match parse_smf(data) {
        Ok(smf) => Some(read_file(&smf)),
        Err(_) => None,
    }
}

} // verus!
