use midi_player::builder::TimelineBuilder;
use midi_player::cursor::{CursorState, TrackCursor};
use midi_player::decode::{timeline_from_bytes, timeline_from_file};
use midi_player::file::{FileFormat, FileHeader, FileTiming, MidiFile};
use midi_player::open_notes::OpenNoteIndex;
use midi_player::smf::decode;
use midi_player::{DecodeError, EventKind, Timeline, TrackEvent};

fn smf(format: u16, division: u16, tracks: &[&[u8]]) -> Vec<u8> {
    let mut data: Vec<u8> = Vec::new();
    data.extend_from_slice(b"MThd");
    data.extend_from_slice(&[0, 0, 0, 6]);
    data.extend_from_slice(&format.to_be_bytes());
    data.extend_from_slice(&(tracks.len() as u16).to_be_bytes());
    data.extend_from_slice(&division.to_be_bytes());
    for events in tracks {
        data.extend_from_slice(b"MTrk");
        data.extend_from_slice(&(events.len() as u32).to_be_bytes());
        data.extend_from_slice(events);
    }
    data
}

#[test]
fn decode_hands_out_the_header_and_every_event() {
    let first: [u8; 31] = [
        0x00, 0xFF, 0x51, 0x03, 0x01, 0x02, 0x03, // tempo 0x010203
        0x05, 0xFF, 0x58, 0x04, 0x06, 0x03, 0x24, 0x08, // 6/8 after 5 ticks
        0x00, 0xFF, 0x03, 0x02, 0x68, 0x69, // track name
        0x00, 0xF0, 0x02, 0x01, 0xF7, // system exclusive
        0x81, 0x48, 0xFF, 0x2F, 0x00, // end of track after 200 ticks
    ];
    let second: [u8; 20] = [
        0x00, 0x9F, 0x7F, 0x01, // channel 15, key 127, velocity 1
        0x0A, 0x8F, 0x7F, 0x40, // note off with a velocity of its own
        0x00, 0x92, 0x00, 0x00, // note on with velocity 0
        0x00, 0xC2, 0x05, // program change
        0x00, 0xE2, 0x00, 0x40, // pitch bend
        0x00,
    ];
    let file = decode(&smf(1, 960, &[&first, &second[..19], &[]])).unwrap();
    assert_eq!(file.header, FileHeader { format: FileFormat::Parallel, timing: FileTiming::Metrical(960) });
    assert_eq!(file.tracks.len(), 3);
    assert_eq!(
        file.tracks[0],
        vec![
            TrackEvent { delta: 0, kind: EventKind::Tempo(0x010203) },
            TrackEvent { delta: 5, kind: EventKind::TimeSignature { numerator: 6, denominator: 3 } },
            TrackEvent { delta: 0, kind: EventKind::Other },
            TrackEvent { delta: 0, kind: EventKind::Other },
            TrackEvent { delta: 200, kind: EventKind::EndOfTrack },
        ]
    );
    assert_eq!(
        file.tracks[1],
        vec![
            TrackEvent { delta: 0, kind: EventKind::NoteOn { channel: 15, key: 127, velocity: 1 } },
            TrackEvent { delta: 10, kind: EventKind::NoteOff { channel: 15, key: 127 } },
            TrackEvent { delta: 0, kind: EventKind::NoteOn { channel: 2, key: 0, velocity: 0 } },
            TrackEvent { delta: 0, kind: EventKind::Other },
            TrackEvent { delta: 0, kind: EventKind::Other },
        ]
    );
    assert!(file.tracks[2].is_empty());
    for track in &file.tracks {
        for event in track {
            assert!(event.is_valid());
        }
    }
}

#[test]
fn decode_tells_the_formats_and_timings_apart() {
    let end: [u8; 4] = [0x00, 0xFF, 0x2F, 0x00];
    let file = decode(&smf(0, 1, &[&end])).unwrap();
    assert_eq!(file.header.format, FileFormat::SingleTrack);
    assert_eq!(file.header.timing, FileTiming::Metrical(1));
    let file = decode(&smf(2, 0x7FFF, &[&end])).unwrap();
    assert_eq!(file.header.format, FileFormat::Sequential);
    assert_eq!(file.header.timing, FileTiming::Metrical(0x7FFF));
    let file = decode(&smf(1, 0xE250, &[&end])).unwrap();
    assert_eq!(file.header.format, FileFormat::Parallel);
    assert_eq!(file.header.timing, FileTiming::Timecode);
    assert!(decode(b"MTrk").is_none());
    assert!(decode(&smf(1, 0x8000, &[&end])).is_none());
}

#[test]
fn largest_delta_time_is_read() {
    let events: [u8; 7] = [0xFF, 0xFF, 0xFF, 0x7F, 0xFF, 0x2F, 0x00];
    let file = decode(&smf(1, 480, &[&events])).unwrap();
    assert_eq!(file.tracks[0], vec![TrackEvent { delta: 0x0FFF_FFFF, kind: EventKind::EndOfTrack }]);
}

#[test]
fn timeline_from_file_looks_at_the_header_first() {
    let end = vec![TrackEvent { delta: 0, kind: EventKind::EndOfTrack }];
    let unterminated = vec![TrackEvent { delta: 0, kind: EventKind::Other }];
    let make = |format, timing, track: &Vec<TrackEvent>| MidiFile {
        header: FileHeader { format, timing },
        tracks: vec![track.clone()],
    };
    let file = make(FileFormat::Parallel, FileTiming::Metrical(480), &end);
    assert!(timeline_from_file(&file).is_ok());
    let file = make(FileFormat::SingleTrack, FileTiming::Metrical(480), &end);
    assert_eq!(timeline_from_file(&file).err(), Some(DecodeError::UnsupportedFormat));
    let file = make(FileFormat::Sequential, FileTiming::Timecode, &unterminated);
    assert_eq!(timeline_from_file(&file).err(), Some(DecodeError::UnsupportedFormat));
    let file = make(FileFormat::Parallel, FileTiming::Timecode, &unterminated);
    assert_eq!(timeline_from_file(&file).err(), Some(DecodeError::UnsupportedTiming));
    let file = make(FileFormat::Parallel, FileTiming::Metrical(0), &unterminated);
    assert_eq!(timeline_from_file(&file).err(), Some(DecodeError::UnsupportedTiming));
    let file = make(FileFormat::Parallel, FileTiming::Metrical(1), &unterminated);
    assert_eq!(timeline_from_file(&file).err(), Some(DecodeError::UnterminatedTrack));
}

#[test]
fn timeline_from_bytes_builds_what_the_bytes_hold() {
    let events: [u8; 5] = [0x81, 0x00, 0xFF, 0x2F, 0x00];
    let timeline = timeline_from_bytes(&smf(1, 24, &[&events])).unwrap();
    assert_eq!(timeline.ticks_per_beat(), 24);
    assert_eq!(timeline.track_count(), 1);
    // 129 ticks have run: two bars of 96 ticks.
    assert_eq!(timeline.bars().len(), 2);
    assert_eq!(timeline.bars()[1].end_time(), 192 * 500_000);
    let (bars, notes, tracks) = timeline.into_parts();
    assert_eq!(bars.len(), 2);
    assert!(notes.is_empty());
    assert_eq!(tracks, 1);
    assert_eq!(timeline_from_bytes(b"nothing").err(), Some(DecodeError::Parse));
}

#[test]
fn empty_timeline_has_microseconds_as_its_unit() {
    let timeline = Timeline::empty();
    assert!(timeline.bars().is_empty());
    assert!(timeline.notes().is_empty());
    assert_eq!(timeline.track_count(), 0);
    assert_eq!(timeline.ticks_per_beat(), 1);
    assert_eq!(timeline.units_per_second(), 1_000_000);
}

#[test]
fn builder_goes_step_by_step() {
    let mut builder = TimelineBuilder::new(2);
    // Tick 0: a bar of 8 ticks opens, and a key goes down.
    builder.begin_tick();
    assert_eq!(builder.fire(7, EventKind::NoteOn { channel: 1, key: 60, velocity: 9 }), Ok(()));
    assert_eq!(
        builder.fire(7, EventKind::NoteOn { channel: 1, key: 60, velocity: 9 }),
        Err(DecodeError::DuplicateNoteOn)
    );
    assert_eq!(builder.fire(7, EventKind::NoteOff { channel: 1, key: 61 }), Ok(()));
    assert_eq!(builder.fire(7, EventKind::Other), Ok(()));
    assert_eq!(builder.fire(7, EventKind::EndOfTrack), Ok(()));
    builder.end_tick();
    // Tick 1: the tempo changes before the tick ends.
    builder.begin_tick();
    assert_eq!(builder.fire(0, EventKind::Tempo(7)), Ok(()));
    builder.end_tick();
    // Tick 2: bars of 3 ticks from here, and the key goes up.
    builder.begin_tick();
    assert_eq!(
        builder.fire(0, EventKind::TimeSignature { numerator: 0, denominator: 0 }),
        Err(DecodeError::UnsupportedTimeSignature)
    );
    assert_eq!(builder.fire(0, EventKind::TimeSignature { numerator: 3, denominator: 3 }), Ok(()));
    assert_eq!(builder.fire(0, EventKind::NoteOn { channel: 1, key: 60, velocity: 0 }), Ok(()));
    assert_eq!(builder.fire(3, EventKind::NoteOn { channel: 1, key: 60, velocity: 1 }), Ok(()));
    builder.end_tick();
    for _ in 0..3 {
        builder.begin_tick();
        builder.end_tick();
    }
    let timeline = builder.finish(5);
    assert_eq!(timeline.track_count(), 5);
    assert_eq!(timeline.ticks_per_beat(), 2);
    let notes = timeline.notes();
    assert_eq!(notes.len(), 2);
    assert_eq!((notes[0].on_time(), notes[0].off_time()), (0, 500_007));
    assert_eq!((notes[0].key(), notes[0].velocity(), notes[0].track()), (60, 9, 7));
    assert_eq!((notes[1].on_time(), notes[1].off_time()), (500_007, 500_007 + 4 * 7));
    assert_eq!((notes[1].key(), notes[1].velocity(), notes[1].track()), (60, 1, 3));
    let bars = timeline.bars();
    assert_eq!(bars.len(), 2);
    assert_eq!((bars[0].begin_time(), bars[0].end_time()), (0, 500_007 + 3 * 7));
    assert_eq!((bars[1].begin_time(), bars[1].end_time()), (500_007 + 3 * 7, 500_007 + 6 * 7));
}

#[test]
fn builder_without_a_tick_gives_an_empty_timeline() {
    let timeline = TimelineBuilder::new(480).finish(0);
    assert!(timeline.bars().is_empty());
    assert!(timeline.notes().is_empty());
}

#[test]
fn open_note_index_holds_one_note_for_each_channel_and_key() {
    let mut index = OpenNoteIndex::new();
    assert_eq!(index.get(0, 0), None);
    assert_eq!(index.insert(0, 1, 10), None);
    assert_eq!(index.insert(1, 0, 11), None);
    assert_eq!(index.insert(255, 255, 12), None);
    assert_eq!(index.get(0, 1), Some(10));
    assert_eq!(index.get(1, 0), Some(11));
    assert_eq!(index.get(255, 255), Some(12));
    assert_eq!(index.get(1, 1), None);
    assert_eq!(index.insert(0, 1, 13), Some(10));
    assert_eq!(index.get(0, 1), Some(13));
    assert_eq!(index.remove(0, 1), Some(13));
    assert_eq!(index.remove(0, 1), None);
    assert_eq!(index.get(0, 1), None);
    assert_eq!(index.get(1, 0), Some(11));
}

#[test]
fn cursor_starts_at_the_first_event() {
    let cursor = TrackCursor::start(&Vec::new());
    assert_eq!(cursor.state, CursorState::Ended);
    assert!(cursor.ended());
    assert_eq!((cursor.pending_ticks, cursor.event_index), (0, 0));
    let track = vec![
        TrackEvent { delta: 17, kind: EventKind::Other },
        TrackEvent { delta: 3, kind: EventKind::EndOfTrack },
    ];
    let cursor = TrackCursor::start(&track);
    assert_eq!(cursor.state, CursorState::Idle);
    assert!(!cursor.ended());
    assert_eq!((cursor.pending_ticks, cursor.event_index), (17, 0));
}
