use midi_player::{parse_midi, DecodeError, MidiPlayer};

/// Two parallel tracks at 480 ticks per beat: a tempo track, and one note of
/// a quarter on key 60.
fn two_track_file() -> Vec<u8> {
    let mut data: Vec<u8> = Vec::new();
    data.extend_from_slice(b"MThd");
    data.extend_from_slice(&[0, 0, 0, 6, 0, 1, 0, 2, 0x01, 0xE0]);
    let first: [u8; 19] = [
        0x00, 0xFF, 0x51, 0x03, 0x07, 0xA1, 0x20, // tempo 500000
        0x00, 0xFF, 0x58, 0x04, 0x04, 0x02, 0x18, 0x08, // 4/4
        0x00, 0xFF, 0x2F, 0x00,
    ];
    data.extend_from_slice(b"MTrk");
    data.extend_from_slice(&[0, 0, 0, first.len() as u8]);
    data.extend_from_slice(&first);
    let second: [u8; 13] = [
        0x00, 0x90, 0x3C, 0x50, // key 60 down, velocity 80
        0x83, 0x60, 0x80, 0x3C, 0x00, // 480 ticks later: key 60 up
        0x00, 0xFF, 0x2F, 0x00,
    ];
    data.extend_from_slice(b"MTrk");
    data.extend_from_slice(&[0, 0, 0, second.len() as u8]);
    data.extend_from_slice(&second);
    data
}

#[test]
fn test_parse_midi() {
    let data = two_track_file();
    let result = parse_midi(&data);
    assert!(result.is_ok());
    let midi = result.unwrap();
    assert!(midi.1.len() > 0);
    for note in &midi.1 {
        println!("{:?}", note);
    }

    assert!(midi.0.len() > 0);
    for bar in &midi.0 {
        println!("{:?}", bar);
    }
}

#[test]
fn quarter_note_at_120_bpm_lasts_half_a_second() {
    let (bars, notes, tracks) = parse_midi(&two_track_file()).unwrap();
    assert_eq!(tracks, 2);
    assert_eq!(notes.len(), 1);
    assert_eq!(notes[0].on_time(), 0);
    assert_eq!(notes[0].off_time(), 480 * 500_000);
    assert_eq!(notes[0].key(), 60);
    assert_eq!(notes[0].velocity(), 80);
    assert_eq!(notes[0].track(), 1);
    let units_per_second = 480.0 * 1_000_000.0;
    let off_seconds = notes[0].off_time() as f64 / units_per_second;
    assert!((off_seconds - 0.5).abs() < 1e-12);
    assert_eq!(bars.len(), 1);
    assert_eq!(bars[0].begin_time(), 0);
    assert_eq!(bars[0].end_time(), 1920 * 500_000);
    assert_eq!(bars[0].number(), 0);
}

fn header(format: u16, tracks: u16, division: u16) -> Vec<u8> {
    let mut data: Vec<u8> = Vec::new();
    data.extend_from_slice(b"MThd");
    data.extend_from_slice(&[0, 0, 0, 6]);
    data.extend_from_slice(&format.to_be_bytes());
    data.extend_from_slice(&tracks.to_be_bytes());
    data.extend_from_slice(&division.to_be_bytes());
    data
}

fn track(events: &[u8]) -> Vec<u8> {
    let mut data: Vec<u8> = Vec::new();
    data.extend_from_slice(b"MTrk");
    data.extend_from_slice(&(events.len() as u32).to_be_bytes());
    data.extend_from_slice(events);
    data
}

fn file(format: u16, division: u16, tracks: &[&[u8]]) -> Vec<u8> {
    let mut data = header(format, tracks.len() as u16, division);
    for events in tracks {
        data.extend_from_slice(&track(events));
    }
    data
}

const END: [u8; 4] = [0x00, 0xFF, 0x2F, 0x00];

#[test]
fn bytes_that_are_no_midi_file_are_a_parse_error() {
    assert_eq!(parse_midi(b"").err(), Some(DecodeError::Parse));
    assert_eq!(parse_midi(b"RIFFxxxx").err(), Some(DecodeError::Parse));
    assert_eq!(parse_midi(b"MThd").err(), Some(DecodeError::Parse));
    assert_eq!(parse_midi(&header(7, 1, 480)).err(), Some(DecodeError::Parse));
}

#[test]
fn single_track_format_is_unsupported() {
    let data = file(0, 480, &[&END]);
    assert_eq!(parse_midi(&data).err(), Some(DecodeError::UnsupportedFormat));
}

#[test]
fn sequential_format_is_unsupported() {
    let data = file(2, 480, &[&END, &END]);
    assert_eq!(parse_midi(&data).err(), Some(DecodeError::UnsupportedFormat));
}

#[test]
fn format_is_looked_at_before_timing() {
    let data = file(0, 0xE728, &[&END]);
    assert_eq!(parse_midi(&data).err(), Some(DecodeError::UnsupportedFormat));
}

#[test]
fn timecode_is_unsupported() {
    // 25 frames per second, 40 ticks per frame.
    let data = file(1, 0xE728, &[&END]);
    assert_eq!(parse_midi(&data).err(), Some(DecodeError::UnsupportedTiming));
}

#[test]
fn zero_ticks_per_beat_is_unsupported() {
    let data = file(1, 0, &[&END]);
    assert_eq!(parse_midi(&data).err(), Some(DecodeError::UnsupportedTiming));
}

#[test]
fn track_without_end_of_track_is_refused() {
    let data = file(1, 480, &[&END, &[0x00, 0x90, 0x3C, 0x50, 0x10, 0x80, 0x3C, 0x00]]);
    assert_eq!(parse_midi(&data).err(), Some(DecodeError::UnterminatedTrack));
}

#[test]
fn time_signature_in_half_notes_is_read() {
    let data = file(1, 480, &[&[0x00, 0xFF, 0x58, 0x04, 0x02, 0x01, 0x18, 0x08, 0x00, 0xFF, 0x2F, 0x00]]);
    let (bars, _, _) = parse_midi(&data).unwrap();
    assert_eq!(bars.len(), 1);
    assert_eq!(bars[0].end_time(), 2 * 960 * 500_000);
}

#[test]
fn time_signature_without_beats_is_refused() {
    let data = file(1, 480, &[&[0x00, 0xFF, 0x58, 0x04, 0x00, 0x02, 0x18, 0x08, 0x00, 0xFF, 0x2F, 0x00]]);
    assert_eq!(parse_midi(&data).err(), Some(DecodeError::UnsupportedTimeSignature));
}

#[test]
fn duplicate_note_on_in_a_track_without_end_is_the_failure() {
    let data = file(1, 480, &[&END, &[0x00, 0x93, 0x3C, 0x50, 0x10, 0x93, 0x3C, 0x50]]);
    assert_eq!(parse_midi(&data).err(), Some(DecodeError::DuplicateNoteOn));
}

#[test]
fn file_of_256_tracks_counts_256() {
    let tracks: Vec<&[u8]> = (0..256).map(|_| &END[..]).collect();
    let (bars, notes, count) = parse_midi(&file(1, 480, &tracks)).unwrap();
    assert_eq!((bars.len(), notes.len(), count), (1, 0, 256));
}

#[test]
fn duplicate_note_on_in_a_file_is_refused() {
    let data = file(1, 480, &[&[0x00, 0x93, 0x3C, 0x50, 0x10, 0x93, 0x3C, 0x50, 0x00, 0xFF, 0x2F, 0x00]]);
    assert_eq!(parse_midi(&data).err(), Some(DecodeError::DuplicateNoteOn));
}

#[test]
fn running_status_and_other_events_are_read() {
    // Note on, then with running status note on with velocity zero; a
    // controller change and a text event only take up time.
    let events: [u8; 24] = [
        0x00, 0x95, 0x40, 0x7F, // channel 5, key 64, velocity 127
        0x0A, 0xB5, 0x07, 0x64, // controller
        0x0A, 0xFF, 0x01, 0x02, 0x68, 0x69, // text
        0x0A, 0x95, 0x40, 0x00, // key 64 down with velocity 0: up
        0x00, 0xFF, 0x2F, 0x00, 0x00, 0x00,
    ];
    let (bars, notes, tracks) = parse_midi(&file(1, 96, &[&events[..22]])).unwrap();
    assert_eq!(tracks, 1);
    assert_eq!(notes.len(), 1);
    assert_eq!(notes[0].key(), 64);
    assert_eq!(notes[0].velocity(), 127);
    assert_eq!(notes[0].track(), 0);
    assert_eq!(notes[0].on_time(), 0);
    assert_eq!(notes[0].off_time(), 30 * 500_000);
    assert_eq!(bars.len(), 1);
    assert_eq!(bars[0].end_time(), 4 * 96 * 500_000);
}

#[test]
fn tempo_and_time_signature_of_a_file_take_effect() {
    let first: [u8; 19] = [
        0x00, 0xFF, 0x51, 0x03, 0x0F, 0x42, 0x40, // tempo 1000000
        0x00, 0xFF, 0x58, 0x04, 0x03, 0x03, 0x18, 0x08, // 3/8
        0x00, 0xFF, 0x2F, 0x00,
    ];
    let second: [u8; 13] = [
        0x08, 0x90, 0x30, 0x01, // after 8 ticks
        0x81, 0x00, 0x80, 0x30, 0x40, // after 128 ticks
        0x00, 0xFF, 0x2F, 0x00,
    ];
    let (bars, notes, tracks) = parse_midi(&file(1, 100, &[&first, &second])).unwrap();
    assert_eq!(tracks, 2);
    assert_eq!(notes.len(), 1);
    assert_eq!(notes[0].on_time(), 8 * 1_000_000);
    assert_eq!(notes[0].off_time(), 136 * 1_000_000);
    assert_eq!(notes[0].track(), 1);
    // A bar of 3/8 has 100 / 2 * 3 ticks.
    assert_eq!(bars.len(), 1);
    assert_eq!(bars[0].end_time(), 150 * 1_000_000);
}

#[test]
fn load_midi_loads_the_timeline_of_a_file() {
    let mut player = MidiPlayer::new();
    player.voice_started(1);
    let disposed = player.load_midi(&two_track_file()).unwrap();
    assert_eq!(disposed, vec![1]);
    assert!(player.ready());
    assert_eq!(player.num_bars(), 1);
    assert_eq!(player.timeline().ticks_per_beat(), 480);
    assert_eq!(player.timeline().track_count(), 2);
    assert_eq!(player.timeline().notes()[0].off_time(), 480 * 500_000);
}

fn chunk(name: &[u8; 4], data: &[u8]) -> Vec<u8> {
    let mut bytes: Vec<u8> = Vec::new();
    bytes.extend_from_slice(name);
    bytes.extend_from_slice(&(data.len() as u32).to_be_bytes());
    bytes.extend_from_slice(data);
    bytes
}

fn header_chunk(format: u16, division: u16) -> Vec<u8> {
    let mut data: Vec<u8> = Vec::new();
    data.extend_from_slice(&format.to_be_bytes());
    data.extend_from_slice(&[0, 1]);
    data.extend_from_slice(&division.to_be_bytes());
    chunk(b"MThd", &data)
}

fn wrapped(chunks: &[(&[u8; 4], &[u8])]) -> Vec<u8> {
    let mut inner: Vec<u8> = Vec::new();
    inner.extend_from_slice(b"RMID");
    for (name, data) in chunks {
        inner.extend_from_slice(*name);
        inner.extend_from_slice(&(data.len() as u32).to_le_bytes());
        inner.extend_from_slice(data);
        if data.len() % 2 == 1 {
            inner.push(0);
        }
    }
    let mut bytes: Vec<u8> = Vec::new();
    bytes.extend_from_slice(b"RIFF");
    bytes.extend_from_slice(&(inner.len() as u32).to_le_bytes());
    bytes.extend_from_slice(&inner);
    bytes
}

fn overflows(data: &[u8]) -> bool {
    midi_player::chunks::has_frame_rate_overflow(data)
}

#[test]
fn frame_rate_byte_that_cannot_be_negated_is_a_parse_error() {
    let data = file(1, 0x8028, &[&END]);
    assert!(overflows(&data));
    assert_eq!(parse_midi(&data).err(), Some(DecodeError::Parse));
    assert!(!overflows(&two_track_file()));
    assert!(!overflows(b"MThd"));
    assert!(!overflows(b""));
    // Every format that is known gets as far as the frame rate.
    assert!(overflows(&file(0, 0x8000, &[&END])));
    assert!(overflows(&file(2, 0x80FF, &[&END])));
}

#[test]
fn frame_rate_byte_inside_a_track_is_no_hindrance() {
    let text: [u8; 21] = [
        0x00, 0xFF, 0x01, 0x0D, b'M', b'T', b'h', b'd', 0, 0, 0, 6, 0, 1, 0, 1, 0x80, 0x00, 0xFF,
        0x2F, 0x00,
    ];
    let data = file(1, 480, &[&text]);
    assert!(!overflows(&data));
    let (bars, notes, tracks) = parse_midi(&data).unwrap();
    assert_eq!((bars.len(), notes.len(), tracks), (1, 0, 1));
}

#[test]
fn frame_rate_byte_in_a_chunk_of_another_name_is_no_hindrance() {
    let mut data = header_chunk(1, 480);
    data.extend_from_slice(&chunk(b"XFIH", &header_chunk(1, 0x8000)));
    data.extend_from_slice(&chunk(b"MTrk", &END));
    assert!(!overflows(&data));
    assert_eq!(parse_midi(&data).unwrap().2, 1);
}

#[test]
fn frame_rate_byte_in_a_second_header_is_found() {
    let mut data = header_chunk(1, 480);
    data.extend_from_slice(&chunk(b"MTrk", &END));
    data.extend_from_slice(&header_chunk(1, 0x8000));
    assert!(overflows(&data));
    assert_eq!(parse_midi(&data).err(), Some(DecodeError::Parse));
    // A second header that is read changes nothing.
    let mut data = header_chunk(1, 480);
    data.extend_from_slice(&header_chunk(0, 0xE728));
    data.extend_from_slice(&chunk(b"MTrk", &END));
    assert!(!overflows(&data));
    assert_eq!(parse_midi(&data).unwrap().2, 1);
}

#[test]
fn frame_rate_byte_is_not_read_where_the_header_fails_before() {
    // A format that is not known.
    let data = file(3, 0x8000, &[&END]);
    assert!(!overflows(&data));
    assert_eq!(parse_midi(&data).err(), Some(DecodeError::Parse));
    // A header that is too short: the frame rate would be the next chunk's.
    let mut data = chunk(b"MThd", &[0, 1, 0, 1]);
    data.extend_from_slice(&[0x80, 0x00]);
    assert!(!overflows(&data));
    assert_eq!(parse_midi(&data).err(), Some(DecodeError::Parse));
    // A header whose length says more than there is: what is there is read.
    let data: [u8; 14] = [b'M', b'T', b'h', b'd', 0, 0, 1, 0, 0, 1, 0, 1, 0x80, 0];
    assert!(overflows(&data));
    assert_eq!(parse_midi(&data).err(), Some(DecodeError::Parse));
    let data: [u8; 13] = [b'M', b'T', b'h', b'd', 0, 0, 1, 0, 0, 1, 0, 1, 0x80];
    assert!(!overflows(&data));
    assert_eq!(parse_midi(&data).err(), Some(DecodeError::Parse));
}

#[test]
fn chain_of_chunks_ends_at_a_header_that_cannot_be_read() {
    // The second header has a frame rate that is none; the third is never
    // looked at.
    let mut data = header_chunk(1, 480);
    data.extend_from_slice(&chunk(b"MTrk", &END));
    data.extend_from_slice(&header_chunk(1, 0x9000));
    data.extend_from_slice(&header_chunk(1, 0x8000));
    data.extend_from_slice(&chunk(b"MTrk", &END));
    assert!(!overflows(&data));
    assert_eq!(parse_midi(&data).unwrap().2, 1);
    // The same with a format that is not known.
    let mut data = header_chunk(1, 480);
    data.extend_from_slice(&header_chunk(9, 480));
    data.extend_from_slice(&header_chunk(1, 0x8000));
    data.extend_from_slice(&chunk(b"MTrk", &END));
    assert!(!overflows(&data));
    assert_eq!(parse_midi(&data).unwrap().2, 0);
    // And where fewer than eight bytes are left.
    let mut data = header_chunk(1, 480);
    data.extend_from_slice(&chunk(b"MTrk", &END));
    data.extend_from_slice(b"MThd\x00\x00");
    assert!(!overflows(&data));
    assert_eq!(parse_midi(&data).unwrap().2, 1);
    // A first header with a frame rate that is none ends it at once.
    let mut data = header_chunk(1, 0x8100);
    data.extend_from_slice(&header_chunk(1, 0x8000));
    assert!(!overflows(&data));
    assert_eq!(parse_midi(&data).err(), Some(DecodeError::Parse));
}

#[test]
fn wrapped_file_is_read_behind_its_wrapper() {
    let mut inner = header_chunk(1, 480);
    inner.extend_from_slice(&chunk(b"MTrk", &[0x00, 0x90, 0x3C, 0x50, 0x10, 0x80, 0x3C, 0x00, 0x00, 0xFF, 0x2F, 0x00]));
    let data = wrapped(&[(b"LIST", &[1, 2, 3]), (b"data", &inner)]);
    assert!(!overflows(&data));
    let (bars, notes, tracks) = parse_midi(&data).unwrap();
    assert_eq!((bars.len(), notes.len(), tracks), (1, 1, 1));
    assert_eq!(notes[0].off_time(), 16 * 500_000);
}

#[test]
fn frame_rate_byte_behind_a_wrapper_is_found() {
    let inner = header_chunk(1, 0x8000);
    let data = wrapped(&[(b"data", &inner)]);
    assert!(overflows(&data));
    assert_eq!(parse_midi(&data).err(), Some(DecodeError::Parse));
    // Behind a chunk of odd length and one of another name.
    let mut inner = chunk(b"note", &[7]);
    inner.extend_from_slice(&header_chunk(2, 0x8000));
    let data = wrapped(&[(b"LIST", &[1, 2, 3]), (b"data", &inner)]);
    assert!(overflows(&data));
    assert_eq!(parse_midi(&data).err(), Some(DecodeError::Parse));
    // Only the first chunk named data is the file.
    let good = header_chunk(1, 480);
    let data = wrapped(&[(b"data", &good), (b"data", &header_chunk(1, 0x8000))]);
    assert!(!overflows(&data));
    assert_eq!(parse_midi(&data).unwrap().2, 0);
    // A wrapper of something else holds no file.
    let mut data = wrapped(&[(b"data", &header_chunk(1, 0x8000))]);
    data[8] = b'W';
    assert!(!overflows(&data));
    assert_eq!(parse_midi(&data).err(), Some(DecodeError::Parse));
    // Outside the wrapper the bytes count for nothing.
    let mut data = wrapped(&[(b"LIST", &[1, 2])]);
    data.extend_from_slice(&chunk(b"data", &header_chunk(1, 0x8000)));
    assert!(!overflows(&data));
    assert_eq!(parse_midi(&data).err(), Some(DecodeError::Parse));
}

#[test]
fn track_before_any_header_ends_the_reading() {
    let mut inner = chunk(b"MTrk", &END);
    inner.extend_from_slice(&header_chunk(1, 0x8000));
    let data = wrapped(&[(b"data", &inner)]);
    assert!(!overflows(&data));
    assert_eq!(parse_midi(&data).err(), Some(DecodeError::Parse));
}

#[test]
fn no_tracks_and_no_ticks_per_beat_give_an_empty_timeline() {
    let (bars, notes, tracks) = parse_midi(&header_chunk(1, 0)).unwrap();
    assert_eq!((bars.len(), notes.len(), tracks), (0, 0, 0));
    let (bars, notes, tracks) = parse_midi(&file(1, 0, &[&[], &[]])).unwrap();
    assert_eq!((bars.len(), notes.len(), tracks), (0, 0, 2));
}
