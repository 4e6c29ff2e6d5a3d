use midi_player::player::DEFAULT_DISPLAY_RANGE;
use midi_player::{build, Bar, DecodeError, EventKind, MidiPlayer, Note, Timeline, TrackEvent};

const TEMPO: i128 = 500_000;
const BAR: i128 = 1920 * TEMPO;

fn at(delta: u32, kind: EventKind) -> TrackEvent {
    TrackEvent { delta, kind }
}

/// Three bars in 4/4 at 480 ticks per beat, with notes on the first beat of
/// each bar and one on the third beat of the first.
fn three_bars() -> Timeline {
    let tracks = vec![vec![
        at(0, EventKind::NoteOn { channel: 0, key: 60, velocity: 100 }),
        at(480, EventKind::NoteOff { channel: 0, key: 60 }),
        at(480, EventKind::NoteOn { channel: 0, key: 64, velocity: 90 }),
        at(240, EventKind::NoteOff { channel: 0, key: 64 }),
        at(720, EventKind::NoteOn { channel: 0, key: 67, velocity: 80 }),
        at(1920, EventKind::NoteOff { channel: 0, key: 67 }),
        at(0, EventKind::NoteOn { channel: 0, key: 72, velocity: 70 }),
        at(100, EventKind::NoteOff { channel: 0, key: 72 }),
        at(0, EventKind::EndOfTrack),
    ]];
    let timeline = build(&tracks, 480).unwrap();
    assert_eq!(timeline.bars().len(), 3);
    timeline
}

fn loaded() -> MidiPlayer {
    let mut player = MidiPlayer::new();
    assert!(player.load(three_bars()).is_empty());
    player
}

#[test]
fn new_player_is_stopped_and_empty() {
    let player = MidiPlayer::new();
    assert!(!player.playing());
    assert!(!player.ready());
    assert_eq!(player.num_bars(), 0);
    assert_eq!(player.current_bar(), 0);
    assert_eq!(player.current_time(), 0);
    assert!(player.active_voices().is_empty());
    assert_eq!(player.display_range(), DEFAULT_DISPLAY_RANGE);
    assert_eq!(player.display_range(), 3_000_000);
    assert_eq!(player.timeline().ticks_per_beat(), 1);
    assert_eq!(player.timeline().units_per_second(), 1_000_000);
}

#[test]
fn play_without_anything_loaded_stays_stopped() {
    let mut player = MidiPlayer::new();
    player.play();
    assert!(!player.playing());
    let actions = player.tick(1000, &Vec::new());
    assert!(actions.start.is_empty());
    assert_eq!(player.current_time(), 0);
}

#[test]
fn play_with_bars_but_no_notes_stays_stopped() {
    let bars = vec![Bar::new(0, 100, 0), Bar::new(100, 200, 1)];
    let timeline = Timeline::new(bars, Vec::new(), 1, 480).unwrap();
    let mut player = MidiPlayer::new();
    player.load(timeline);
    assert_eq!(player.num_bars(), 2);
    assert!(!player.ready());
    player.play();
    assert!(!player.playing());
}

#[test]
fn play_with_notes_but_no_bars_stays_stopped() {
    let notes = vec![Note::new(0, 10, 60, 100, 0)];
    let timeline = Timeline::new(Vec::new(), notes, 1, 480).unwrap();
    let mut player = MidiPlayer::new();
    player.load(timeline);
    assert!(!player.ready());
    player.play();
    assert!(!player.playing());
}

#[test]
fn play_starts_when_ready() {
    let mut player = loaded();
    assert!(player.ready());
    assert_eq!(player.num_bars(), 3);
    player.play();
    assert!(player.playing());
    player.play();
    assert!(player.playing());
}

#[test]
fn seek_bar_beyond_the_end_goes_to_the_last_bar_and_clears_voices() {
    let mut player = loaded();
    player.voice_started(11);
    player.voice_started(12);
    let bars = player.num_bars();
    let disposed = player.seek_bar(bars + 5, true);
    assert_eq!(disposed, vec![11, 12]);
    assert!(player.active_voices().is_empty());
    assert_eq!(player.current_time(), 2 * BAR);
    assert_eq!(player.current_bar(), 2);
}

#[test]
fn seek_bar_keeps_voices_unless_told_to_clear() {
    let mut player = loaded();
    player.voice_started(5);
    let disposed = player.seek_bar(1, false);
    assert!(disposed.is_empty());
    assert_eq!(player.active_voices(), &vec![5]);
    assert_eq!(player.current_time(), BAR);
    assert_eq!(player.current_bar(), 1);
    player.seek_bar(0, false);
    assert_eq!(player.current_time(), 0);
    player.seek_bar(2, false);
    assert_eq!(player.current_time(), 2 * BAR);
}

#[test]
fn current_bar_follows_the_cursor() {
    let mut player = loaded();
    player.seek_time(-1, false);
    assert_eq!(player.current_bar(), 0);
    player.seek_time(0, false);
    assert_eq!(player.current_bar(), 0);
    player.seek_time(BAR - 1, false);
    assert_eq!(player.current_bar(), 0);
    player.seek_time(BAR, false);
    assert_eq!(player.current_bar(), 1);
    player.seek_time(3 * BAR - 1, false);
    assert_eq!(player.current_bar(), 2);
    player.seek_time(3 * BAR, false);
    assert_eq!(player.current_bar(), 3);
    player.seek_time(i128::MAX, false);
    assert_eq!(player.current_bar(), 3);
    player.seek_time(i128::MIN, false);
    assert_eq!(player.current_bar(), 0);
}

#[test]
fn seek_time_clears_voices_when_told() {
    let mut player = loaded();
    player.voice_started(1);
    assert!(player.seek_time(77, false).is_empty());
    assert_eq!(player.current_time(), 77);
    assert_eq!(player.active_voices().len(), 1);
    assert_eq!(player.seek_time(78, true), vec![1]);
    assert_eq!(player.current_time(), 78);
    assert!(player.active_voices().is_empty());
}

#[test]
fn skip_moves_the_cursor_by_its_argument() {
    let mut player = loaded();
    player.seek_time(1000, false);
    player.skip(500, false);
    assert_eq!(player.current_time(), 1500);
    player.skip(-2000, false);
    assert_eq!(player.current_time(), -500);
    player.voice_started(9);
    assert_eq!(player.skip(0, true), vec![9]);
    assert_eq!(player.current_time(), -500);
}

#[test]
fn skip_stops_at_the_ends_of_time() {
    let mut player = loaded();
    player.seek_time(i128::MAX - 5, false);
    player.skip(10, false);
    assert_eq!(player.current_time(), i128::MAX);
    player.seek_time(i128::MIN + 5, false);
    player.skip(-10, false);
    assert_eq!(player.current_time(), i128::MIN);
}

#[test]
fn stop_hands_back_every_voice() {
    let mut player = loaded();
    player.play();
    player.voice_started(3);
    player.voice_started(4);
    assert_eq!(player.stop(), vec![3, 4]);
    assert!(!player.playing());
    assert!(player.active_voices().is_empty());
    assert!(player.stop().is_empty());
}

#[test]
fn tick_does_nothing_while_stopped() {
    let mut player = loaded();
    player.voice_started(3);
    let actions = player.tick(BAR, &vec![true]);
    assert!(actions.dispose.is_empty());
    assert!(actions.start.is_empty());
    assert_eq!(player.current_time(), 0);
    assert_eq!(player.active_voices(), &vec![3]);
}

#[test]
fn tick_requests_the_notes_that_begin_within_it() {
    let mut player = loaded();
    player.play();
    let delta = 100 * TEMPO;
    let actions = player.tick(delta, &Vec::new());
    assert_eq!(actions.start.len(), 1);
    let request = actions.start[0];
    assert_eq!(request.note, 0);
    assert_eq!(request.key, 60);
    assert_eq!(request.velocity, 100);
    assert_eq!(request.start_offset, delta);
    assert_eq!(request.duration, 480 * TEMPO);
    assert_eq!(player.current_time(), delta);
    assert!(player.playing());
    // Nothing begins between ticks 100 and 960.
    let actions = player.tick(860 * TEMPO, &Vec::new());
    assert!(actions.start.is_empty());
    assert_eq!(player.current_time(), 960 * TEMPO);
    // The note at tick 960 lies at the very start of this window.
    let actions = player.tick(10 * TEMPO, &Vec::new());
    assert_eq!(actions.start.len(), 1);
    assert_eq!(actions.start[0].note, 1);
    assert_eq!(actions.start[0].key, 64);
    assert_eq!(actions.start[0].start_offset, 10 * TEMPO);
    assert_eq!(actions.start[0].duration, 240 * TEMPO);
}

#[test]
fn tick_window_is_closed_at_its_start_and_open_at_its_end() {
    let mut player = loaded();
    player.play();
    player.seek_time(960 * TEMPO - 5, false);
    // The window ends exactly where the note begins: not yet due.
    assert!(player.tick(5, &Vec::new()).start.is_empty());
    let actions = player.tick(1, &Vec::new());
    assert_eq!(actions.start.len(), 1);
    assert_eq!(actions.start[0].start_offset, 1);
    assert!(player.tick(1, &Vec::new()).start.is_empty());
}

#[test]
fn tick_requests_several_notes_in_the_order_of_the_notes() {
    let mut player = loaded();
    player.play();
    player.seek_time(1920 * TEMPO, false);
    let delta = 2000 * TEMPO;
    let actions = player.tick(delta, &Vec::new());
    assert_eq!(actions.start.len(), 2);
    assert_eq!(actions.start[0].note, 2);
    assert_eq!(actions.start[0].key, 67);
    assert_eq!(actions.start[0].start_offset, delta);
    assert_eq!(actions.start[0].duration, 1920 * TEMPO);
    assert_eq!(actions.start[1].note, 3);
    assert_eq!(actions.start[1].key, 72);
    assert_eq!(actions.start[1].start_offset, delta - 1920 * TEMPO);
    assert_eq!(actions.start[1].duration, 100 * TEMPO);
}

#[test]
fn tick_with_no_or_negative_length_requests_nothing() {
    let mut player = loaded();
    player.play();
    assert!(player.tick(0, &Vec::new()).start.is_empty());
    assert_eq!(player.current_time(), 0);
    assert!(player.tick(-10, &Vec::new()).start.is_empty());
    assert_eq!(player.current_time(), -10);
    assert!(player.playing());
    let actions = player.tick(11, &Vec::new());
    assert_eq!(actions.start.len(), 1);
    assert_eq!(actions.start[0].start_offset, 1);
}

#[test]
fn tick_drops_the_voices_reported_finished() {
    let mut player = loaded();
    player.play();
    for handle in [10, 11, 12, 13] {
        player.voice_started(handle);
    }
    let actions = player.tick(1, &vec![false, true, false, true]);
    assert_eq!(actions.dispose, vec![11, 13]);
    assert_eq!(player.active_voices(), &vec![10, 12]);
    // A voice without a report stays, and reports beyond the voices count
    // for nothing.
    let actions = player.tick(1, &vec![true]);
    assert_eq!(actions.dispose, vec![10]);
    assert_eq!(player.active_voices(), &vec![12]);
    let actions = player.tick(1, &vec![false, true, true]);
    assert!(actions.dispose.is_empty());
    assert_eq!(player.active_voices(), &vec![12]);
}

#[test]
fn playback_stops_behind_the_last_bar() {
    let mut player = loaded();
    player.play();
    player.tick(3 * BAR - 1, &Vec::new());
    assert!(player.playing());
    assert_eq!(player.current_bar(), 2);
    player.voice_started(1);
    let actions = player.tick(1, &vec![false]);
    assert!(!player.playing());
    assert_eq!(player.current_bar(), 3);
    assert_eq!(player.current_time(), 3 * BAR);
    // Stopping by itself disposes of nothing.
    assert!(actions.dispose.is_empty());
    assert_eq!(player.active_voices(), &vec![1]);
    // No replay: further ticks do nothing.
    player.tick(1, &Vec::new());
    assert_eq!(player.current_time(), 3 * BAR);
}

#[test]
fn tick_at_the_end_of_time_stops_there() {
    let mut player = loaded();
    player.play();
    player.seek_time(i128::MAX - 1, false);
    player.tick(100, &Vec::new());
    assert_eq!(player.current_time(), i128::MAX);
    assert!(!player.playing());
}

#[test]
fn load_resets_the_player() {
    let mut player = loaded();
    player.play();
    player.set_display_range(5_000_000);
    player.tick(10, &Vec::new());
    player.voice_started(8);
    let disposed = player.load(three_bars());
    assert_eq!(disposed, vec![8]);
    assert!(!player.playing());
    assert_eq!(player.current_time(), 0);
    assert!(player.active_voices().is_empty());
    assert_eq!(player.display_range(), 5_000_000);
    assert_eq!(player.num_bars(), 3);
}

#[test]
fn load_midi_that_fails_leaves_the_player_as_it_was() {
    let mut player = loaded();
    player.play();
    player.tick(10, &Vec::new());
    player.voice_started(8);
    let result = player.load_midi(b"not a midi file");
    assert_eq!(result, Err(DecodeError::Parse));
    assert!(player.playing());
    assert_eq!(player.current_time(), 10);
    assert_eq!(player.active_voices(), &vec![8]);
    assert_eq!(player.num_bars(), 3);
}

#[test]
fn set_display_range_changes_only_the_range() {
    let mut player = loaded();
    player.seek_time(4, false);
    player.set_display_range(1);
    assert_eq!(player.display_range(), 1);
    assert_eq!(player.current_time(), 4);
    assert_eq!(player.num_bars(), 3);
}

#[test]
fn timeline_parts_are_checked() {
    // Only a timeline without bars and notes has a time base of zero.
    assert!(Timeline::new(Vec::new(), Vec::new(), 0, 0).is_some());
    assert!(Timeline::new(vec![Bar::new(0, 2, 0)], Vec::new(), 0, 0).is_none());
    assert!(Timeline::new(Vec::new(), vec![Note::new(0, 2, 60, 1, 0)], 0, 0).is_none());
    assert!(Timeline::new(Vec::new(), Vec::new(), 0, 1).is_some());
    // The first bar begins at zero.
    assert!(Timeline::new(vec![Bar::new(1, 2, 0)], Vec::new(), 0, 1).is_none());
    // A bar does not end before it begins.
    assert!(Timeline::new(vec![Bar::new(0, -1, 0)], Vec::new(), 0, 1).is_none());
    // A bar begins where the one before it ends.
    assert!(Timeline::new(vec![Bar::new(0, 5, 0), Bar::new(6, 9, 1)], Vec::new(), 0, 1).is_none());
    assert!(Timeline::new(vec![Bar::new(0, 5, 0), Bar::new(5, 9, 1)], Vec::new(), 0, 1).is_some());
    // Bars are numbered by their position.
    assert!(Timeline::new(vec![Bar::new(0, 5, 0), Bar::new(5, 9, 2)], Vec::new(), 0, 1).is_none());
    // A note begins at zero or later, and ends no earlier than it begins.
    assert!(Timeline::new(Vec::new(), vec![Note::new(-1, 4, 0, 1, 0)], 0, 1).is_none());
    assert!(Timeline::new(Vec::new(), vec![Note::new(5, 4, 0, 1, 0)], 0, 1).is_none());
    assert!(Timeline::new(Vec::new(), vec![Note::new(5, -1, 0, 1, 0)], 0, 1).is_none());
    assert!(Timeline::new(Vec::new(), vec![Note::new(5, 5, 0, 1, 0)], 0, 1).is_some());
    // No note begins before the one before it.
    let apart = vec![Note::new(5, 9, 60, 1, 0), Note::new(4, 9, 60, 1, 0)];
    assert!(Timeline::new(Vec::new(), apart, 0, 1).is_none());
    let together = vec![Note::new(4, 9, 60, 1, 7), Note::new(4, 5, 60, 1, 300)];
    assert!(Timeline::new(Vec::new(), together, 0, 1).is_some());
    // Its key is at most 127, its velocity between 1 and 127.
    assert!(Timeline::new(Vec::new(), vec![Note::new(5, 6, 127, 127, 255)], 0, 1).is_some());
    assert!(Timeline::new(Vec::new(), vec![Note::new(5, 6, 128, 1, 0)], 0, 1).is_none());
    assert!(Timeline::new(Vec::new(), vec![Note::new(5, 6, 0, 0, 0)], 0, 1).is_none());
    assert!(Timeline::new(Vec::new(), vec![Note::new(5, 6, 0, 128, 0)], 0, 1).is_none());
}

#[test]
fn current_bar_skips_bars_without_length() {
    let bars = vec![Bar::new(0, 0, 0), Bar::new(0, 10, 1), Bar::new(10, 10, 2)];
    let notes = vec![Note::new(0, 1, 60, 1, 0)];
    let mut player = MidiPlayer::new();
    player.load(Timeline::new(bars, notes, 1, 1).unwrap());
    assert_eq!(player.current_bar(), 1);
    player.seek_time(9, false);
    assert_eq!(player.current_bar(), 1);
    player.seek_time(10, false);
    assert_eq!(player.current_bar(), 3);
}

#[test]
fn bars_and_notes_hold_what_they_are_given() {
    let mut bar = Bar::new(3, -1, 7);
    assert_eq!(bar.begin_time(), 3);
    assert_eq!(bar.end_time(), midi_player::bar::OPEN_TIME);
    assert_eq!(bar.number(), 7);
    bar.set_end_time(9);
    assert_eq!(bar.end_time(), 9);
    assert_eq!(bar.begin_time(), 3);
    let mut note = Note::new(4, -1, 60, 100, 2);
    assert_eq!(note.on_time(), 4);
    assert_eq!(note.off_time(), -1);
    assert_eq!(note.key(), 60);
    assert_eq!(note.velocity(), 100);
    assert_eq!(note.track(), 2);
    note.set_off_time(8);
    assert_eq!(note.off_time(), 8);
    assert_eq!(note.on_time(), 4);
}

#[test]
fn display_window_is_the_range_in_time_units() {
    let mut player = loaded();
    // Three seconds at 480 ticks per beat.
    assert_eq!(player.window_end(), 3_000_000 * 480);
    player.seek_time(100, false);
    player.set_display_range(2);
    assert_eq!(player.window_end(), 100 + 2 * 480);
    player.set_display_range(0);
    assert_eq!(player.window_end(), 100);
    player.seek_time(i128::MAX - 10, false);
    player.set_display_range(u64::MAX);
    assert_eq!(player.window_end(), i128::MAX);
}

#[test]
fn bars_in_the_display_window_are_visible() {
    let mut player = loaded();
    // One second shows 480000000 units: half a bar and a bit.
    player.set_display_range(1_000_000);
    assert_eq!(player.visible_bars(), vec![0]);
    player.set_display_range(2_000_000);
    // The window ends exactly where the second bar begins: it counts.
    assert_eq!(player.visible_bars(), vec![0, 1]);
    player.seek_time(BAR, false);
    // The first bar ends exactly where the window begins: it counts.
    assert_eq!(player.visible_bars(), vec![0, 1, 2]);
    player.seek_time(BAR + 1, false);
    assert_eq!(player.visible_bars(), vec![1, 2]);
    player.seek_time(3 * BAR + 1, false);
    assert!(player.visible_bars().is_empty());
    player.seek_time(-10 * BAR, false);
    assert!(player.visible_bars().is_empty());
}

#[test]
fn notes_in_the_display_window_are_visible() {
    let notes = vec![
        Note::new(0, 10, 60, 100, 0),
        Note::new(5, 20, 20, 100, 0),
        Note::new(5, 20, 21, 100, 1),
        Note::new(30, 40, 108, 100, 0),
        Note::new(30, 40, 109, 100, 0),
        Note::new(50, 60, 60, 100, 0),
    ];
    let bars = vec![Bar::new(0, 100, 0)];
    let mut player = MidiPlayer::new();
    player.load(Timeline::new(bars, notes, 2, 1).unwrap());
    player.set_display_range(30);
    assert_eq!(player.visible_notes(0, 21, 108), vec![0, 3]);
    assert_eq!(player.visible_notes(1, 21, 108), vec![2]);
    assert_eq!(player.visible_notes(0, 0, 127), vec![0, 1, 3, 4]);
    assert!(player.visible_notes(2, 0, 127).is_empty());
    player.seek_time(10, false);
    assert_eq!(player.visible_notes(0, 21, 108), vec![0, 3]);
    player.seek_time(11, false);
    assert_eq!(player.visible_notes(0, 21, 108), vec![3]);
    player.seek_time(41, false);
    assert_eq!(player.visible_notes(0, 21, 108), vec![5]);
    assert!(player.visible_notes(0, 108, 21).is_empty());
}

#[test]
fn white_keys_are_the_seven_of_the_scale() {
    let white: Vec<u8> = (0..24).filter(|key| midi_player::display::is_white_key(*key)).collect();
    assert_eq!(white, vec![0, 2, 4, 5, 7, 9, 11, 12, 14, 16, 17, 19, 21, 23]);
    assert!(midi_player::display::is_white_key(60));
    assert!(!midi_player::display::is_white_key(61));
    assert!(midi_player::display::is_white_key(254));
    assert!(!midi_player::display::is_white_key(253));
    assert_eq!(midi_player::display::LOWEST_KEY, 21);
    assert_eq!(midi_player::display::HIGHEST_KEY, 108);
}

#[test]
fn seek_bar_without_bars_does_nothing() {
    let mut player = MidiPlayer::new();
    player.voice_started(4);
    player.seek_time(9, false);
    assert!(player.seek_bar(0, true).is_empty());
    assert!(player.seek_bar(7, false).is_empty());
    assert_eq!(player.current_time(), 9);
    assert_eq!(player.active_voices(), &vec![4]);
    assert!(!player.playing());
    assert_eq!(player.num_bars(), 0);
}
