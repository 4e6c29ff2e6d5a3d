//! The mathematical model of timeline building.
//!
//! Building is a simulation that runs tick by tick. Its steps are laid out in
//! one sequence, the schedule, and the timeline is what comes of applying
//! them in order to a state. Every step is a small function on that state.

use crate::bar::{bar_number, BarView, OPEN_TIME};
use crate::error::DecodeError;
use crate::event::{EventKind, TrackEvent};
use crate::note::NoteView;
use crate::timeline::TimelineView;
use vstd::prelude::*;

verus! {

/// The tempo before any tempo event: 120 beats per minute, in microseconds
/// per beat.
pub const DEFAULT_TEMPO: u32 = 500_000;

/// What the simulation has worked out so far.
pub struct BuildState {
    /// Ticks per beat of the file.
    pub ticks_per_beat: int,
    /// The absolute time of the tick being simulated.
    pub time: int,
    /// How long a tick lasts, in time units: the tempo in microseconds per beat.
    pub tempo: int,
    /// Ticks in a bar under the time signature in effect.
    pub ticks_per_bar: int,
    /// Ticks left in the bar that is open.
    pub countdown: int,
    /// The bars so far. The last one is open.
    pub bars: Seq<BarView>,
    /// The notes so far, in the order in which they began.
    pub notes: Seq<NoteView>,
    /// For each channel and key that is down, the index of its note.
    pub open: Map<(u8, u8), int>,
}

/// One step of the simulation.
pub enum Step {
    /// A tick begins: a new bar opens if the last one has run out.
    BeginTick,
    /// An event of the given track fires.
    Fire { track: int, kind: EventKind },
    /// A tick ends: time moves on by the length of one tick.
    EndTick,
}

/// Two to the power `e`.
pub open spec fn two_to(e: nat) -> nat
    decreases e,
{
    if e == 0 {
        1
    } else {
        2 * two_to((e - 1) as nat)
    }
}

/// Ticks in a bar of `numerator` beats, each one `2^denominator`-th note,
/// where a quarter note has `ticks_per_beat` ticks and a whole note four
/// quarters. The division rounds down.
pub open spec fn bar_ticks(ticks_per_beat: int, numerator: int, denominator: int) -> int {
    ticks_per_beat * 4 / (two_to(denominator as nat) as int) * numerator
}

/// The time signature gives bars of at least one tick.
pub open spec fn signature_supported(ticks_per_beat: int, numerator: int, denominator: int) -> bool {
    0 <= denominator && bar_ticks(ticks_per_beat, numerator, denominator) > 0
}

/// The state before the first tick: time zero, the default tempo, four beats
/// to the bar, and no bar open yet.
pub open spec fn initial_state(ticks_per_beat: int) -> BuildState {
    BuildState {
        ticks_per_beat,
        time: 0,
        tempo: DEFAULT_TEMPO as int,
        ticks_per_bar: ticks_per_beat * 4,
        countdown: 0,
        bars: Seq::empty(),
        notes: Seq::empty(),
        open: Map::empty(),
    }
}

/// The bars with the end of the last one set to `end`.
pub open spec fn close_last_bar(bars: Seq<BarView>, end: int) -> Seq<BarView> {
    if bars.len() == 0 {
        bars
    } else {
        bars.update(bars.len() - 1, BarView { end, ..bars.last() })
    }
}

/// A tick begins. If the open bar has run out, it ends at the current time
/// and a new bar begins there, with a full countdown.
pub open spec fn begin_tick(s: BuildState) -> BuildState {
    if s.countdown <= 0 {
        BuildState {
            bars: close_last_bar(s.bars, s.time).push(
                BarView { begin: s.time, end: OPEN_TIME as int, number: bar_number(s.bars.len() as int) },
            ),
            countdown: s.ticks_per_bar,
            ..s
        }
    } else {
        s
    }
}

/// A tick ends: one tick less in the bar, and time moves on by one tick at
/// the tempo in effect.
pub open spec fn end_tick(s: BuildState) -> BuildState {
    BuildState { countdown: s.countdown - 1, time: s.time + s.tempo, ..s }
}

/// A key goes down: a new note begins at the current time, unless the key is
/// already down on that channel.
pub open spec fn note_on(s: BuildState, track: int, channel: u8, key: u8, velocity: u8) -> Result<
    BuildState,
    DecodeError,
> {
    if s.open.contains_key((channel, key)) {
        Err(DecodeError::DuplicateNoteOn)
    } else {
        Ok(
            BuildState {
                notes: s.notes.push(
                    NoteView { on: s.time, off: OPEN_TIME as int, key, velocity, track },
                ),
                open: s.open.insert((channel, key), s.notes.len() as int),
                ..s
            },
        )
    }
}

/// A key goes up: its note ends at the current time. Nothing happens if the
/// key is not down.
pub open spec fn note_off(s: BuildState, channel: u8, key: u8) -> BuildState {
    if s.open.contains_key((channel, key)) {
        let id = s.open[(channel, key)];
        BuildState {
            notes: s.notes.update(id, NoteView { off: s.time, ..s.notes[id] }),
            open: s.open.remove((channel, key)),
            ..s
        }
    } else {
        s
    }
}

/// An event fires.
pub open spec fn fire(s: BuildState, track: int, kind: EventKind) -> Result<BuildState, DecodeError> {
    match kind {
        EventKind::NoteOn { channel, key, velocity } => if velocity > 0 {
            note_on(s, track, channel, key, velocity)
        } else {
            Ok(note_off(s, channel, key))
        },
        EventKind::NoteOff { channel, key } => Ok(note_off(s, channel, key)),
        EventKind::Tempo(tempo) => Ok(BuildState { tempo: tempo as int, ..s }),
        EventKind::TimeSignature { numerator, denominator } => if signature_supported(
            s.ticks_per_beat,
            numerator as int,
            denominator as int,
        ) {
            let ticks = bar_ticks(s.ticks_per_beat, numerator as int, denominator as int);
            Ok(BuildState { ticks_per_bar: ticks, countdown: ticks, ..s })
        } else {
            Err(DecodeError::UnsupportedTimeSignature)
        },
        EventKind::EndOfTrack => Ok(s),
        EventKind::Other => Ok(s),
    }
}

/// One step of the simulation.
pub open spec fn apply(s: BuildState, step: Step) -> Result<BuildState, DecodeError> {
    match step {
        Step::BeginTick => Ok(begin_tick(s)),
        Step::Fire { track, kind } => fire(s, track, kind),
        Step::EndTick => Ok(end_tick(s)),
    }
}

/// The steps in order, from state `s`. The first error ends the run.
pub open spec fn run(s: BuildState, steps: Seq<Step>) -> Result<BuildState, DecodeError>
    decreases steps.len(),
{
    if steps.len() == 0 {
        Ok(s)
    } else {
        match run(s, steps.drop_last()) {
            Ok(t) => apply(t, steps.last()),
            Err(e) => Err(e),
        }
    }
}

/// The notes with every open one ended at `end`.
pub open spec fn close_open_notes(notes: Seq<NoteView>, end: int) -> Seq<NoteView> {
    Seq::new(
        notes.len(),
        |i: int|
            if notes[i].off == OPEN_TIME {
                NoteView { off: end, ..notes[i] }
            } else {
                notes[i]
            },
    )
}

/// The timeline of a simulation that has come to its end. The last bar runs
/// to its full length, and notes that no event ended stop where the
/// simulation stops.
pub open spec fn finish(s: BuildState, track_count: int) -> TimelineView {
    TimelineView {
        bars: close_last_bar(s.bars, s.time + s.countdown * s.tempo),
        notes: close_open_notes(s.notes, s.time),
        track_count,
        ticks_per_beat: s.ticks_per_beat,
    }
}

/// The sum of the first `count` delta times of a track: the tick at which
/// event `count - 1` fires.
pub open spec fn elapsed(track: Seq<TrackEvent>, count: int) -> int
    decreases count,
{
    if count <= 0 {
        0
    } else {
        elapsed(track, count - 1) + track[count - 1].delta
    }
}

/// The index of the first end-of-track event at or after `from`, or the
/// track's length if there is none.
pub open spec fn first_end(track: Seq<TrackEvent>, from: int) -> int
    decreases track.len() - from,
{
    if from >= track.len() {
        track.len() as int
    } else if track[from].kind == EventKind::EndOfTrack {
        from
    } else {
        first_end(track, from + 1)
    }
}

/// The track is empty or holds an end-of-track event.
pub open spec fn terminated(track: Seq<TrackEvent>) -> bool {
    track.len() == 0 || first_end(track, 0) < track.len()
}

/// The index of the last event of a track that fires: its first
/// end-of-track event, or its last event if it has none.
pub open spec fn last_event(track: Seq<TrackEvent>) -> int {
    if first_end(track, 0) < track.len() {
        first_end(track, 0)
    } else {
        track.len() - 1
    }
}

/// Event `index` of the track fires, and it does so at tick `tick`. Events
/// behind the first end-of-track event never fire.
pub open spec fn fires_at(track: Seq<TrackEvent>, index: int, tick: int) -> bool {
    0 <= index <= last_event(track) && elapsed(track, index + 1) == tick
}

/// The steps of the events of one track that fire at `tick`, among its first
/// `upto` events, in the order of the track.
pub open spec fn track_steps(track: Seq<TrackEvent>, number: int, tick: int, upto: int) -> Seq<Step>
    decreases upto,
{
    if upto <= 0 {
        Seq::empty()
    } else if fires_at(track, upto - 1, tick) {
        track_steps(track, number, tick, upto - 1).push(
            Step::Fire { track: number, kind: track[upto - 1].kind },
        )
    } else {
        track_steps(track, number, tick, upto - 1)
    }
}

/// The steps of tick `tick` up to, but without, the track at `upto`: the
/// tick begins, then the tracks fire in the order of their indices.
pub open spec fn tick_steps(tracks: Seq<Seq<TrackEvent>>, tick: int, upto: int) -> Seq<Step>
    decreases upto,
{
    if upto <= 0 {
        seq![Step::BeginTick]
    } else {
        tick_steps(tracks, tick, upto - 1) + track_steps(
            tracks[upto - 1],
            upto - 1,
            tick,
            tracks[upto - 1].len() as int,
        )
    }
}

/// The steps of the first `ticks` ticks.
pub open spec fn schedule(tracks: Seq<Seq<TrackEvent>>, ticks: int) -> Seq<Step>
    decreases ticks,
{
    if ticks <= 0 {
        Seq::empty()
    } else {
        schedule(tracks, ticks - 1) + tick_steps(tracks, ticks - 1, tracks.len() as int).push(
            Step::EndTick,
        )
    }
}

/// The number of ticks for which a track keeps the simulation going: none
/// for an empty track, else up to and with the tick of the last event that
/// fires.
pub open spec fn track_span(track: Seq<TrackEvent>) -> int {
    if track.len() == 0 {
        0
    } else {
        elapsed(track, last_event(track) + 1) + 1
    }
}

/// The longest span among the first `upto` tracks.
pub open spec fn longest_span(tracks: Seq<Seq<TrackEvent>>, upto: int) -> int
    decreases upto,
{
    if upto <= 0 {
        0
    } else {
        let rest = longest_span(tracks, upto - 1);
        let span = track_span(tracks[upto - 1]);
        if span > rest {
            span
        } else {
            rest
        }
    }
}

/// The number of ticks that the simulation runs: until every track has ended.
pub open spec fn total_ticks(tracks: Seq<Seq<TrackEvent>>) -> int {
    longest_span(tracks, tracks.len() as int)
}

/// The tracks of a vector as sequences.
pub open spec fn tracks_view(tracks: Seq<Vec<TrackEvent>>) -> Seq<Seq<TrackEvent>> {
    Seq::new(tracks.len(), |i: int| tracks[i]@)
}

/// Every track is empty or holds an end-of-track event.
pub open spec fn all_terminated(tracks: Seq<Seq<TrackEvent>>) -> bool {
    forall|t: int| 0 <= t < tracks.len() ==> terminated(#[trigger] tracks[t])
}

/// Every event of every track is in the ranges that a MIDI file can encode.
pub open spec fn all_wf(tracks: Seq<Seq<TrackEvent>>) -> bool {
    forall|t: int, i: int|
        0 <= t < tracks.len() && 0 <= i < tracks[t].len() ==> (#[trigger] tracks[t][i]).wf()
}

/// The timeline of the given tracks, or why there is none.
///
/// A time base of zero ticks per beat is refused first, where there is a tick
/// to simulate. Then the simulation runs until every event that fires has
/// fired, and fails at the first step that fails. If no step fails, a track
/// that holds events but no end-of-track event is refused: its end is never
/// reached. Tracks without events give a timeline without bars and notes,
/// whatever the time base.
pub open spec fn timeline_of(tracks: Seq<Seq<TrackEvent>>, ticks_per_beat: int) -> Result<
    TimelineView,
    DecodeError,
> {
    if ticks_per_beat <= 0 && total_ticks(tracks) > 0 {
        Err(DecodeError::UnsupportedTiming)
    } else {
        match run(initial_state(ticks_per_beat), schedule(tracks, total_ticks(tracks))) {
            Ok(s) => if all_terminated(tracks) {
                Ok(finish(s, tracks.len() as int))
            } else {
                Err(DecodeError::UnterminatedTrack)
            },
            Err(e) => Err(e),
        }
    }
}

} // verus!
