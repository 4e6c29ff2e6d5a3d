//! The playback scheduler: a cursor over a timeline, and the voices that sound.
//!
//! The scheduler makes no sound itself. Each tick it is told which voices
//! have finished and says which to dispose of and which to start; the caller
//! does so and reports each voice that it has started.

use crate::bar::{bars_view, BarView};
use crate::decode::{timeline_from_bytes, timeline_of_bytes};
use crate::error::DecodeError;
use crate::note::{notes_view, NoteView};
use crate::laws::law_current_bar;
use crate::timeline::{notes_valid, Timeline, TimelineView};
use vstd::prelude::*;

verus! {

/// The length of the display window of a new player, in microseconds.
pub const DEFAULT_DISPLAY_RANGE: u64 = 3_000_000;

/// What the caller is asked to start: a voice for one note.
#[derive(Clone, Copy, Debug, PartialEq, Eq, Structural)]
pub struct VoiceRequest {
    /// The index of the note in the timeline.
    pub note: usize,
    pub key: u8,
    pub velocity: u8,
    /// When the voice starts, in time units after the moment of the tick.
    pub start_offset: i128,
    /// How long the voice sounds, in time units.
    pub duration: i128,
}

/// What a tick asks of the caller.
#[derive(Debug)]
pub struct TickActions {
    /// The voices to dispose of, in the order in which they were started.
    pub dispose: Vec<u64>,
    /// The voices to start, in the order of their notes.
    pub start: Vec<VoiceRequest>,
}

/// The scheduler: a timeline, a cursor on it, and the voices that sound.
#[derive(Debug)]
pub struct MidiPlayer {
    timeline: Timeline,
    current_time: i128,
    playing: bool,
    voices: Vec<u64>,
    display_range: u64,
}

/// A player as plain mathematical values.
pub struct PlayerView {
    pub timeline: TimelineView,
    /// The cursor, in time units of the timeline.
    pub current_time: int,
    pub playing: bool,
    /// The handles of the voices that sound, in the order in which they were
    /// started.
    pub voices: Seq<u64>,
    /// The length of the display window, in microseconds.
    pub display_range: int,
}

impl View for MidiPlayer {
    type V = PlayerView;

    closed spec fn view(&self) -> PlayerView {
        PlayerView {
            timeline: self.timeline@,
            current_time: self.current_time as int,
            playing: self.playing,
            voices: self.voices@,
            display_range: self.display_range as int,
        }
    }
}

/// The time `t` as far as the cursor can hold it.
pub open spec fn clamp_time(t: int) -> int {
    if t < i128::MIN {
        i128::MIN as int
    } else if t > i128::MAX {
        i128::MAX as int
    } else {
        t
    }
}

/// The index of the first bar at or after `from` that covers `t`, or the
/// number of bars if none does.
pub open spec fn first_bar_with(bars: Seq<BarView>, t: int, from: int) -> int
    decreases bars.len() - from,
{
    if from >= bars.len() {
        bars.len() as int
    } else if bars[from].contains(t) {
        from
    } else {
        first_bar_with(bars, t, from + 1)
    }
}

/// The bar of the time `t`: zero before the first bar and where there are no
/// bars, else the first bar that covers `t`, or the number of bars if none
/// does.
pub open spec fn bar_at(bars: Seq<BarView>, t: int) -> int {
    if bars.len() == 0 || t < bars[0].begin {
        0
    } else {
        first_bar_with(bars, t, 0)
    }
}

/// The note begins within the `delta` time units that start at `from`.
pub open spec fn due(note: NoteView, from: int, delta: int) -> bool {
    from <= note.on < from + delta
}

/// The indices below `upto` of the notes that are due, in ascending order.
pub open spec fn due_notes(notes: Seq<NoteView>, from: int, delta: int, upto: int) -> Seq<int>
    decreases upto,
{
    if upto <= 0 {
        Seq::empty()
    } else if due(notes[upto - 1], from, delta) {
        due_notes(notes, from, delta, upto - 1).push(upto - 1)
    } else {
        due_notes(notes, from, delta, upto - 1)
    }
}

impl VoiceRequest {
    /// The request is the one for note `index` in a tick of `delta` time
    /// units from `from`: the voice starts as long after the moment of the
    /// tick as the tick's end lies after the note's beginning, and it sounds
    /// as long as the note.
    pub open spec fn is_for(self, notes: Seq<NoteView>, index: int, from: int, delta: int) -> bool {
        &&& self.note == index
        &&& self.key == notes[index].key
        &&& self.velocity == notes[index].velocity
        &&& self.start_offset == from + delta - notes[index].on
        &&& self.duration == notes[index].off - notes[index].on
    }
}

/// The requests are those for the notes that are due, in the order of the
/// notes.
pub open spec fn requests_match(
    requests: Seq<VoiceRequest>,
    notes: Seq<NoteView>,
    from: int,
    delta: int,
    upto: int,
) -> bool {
    let wanted = due_notes(notes, from, delta, upto);
    &&& requests.len() == wanted.len()
    &&& forall|k: int|
        0 <= k < requests.len() ==> (#[trigger] requests[k]).is_for(notes, wanted[k], from, delta)
}

/// Voice `index` was reported finished.
pub open spec fn reported(finished: Seq<bool>, index: int) -> bool {
    0 <= index < finished.len() && finished[index]
}

/// The first `upto` voices without those reported finished.
pub open spec fn kept_voices(voices: Seq<u64>, finished: Seq<bool>, upto: int) -> Seq<u64>
    decreases upto,
{
    if upto <= 0 {
        Seq::empty()
    } else if reported(finished, upto - 1) {
        kept_voices(voices, finished, upto - 1)
    } else {
        kept_voices(voices, finished, upto - 1).push(voices[upto - 1])
    }
}

/// Those of the first `upto` voices that were reported finished.
pub open spec fn dropped_voices(voices: Seq<u64>, finished: Seq<bool>, upto: int) -> Seq<u64>
    decreases upto,
{
    if upto <= 0 {
        Seq::empty()
    } else if reported(finished, upto - 1) {
        dropped_voices(voices, finished, upto - 1).push(voices[upto - 1])
    } else {
        dropped_voices(voices, finished, upto - 1)
    }
}

impl PlayerView {
    /// There is something to play: at least one bar and one note.
    pub open spec fn ready(self) -> bool {
        self.timeline.notes.len() > 0 && self.timeline.bars.len() > 0
    }

    /// The bar in which the cursor stands.
    pub open spec fn current_bar(self) -> int {
        bar_at(self.timeline.bars, self.current_time)
    }

    /// The player with its cursor at `time`, and without voices if `clear`.
    pub open spec fn sought(self, time: int, clear: bool) -> PlayerView {
        PlayerView {
            current_time: time,
            voices: if clear {
                Seq::empty()
            } else {
                self.voices
            },
            ..self
        }
    }

    /// The voices to dispose of when the voices are cleared or not.
    pub open spec fn cleared(self, clear: bool) -> Seq<u64> {
        if clear {
            self.voices
        } else {
            Seq::empty()
        }
    }

    /// The player after a tick of `delta` time units while it plays: the
    /// voices reported finished are gone, the cursor has moved on, and
    /// playback has stopped if the cursor has left the last bar.
    pub open spec fn ticked(self, delta: int, finished: Seq<bool>) -> PlayerView {
        let time = clamp_time(self.current_time + delta);
        PlayerView {
            current_time: time,
            playing: bar_at(self.timeline.bars, time) < self.timeline.bars.len(),
            voices: kept_voices(self.voices, finished, self.voices.len() as int),
            ..self
        }
    }
}

/// The sum of two times, as far as the cursor can hold it.
fn add_clamped(a: i128, b: i128) -> (sum: i128)
    ensures
        sum == clamp_time(a + b),
{
    match a.checked_add(b) {
        Some(sum) => sum,
        None => if b > 0 {
            i128::MAX
        } else {
            i128::MIN
        },
    }
}

impl MidiPlayer {
    /// A player with nothing loaded: stopped, at time zero, without voices.
    pub fn new() -> (player: Self)
        ensures
            player@ == (PlayerView {
                timeline: TimelineView {
                    bars: Seq::empty(),
                    notes: Seq::empty(),
                    track_count: 0,
                    ticks_per_beat: 1,
                },
                current_time: 0,
                playing: false,
                voices: Seq::empty(),
                display_range: DEFAULT_DISPLAY_RANGE as int,
            }),
    {
        MidiPlayer {
            timeline: Timeline::empty(),
            current_time: 0,
            playing: false,
            voices: Vec::new(),
            display_range: DEFAULT_DISPLAY_RANGE,
        }
    }

    /// Hands out all voices and leaves none.
    fn take_voices(&mut self) -> (voices: Vec<u64>)
        ensures
            voices@ == old(self)@.voices,
            final(self)@ == (PlayerView { voices: Seq::empty(), ..old(self)@ }),
    {
        let mut voices: Vec<u64> = Vec::new();
        std::mem::swap(&mut voices, &mut self.voices);
        voices
    }

    /// Takes a new timeline: playback stops, the cursor returns to zero, and
    /// every voice is handed back to be disposed of.
    pub fn load(&mut self, timeline: Timeline) -> (disposed: Vec<u64>)
        ensures
            disposed@ == old(self)@.voices,
            final(self)@ == (PlayerView {
                timeline: timeline@,
                current_time: 0,
                playing: false,
                voices: Seq::empty(),
                display_range: old(self)@.display_range,
            }),
    {
        let disposed = self.take_voices();
        self.timeline = timeline;
        self.current_time = 0;
        self.playing = false;
        disposed
    }

    /// Decodes a Standard MIDI File and loads its timeline. Where the file
    /// has no timeline, the player stays as it is.
    pub fn load_midi(&mut self, data: &[u8]) -> (result: Result<Vec<u64>, DecodeError>)
        ensures
            match timeline_of_bytes(data@) {
                Ok(t) => {
                    &&& result matches Ok(disposed)
                    &&& disposed@ == old(self)@.voices
                    &&& final(self)@ == (PlayerView {
                        timeline: t,
                        current_time: 0,
                        playing: false,
                        voices: Seq::empty(),
                        display_range: old(self)@.display_range,
                    })
                },
                Err(e) => result matches Err(error) && error == e && *final(self) == *old(self),
            },
    {
        match timeline_from_bytes(data) {
            Ok(timeline) => Ok(self.load(timeline)),
            Err(e) => Err(e),
        }
    }

    /// Starts playback if there is something to play.
    pub fn play(&mut self)
        ensures
            final(self)@ == (PlayerView {
                playing: old(self)@.playing || old(self)@.ready(),
                ..old(self)@
            }),
    {
        if self.ready() {
            self.playing = true;
        }
    }

    /// Stops playback and hands every voice back to be disposed of.
    pub fn stop(&mut self) -> (disposed: Vec<u64>)
        ensures
            disposed@ == old(self)@.voices,
            final(self)@ == (PlayerView { playing: false, voices: Seq::empty(), ..old(self)@ }),
    {
        self.playing = false;
        self.take_voices()
    }

    /// Whether there is something to play.
    pub fn ready(&self) -> (ready: bool)
        ensures
            ready == self@.ready(),
    {
        self.timeline.notes().len() > 0 && self.timeline.bars().len() > 0
    }

    /// Whether playback is going on.
    pub fn playing(&self) -> (playing: bool)
        ensures
            playing == self@.playing,
    {
        self.playing
    }

    /// The number of bars of the timeline.
    pub fn num_bars(&self) -> (count: usize)
        ensures
            count == self@.timeline.bars.len(),
    {
        self.timeline.bars().len()
    }

    /// The cursor, in time units of the timeline.
    pub fn current_time(&self) -> (time: i128)
        ensures
            time == self@.current_time,
    {
        self.current_time
    }

    /// The timeline that is loaded.
    pub fn timeline(&self) -> (timeline: &Timeline)
        ensures
            timeline@ == self@.timeline,
    {
        &self.timeline
    }

    /// The handles of the voices that sound.
    pub fn active_voices(&self) -> (voices: &Vec<u64>)
        ensures
            voices@ == self@.voices,
    {
        &self.voices
    }

    /// The length of the display window, in microseconds.
    pub fn display_range(&self) -> (range: u64)
        ensures
            range == self@.display_range,
    {
        self.display_range
    }

    /// Sets the length of the display window, in microseconds.
    pub fn set_display_range(&mut self, range: u64)
        ensures
            final(self)@ == (PlayerView { display_range: range as int, ..old(self)@ }),
    {
        self.display_range = range;
    }

    /// The first bar that covers the cursor, as `bar_at` has it.
    fn find_bar(&self) -> (bar: usize)
        ensures
            bar == self@.current_bar(),
            bar <= self@.timeline.bars.len(),
            self@.timeline.wf(),
    {
        let bars = self.timeline.bars();
        let ghost views = bars_view(bars@);
        let time = self.current_time;
        if bars.len() == 0 {
            return 0;
        }
        assert(bars[0]@ == views[0]);
        if time < bars[0].begin_time() {
            return 0;
        }
        let mut i: usize = 0;
        while i < bars.len()
            invariant
                i <= bars.len(),
                views == bars_view(bars@),
                views == self@.timeline.bars,
                self@.timeline.wf(),
                time == self@.current_time,
                views.len() > 0,
                views[0].begin <= time,
                first_bar_with(views, time as int, 0) == first_bar_with(views, time as int, i as int),
            decreases bars.len() - i,
        {
            let bar = &bars[i];
            assert(bar@ == views[i as int]);
            if bar.begin_time() <= time && time < bar.end_time() {
                return i;
            }
            i = i + 1;
        }
        bars.len()
    }

    /// The bar in which the cursor stands: zero before the first bar and
    /// where there are no bars, the index of the bar that covers the cursor,
    /// and the number of bars from the end of the last bar on.
    pub fn current_bar(&self) -> (bar: usize)
        ensures
            bar == self@.current_bar(),
            bar <= self@.timeline.bars.len(),
            self@.timeline.bars.len() > 0 && self@.current_time < self@.timeline.bars[0].begin
                ==> bar == 0,
            forall|i: int|
                0 <= i < self@.timeline.bars.len() && (#[trigger] self@.timeline.bars[i]).contains(
                    self@.current_time,
                ) ==> bar == i,
            self@.timeline.bars.len() > 0 && self@.current_time >= self@.timeline.bars.last().end
                ==> bar == self@.timeline.bars.len(),
            self@.timeline.wf(),
    {
        let bar = self.find_bar();
        proof {
            law_current_bar(self@.timeline.bars, self@.current_time);
        }
        bar
    }

    /// Moves the cursor to `time`. If `clear_sounds`, every voice is handed
    /// back to be disposed of.
    pub fn seek_time(&mut self, time: i128, clear_sounds: bool) -> (disposed: Vec<u64>)
        ensures
            disposed@ == old(self)@.cleared(clear_sounds),
            final(self)@ == old(self)@.sought(time as int, clear_sounds),
    {
        let disposed = if clear_sounds {
            self.take_voices()
        } else {
            Vec::new()
        };
        self.current_time = time;
        disposed
    }

    /// Moves the cursor to the beginning of a bar: the bar at `bar`, or the
    /// last one if there are not so many. Where there are no bars, nothing
    /// happens: the cursor and the voices stay.
    pub fn seek_bar(&mut self, bar: usize, clear_sounds: bool) -> (disposed: Vec<u64>)
        ensures
            old(self)@.timeline.bars.len() == 0 ==> final(self)@ == old(self)@ && disposed@
                == Seq::<u64>::empty(),
            old(self)@.timeline.bars.len() > 0 ==> disposed@ == old(self)@.cleared(clear_sounds)
                && final(self)@ == old(self)@.sought(
                old(self)@.timeline.bars[if bar < old(self)@.timeline.bars.len() {
                    bar as int
                } else {
                    old(self)@.timeline.bars.len() - 1
                }].begin,
                clear_sounds,
            ),
    {
        let bars = self.timeline.bars();
        if bars.len() == 0 {
            return Vec::new();
        }
        let index = if bar < bars.len() {
            bar
        } else {
            bars.len() - 1
        };
        assert(bars[index as int]@ == bars_view(bars@)[index as int]);
        let time = bars[index].begin_time();
        self.seek_time(time, clear_sounds)
    }

    /// Moves the cursor by `delta`, as far as it can go.
    pub fn skip(&mut self, delta: i128, clear_sounds: bool) -> (disposed: Vec<u64>)
        ensures
            disposed@ == old(self)@.cleared(clear_sounds),
            final(self)@ == old(self)@.sought(
                clamp_time(old(self)@.current_time + delta),
                clear_sounds,
            ),
    {
        let time = add_clamped(self.current_time, delta);
        self.seek_time(time, clear_sounds)
    }

    /// Records a voice that the caller has started.
    pub fn voice_started(&mut self, handle: u64)
        ensures
            final(self)@ == (PlayerView { voices: old(self)@.voices.push(handle), ..old(self)@ }),
    {
        self.voices.push(handle);
    }

    /// The voices that stay and the voices that go, given which of them were
    /// reported finished.
    fn retire(&mut self, finished: &Vec<bool>) -> (dropped: Vec<u64>)
        ensures
            dropped@ == dropped_voices(
                old(self)@.voices,
                finished@,
                old(self)@.voices.len() as int,
            ),
            final(self)@ == (PlayerView {
                voices: kept_voices(old(self)@.voices, finished@, old(self)@.voices.len() as int),
                ..old(self)@
            }),
    {
        let voices = self.take_voices();
        let mut kept: Vec<u64> = Vec::new();
        let mut dropped: Vec<u64> = Vec::new();
        let mut i: usize = 0;
        while i < voices.len()
            invariant
                i <= voices.len(),
                kept@ == kept_voices(voices@, finished@, i as int),
                dropped@ == dropped_voices(voices@, finished@, i as int),
            decreases voices.len() - i,
        {
            if i < finished.len() && finished[i] {
                dropped.push(voices[i]);
            } else {
                kept.push(voices[i]);
            }
            i = i + 1;
        }
        self.voices = kept;
        dropped
    }

    /// The requests for the notes that begin within `delta` time units from
    /// the cursor.
    fn due_requests(&self, delta: i128) -> (requests: Vec<VoiceRequest>)
        ensures
            requests_match(
                requests@,
                self@.timeline.notes,
                self@.current_time,
                delta as int,
                self@.timeline.notes.len() as int,
            ),
    {
        let notes = self.timeline.notes();
        let ghost views = notes_view(notes@);
        let from = self.current_time;
        let mut requests: Vec<VoiceRequest> = Vec::new();
        let mut i: usize = 0;
        while i < notes.len()
            invariant
                i <= notes.len(),
                views == notes_view(notes@),
                notes_valid(views),
                requests_match(requests@, views, from as int, delta as int, i as int),
            decreases notes.len() - i,
        {
            let note = &notes[i];
            assert(note@ == views[i as int]);
            let on = note.on_time();
            let ghost before = requests@;
            let within = match from.checked_add(delta) {
                Some(end) => on < end,
                None => delta > 0,
            };
            if from <= on && within {
                requests.push(
                    VoiceRequest {
                        note: i,
                        key: note.key(),
                        velocity: note.velocity(),
                        start_offset: delta - (on - from),
                        duration: note.off_time() - on,
                    },
                );
                proof {
                    let wanted = due_notes(views, from as int, delta as int, i + 1);
                    assert forall|k: int| 0 <= k < requests@.len() implies (
                    #[trigger] requests@[k]).is_for(views, wanted[k], from as int, delta as int) by {
                        if k < before.len() {
                            assert(requests@[k] == before[k]);
                        }
                    }
                }
            }
            i = i + 1;
        }
        requests
    }

    /// One frame of playback, `delta` time units long.
    ///
    /// Nothing happens while the player is stopped. While it plays, the
    /// voices that were reported finished are dropped and handed back to be
    /// disposed of; `finished` holds one report for each voice, in the order
    /// of `active_voices`, and a voice without a report stays. Then a voice is
    /// requested for every note that begins within `delta` from the cursor,
    /// the cursor moves on by `delta`, and playback stops if the cursor has
    /// left the last bar.
    pub fn tick(&mut self, delta: i128, finished: &Vec<bool>) -> (actions: TickActions)
        ensures
            !old(self)@.playing ==> {
                &&& final(self)@ == old(self)@
                &&& actions.dispose@ == Seq::<u64>::empty()
                &&& actions.start@ == Seq::<VoiceRequest>::empty()
            },
            old(self)@.playing ==> {
                &&& final(self)@ == old(self)@.ticked(delta as int, finished@)
                &&& actions.dispose@ == dropped_voices(
                    old(self)@.voices,
                    finished@,
                    old(self)@.voices.len() as int,
                )
                &&& requests_match(
                    actions.start@,
                    old(self)@.timeline.notes,
                    old(self)@.current_time,
                    delta as int,
                    old(self)@.timeline.notes.len() as int,
                )
            },
    {
        if !self.playing {
            return TickActions { dispose: Vec::new(), start: Vec::new() };
        }
        let dispose = self.retire(finished);
        let start = self.due_requests(delta);
        self.current_time = add_clamped(self.current_time, delta);
        if self.current_bar() >= self.num_bars() {
            self.playing = false;
        }
        TickActions { dispose, start }
    }
}

} // verus!
