//! The timeline builder: the state of the simulation and its steps.

use crate::bar::{bars_view, Bar, OPEN_TIME};
use crate::error::DecodeError;
use crate::event::EventKind;
use crate::model::{
    bar_ticks, begin_tick, close_last_bar, close_open_notes, end_tick, finish, fire,
    initial_state, note_off, signature_supported, two_to, BuildState, DEFAULT_TEMPO,
};
use crate::note::{notes_view, Note};
use crate::open_notes::OpenNoteIndex;
use crate::steady::{
    lemma_bar_ticks_bounds, lemma_begin_tick_ticking, lemma_finish_wf, lemma_fire_ticking,
    lemma_initial_resting, lemma_two_to_bounds, resting, ticking,
};
use crate::timeline::Timeline;
use vstd::prelude::*;

verus! {

/// The state of a build in progress.
pub struct TimelineBuilder {
    ticks_per_beat: u16,
    time: i128,
    tempo: u32,
    ticks_per_bar: u32,
    countdown: u32,
    bars: Vec<Bar>,
    notes: Vec<Note>,
    open: OpenNoteIndex,
}

impl View for TimelineBuilder {
    type V = BuildState;

    closed spec fn view(&self) -> BuildState {
        BuildState {
            ticks_per_beat: self.ticks_per_beat as int,
            time: self.time as int,
            tempo: self.tempo as int,
            ticks_per_bar: self.ticks_per_bar as int,
            countdown: self.countdown as int,
            bars: bars_view(self.bars@),
            notes: notes_view(self.notes@),
            open: self.open@,
        }
    }
}

/// The ticks in a bar under a time signature, if it is supported.
pub fn ticks_in_bar(ticks_per_beat: u16, numerator: u8, denominator: u8) -> (ticks: Option<u32>)
    ensures
        match ticks {
            Some(t) => signature_supported(
                ticks_per_beat as int,
                numerator as int,
                denominator as int,
            ) && t == bar_ticks(ticks_per_beat as int, numerator as int, denominator as int),
            None => !signature_supported(
                ticks_per_beat as int,
                numerator as int,
                denominator as int,
            ),
        },
{
    proof {
        lemma_bar_ticks_bounds(ticks_per_beat as int, numerator as int, denominator as int);
    }
    if denominator > 17 {
        return None;
    }
    let mut power: u32 = 1;
    let mut exponent: u8 = 0;
    while exponent < denominator
        invariant
            exponent <= denominator <= 17,
            power == two_to(exponent as nat),
        decreases denominator - exponent,
    {
        proof {
            lemma_two_to_bounds((exponent + 1) as nat);
        }
        power = power * 2;
        exponent = exponent + 1;
    }
    let beat: u32 = ticks_per_beat as u32 * 4 / power;
    let ticks: u32 = beat * (numerator as u32);
    if ticks == 0 {
        None
    } else {
        Some(ticks)
    }
}

impl TimelineBuilder {
    /// The builder before the first tick.
    pub fn new(ticks_per_beat: u16) -> (builder: Self)
        ensures
            builder@ == initial_state(ticks_per_beat as int),
            ticks_per_beat > 0 ==> resting(builder@),
    {
        proof {
            if ticks_per_beat > 0 {
                lemma_initial_resting(ticks_per_beat as int);
            }
        }
        let builder = TimelineBuilder {
            ticks_per_beat,
            time: 0,
            tempo: DEFAULT_TEMPO,
            ticks_per_bar: ticks_per_beat as u32 * 4,
            countdown: 0,
            bars: Vec::new(),
            notes: Vec::new(),
            open: OpenNoteIndex::new(),
        };
        assert(builder@.bars =~= Seq::empty());
        assert(builder@.notes =~= Seq::empty());
        builder
    }

    /// A tick begins: if the open bar has run out, or none is open yet, a new
    /// bar begins at the current time.
    pub fn begin_tick(&mut self)
        requires
            resting(old(self)@),
        ensures
            final(self)@ == begin_tick(old(self)@),
            ticking(final(self)@),
    {
        proof {
            lemma_begin_tick_ticking(self@);
        }
        if self.countdown == 0 {
            let count = self.bars.len();
            if count > 0 {
                let mut last = self.bars[count - 1];
                last.set_end_time(self.time);
                self.bars.set(count - 1, last);
            }
            let number: u32 = (count as u64 % 0x1_0000_0000) as u32;
            self.bars.push(Bar::new(self.time, OPEN_TIME, number));
            self.countdown = self.ticks_per_bar;
            assert(self@.bars =~= begin_tick(old(self)@).bars);
        }
    }

    /// An event of the given track fires. An error leaves the builder as it
    /// was.
    pub fn fire(&mut self, track: usize, kind: EventKind) -> (result: Result<(), DecodeError>)
        requires
            ticking(old(self)@),
            kind.wf(),
        ensures
            match fire(old(self)@, track as int, kind) {
                Ok(s) => result is Ok && final(self)@ == s && ticking(s),
                Err(e) => result == Err::<(), DecodeError>(e) && final(self)@ == old(self)@,
            },
    {
        proof {
            lemma_fire_ticking(self@, track as int, kind);
        }
        match kind {
            EventKind::NoteOn { channel, key, velocity } => {
                if velocity > 0 {
                    if self.open.get(channel, key).is_some() {
                        return Err(DecodeError::DuplicateNoteOn);
                    }
                    let id = self.notes.len();
                    self.notes.push(Note::new(self.time, OPEN_TIME, key, velocity, track));
                    self.open.insert(channel, key, id);
                    assert(self@.notes =~= fire(old(self)@, track as int, kind)->Ok_0.notes);
                } else {
                    self.release(channel, key);
                }
            },
            EventKind::NoteOff { channel, key } => {
                self.release(channel, key);
            },
            EventKind::Tempo(tempo) => {
                self.tempo = tempo;
            },
            EventKind::TimeSignature { numerator, denominator } => {
                match ticks_in_bar(self.ticks_per_beat, numerator, denominator) {
                    Some(ticks) => {
                        self.ticks_per_bar = ticks;
                        self.countdown = ticks;
                    },
                    None => {
                        return Err(DecodeError::UnsupportedTimeSignature);
                    },
                }
            },
            EventKind::EndOfTrack => {},
            EventKind::Other => {},
        }
        Ok(())
    }

    /// A key goes up: its note, if it has one, ends at the current time.
    fn release(&mut self, channel: u8, key: u8)
        requires
            ticking(old(self)@),
        ensures
            final(self)@ == note_off(old(self)@, channel, key),
    {
        match self.open.remove(channel, key) {
            Some(id) => {
                let mut note = self.notes[id];
                note.set_off_time(self.time);
                self.notes.set(id, note);
                assert(self@.notes =~= note_off(old(self)@, channel, key).notes);
            },
            None => {
                assert(self@.open =~= old(self)@.open);
            },
        }
    }

    /// A tick ends: the bar has one tick less, and time moves on by a tick.
    pub fn end_tick(&mut self)
        requires
            ticking(old(self)@),
            old(self)@.time + old(self)@.tempo <= i128::MAX,
        ensures
            final(self)@ == end_tick(old(self)@),
            resting(final(self)@),
    {
        self.countdown = self.countdown - 1;
        self.time = self.time + self.tempo as i128;
    }

    /// The timeline of a build that has come to its end.
    pub fn finish(self, track_count: usize) -> (timeline: Timeline)
        requires
            resting(self@),
            self@.time + self@.countdown * self@.tempo <= i128::MAX,
        ensures
            timeline@ == finish(self@, track_count as int),
            timeline@.wf(),
    {
        let ghost before = self@;
        proof {
            lemma_finish_wf(before, track_count as int);
        }
        let mut bars = self.bars;
        let mut notes = self.notes;
        let count = bars.len();
        if count > 0 {
            assert(0 <= self.countdown * self.tempo <= 0x3FF_FFFF * 0xFF_FFFF) by (nonlinear_arith)
                requires
                    0 <= self.countdown <= 0x3FF_FFFF,
                    0 <= self.tempo <= 0xFF_FFFF,
            ;
            let rest: i128 = self.countdown as i128 * self.tempo as i128;
            let mut last = bars[count - 1];
            last.set_end_time(self.time + rest);
            bars.set(count - 1, last);
        }
        assert(bars_view(bars@) =~= close_last_bar(before.bars, before.time + before.countdown * before.tempo));
        let mut i: usize = 0;
        while i < notes.len()
            invariant
                i <= notes.len(),
                notes.len() == before.notes.len(),
                forall|j: int|
                    0 <= j < i ==> (#[trigger] notes[j])@ == close_open_notes(
                        before.notes,
                        before.time,
                    )[j],
                forall|j: int| i <= j < notes.len() ==> (#[trigger] notes[j])@ == before.notes[j],
                before.time == self.time,
            decreases notes.len() - i,
        {
            if notes[i].off_time() == OPEN_TIME {
                let mut note = notes[i];
                note.set_off_time(self.time);
                notes.set(i, note);
            }
            i = i + 1;
        }
        assert(notes_view(notes@) =~= close_open_notes(before.notes, before.time));
        Timeline::assemble(bars, notes, track_count, self.ticks_per_beat)
    }
}

} // verus!
