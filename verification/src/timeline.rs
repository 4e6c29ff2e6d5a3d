//! The timeline: bars and notes on one clock.

use crate::bar::{bar_number, bars_view, Bar, BarView};
use crate::event::KEYS;
use crate::note::{notes_view, Note, NoteView};
use vstd::prelude::*;

verus! {

/// Microseconds in a second.
pub const MICROS_PER_SECOND: u64 = 1_000_000;

/// The bars and notes of a piece, with the number of tracks they came from and
/// the ticks per beat that fix the time unit.
#[derive(Debug)]
pub struct Timeline {
    bars: Vec<Bar>,
    notes: Vec<Note>,
    track_count: usize,
    ticks_per_beat: u16,
}

/// A timeline as plain mathematical values.
pub struct TimelineView {
    pub bars: Seq<BarView>,
    pub notes: Seq<NoteView>,
    /// The number of tracks that the timeline was built from.
    pub track_count: int,
    pub ticks_per_beat: int,
}

impl View for Timeline {
    type V = TimelineView;

    closed spec fn view(&self) -> TimelineView {
        TimelineView {
            bars: bars_view(self.bars@),
            notes: notes_view(self.notes@),
            track_count: self.track_count as int,
            ticks_per_beat: self.ticks_per_beat as int,
        }
    }
}

/// The bars begin at zero, follow one another without a gap, never run
/// backwards, and are numbered by their position.
pub open spec fn bars_in_order(bars: Seq<BarView>) -> bool {
    &&& bars.len() > 0 ==> bars[0].begin == 0
    &&& forall|i: int| 0 <= i < bars.len() ==> (#[trigger] bars[i]).begin <= bars[i].end
    &&& forall|i: int| 0 <= i < bars.len() - 1 ==> (#[trigger] bars[i]).end == bars[i + 1].begin
    &&& forall|i: int|
        0 <= i < bars.len() ==> (#[trigger] bars[i]).number == bar_number(i)
}

/// The note begins at or after zero and ends at or after its beginning, and
/// its key and velocity are those of a key that went down.
pub open spec fn note_valid(note: NoteView) -> bool {
    &&& 0 <= note.on <= note.off
    &&& note.key < KEYS
    &&& 0 < note.velocity < KEYS
}

/// Every note is valid, and no note begins before the one before it.
pub open spec fn notes_valid(notes: Seq<NoteView>) -> bool {
    &&& forall|i: int| 0 <= i < notes.len() ==> note_valid(#[trigger] notes[i])
    &&& forall|i: int, j: int|
        0 <= i <= j < notes.len() ==> (#[trigger] notes[i]).on <= (#[trigger] notes[j]).on
}

impl TimelineView {
    /// What holds of every timeline that was built from tracks. Only a
    /// timeline without bars and notes has a time base of zero.
    pub open spec fn wf(self) -> bool {
        &&& self.ticks_per_beat >= 0
        &&& self.ticks_per_beat == 0 ==> self.bars.len() == 0 && self.notes.len() == 0
        &&& bars_in_order(self.bars)
        &&& notes_valid(self.notes)
    }
}

/// Tests at run time that the bars are in order.
fn bars_are_in_order(bars: &Vec<Bar>) -> (ok: bool)
    ensures
        ok == bars_in_order(bars_view(bars@)),
{
    let ghost views = bars_view(bars@);
    if bars.len() > 0 && bars[0].begin_time() != 0 {
        return false;
    }
    let mut i: usize = 0;
    while i < bars.len()
        invariant
            i <= bars.len(),
            views == bars_view(bars@),
            bars.len() > 0 ==> views[0].begin == 0,
            forall|k: int| 0 <= k < i ==> (#[trigger] views[k]).begin <= views[k].end,
            forall|k: int| 0 <= k < i && k < bars.len() - 1 ==> (#[trigger] views[k]).end == views[k
                + 1].begin,
            forall|k: int| 0 <= k < i ==> (#[trigger] views[k]).number == bar_number(k),
        decreases bars.len() - i,
    {
        let bar = &bars[i];
        assert(bar@ == views[i as int]);
        if bar.begin_time() > bar.end_time() {
            return false;
        }
        if i + 1 < bars.len() {
            assert(bars[i + 1]@ == views[i + 1]);
            if bar.end_time() != bars[i + 1].begin_time() {
                return false;
            }
        }
        if bar.number() as u64 != i as u64 % 0x1_0000_0000 {
            return false;
        }
        i = i + 1;
    }
    true
}

/// Tests at run time that every note is valid and none begins before the
/// one before it.
fn notes_are_valid(notes: &Vec<Note>) -> (ok: bool)
    ensures
        ok == notes_valid(notes_view(notes@)),
{
    let ghost views = notes_view(notes@);
    let mut i: usize = 0;
    while i < notes.len()
        invariant
            i <= notes.len(),
            views == notes_view(notes@),
            forall|k: int| 0 <= k < i ==> note_valid(#[trigger] views[k]),
            forall|a: int, b: int|
                0 <= a <= b <= i && b < notes.len() ==> (#[trigger] views[a]).on <= (
                #[trigger] views[b]).on,
        decreases notes.len() - i,
    {
        let note = &notes[i];
        assert(note@ == views[i as int]);
        if note.on_time() < 0 || note.on_time() > note.off_time() || note.key() >= KEYS
            || note.velocity() == 0 || note.velocity() >= KEYS {
            return false;
        }
        if i + 1 < notes.len() {
            assert(notes[i + 1]@ == views[i + 1]);
            if note.on_time() > notes[i + 1].on_time() {
                return false;
            }
        }
        i = i + 1;
    }
    true
}

impl Timeline {
    /// Every timeline is well formed.
    #[verifier::type_invariant]
    pub closed spec fn well_formed(&self) -> bool {
        self@.wf()
    }

    /// A timeline of the given parts, if they are well formed.
    pub fn new(bars: Vec<Bar>, notes: Vec<Note>, track_count: usize, ticks_per_beat: u16) -> (timeline:
        Option<Self>)
        ensures
            match timeline {
                Some(t) => t@ == (TimelineView {
                    bars: bars_view(bars@),
                    notes: notes_view(notes@),
                    track_count: track_count as int,
                    ticks_per_beat: ticks_per_beat as int,
                }) && t@.wf(),
                None => !(TimelineView {
                    bars: bars_view(bars@),
                    notes: notes_view(notes@),
                    track_count: track_count as int,
                    ticks_per_beat: ticks_per_beat as int,
                }).wf(),
            },
    {
        if (ticks_per_beat > 0 || (bars.len() == 0 && notes.len() == 0)) && bars_are_in_order(
            &bars,
        ) && notes_are_valid(&notes) {
            Some(Timeline { bars, notes, track_count, ticks_per_beat })
        } else {
            None
        }
    }

    /// A timeline of parts that are known to be well formed.
    pub(crate) fn assemble(
        bars: Vec<Bar>,
        notes: Vec<Note>,
        track_count: usize,
        ticks_per_beat: u16,
    ) -> (timeline: Self)
        requires
            (TimelineView {
                bars: bars_view(bars@),
                notes: notes_view(notes@),
                track_count: track_count as int,
                ticks_per_beat: ticks_per_beat as int,
            }).wf(),
        ensures
            timeline@ == (TimelineView {
                bars: bars_view(bars@),
                notes: notes_view(notes@),
                track_count: track_count as int,
                ticks_per_beat: ticks_per_beat as int,
            }),
    {
        Timeline { bars, notes, track_count, ticks_per_beat }
    }

    /// The timeline without bars or notes, with microseconds as its time unit.
    pub fn empty() -> (timeline: Self)
        ensures
            timeline@ == (TimelineView {
                bars: Seq::empty(),
                notes: Seq::empty(),
                track_count: 0,
                ticks_per_beat: 1,
            }),
    {
        let bars: Vec<Bar> = Vec::new();
        let notes: Vec<Note> = Vec::new();
        assert(bars_view(bars@) =~= Seq::empty());
        assert(notes_view(notes@) =~= Seq::empty());
        Timeline { bars, notes, track_count: 0, ticks_per_beat: 1 }
    }

    pub fn bars(&self) -> (bars: &Vec<Bar>)
        ensures
            bars_view(bars@) == self@.bars,
            self@.wf(),
    {
        proof {
            use_type_invariant(self);
        }
        &self.bars
    }

    pub fn notes(&self) -> (notes: &Vec<Note>)
        ensures
            notes_view(notes@) == self@.notes,
            self@.wf(),
    {
        proof {
            use_type_invariant(self);
        }
        &self.notes
    }

    pub fn track_count(&self) -> (count: usize)
        ensures
            count == self@.track_count,
    {
        self.track_count
    }

    pub fn ticks_per_beat(&self) -> (ticks: u16)
        ensures
            ticks == self@.ticks_per_beat,
    {
        self.ticks_per_beat
    }

    /// How many time units make a second.
    pub fn units_per_second(&self) -> (units: u64)
        ensures
            units == self@.ticks_per_beat * MICROS_PER_SECOND,
    {
        self.ticks_per_beat as u64 * MICROS_PER_SECOND
    }

    /// The bars, the notes and the number of tracks.
    pub fn into_parts(self) -> (parts: (Vec<Bar>, Vec<Note>, usize))
        ensures
            bars_view(parts.0@) == self@.bars,
            notes_view(parts.1@) == self@.notes,
            parts.2 == self@.track_count,
            self@.wf(),
    {
        proof {
            use_type_invariant(&self);
        }
        (self.bars, self.notes, self.track_count)
    }
}

} // verus!
