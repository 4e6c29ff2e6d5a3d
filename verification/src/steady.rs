//! What every step of a build keeps true of the state.

use crate::bar::{bar_number, BarView, OPEN_TIME};
use crate::event::{EventKind, KEYS, TEMPO_LIMIT};
use crate::model::{
    bar_ticks, begin_tick, close_last_bar, close_open_notes, end_tick, finish, fire,
    initial_state, two_to, BuildState,
};
use crate::note::NoteView;
use crate::timeline::note_valid;
use vstd::prelude::*;

verus! {

/// The most ticks per beat that a state holds: 16 bits.
pub const TICKS_PER_BEAT_LIMIT: u16 = 0xFFFF;

/// More ticks than a bar has: 255 whole notes of four times 65535 ticks
/// fall short of it.
pub const BAR_TICKS_LIMIT: u32 = 0x3FF_FFFF;

/// The bars so far begin at zero, follow one another without a gap, and are
/// numbered by their position. The last one began at or before `now`.
pub open spec fn bars_steady(bars: Seq<BarView>, now: int) -> bool {
    &&& bars.len() > 0 ==> bars[0].begin == 0 && 0 <= bars.last().begin <= now
    &&& forall|i: int|
        0 <= i < bars.len() - 1 ==> (#[trigger] bars[i]).begin <= bars[i].end && bars[i].end
            == bars[i + 1].begin
    &&& forall|i: int| 0 <= i < bars.len() ==> (#[trigger] bars[i]).number == bar_number(i)
}

/// Every note so far began between zero and `now`, is open or ended between
/// its beginning and `now`, and has the key and velocity of a key that went
/// down. No note began before the one before it.
pub open spec fn notes_steady(notes: Seq<NoteView>, now: int) -> bool {
    &&& forall|i: int|
        0 <= i < notes.len() ==> {
            &&& 0 <= (#[trigger] notes[i]).on <= now
            &&& notes[i].off == OPEN_TIME || notes[i].on <= notes[i].off <= now
            &&& notes[i].key < KEYS
            &&& 0 < notes[i].velocity < KEYS
        }
    &&& forall|i: int, j: int|
        0 <= i <= j < notes.len() ==> (#[trigger] notes[i]).on <= (#[trigger] notes[j]).on
}

/// Every key that is down points at a note.
pub open spec fn open_steady(open: Map<(u8, u8), int>, notes: Seq<NoteView>) -> bool {
    forall|p: (u8, u8)| open.contains_key(p) ==> 0 <= #[trigger] open[p] < notes.len()
}

/// What holds of the state at every step of a build.
pub open spec fn steady(s: BuildState) -> bool {
    &&& 0 < s.ticks_per_beat <= TICKS_PER_BEAT_LIMIT
    &&& 0 <= s.time
    &&& 0 <= s.tempo < TEMPO_LIMIT
    &&& 0 < s.ticks_per_bar <= BAR_TICKS_LIMIT
    &&& s.countdown <= s.ticks_per_bar
    &&& bars_steady(s.bars, s.time)
    &&& notes_steady(s.notes, s.time)
    &&& open_steady(s.open, s.notes)
}

/// What holds between two ticks: before the first one nothing has happened,
/// and after it a bar is open.
pub open spec fn resting(s: BuildState) -> bool {
    &&& steady(s)
    &&& 0 <= s.countdown
    &&& s.bars.len() == 0 ==> s.time == 0 && s.countdown == 0
}

/// What holds within a tick: a bar is open and has at least this tick left.
pub open spec fn ticking(s: BuildState) -> bool {
    &&& steady(s)
    &&& 1 <= s.countdown
    &&& s.bars.len() > 0
}

/// Two to a power of at most 31 fits in 32 bits, and grows with the power.
pub proof fn lemma_two_to_bounds(e: nat)
    requires
        e <= 31,
    ensures
        1 <= two_to(e) <= 0x8000_0000,
    decreases e,
{
    if e > 0 {
        lemma_two_to_increases(e, 31);
        assert(two_to(31) == 0x8000_0000) by {
            reveal_with_fuel(two_to, 32);
        }
        lemma_two_to_bounds((e - 1) as nat);
    }
}

/// A larger power of two is not smaller.
pub proof fn lemma_two_to_increases(a: nat, b: nat)
    requires
        a <= b,
    ensures
        1 <= two_to(a) <= two_to(b),
    decreases b,
{
    if a < b {
        lemma_two_to_increases(a, (b - 1) as nat);
    } else if a > 0 {
        lemma_two_to_increases((a - 1) as nat, (a - 1) as nat);
    }
}

/// A bar has no more ticks than the limit, and none at all where a beat is
/// a note shorter than the 2^17th.
pub proof fn lemma_bar_ticks_bounds(ticks_per_beat: int, numerator: int, denominator: int)
    requires
        0 <= ticks_per_beat <= TICKS_PER_BEAT_LIMIT,
        0 <= numerator <= 255,
        0 <= denominator,
    ensures
        1 <= two_to(denominator as nat),
        0 <= ticks_per_beat * 4 / (two_to(denominator as nat) as int) <= ticks_per_beat * 4,
        0 <= bar_ticks(ticks_per_beat, numerator, denominator) <= BAR_TICKS_LIMIT,
        denominator > 17 ==> bar_ticks(ticks_per_beat, numerator, denominator) == 0,
{
    lemma_two_to_increases(0, denominator as nat);
    let whole = ticks_per_beat * 4;
    let parts = two_to(denominator as nat) as int;
    let beat = whole / parts;
    assert(0 <= beat <= whole) by (nonlinear_arith)
        requires
            parts >= 1,
            whole >= 0,
            beat == whole / parts,
    ;
    assert(0 <= beat * numerator <= 0x3_FFFC * 255) by (nonlinear_arith)
        requires
            0 <= beat <= 0x3_FFFC,
            0 <= numerator <= 255,
    ;
    if denominator > 17 {
        lemma_two_to_increases(18, denominator as nat);
        assert(two_to(18) == 0x4_0000) by {
            reveal_with_fuel(two_to, 19);
        }
        assert(beat == 0) by (nonlinear_arith)
            requires
                0 <= whole < parts,
                beat == whole / parts,
        ;
        assert(beat * numerator == 0) by (nonlinear_arith)
            requires
                beat == 0,
        ;
    }
}

/// The state before the first tick is at rest.
pub proof fn lemma_initial_resting(ticks_per_beat: int)
    requires
        0 < ticks_per_beat <= TICKS_PER_BEAT_LIMIT,
    ensures
        resting(initial_state(ticks_per_beat)),
{
}

/// Beginning a tick from rest leaves a bar open with at least this tick left.
pub proof fn lemma_begin_tick_ticking(s: BuildState)
    requires
        resting(s),
    ensures
        ticking(begin_tick(s)),
{
    let t = begin_tick(s);
    if s.countdown <= 0 {
        let closed = close_last_bar(s.bars, s.time);
        assert forall|i: int| 0 <= i < t.bars.len() - 1 implies (#[trigger] t.bars[i]).begin
            <= t.bars[i].end && t.bars[i].end == t.bars[i + 1].begin by {
            if i < s.bars.len() - 1 {
                assert(t.bars[i] == s.bars[i]);
                assert(s.bars[i].end == s.bars[i + 1].begin);
            }
        }
        assert forall|i: int| 0 <= i < t.bars.len() implies (#[trigger] t.bars[i]).number
            == bar_number(i) by {
            if i < s.bars.len() {
                assert(t.bars[i].number == s.bars[i].number);
            }
        }
    }
}

/// Firing a well-formed event within a tick, if it succeeds, stays within
/// the tick.
pub proof fn lemma_fire_ticking(s: BuildState, track: int, kind: EventKind)
    requires
        ticking(s),
        kind.wf(),
    ensures
        fire(s, track, kind) matches Ok(t) ==> ticking(t),
{
    match kind {
        EventKind::TimeSignature { numerator, denominator } => {
            lemma_bar_ticks_bounds(s.ticks_per_beat, numerator as int, denominator as int);
        },
        _ => {},
    }
}

/// Ending a tick leaves the state at rest.
pub proof fn lemma_end_tick_resting(s: BuildState)
    requires
        ticking(s),
    ensures
        resting(end_tick(s)),
{
}

/// Finishing from rest gives a well-formed timeline.
pub proof fn lemma_finish_wf(s: BuildState, track_count: int)
    requires
        resting(s),
    ensures
        finish(s, track_count).wf(),
{
    let t = finish(s, track_count);
    assert(s.countdown * s.tempo >= 0) by (nonlinear_arith)
        requires
            s.countdown >= 0,
            s.tempo >= 0,
    ;
    assert forall|i: int| 0 <= i < t.bars.len() implies (#[trigger] t.bars[i]).begin
        <= t.bars[i].end by {
        if i < s.bars.len() - 1 {
            assert(t.bars[i] == s.bars[i]);
        }
    }
    assert forall|i: int| 0 <= i < t.bars.len() - 1 implies (#[trigger] t.bars[i]).end
        == t.bars[i + 1].begin by {
        assert(t.bars[i] == s.bars[i]);
        assert(s.bars[i].end == s.bars[i + 1].begin);
    }
    assert forall|i: int| 0 <= i < t.bars.len() implies (#[trigger] t.bars[i]).number
        == bar_number(i) by {
        assert(t.bars[i].number == s.bars[i].number);
    }
    assert forall|i: int| 0 <= i < t.notes.len() implies note_valid(
        #[trigger] t.notes[i],
    ) by {
        assert(t.notes == close_open_notes(s.notes, s.time));
        assert(0 <= s.notes[i].on <= s.time);
    }
}

} // verus!
