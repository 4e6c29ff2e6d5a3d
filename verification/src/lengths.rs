//! How long a note lasts: as long as the ticks that end between its
//! beginning and its end.

use crate::bar::OPEN_TIME;
use crate::error::DecodeError;
use crate::laws::{presses, releases};
use crate::note::NoteView;
use crate::event::{EventKind, TrackEvent};
use crate::model::{
    apply, finish, initial_state, run, schedule, timeline_of, total_ticks,
    BuildState, Step,
};
use crate::schedule::{lemma_run_failed, lemma_run_push};
use crate::steady::open_steady;
use vstd::prelude::*;

verus! {

/// The lengths of the ticks that end within the steps, added up. A tick is
/// as long as the tempo that is in effect when it ends.
pub open spec fn length_of(s: BuildState, steps: Seq<Step>) -> int
    decreases steps.len(),
{
    if steps.len() == 0 {
        0
    } else {
        length_of(s, steps.drop_last()) + match run(s, steps.drop_last()) {
            Ok(t) => if steps.last() is EndTick {
                t.tempo
            } else {
                0
            },
            Err(_) => 0,
        }
    }
}

/// The state after the first `count` steps of a run that does not fail.
pub open spec fn state_after(s: BuildState, steps: Seq<Step>, count: int) -> BuildState {
    run(s, steps.take(count))->Ok_0
}

/// What a run needs of the state it starts from, and keeps: time and tempo
/// are not below zero, and every key that is down points at a note.
pub open spec fn settled(s: BuildState) -> bool {
    &&& 0 <= s.time
    &&& 0 <= s.tempo
    &&& open_steady(s.open, s.notes)
}

/// The note that begins where the step makes its key go down at the time
/// `on`: open, with the key and the velocity of the event and the number of
/// its track.
pub open spec fn note_begun(step: Step, on: int) -> NoteView {
    NoteView {
        on,
        off: OPEN_TIME as int,
        key: step->kind->NoteOn_key,
        velocity: step->kind->NoteOn_velocity,
        track: step->track,
    }
}

/// The key is down with the note at `note`, which is as it began, and no
/// other key points at that note.
pub open spec fn down_with(s: BuildState, channel: u8, key: u8, note: int, begun: NoteView) -> bool {
    &&& settled(s)
    &&& s.open.contains_key((channel, key))
    &&& s.open[(channel, key)] == note
    &&& 0 <= note < s.notes.len()
    &&& s.notes[note] == begun
    &&& begun.off == OPEN_TIME
    &&& forall|q: (u8, u8)|
        s.open.contains_key(q) && q != (channel, key) ==> #[trigger] s.open[q] != note
}

/// The note at `note` has ended and is `ended`, and no key points at it any
/// more.
pub open spec fn done_with(s: BuildState, note: int, ended: NoteView) -> bool {
    &&& settled(s)
    &&& 0 <= note < s.notes.len()
    &&& s.notes[note] == ended
    &&& forall|q: (u8, u8)| s.open.contains_key(q) ==> #[trigger] s.open[q] != note
}

/// A run that does not fail has not failed after any number of its steps.
pub proof fn lemma_part_of_run(s: BuildState, steps: Seq<Step>, count: int)
    requires
        run(s, steps) is Ok,
        0 <= count <= steps.len(),
    ensures
        run(s, steps.take(count)) is Ok,
{
    if run(s, steps.take(count)) is Err {
        lemma_run_failed(s, steps.take(count), steps);
    }
}

/// The state after one step more is the step applied to the state before.
pub proof fn lemma_next_state(s: BuildState, steps: Seq<Step>, count: int)
    requires
        run(s, steps) is Ok,
        0 <= count < steps.len(),
    ensures
        apply(state_after(s, steps, count), steps[count]) == Ok::<BuildState, DecodeError>(
            state_after(s, steps, count + 1),
        ),
        length_of(s, steps.take(count + 1)) == length_of(s, steps.take(count)) + if steps[count] is EndTick {
            state_after(s, steps, count).tempo
        } else {
            0
        },
{
    lemma_part_of_run(s, steps, count);
    lemma_part_of_run(s, steps, count + 1);
    assert(steps.take(count + 1) =~= steps.take(count).push(steps[count]));
    assert(steps.take(count + 1).drop_last() =~= steps.take(count));
    lemma_run_push(s, steps.take(count), steps[count]);
}

/// Time has moved on by the lengths of the ticks that have ended, and the
/// state stays settled.
pub proof fn lemma_time_is_length(s: BuildState, steps: Seq<Step>, count: int)
    requires
        settled(s),
        run(s, steps) is Ok,
        0 <= count <= steps.len(),
    ensures
        settled(state_after(s, steps, count)),
        state_after(s, steps, count).time == s.time + length_of(s, steps.take(count)),
        0 <= length_of(s, steps.take(count)),
    decreases count,
{
    if count == 0 {
        assert(steps.take(0) =~= Seq::<Step>::empty());
    } else {
        lemma_time_is_length(s, steps, count - 1);
        lemma_next_state(s, steps, count - 1);
    }
}

/// The ticks that end within more steps are no shorter than those within
/// fewer.
pub proof fn lemma_length_grows(s: BuildState, steps: Seq<Step>, fewer: int, more: int)
    requires
        settled(s),
        run(s, steps) is Ok,
        0 <= fewer <= more <= steps.len(),
    ensures
        length_of(s, steps.take(fewer)) <= length_of(s, steps.take(more)),
    decreases more - fewer,
{
    if fewer < more {
        lemma_length_grows(s, steps, fewer, more - 1);
        lemma_time_is_length(s, steps, more - 1);
        lemma_next_state(s, steps, more - 1);
    }
}

/// A key that went down at step `down` is down with its note after every
/// later step up to `count`, as long as none of them makes it go up.
proof fn lemma_stays_down(
    s: BuildState,
    steps: Seq<Step>,
    down: int,
    count: int,
    channel: u8,
    key: u8,
)
    requires
        settled(s),
        run(s, steps) is Ok,
        0 <= down < count <= steps.len(),
        presses(steps[down], channel, key),
        forall|k: int| down < k < count ==> !releases(#[trigger] steps[k], channel, key),
    ensures
        down_with(
            state_after(s, steps, count),
            channel,
            key,
            state_after(s, steps, down).notes.len() as int,
            note_begun(steps[down], state_after(s, steps, down).time),
        ),
    decreases count - down,
{
    let note = state_after(s, steps, down).notes.len() as int;
    lemma_time_is_length(s, steps, count);
    lemma_next_state(s, steps, count - 1);
    if count == down + 1 {
        lemma_time_is_length(s, steps, down);
    } else {
        lemma_stays_down(s, steps, down, count - 1, channel, key);
        let before = state_after(s, steps, count - 1);
        let after = state_after(s, steps, count);
        assert(!releases(steps[count - 1], channel, key));
        assert forall|q: (u8, u8)| after.open.contains_key(q) && q != (channel, key) implies
            #[trigger] after.open[q] != note by {
            if before.open.contains_key(q) {
                assert(before.open[q] != note);
            }
        }
    }
}

/// A note that has ended stays as it is after every later step.
proof fn lemma_stays_done(
    s: BuildState,
    steps: Seq<Step>,
    from: int,
    count: int,
    note: int,
    ended: NoteView,
)
    requires
        settled(s),
        run(s, steps) is Ok,
        0 <= from <= count <= steps.len(),
        done_with(state_after(s, steps, from), note, ended),
    ensures
        done_with(state_after(s, steps, count), note, ended),
    decreases count - from,
{
    if from < count {
        lemma_stays_done(s, steps, from, count - 1, note, ended);
        lemma_time_is_length(s, steps, count);
        lemma_next_state(s, steps, count - 1);
        let before = state_after(s, steps, count - 1);
        let after = state_after(s, steps, count);
        assert forall|q: (u8, u8)| after.open.contains_key(q) implies #[trigger] after.open[q]
            != note by {
            if before.open.contains_key(q) {
                assert(before.open[q] != note);
            }
        }
    }
}

/// A note lasts as long as the ticks that end between its beginning and its
/// end.
///
/// Where a key goes down at step `down` of a run and goes up next at step
/// `up`, the note that begins at `down` begins when the ticks before `down`
/// have passed and ends when the ticks before `up` have passed, and so it
/// stands in the timeline. It ends after it began exactly if a tick longer
/// than nothing ends between the two steps.
pub proof fn law_note_length(
    s: BuildState,
    steps: Seq<Step>,
    down: int,
    up: int,
    channel: u8,
    key: u8,
    track_count: int,
)
    requires
        settled(s),
        run(s, steps) is Ok,
        0 <= down < up < steps.len(),
        presses(steps[down], channel, key),
        releases(steps[up], channel, key),
        forall|k: int| down < k < up ==> !releases(#[trigger] steps[k], channel, key),
    ensures
        ({
            let note = state_after(s, steps, down).notes.len() as int;
            let timeline = finish(run(s, steps)->Ok_0, track_count);
            let begun = length_of(s, steps.take(down));
            let ended = length_of(s, steps.take(up));
            &&& 0 <= note < timeline.notes.len()
            &&& timeline.notes[note] == (NoteView {
                off: s.time + ended,
                ..note_begun(steps[down], s.time + begun)
            })
            &&& timeline.notes[note].off - timeline.notes[note].on == ended - begun
            &&& 0 <= begun <= ended
            &&& timeline.notes[note].on < timeline.notes[note].off <==> begun < ended
        }),
{
    let note = state_after(s, steps, down).notes.len() as int;
    let on = state_after(s, steps, down).time;
    let off = state_after(s, steps, up).time;
    let closed = NoteView { off, ..note_begun(steps[down], on) };
    lemma_time_is_length(s, steps, down);
    lemma_time_is_length(s, steps, up);
    lemma_length_grows(s, steps, down, up);
    lemma_stays_down(s, steps, down, up, channel, key);
    lemma_next_state(s, steps, up);
    lemma_time_is_length(s, steps, up + 1);
    let before = state_after(s, steps, up);
    let after = state_after(s, steps, up + 1);
    assert(done_with(after, note, closed)) by {
        assert forall|q: (u8, u8)| after.open.contains_key(q) implies #[trigger] after.open[q]
            != note by {
            assert(before.open.contains_key(q) && q != (channel, key));
        }
    }
    lemma_stays_done(s, steps, up + 1, steps.len() as int, note, closed);
    assert(steps.take(steps.len() as int) =~= steps);
}

/// A note that no event ends lasts as long as the ticks that end between its
/// beginning and the end of the run.
///
/// Where a key goes down at step `down` of a run and does not go up after
/// that, the note that begins at `down` begins when the ticks before `down`
/// have passed and ends, in the timeline, when all ticks have passed.
pub proof fn law_open_note_length(
    s: BuildState,
    steps: Seq<Step>,
    down: int,
    channel: u8,
    key: u8,
    track_count: int,
)
    requires
        settled(s),
        run(s, steps) is Ok,
        0 <= down < steps.len(),
        presses(steps[down], channel, key),
        forall|k: int| down < k < steps.len() ==> !releases(#[trigger] steps[k], channel, key),
    ensures
        ({
            let note = state_after(s, steps, down).notes.len() as int;
            let timeline = finish(run(s, steps)->Ok_0, track_count);
            let begun = length_of(s, steps.take(down));
            let ended = length_of(s, steps);
            &&& 0 <= note < timeline.notes.len()
            &&& timeline.notes[note] == (NoteView {
                off: s.time + ended,
                ..note_begun(steps[down], s.time + begun)
            })
            &&& timeline.notes[note].off - timeline.notes[note].on == ended - begun
            &&& 0 <= begun <= ended
            &&& timeline.notes[note].on < timeline.notes[note].off <==> begun < ended
        }),
{
    let count = steps.len() as int;
    lemma_time_is_length(s, steps, down);
    lemma_time_is_length(s, steps, count);
    lemma_length_grows(s, steps, down, count);
    lemma_stays_down(s, steps, down, count, channel, key);
    assert(steps.take(count) =~= steps);
}

/// In every timeline that is built, a note lasts as long as the ticks that
/// end between the step in which its key goes down and the step in which it
/// goes up next. It is longer than nothing exactly if a tick longer than
/// nothing ends between the two.
pub proof fn law_built_note_length(
    tracks: Seq<Seq<TrackEvent>>,
    ticks_per_beat: u16,
    down: int,
    up: int,
    channel: u8,
    key: u8,
)
    requires
        timeline_of(tracks, ticks_per_beat as int) is Ok,
        0 <= down < up < schedule(tracks, total_ticks(tracks)).len(),
        presses(schedule(tracks, total_ticks(tracks))[down], channel, key),
        releases(schedule(tracks, total_ticks(tracks))[up], channel, key),
        forall|k: int|
            down < k < up ==> !releases(
                #[trigger] schedule(tracks, total_ticks(tracks))[k],
                channel,
                key,
            ),
    ensures
        ({
            let start = initial_state(ticks_per_beat as int);
            let steps = schedule(tracks, total_ticks(tracks));
            let timeline = timeline_of(tracks, ticks_per_beat as int)->Ok_0;
            let note = state_after(start, steps, down).notes.len() as int;
            let begun = length_of(start, steps.take(down));
            let ended = length_of(start, steps.take(up));
            &&& 0 <= note < timeline.notes.len()
            &&& timeline.notes[note] == (NoteView {
                off: ended,
                ..note_begun(steps[down], begun)
            })
            &&& 0 <= begun <= ended
            &&& timeline.notes[note].on < timeline.notes[note].off <==> begun < ended
        }),
{
    law_note_length(
        initial_state(ticks_per_beat as int),
        schedule(tracks, total_ticks(tracks)),
        down,
        up,
        channel,
        key,
        tracks.len() as int,
    );
}

/// In every timeline that is built, a note whose key does not go up again
/// lasts as long as the ticks that end between the step in which its key
/// goes down and the end of the simulation.
pub proof fn law_built_open_note_length(
    tracks: Seq<Seq<TrackEvent>>,
    ticks_per_beat: u16,
    down: int,
    channel: u8,
    key: u8,
)
    requires
        timeline_of(tracks, ticks_per_beat as int) is Ok,
        0 <= down < schedule(tracks, total_ticks(tracks)).len(),
        presses(schedule(tracks, total_ticks(tracks))[down], channel, key),
        forall|k: int|
            down < k < schedule(tracks, total_ticks(tracks)).len() ==> !releases(
                #[trigger] schedule(tracks, total_ticks(tracks))[k],
                channel,
                key,
            ),
    ensures
        ({
            let start = initial_state(ticks_per_beat as int);
            let steps = schedule(tracks, total_ticks(tracks));
            let timeline = timeline_of(tracks, ticks_per_beat as int)->Ok_0;
            let note = state_after(start, steps, down).notes.len() as int;
            let begun = length_of(start, steps.take(down));
            let ended = length_of(start, steps);
            &&& 0 <= note < timeline.notes.len()
            &&& timeline.notes[note] == (NoteView {
                off: ended,
                ..note_begun(steps[down], begun)
            })
            &&& 0 <= begun <= ended
            &&& timeline.notes[note].on < timeline.notes[note].off <==> begun < ended
        }),
{
    law_open_note_length(
        initial_state(ticks_per_beat as int),
        schedule(tracks, total_ticks(tracks)),
        down,
        channel,
        key,
        tracks.len() as int,
    );
}

/// The step begins a note: a key goes down with a velocity above zero.
pub open spec fn begins_note(step: Step) -> bool {
    step matches Step::Fire { kind: EventKind::NoteOn { velocity, .. }, .. } && velocity > 0
}

/// The number of steps that begin a note.
pub open spec fn notes_begun(steps: Seq<Step>) -> int
    decreases steps.len(),
{
    if steps.len() == 0 {
        0
    } else {
        notes_begun(steps.drop_last()) + if begins_note(steps.last()) {
            1int
        } else {
            0int
        }
    }
}

/// A run that does not fail adds one note for every step in which a key
/// goes down with a velocity above zero, and none else.
pub proof fn law_note_count(s: BuildState, steps: Seq<Step>, track_count: int)
    requires
        settled(s),
        run(s, steps) is Ok,
    ensures
        run(s, steps)->Ok_0.notes.len() == s.notes.len() + notes_begun(steps),
        finish(run(s, steps)->Ok_0, track_count).notes.len() == s.notes.len() + notes_begun(steps),
    decreases steps.len(),
{
    if steps.len() > 0 {
        let fewer = steps.len() - 1;
        assert(steps.take(fewer) =~= steps.drop_last());
        assert(steps.take(fewer + 1) =~= steps);
        lemma_part_of_run(s, steps, fewer);
        law_note_count(s, steps.drop_last(), track_count);
        lemma_time_is_length(s, steps, fewer);
        lemma_next_state(s, steps, fewer);
    }
}

/// A built timeline holds one note for every step of the simulation in which
/// a key goes down with a velocity above zero.
pub proof fn law_built_note_count(tracks: Seq<Seq<TrackEvent>>, ticks_per_beat: u16)
    requires
        timeline_of(tracks, ticks_per_beat as int) is Ok,
    ensures
        timeline_of(tracks, ticks_per_beat as int)->Ok_0.notes.len() == notes_begun(
            schedule(tracks, total_ticks(tracks)),
        ),
{
    law_note_count(
        initial_state(ticks_per_beat as int),
        schedule(tracks, total_ticks(tracks)),
        tracks.len() as int,
    );
}

} // verus!
