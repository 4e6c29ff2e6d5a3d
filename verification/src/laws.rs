//! What holds of every timeline that is built, and of every cursor on one.

use crate::bar::{BarView, OPEN_TIME};
use crate::error::DecodeError;
use crate::event::{EventKind, TrackEvent};
use crate::model::{
    all_wf, bar_ticks, two_to, elapsed, fires_at, first_end, initial_state, run, schedule, tick_steps,
    timeline_of, total_ticks, track_steps, BuildState, Step,
};
use crate::note::NoteView;
use crate::player::{bar_at, due, due_notes, first_bar_with};
use crate::schedule::{lemma_run_append, lemma_run_failed, lemma_run_push};
use crate::steady::{
    lemma_two_to_increases, lemma_begin_tick_ticking, lemma_end_tick_resting, lemma_finish_wf, lemma_fire_ticking,
    lemma_initial_resting, resting, ticking,
};
use crate::timeline::{bars_in_order, note_valid};
use vstd::prelude::*;

verus! {

/// The part of one track in a tick, begun within the tick, stays within it.
pub proof fn lemma_track_steps_ticking(
    s: BuildState,
    track: Seq<TrackEvent>,
    number: int,
    tick: int,
    upto: int,
)
    requires
        ticking(s),
        forall|i: int| 0 <= i < track.len() ==> (#[trigger] track[i]).wf(),
    ensures
        run(s, track_steps(track, number, tick, upto)) matches Ok(t) ==> ticking(t),
    decreases upto,
{
    if upto > 0 {
        lemma_track_steps_ticking(s, track, number, tick, upto - 1);
        let before = track_steps(track, number, tick, upto - 1);
        if fires_at(track, upto - 1, tick) {
            let step = Step::Fire { track: number, kind: track[upto - 1].kind };
            lemma_run_push(s, before, step);
            if let Ok(t) = run(s, before) {
                assert(track[upto - 1].wf());
                lemma_fire_ticking(t, number, track[upto - 1].kind);
            }
        }
    }
}

/// A tick begun from rest is within the tick after every track's part.
pub proof fn lemma_tick_steps_ticking(
    s: BuildState,
    tracks: Seq<Seq<TrackEvent>>,
    tick: int,
    upto: int,
)
    requires
        resting(s),
        all_wf(tracks),
        upto <= tracks.len(),
    ensures
        run(s, tick_steps(tracks, tick, upto)) matches Ok(t) ==> ticking(t),
    decreases upto,
{
    if upto <= 0 {
        lemma_run_push(s, Seq::empty(), Step::BeginTick);
        assert(Seq::<Step>::empty().push(Step::BeginTick) =~= seq![Step::BeginTick]);
        lemma_begin_tick_ticking(s);
    } else {
        lemma_tick_steps_ticking(s, tracks, tick, upto - 1);
        let before = tick_steps(tracks, tick, upto - 1);
        let track = tracks[upto - 1];
        let part = track_steps(track, upto - 1, tick, track.len() as int);
        lemma_run_append(s, before, part);
        if let Ok(t) = run(s, before) {
            assert forall|i: int| 0 <= i < track.len() implies (#[trigger] track[i]).wf() by {
                assert(tracks[upto - 1][i].wf());
            }
            lemma_track_steps_ticking(t, track, upto - 1, tick, track.len() as int);
        }
    }
}

/// After any number of whole ticks the simulation is at rest.
pub proof fn lemma_schedule_resting(tracks: Seq<Seq<TrackEvent>>, ticks_per_beat: u16, ticks: int)
    requires
        all_wf(tracks),
        ticks_per_beat > 0,
    ensures
        run(initial_state(ticks_per_beat as int), schedule(tracks, ticks)) matches Ok(s)
            ==> resting(s),
    decreases ticks,
{
    let initial = initial_state(ticks_per_beat as int);
    lemma_initial_resting(ticks_per_beat as int);
    if ticks > 0 {
        lemma_schedule_resting(tracks, ticks_per_beat, ticks - 1);
        let before = schedule(tracks, ticks - 1);
        let events = tick_steps(tracks, ticks - 1, tracks.len() as int);
        lemma_run_append(initial, before, events.push(Step::EndTick));
        if let Ok(s) = run(initial, before) {
            lemma_tick_steps_ticking(s, tracks, ticks - 1, tracks.len() as int);
            lemma_run_push(s, events, Step::EndTick);
            if let Ok(t) = run(s, events) {
                lemma_end_tick_resting(t);
            }
        }
    }
}

/// In bars that are in order, a later bar neither begins nor ends before an
/// earlier one, and it begins where the earlier one has ended or later.
pub proof fn lemma_bars_ascend(bars: Seq<BarView>, i: int, j: int)
    requires
        bars_in_order(bars),
        0 <= i <= j < bars.len(),
    ensures
        bars[i].begin <= bars[j].begin,
        bars[i].end <= bars[j].end,
        i < j ==> bars[i].end <= bars[j].begin,
    decreases j - i,
{
    if i < j {
        lemma_bars_ascend(bars, i, j - 1);
        assert(bars[j - 1].end == bars[j].begin);
        assert(bars[j - 1].begin <= bars[j - 1].end);
        assert(bars[j].begin <= bars[j].end);
    }
}

/// The bars of every timeline that is built begin at zero, follow one
/// another without a gap, never run backwards in time, and are numbered by
/// their position.
pub proof fn law_bars_in_order(tracks: Seq<Seq<TrackEvent>>, ticks_per_beat: u16)
    requires
        all_wf(tracks),
    ensures
        timeline_of(tracks, ticks_per_beat as int) matches Ok(t) ==> {
            &&& t.bars.len() > 0 ==> t.bars[0].begin == 0
            &&& forall|i: int|
                0 <= i < t.bars.len() - 1 ==> (#[trigger] t.bars[i]).end == t.bars[i + 1].begin
            &&& forall|i: int, j: int|
                0 <= i <= j < t.bars.len() ==> (#[trigger] t.bars[i]).begin <= (
                #[trigger] t.bars[j]).begin && t.bars[i].end <= t.bars[j].end
            &&& forall|i: int|
                0 <= i < t.bars.len() ==> 0 <= (#[trigger] t.bars[i]).begin <= t.bars[i].end
                    && t.bars[i].end != OPEN_TIME
            &&& forall|i: int|
                0 <= i < t.bars.len() ==> (#[trigger] t.bars[i]).number == i % 0x1_0000_0000
            &&& forall|i: int|
                0 <= i < t.bars.len() && i < 0x1_0000_0000 ==> (#[trigger] t.bars[i]).number == i
        },
{
    if let Ok(t) = timeline_of(tracks, ticks_per_beat as int) {
        law_timeline_wf(tracks, ticks_per_beat);
        lemma_bars_in_order(t.bars);
    }
}

/// What follows for bars that are in order: they begin at or after zero,
/// none is left open, none begins or ends before an earlier one, and below
/// 2^32 bars each has its index for its number.
pub proof fn lemma_bars_in_order(bars: Seq<BarView>)
    requires
        bars_in_order(bars),
    ensures
        forall|i: int|
            0 <= i < bars.len() ==> 0 <= (#[trigger] bars[i]).begin <= bars[i].end && bars[i].end
                != OPEN_TIME,
        forall|i: int, j: int|
            0 <= i <= j < bars.len() ==> (#[trigger] bars[i]).begin <= (#[trigger] bars[j]).begin
                && bars[i].end <= bars[j].end,
        forall|i: int| 0 <= i < bars.len() && i < 0x1_0000_0000 ==> (#[trigger] bars[i]).number == i,
{
    assert forall|i: int| 0 <= i < bars.len() implies 0 <= (#[trigger] bars[i]).begin
        <= bars[i].end && bars[i].end != OPEN_TIME by {
        lemma_bars_ascend(bars, 0, i);
    }
    assert forall|i: int, j: int| 0 <= i <= j < bars.len() implies (#[trigger] bars[i]).begin <= (
    #[trigger] bars[j]).begin && bars[i].end <= bars[j].end by {
        lemma_bars_ascend(bars, i, j);
    }
    assert forall|i: int| 0 <= i < bars.len() && i < 0x1_0000_0000 implies (
    #[trigger] bars[i]).number == i by {
        assert(bars[i].number == crate::bar::bar_number(i));
        assert(i % 0x1_0000_0000 == i) by (nonlinear_arith)
            requires
                0 <= i < 0x1_0000_0000,
        ;
    }
}

/// Every timeline that is built is well formed.
pub proof fn law_timeline_wf(tracks: Seq<Seq<TrackEvent>>, ticks_per_beat: u16)
    requires
        all_wf(tracks),
    ensures
        timeline_of(tracks, ticks_per_beat as int) matches Ok(t) ==> t.wf(),
{
    if let Ok(t) = timeline_of(tracks, ticks_per_beat as int) {
        let initial = initial_state(ticks_per_beat as int);
        if ticks_per_beat > 0 {
            lemma_schedule_resting(tracks, ticks_per_beat, total_ticks(tracks));
            let s = run(initial, schedule(tracks, total_ticks(tracks)))->Ok_0;
            lemma_finish_wf(s, tracks.len() as int);
        } else {
            assert(schedule(tracks, total_ticks(tracks)) =~= Seq::<Step>::empty());
            assert(t.notes =~= Seq::empty());
            assert(t.bars =~= Seq::empty());
        }
    }
}

/// In every timeline that is built, every note begins at or after zero and
/// ends at or after its beginning, and no note is left open. Its key and
/// velocity are those of a key that went down. The notes stand in the order
/// in which they begin.
pub proof fn law_notes_closed(tracks: Seq<Seq<TrackEvent>>, ticks_per_beat: u16)
    requires
        all_wf(tracks),
    ensures
        timeline_of(tracks, ticks_per_beat as int) matches Ok(t) ==> forall|i: int|
            0 <= i < t.notes.len() ==> {
                &&& 0 <= (#[trigger] t.notes[i]).on <= t.notes[i].off
                &&& t.notes[i].on != OPEN_TIME
                &&& t.notes[i].off != OPEN_TIME
                &&& t.notes[i].key <= 127
                &&& 1 <= t.notes[i].velocity <= 127
            },
        timeline_of(tracks, ticks_per_beat as int) matches Ok(t) ==> forall|i: int, j: int|
            0 <= i <= j < t.notes.len() ==> (#[trigger] t.notes[i]).on <= (#[trigger] t.notes[j]).on,
{
    law_timeline_wf(tracks, ticks_per_beat);
    if let Ok(t) = timeline_of(tracks, ticks_per_beat as int) {
        assert forall|i: int| 0 <= i < t.notes.len() implies 0 <= (#[trigger] t.notes[i]).on
            <= t.notes[i].off && t.notes[i].key <= 127 && 1 <= t.notes[i].velocity <= 127 by {
            assert(note_valid(t.notes[i]));
        }
    }
}

/// The step makes the key go down on the channel.
pub open spec fn presses(step: Step, channel: u8, key: u8) -> bool {
    step matches Step::Fire { kind: EventKind::NoteOn { channel: c, key: k, velocity }, .. }
        && c == channel && k == key && velocity > 0
}

/// The step makes the key go up on the channel.
pub open spec fn releases(step: Step, channel: u8, key: u8) -> bool {
    ||| step matches Step::Fire { kind: EventKind::NoteOff { channel: c, key: k }, .. } && c
        == channel && k == key
    ||| step matches Step::Fire { kind: EventKind::NoteOn { channel: c, key: k, velocity }, .. }
        && c == channel && k == key && velocity == 0
}

/// A key that is down stays down over steps that do not make it go up.
pub proof fn lemma_key_stays_down(s: BuildState, steps: Seq<Step>, channel: u8, key: u8)
    requires
        s.open.contains_key((channel, key)),
        forall|k: int| 0 <= k < steps.len() ==> !releases(#[trigger] steps[k], channel, key),
    ensures
        run(s, steps) matches Ok(t) ==> t.open.contains_key((channel, key)),
    decreases steps.len(),
{
    if steps.len() > 0 {
        lemma_key_stays_down(s, steps.drop_last(), channel, key);
        assert(!releases(steps.last(), channel, key));
    }
}

/// Where a key goes down twice on one channel and does not go up in
/// between, the run fails. It fails with `DuplicateNoteOn` unless it has
/// failed before the key goes down the second time.
pub proof fn law_duplicate_note_on(
    s: BuildState,
    steps: Seq<Step>,
    first: int,
    second: int,
    channel: u8,
    key: u8,
)
    requires
        0 <= first < second < steps.len(),
        presses(steps[first], channel, key),
        presses(steps[second], channel, key),
        forall|k: int| first < k < second ==> !releases(#[trigger] steps[k], channel, key),
    ensures
        run(s, steps) is Err,
        run(s, steps.take(second)) is Ok ==> run(s, steps) == Err::<BuildState, DecodeError>(
            DecodeError::DuplicateNoteOn,
        ),
{
    let upto_first = steps.take(first);
    let between = steps.subrange(first + 1, second);
    let upto_second = steps.take(second);
    let with_second = steps.take(second + 1);
    assert(upto_second =~= upto_first.push(steps[first]) + between);
    assert(with_second =~= upto_second.push(steps[second]));
    lemma_run_push(s, upto_first, steps[first]);
    lemma_run_append(s, upto_first.push(steps[first]), between);
    lemma_run_push(s, upto_second, steps[second]);
    if let Ok(t) = run(s, upto_first.push(steps[first])) {
        assert(t.open.contains_key((channel, key)));
        assert forall|k: int| 0 <= k < between.len() implies !releases(
            #[trigger] between[k],
            channel,
            key,
        ) by {
            assert(between[k] == steps[first + 1 + k]);
        }
        lemma_key_stays_down(t, between, channel, key);
    }
    assert(run(s, with_second) is Err);
    assert(with_second.is_prefix_of(steps));
    lemma_run_failed(s, with_second, steps);
}

/// A key that goes up while it is not down changes nothing: the run is the
/// same as without that step, so no note is altered and nothing fails on its
/// account.
pub proof fn law_stray_note_off(
    s: BuildState,
    before: Seq<Step>,
    after: Seq<Step>,
    stray: Step,
    channel: u8,
    key: u8,
)
    requires
        releases(stray, channel, key),
        run(s, before) matches Ok(t) && !t.open.contains_key((channel, key)),
    ensures
        run(s, before.push(stray)) == run(s, before),
        run(s, before.push(stray) + after) == run(s, before + after),
{
    lemma_run_push(s, before, stray);
    lemma_run_append(s, before.push(stray), after);
    lemma_run_append(s, before, after);
}

/// A tempo event changes the length of the ticks that end after it and
/// nothing else: the time reached, the bars and the notes are as they were,
/// and the tick in which it fires already ends one new tick length later.
pub proof fn law_tempo_change(s: BuildState, before: Seq<Step>, track: int, tempo: u32)
    requires
        run(s, before) is Ok,
    ensures
        ({
            let t = run(s, before)->Ok_0;
            let change = Step::Fire { track, kind: EventKind::Tempo(tempo) };
            &&& run(s, before.push(change)) == Ok::<BuildState, DecodeError>(
                BuildState { tempo: tempo as int, ..t },
            )
            &&& run(s, before.push(change).push(Step::EndTick)) matches Ok(u) && u.time == t.time
                + tempo && u.bars == t.bars && u.notes == t.notes
        }),
{
    let change = Step::Fire { track, kind: EventKind::Tempo(tempo) };
    lemma_run_push(s, before, change);
    lemma_run_push(s, before.push(change), Step::EndTick);
}

/// The tracks with the tempo event at `index` of track `t` set to `tempo`.
pub open spec fn with_tempo(
    tracks: Seq<Seq<TrackEvent>>,
    t: int,
    index: int,
    tempo: u32,
) -> Seq<Seq<TrackEvent>> {
    tracks.update(
        t,
        tracks[t].update(
            index,
            TrackEvent { delta: tracks[t][index].delta, kind: EventKind::Tempo(tempo) },
        ),
    )
}

/// Another kind of event with the same delta time moves no event's tick.
proof fn lemma_elapsed_same(track: Seq<TrackEvent>, index: int, event: TrackEvent, count: int)
    requires
        0 <= index < track.len(),
        event.delta == track[index].delta,
        count <= track.len(),
    ensures
        elapsed(track.update(index, event), count) == elapsed(track, count),
    decreases count,
{
    if count > 0 {
        lemma_elapsed_same(track, index, event, count - 1);
    }
}

/// An event that is no end of track, put in the place of another such,
/// moves no track's end.
proof fn lemma_first_end_same(track: Seq<TrackEvent>, index: int, event: TrackEvent, from: int)
    requires
        0 <= index < track.len(),
        track[index].kind != EventKind::EndOfTrack,
        event.kind != EventKind::EndOfTrack,
        0 <= from,
    ensures
        first_end(track.update(index, event), from) == first_end(track, from),
    decreases track.len() - from,
{
    if from < track.len() {
        lemma_first_end_same(track, index, event, from + 1);
    }
}

/// The steps of a track in a tick in which the changed event does not fire
/// are the same with and without the change.
proof fn lemma_track_steps_same(
    track: Seq<TrackEvent>,
    index: int,
    event: TrackEvent,
    number: int,
    tick: int,
    upto: int,
)
    requires
        0 <= index < track.len(),
        event.delta == track[index].delta,
        track[index].kind != EventKind::EndOfTrack,
        event.kind != EventKind::EndOfTrack,
        tick != elapsed(track, index + 1),
        upto <= track.len(),
    ensures
        track_steps(track.update(index, event), number, tick, upto) == track_steps(
            track,
            number,
            tick,
            upto,
        ),
    decreases upto,
{
    if upto > 0 {
        lemma_track_steps_same(track, index, event, number, tick, upto - 1);
        lemma_elapsed_same(track, index, event, upto);
        lemma_first_end_same(track, index, event, 0);
        lemma_elapsed_same(track, index, event, index + 1);
    }
}

/// The steps of a tick in which the changed tempo event does not fire are
/// the same with and without the change.
proof fn lemma_tick_steps_same(
    tracks: Seq<Seq<TrackEvent>>,
    t: int,
    index: int,
    tempo: u32,
    tick: int,
    upto: int,
)
    requires
        0 <= t < tracks.len(),
        0 <= index < tracks[t].len(),
        tracks[t][index].kind is Tempo,
        tick != elapsed(tracks[t], index + 1),
        upto <= tracks.len(),
    ensures
        tick_steps(with_tempo(tracks, t, index, tempo), tick, upto) == tick_steps(
            tracks,
            tick,
            upto,
        ),
    decreases upto,
{
    if upto > 0 {
        lemma_tick_steps_same(tracks, t, index, tempo, tick, upto - 1);
        let changed = with_tempo(tracks, t, index, tempo);
        if upto - 1 == t {
            let event = TrackEvent { delta: tracks[t][index].delta, kind: EventKind::Tempo(tempo) };
            lemma_track_steps_same(
                tracks[t],
                index,
                event,
                t,
                tick,
                tracks[t].len() as int,
            );
        } else {
            assert(changed[upto - 1] == tracks[upto - 1]);
        }
    }
}

/// What a tempo event is set to makes no difference to the schedule before
/// the tick in which it fires: the time at which that tick begins, and every
/// bar and note up to there, are the same whatever the new tempo.
pub proof fn law_tempo_leaves_the_past(
    tracks: Seq<Seq<TrackEvent>>,
    t: int,
    index: int,
    tempo: u32,
    ticks: int,
)
    requires
        0 <= t < tracks.len(),
        0 <= index < tracks[t].len(),
        tracks[t][index].kind is Tempo,
        ticks <= elapsed(tracks[t], index + 1),
    ensures
        schedule(with_tempo(tracks, t, index, tempo), ticks) == schedule(tracks, ticks),
    decreases ticks,
{
    if ticks > 0 {
        law_tempo_leaves_the_past(tracks, t, index, tempo, ticks - 1);
        lemma_tick_steps_same(tracks, t, index, tempo, ticks - 1, tracks.len() as int);
    }
}

/// Every tick lasts as long as the tempo that is in effect when it ends.
pub proof fn law_tick_length(s: BuildState, before: Seq<Step>)
    requires
        run(s, before) is Ok,
    ensures
        run(s, before.push(Step::EndTick)) matches Ok(u) && u.time == run(s, before)->Ok_0.time
            + run(s, before)->Ok_0.tempo,
{
    lemma_run_push(s, before, Step::EndTick);
}

/// No bar at or after `from` covers `t` if none of them covers it.
pub proof fn lemma_no_bar_with(bars: Seq<BarView>, t: int, from: int)
    requires
        0 <= from,
        forall|k: int| from <= k < bars.len() ==> !(#[trigger] bars[k]).contains(t),
    ensures
        first_bar_with(bars, t, from) == bars.len(),
    decreases bars.len() - from,
{
    if from < bars.len() {
        lemma_no_bar_with(bars, t, from + 1);
    }
}

/// The first bar that covers `t` is `index` if that bar covers it and none
/// between `from` and it does.
pub proof fn lemma_first_bar_with(bars: Seq<BarView>, t: int, from: int, index: int)
    requires
        0 <= from <= index < bars.len(),
        bars[index].contains(t),
        forall|k: int| from <= k < index ==> !(#[trigger] bars[k]).contains(t),
    ensures
        first_bar_with(bars, t, from) == index,
    decreases index - from,
{
    if from < index {
        lemma_first_bar_with(bars, t, from + 1, index);
    }
}

/// On bars that are in order, the bar of a time is zero before the first
/// bar, the index of the bar that covers the time, and the number of bars
/// from the end of the last bar on.
pub proof fn law_current_bar(bars: Seq<BarView>, t: int)
    requires
        bars_in_order(bars),
    ensures
        bars.len() > 0 && t < bars[0].begin ==> bar_at(bars, t) == 0,
        forall|i: int| 0 <= i < bars.len() && (#[trigger] bars[i]).contains(t) ==> bar_at(bars, t) == i,
        bars.len() > 0 && t >= bars.last().end ==> bar_at(bars, t) == bars.len(),
        bars.len() == 0 ==> bar_at(bars, t) == 0,
{
    assert forall|i: int| 0 <= i < bars.len() && (#[trigger] bars[i]).contains(t) implies bar_at(
        bars,
        t,
    ) == i by {
        lemma_bars_ascend(bars, 0, i);
        assert forall|k: int| 0 <= k < i implies !(#[trigger] bars[k]).contains(t) by {
            lemma_bars_ascend(bars, k, i);
        }
        lemma_first_bar_with(bars, t, 0, i);
    }
    if bars.len() > 0 && t >= bars.last().end {
        lemma_bars_ascend(bars, 0, bars.len() - 1);
        assert forall|k: int| 0 <= k < bars.len() implies !(#[trigger] bars[k]).contains(t) by {
            lemma_bars_ascend(bars, k, bars.len() - 1);
        }
        lemma_no_bar_with(bars, t, 0);
    }
}

/// The notes for which a tick requests voices are exactly those that begin
/// within the tick, each once, in the order of the notes.
pub proof fn law_requests_in_note_order(notes: Seq<NoteView>, from: int, delta: int, upto: int)
    requires
        upto <= notes.len(),
    ensures
        forall|k: int|
            0 <= k < due_notes(notes, from, delta, upto).len() ==> {
                let index = #[trigger] due_notes(notes, from, delta, upto)[k];
                0 <= index < upto && due(notes[index], from, delta)
            },
        forall|a: int, b: int|
            0 <= a < b < due_notes(notes, from, delta, upto).len() ==> #[trigger] due_notes(
                notes,
                from,
                delta,
                upto,
            )[a] < #[trigger] due_notes(notes, from, delta, upto)[b],
        forall|i: int|
            0 <= i < upto && due(#[trigger] notes[i], from, delta) ==> due_notes(
                notes,
                from,
                delta,
                upto,
            ).contains(i),
    decreases upto,
{
    if upto > 0 {
        law_requests_in_note_order(notes, from, delta, upto - 1);
        let before = due_notes(notes, from, delta, upto - 1);
        let now = due_notes(notes, from, delta, upto);
        assert forall|i: int| 0 <= i < upto && due(#[trigger] notes[i], from, delta) implies now.contains(
            i,
        ) by {
            if i < upto - 1 {
                let k = choose|k: int| 0 <= k < before.len() && before[k] == i;
                assert(now[k] == i);
            } else {
                assert(now[now.len() - 1] == i);
            }
        }
    }
}

/// Where a beat is a quarter note or shorter, the ticks in a bar are the
/// ticks of a quarter, divided by the beats in a quarter, times the beats in
/// the bar.
pub proof fn law_bar_ticks_in_quarters(ticks_per_beat: int, numerator: int, denominator: int)
    requires
        0 <= ticks_per_beat,
        2 <= denominator,
    ensures
        two_to(denominator as nat) == 4 * two_to((denominator - 2) as nat),
        bar_ticks(ticks_per_beat, numerator, denominator) == ticks_per_beat / (two_to(
            denominator as nat,
        ) as int / 4) * numerator,
{
    let parts = two_to((denominator - 2) as nat) as int;
    assert(two_to(denominator as nat) == 4 * parts) by {
        reveal_with_fuel(two_to, 3);
    }
    lemma_two_to_increases(0, (denominator - 2) as nat);
    vstd::arithmetic::div_mod::lemma_div_multiples_vanish_quotient(4, ticks_per_beat, parts);
    assert(ticks_per_beat * 4 == 4 * ticks_per_beat);
    assert(4 * parts / 4 == parts);
}

/// Where a beat is a whole or a half note, a bar has four or two times the
/// ticks of a quarter for each beat.
pub proof fn law_bar_ticks_of_long_beats(ticks_per_beat: int, numerator: int)
    ensures
        bar_ticks(ticks_per_beat, numerator, 0) == ticks_per_beat * 4 * numerator,
        bar_ticks(ticks_per_beat, numerator, 1) == ticks_per_beat * 2 * numerator,
{
    assert(two_to(0) == 1 && two_to(1) == 2) by {
        reveal_with_fuel(two_to, 2);
    }
    let whole = ticks_per_beat * 4;
    assert(whole / 1 == whole);
    assert(whole / 2 == ticks_per_beat * 2);
    assert(bar_ticks(ticks_per_beat, numerator, 0) == whole / 1 * numerator);
    assert(bar_ticks(ticks_per_beat, numerator, 1) == whole / 2 * numerator);
}

/// A built timeline counts the tracks that it was built from.
pub proof fn law_track_count(tracks: Seq<Seq<TrackEvent>>, ticks_per_beat: u16)
    ensures
        timeline_of(tracks, ticks_per_beat as int) matches Ok(t) ==> t.track_count == tracks.len(),
{
}

/// Every event that fires in a tick carries the index of its track: each
/// step of the tick, behind its beginning, fires an event of the track whose
/// index it holds.
pub proof fn law_steps_carry_their_track(tracks: Seq<Seq<TrackEvent>>, tick: int, upto: int)
    requires
        0 <= upto <= tracks.len(),
    ensures
        forall|k: int|
            1 <= k < tick_steps(tracks, tick, upto).len() ==> {
                let step = #[trigger] tick_steps(tracks, tick, upto)[k];
                step is Fire && 0 <= step->track < upto && exists|i: int|
                    #![trigger tracks[step->track][i]]
                    fires_at(tracks[step->track], i, tick) && tracks[step->track][i].kind
                        == step->kind
            },
        tick_steps(tracks, tick, upto).len() >= 1,
        tick_steps(tracks, tick, upto)[0] == Step::BeginTick,
    decreases upto,
{
    if upto > 0 {
        law_steps_carry_their_track(tracks, tick, upto - 1);
        let track = tracks[upto - 1];
        lemma_track_steps_origin(track, upto - 1, tick, track.len() as int);
        let before = tick_steps(tracks, tick, upto - 1);
        let part = track_steps(track, upto - 1, tick, track.len() as int);
        let steps = tick_steps(tracks, tick, upto);
        assert forall|k: int| 1 <= k < steps.len() implies ({
            let step = #[trigger] steps[k];
            step is Fire && 0 <= step->track < upto && exists|i: int|
                #![trigger tracks[step->track][i]]
                fires_at(tracks[step->track], i, tick) && tracks[step->track][i].kind == step->kind
        }) by {
            if k < before.len() {
                assert(steps[k] == before[k]);
            } else {
                assert(steps[k] == part[k - before.len()]);
            }
        }
    }
}

/// Every step of a track fires an event of that track and carries its
/// number.
proof fn lemma_track_steps_origin(track: Seq<TrackEvent>, number: int, tick: int, upto: int)
    requires
        upto <= track.len(),
    ensures
        forall|k: int|
            0 <= k < track_steps(track, number, tick, upto).len() ==> {
                let step = #[trigger] track_steps(track, number, tick, upto)[k];
                step is Fire && step->track == number && exists|i: int|
                    #![trigger track[i]]
                    fires_at(track, i, tick) && track[i].kind == step->kind
            },
    decreases upto,
{
    if upto > 0 {
        lemma_track_steps_origin(track, number, tick, upto - 1);
        let before = track_steps(track, number, tick, upto - 1);
        let steps = track_steps(track, number, tick, upto);
        assert forall|k: int| 0 <= k < steps.len() implies ({
            let step = #[trigger] steps[k];
            step is Fire && step->track == number && exists|i: int|
                #![trigger track[i]]
                fires_at(track, i, tick) && track[i].kind == step->kind
        }) by {
            if k < before.len() {
                assert(steps[k] == before[k]);
            } else {
                assert(fires_at(track, upto - 1, tick));
                assert(track[upto - 1].kind == steps[k]->kind);
            }
        }
    }
}

} // verus!
