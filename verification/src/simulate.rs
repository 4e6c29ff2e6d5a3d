//! Building a timeline from tracks: the simulation loop.

use crate::bar::{bars_view, Bar};
use crate::builder::TimelineBuilder;
use crate::cursor::{fire_track, CursorState, TrackCursor};
use crate::error::DecodeError;
use crate::event::{EventKind, TrackEvent, TEMPO_LIMIT};
use crate::note::{notes_view, Note};
use crate::model::{
    all_terminated, all_wf, first_end, initial_state, last_event, longest_span, run, schedule,
    terminated,
    tick_steps, timeline_of, total_ticks, track_span, track_steps, tracks_view,
    BuildState, Step,
};
use crate::schedule::{
    lemma_elapsed_bound, lemma_elapsed_increases, lemma_first_end, lemma_longest_span,
    lemma_longest_span_within, lemma_run_append, lemma_run_failed, lemma_run_push,
    lemma_schedule_prefix, lemma_tick_steps_prefix, DELTA_MAX,
};
use crate::steady::{lemma_finish_wf, lemma_initial_resting, resting, ticking};
use crate::timeline::Timeline;
use vstd::prelude::*;

verus! {

/// Whether the track is empty or holds an end-of-track event.
pub fn is_terminated(track: &Vec<TrackEvent>) -> (ok: bool)
    ensures
        ok == terminated(track@),
{
    if track.len() == 0 {
        return true;
    }
    let mut i: usize = 0;
    while i < track.len()
        invariant
            i <= track.len(),
            first_end(track@, 0) == first_end(track@, i as int),
        decreases track.len() - i,
    {
        if track[i].kind == EventKind::EndOfTrack {
            return true;
        }
        i = i + 1;
    }
    false
}

/// A track that holds an event spans at least one tick.
proof fn lemma_span_of_events(track: Seq<TrackEvent>)
    ensures
        track.len() > 0 ==> track_span(track) >= 1,
        track.len() == 0 ==> track_span(track) == 0,
{
    if track.len() > 0 {
        lemma_first_end(track, 0);
        lemma_elapsed_increases(track, 0, last_event(track) + 1);
    }
}

/// There is a tick to simulate among the first `upto` tracks exactly if one
/// of them holds an event.
proof fn lemma_ticks_of_events(tracks: Seq<Seq<TrackEvent>>, upto: int)
    requires
        upto <= tracks.len(),
    ensures
        longest_span(tracks, upto) >= 0,
        longest_span(tracks, upto) > 0 <==> exists|t: int|
            0 <= t < upto && (#[trigger] tracks[t]).len() > 0,
    decreases upto,
{
    if upto > 0 {
        lemma_ticks_of_events(tracks, upto - 1);
        lemma_span_of_events(tracks[upto - 1]);
        if longest_span(tracks, upto - 1) > 0 {
            let t = choose|t: int| 0 <= t < upto - 1 && (#[trigger] tracks[t]).len() > 0;
            assert(tracks[t].len() > 0);
        }
    }
}

/// Whether any track holds an event, so that there is a tick to simulate.
pub fn has_events(tracks: &Vec<Vec<TrackEvent>>) -> (some: bool)
    ensures
        some == (total_ticks(tracks_view(tracks@)) > 0),
        !some ==> forall|t: int|
            0 <= t < tracks.len() ==> (#[trigger] tracks_view(tracks@)[t]).len() == 0,
{
    let ghost views = tracks_view(tracks@);
    proof {
        lemma_ticks_of_events(views, views.len() as int);
    }
    let mut t: usize = 0;
    while t < tracks.len()
        invariant
            t <= tracks.len(),
            views == tracks_view(tracks@),
            forall|k: int| 0 <= k < t ==> (#[trigger] views[k]).len() == 0,
            total_ticks(views) > 0 <==> exists|k: int|
                0 <= k < views.len() && (#[trigger] views[k]).len() > 0,
        decreases tracks.len() - t,
    {
        if tracks[t].len() > 0 {
            assert(views[t as int].len() > 0);
            return true;
        }
        t = t + 1;
    }
    false
}

/// Whether every track is empty or holds an end-of-track event.
pub fn all_tracks_terminated(tracks: &Vec<Vec<TrackEvent>>) -> (ok: bool)
    ensures
        ok == all_terminated(tracks_view(tracks@)),
{
    let mut t: usize = 0;
    while t < tracks.len()
        invariant
            t <= tracks.len(),
            forall|k: int| 0 <= k < t ==> terminated(#[trigger] tracks_view(tracks@)[k]),
        decreases tracks.len() - t,
    {
        if !is_terminated(&tracks[t]) {
            assert(!terminated(tracks_view(tracks@)[t as int]));
            return false;
        }
        t = t + 1;
    }
    true
}

/// One cursor for each track, as they stand before the first tick.
fn start_cursors(tracks: &Vec<Vec<TrackEvent>>) -> (cursors: Vec<TrackCursor>)
    ensures
        cursors.len() == tracks.len(),
        forall|k: int|
            0 <= k < tracks.len() ==> (#[trigger] cursors[k]).at(tracks_view(tracks@)[k], 0),
{
    let mut cursors: Vec<TrackCursor> = Vec::new();
    let mut t: usize = 0;
    while t < tracks.len()
        invariant
            t <= tracks.len(),
            cursors.len() == t,
            forall|k: int| 0 <= k < t ==> (#[trigger] cursors[k]).at(tracks_view(tracks@)[k], 0),
        decreases tracks.len() - t,
    {
        cursors.push(TrackCursor::start(&tracks[t]));
        t = t + 1;
    }
    cursors
}

/// Whether any track has not ended.
fn any_idle(cursors: &Vec<TrackCursor>) -> (idle: bool)
    ensures
        idle == exists|k: int| 0 <= k < cursors.len() && (#[trigger] cursors[k]).state
            == CursorState::Idle,
{
    let mut k: usize = 0;
    while k < cursors.len()
        invariant
            k <= cursors.len(),
            forall|j: int| 0 <= j < k ==> (#[trigger] cursors[j]).state != CursorState::Idle,
        decreases cursors.len() - k,
    {
        if !cursors[k].ended() {
            return true;
        }
        k = k + 1;
    }
    false
}

/// One tick of the simulation: the tick begins, every track takes its part
/// in the order of the tracks, and the tick ends.
fn run_tick(
    builder: &mut TimelineBuilder,
    tracks: &Vec<Vec<TrackEvent>>,
    cursors: &mut Vec<TrackCursor>,
    Ghost(tick): Ghost<int>,
) -> (result: Result<(), DecodeError>)
    requires
        resting(old(builder)@),
        all_wf(tracks_view(tracks@)),
        old(cursors).len() == tracks.len(),
        forall|k: int|
            0 <= k < tracks.len() ==> (#[trigger] old(cursors)[k]).at(tracks_view(tracks@)[k], tick),
        0 <= tick,
        old(builder)@.time <= tick * TEMPO_LIMIT,
        tick <= usize::MAX * DELTA_MAX,
    ensures
        match run(
            old(builder)@,
            tick_steps(tracks_view(tracks@), tick, tracks.len() as int).push(Step::EndTick),
        ) {
            Ok(s) => {
                &&& result is Ok
                &&& final(builder)@ == s
                &&& resting(s)
                &&& s.time <= (tick + 1) * TEMPO_LIMIT
                &&& final(cursors).len() == tracks.len()
                &&& forall|k: int|
                    0 <= k < tracks.len() ==> (#[trigger] final(cursors)[k]).at(
                        tracks_view(tracks@)[k],
                        tick + 1,
                    )
            },
            Err(e) => result == Err::<(), DecodeError>(e),
        },
{
    let ghost before = builder@;
    let ghost views = tracks_view(tracks@);
    builder.begin_tick();
    proof {
        assert(tick_steps(views, tick, 0) == seq![Step::BeginTick]);
        lemma_run_push(before, Seq::empty(), Step::BeginTick);
        assert(Seq::<Step>::empty().push(Step::BeginTick) =~= seq![Step::BeginTick]);
    }
    let mut t: usize = 0;
    while t < tracks.len()
        invariant
            t <= tracks.len(),
            views == tracks_view(tracks@),
            before == old(builder)@,
            all_wf(views),
            cursors.len() == tracks.len(),
            0 <= tick,
            ticking(builder@),
            builder@.time == before.time,
            Ok::<BuildState, DecodeError>(builder@) == run(before, tick_steps(views, tick, t as int)),
            forall|k: int| 0 <= k < t ==> (#[trigger] cursors[k]).at(views[k], tick + 1),
            forall|k: int| t <= k < tracks.len() ==> (#[trigger] cursors[k]).at(views[k], tick),
        decreases tracks.len() - t,
    {
        let number = t;
        let ghost done = tick_steps(views, tick, t as int);
        let ghost part = track_steps(views[t as int], number as int, tick, views[t as int].len() as int);
        proof {
            assert forall|i: int| 0 <= i < tracks[t as int].len() implies (
            #[trigger] tracks[t as int][i]).wf() by {
                assert(views[t as int][i].wf());
            }
            assert(tick_steps(views, tick, t + 1) == done + part);
            lemma_run_append(before, done, part);
        }
        match fire_track(builder, &tracks[t], number, cursors[t], Ghost(tick)) {
            Ok(next) => {
                cursors.set(t, next);
            },
            Err(e) => {
                proof {
                    lemma_tick_failed(before, views, tick, t + 1);
                }
                return Err(e);
            },
        }
        t = t + 1;
    }
    proof {
        lemma_run_push(before, tick_steps(views, tick, tracks.len() as int), Step::EndTick);
        assert(builder@.time + builder@.tempo <= (tick + 1) * TEMPO_LIMIT);
    }
    builder.end_tick();
    Ok(())
}

/// A failure among the tracks of a tick is a failure of the whole tick.
proof fn lemma_tick_failed(s: BuildState, tracks: Seq<Seq<TrackEvent>>, tick: int, upto: int)
    requires
        upto <= tracks.len(),
        run(s, tick_steps(tracks, tick, upto)) is Err,
    ensures
        run(s, tick_steps(tracks, tick, tracks.len() as int).push(Step::EndTick)) == run(
            s,
            tick_steps(tracks, tick, upto),
        ),
{
    let part = tick_steps(tracks, tick, upto);
    let whole = tick_steps(tracks, tick, tracks.len() as int);
    lemma_tick_steps_prefix(tracks, tick, upto, tracks.len() as int);
    lemma_run_failed(s, part, whole);
    lemma_run_push(s, whole, Step::EndTick);
}

/// The tick at which a track ends is within what its events can add up to.
proof fn lemma_span_bound(track: Seq<TrackEvent>)
    requires
        track.len() <= usize::MAX,
    ensures
        0 <= track_span(track) <= usize::MAX * DELTA_MAX + 1,
{
    if track.len() > 0 {
        let end = last_event(track);
        lemma_first_end(track, 0);
        lemma_elapsed_bound(track, end + 1);
        lemma_elapsed_increases(track, 0, end + 1);
        assert((end + 1) * DELTA_MAX <= usize::MAX * DELTA_MAX) by (nonlinear_arith)
            requires
                0 <= end + 1 <= usize::MAX,
        ;
    }
}

/// Builds the timeline of the given tracks.
///
/// The tracks run side by side on one clock of `ticks_per_beat` ticks to
/// the beat. The simulation goes tick by tick until every track has ended
/// or run out of events. It fails where a time signature fires that gives
/// bars without a tick, or where a key goes down that is already down.
/// Before it starts, a time base of zero is refused if there is an event;
/// after it, a track that holds events but no end.
pub fn build(tracks: &Vec<Vec<TrackEvent>>, ticks_per_beat: u16) -> (result: Result<
    Timeline,
    DecodeError,
>)
    requires
        all_wf(tracks_view(tracks@)),
    ensures
        match timeline_of(tracks_view(tracks@), ticks_per_beat as int) {
            Ok(t) => result matches Ok(timeline) && timeline@ == t,
            Err(e) => result matches Err(error) && error == e,
        },
        result matches Ok(timeline) ==> timeline@.wf(),
{
    let ghost views = tracks_view(tracks@);
    if ticks_per_beat == 0 {
        if has_events(tracks) {
            return Err(DecodeError::UnsupportedTiming);
        }
        proof {
            assert(all_terminated(views));
            assert(schedule(views, 0) =~= Seq::<Step>::empty());
            assert(total_ticks(views) == 0);
        }
        let bars: Vec<Bar> = Vec::new();
        let notes: Vec<Note> = Vec::new();
        proof {
            let t = timeline_of(views, 0)->Ok_0;
            assert(t.bars =~= bars_view(bars@));
            assert(t.notes =~= notes_view(notes@));
        }
        return Ok(Timeline::assemble(bars, notes, tracks.len(), 0));
    }
    let ghost initial = initial_state(ticks_per_beat as int);
    let ghost total = total_ticks(views);
    let mut cursors = start_cursors(tracks);
    let mut builder = TimelineBuilder::new(ticks_per_beat);
    let ghost mut tick: int = 0;
    proof {
        lemma_initial_resting(ticks_per_beat as int);
        lemma_longest_span_nonnegative(views, views.len() as int);
        assert forall|t: int| 0 <= t < views.len() implies (#[trigger] views[t]).len()
            <= usize::MAX by {
            assert(views[t].len() == tracks@[t].len());
        }
    }
    while any_idle(&cursors)
        invariant
            views == tracks_view(tracks@),
            initial == initial_state(ticks_per_beat as int),
            total == total_ticks(views),
            ticks_per_beat > 0,
            all_wf(views),
            cursors.len() == tracks.len(),
            forall|t: int| 0 <= t < views.len() ==> (#[trigger] views[t]).len() <= usize::MAX,
            forall|k: int| 0 <= k < tracks.len() ==> (#[trigger] cursors[k]).at(views[k], tick),
            0 <= tick <= total,
            resting(builder@),
            builder@.time <= tick * TEMPO_LIMIT,
            Ok::<BuildState, DecodeError>(builder@) == run(initial, schedule(views, tick)),
        decreases total - tick,
    {
        proof {
            let k = choose|k: int|
                0 <= k < cursors.len() && (#[trigger] cursors[k]).state == CursorState::Idle;
            assert(cursors[k].at(views[k], tick));
            lemma_longest_span(views, views.len() as int, k);
            lemma_span_bound(views[k]);
            let part = tick_steps(views, tick, views.len() as int).push(Step::EndTick);
            assert(schedule(views, tick + 1) == schedule(views, tick) + part);
            lemma_run_append(initial, schedule(views, tick), part);
        }
        match run_tick(&mut builder, tracks, &mut cursors, Ghost(tick)) {
            Ok(()) => {},
            Err(e) => {
                proof {
                    lemma_schedule_prefix(views, tick + 1, total);
                    lemma_run_failed(
                        initial,
                        schedule(views, tick + 1),
                        schedule(views, total),
                    );
                }
                return Err(e);
            },
        }
        proof {
            tick = tick + 1;
        }
    }
    proof {
        assert forall|t: int| 0 <= t < views.len() implies track_span(#[trigger] views[t])
            <= tick by {
            assert(cursors[t].at(views[t], tick));
        }
        lemma_longest_span_within(views, views.len() as int, tick);
    }
    if !all_tracks_terminated(tracks) {
        return Err(DecodeError::UnterminatedTrack);
    }
    proof {
        lemma_finish_wf(builder@, tracks.len() as int);
        assert(builder@.countdown * builder@.tempo <= 0x3FF_FFFF * 0xFF_FFFF) by (nonlinear_arith)
            requires
                0 <= builder@.countdown <= 0x3FF_FFFF,
                0 <= builder@.tempo <= 0xFF_FFFF,
        ;
        lemma_total_bound(views);
    }
    Ok(builder.finish(tracks.len()))
}

/// No span is negative, so neither is the longest.
proof fn lemma_longest_span_nonnegative(tracks: Seq<Seq<TrackEvent>>, upto: int)
    ensures
        0 <= longest_span(tracks, upto),
    decreases upto,
{
    if upto > 0 {
        lemma_longest_span_nonnegative(tracks, upto - 1);
    }
}

/// The simulation runs for a bounded number of ticks.
proof fn lemma_total_bound(tracks: Seq<Seq<TrackEvent>>)
    requires
        forall|t: int| 0 <= t < tracks.len() ==> (#[trigger] tracks[t]).len() <= usize::MAX,
    ensures
        total_ticks(tracks) <= usize::MAX * DELTA_MAX + 1,
{
    assert forall|t: int| 0 <= t < tracks.len() implies track_span(#[trigger] tracks[t])
        <= usize::MAX * DELTA_MAX + 1 by {
        lemma_span_bound(tracks[t]);
    }
    lemma_longest_span_within(tracks, tracks.len() as int, usize::MAX * DELTA_MAX + 1);
}

} // verus!
