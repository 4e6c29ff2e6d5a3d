//! Facts about the schedule: when events fire, and how runs compose.

use crate::event::{EventKind, TrackEvent};
use crate::model::{
    apply, elapsed, fires_at, first_end, longest_span, run, schedule, tick_steps, track_span,
    track_steps, BuildState, Step,
};
use vstd::prelude::*;

verus! {

/// The largest delta time that an event can hold.
pub const DELTA_MAX: u32 = 0xFFFF_FFFF;

/// Ticks never run backwards along a track.
pub proof fn lemma_elapsed_increases(track: Seq<TrackEvent>, a: int, b: int)
    requires
        a <= b,
    ensures
        0 <= elapsed(track, a) <= elapsed(track, b),
    decreases b - a, b,
{
    if a < b {
        lemma_elapsed_increases(track, a, b - 1);
    } else if a > 0 {
        lemma_elapsed_increases(track, a - 1, a - 1);
    }
}

/// Each event adds at most the largest delta time.
pub proof fn lemma_elapsed_bound(track: Seq<TrackEvent>, count: int)
    requires
        0 <= count,
    ensures
        elapsed(track, count) <= count * DELTA_MAX,
    decreases count,
{
    if count > 0 {
        lemma_elapsed_bound(track, count - 1);
    }
}

/// Where the search for the end of a track stops: at an end-of-track event,
/// with none between `from` and it, or at the track's length.
pub proof fn lemma_first_end(track: Seq<TrackEvent>, from: int)
    requires
        0 <= from <= track.len(),
    ensures
        from <= first_end(track, from) <= track.len(),
        first_end(track, from) < track.len() ==> track[first_end(track, from)].kind
            == EventKind::EndOfTrack,
        forall|j: int|
            from <= j < first_end(track, from) ==> (#[trigger] track[j]).kind
                != EventKind::EndOfTrack,
    decreases track.len() - from,
{
    if from < track.len() && track[from].kind != EventKind::EndOfTrack {
        lemma_first_end(track, from + 1);
    }
}

/// Events before `upto` that do not fire at `tick` add no steps.
pub proof fn lemma_track_steps_skip(
    track: Seq<TrackEvent>,
    number: int,
    tick: int,
    from: int,
    upto: int,
)
    requires
        0 <= from <= upto,
        forall|j: int| from <= j < upto ==> !fires_at(track, j, tick),
    ensures
        track_steps(track, number, tick, upto) == track_steps(track, number, tick, from),
    decreases upto - from,
{
    if from < upto {
        assert(!fires_at(track, upto - 1, tick));
        lemma_track_steps_skip(track, number, tick, from, upto - 1);
    }
}

/// No step comes from no events.
pub proof fn lemma_track_steps_none(track: Seq<TrackEvent>, number: int, tick: int, upto: int)
    requires
        forall|j: int| 0 <= j < upto ==> !fires_at(track, j, tick),
    ensures
        track_steps(track, number, tick, upto) == Seq::<Step>::empty(),
{
    if upto > 0 {
        lemma_track_steps_skip(track, number, tick, 0, upto);
    }
}

/// A run over steps with one more at the end is the run over the steps,
/// then that one.
pub proof fn lemma_run_push(s: BuildState, steps: Seq<Step>, step: Step)
    ensures
        run(s, steps.push(step)) == match run(s, steps) {
            Ok(t) => apply(t, step),
            Err(e) => Err(e),
        },
{
    assert(steps.push(step).drop_last() =~= steps);
}

/// A run over two sequences in a row is the run over the first, then the run
/// over the second from where the first ended.
pub proof fn lemma_run_append(s: BuildState, first: Seq<Step>, second: Seq<Step>)
    ensures
        run(s, first + second) == match run(s, first) {
            Ok(t) => run(t, second),
            Err(e) => Err(e),
        },
    decreases second.len(),
{
    if second.len() == 0 {
        assert(first + second =~= first);
    } else {
        lemma_run_append(s, first, second.drop_last());
        assert((first + second).drop_last() =~= first + second.drop_last());
    }
}

/// A run that has failed stays failed however it goes on.
pub proof fn lemma_run_failed(s: BuildState, steps: Seq<Step>, longer: Seq<Step>)
    requires
        steps.is_prefix_of(longer),
        run(s, steps) is Err,
    ensures
        run(s, longer) == run(s, steps),
{
    let rest = longer.subrange(steps.len() as int, longer.len() as int);
    assert(longer =~= steps + rest);
    lemma_run_append(s, steps, rest);
}

/// The steps of fewer events of a track begin the steps of more of them.
pub proof fn lemma_track_steps_prefix(
    track: Seq<TrackEvent>,
    number: int,
    tick: int,
    fewer: int,
    more: int,
)
    requires
        fewer <= more,
    ensures
        track_steps(track, number, tick, fewer).is_prefix_of(
            track_steps(track, number, tick, more),
        ),
    decreases more - fewer,
{
    if fewer < more {
        lemma_track_steps_prefix(track, number, tick, fewer, more - 1);
    } else {
        let steps = track_steps(track, number, tick, fewer);
        assert(steps =~= steps.subrange(0, steps.len() as int));
    }
}

/// The steps of a tick up to fewer tracks begin the steps up to more of them.
pub proof fn lemma_tick_steps_prefix(
    tracks: Seq<Seq<TrackEvent>>,
    tick: int,
    fewer: int,
    more: int,
)
    requires
        fewer <= more,
    ensures
        tick_steps(tracks, tick, fewer).is_prefix_of(tick_steps(tracks, tick, more)),
    decreases more - fewer,
{
    if fewer < more {
        lemma_tick_steps_prefix(tracks, tick, fewer, more - 1);
    } else {
        let steps = tick_steps(tracks, tick, fewer);
        assert(steps =~= steps.subrange(0, steps.len() as int));
    }
}

/// The schedule of fewer ticks begins the schedule of more of them.
pub proof fn lemma_schedule_prefix(tracks: Seq<Seq<TrackEvent>>, fewer: int, more: int)
    requires
        fewer <= more,
    ensures
        schedule(tracks, fewer).is_prefix_of(schedule(tracks, more)),
    decreases more - fewer,
{
    if fewer < more {
        lemma_schedule_prefix(tracks, fewer, more - 1);
    } else {
        let steps = schedule(tracks, fewer);
        assert(steps =~= steps.subrange(0, steps.len() as int));
    }
}

/// No track among the first `upto` spans more than the longest span.
pub proof fn lemma_longest_span(tracks: Seq<Seq<TrackEvent>>, upto: int, t: int)
    requires
        0 <= t < upto,
    ensures
        track_span(tracks[t]) <= longest_span(tracks, upto),
    decreases upto,
{
    if t < upto - 1 {
        lemma_longest_span(tracks, upto - 1, t);
    }
}

/// The longest span is at most a bound that holds of every track's span.
pub proof fn lemma_longest_span_within(tracks: Seq<Seq<TrackEvent>>, upto: int, bound: int)
    requires
        0 <= bound,
        forall|t: int| 0 <= t < upto ==> track_span(#[trigger] tracks[t]) <= bound,
    ensures
        longest_span(tracks, upto) <= bound,
    decreases upto,
{
    if upto > 0 {
        lemma_longest_span_within(tracks, upto - 1, bound);
    }
}

} // verus!
