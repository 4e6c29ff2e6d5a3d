//! The place of the simulation in one track.

use crate::builder::TimelineBuilder;
use crate::error::DecodeError;
use crate::event::{EventKind, TrackEvent};
use crate::model::{
    elapsed, fires_at, last_event, run, track_span, track_steps, BuildState, Step,
};
use crate::schedule::{
    lemma_elapsed_increases, lemma_first_end, lemma_run_failed, lemma_run_push,
    lemma_track_steps_none, lemma_track_steps_prefix, lemma_track_steps_skip,
};
use crate::steady::ticking;
use vstd::prelude::*;

verus! {

/// Whether a track still has events to fire.
#[derive(Clone, Copy, Debug, PartialEq, Eq, Structural)]
pub enum CursorState {
    /// The track waits for its next event.
    Idle,
    /// The track is empty, or its end-of-track event has fired, or it has
    /// run out of events.
    Ended,
}

/// Where the simulation stands in one track.
#[derive(Clone, Copy, Debug, PartialEq, Eq, Structural)]
pub struct TrackCursor {
    /// Ticks left before the next event fires.
    pub pending_ticks: u32,
    /// The index of the next event.
    pub event_index: usize,
    pub state: CursorState,
}

impl TrackCursor {
    /// The cursor is where the simulation stands in `track` when tick `tick`
    /// begins: ended if the track's span is over, else at the first event
    /// that has not fired, with the ticks that are left until it does.
    pub open spec fn at(self, track: Seq<TrackEvent>, tick: int) -> bool {
        if track.len() == 0 || tick >= track_span(track) {
            self.state == CursorState::Ended
        } else {
            &&& self.state == CursorState::Idle
            &&& self.event_index <= last_event(track)
            &&& self.pending_ticks == elapsed(track, self.event_index + 1) - tick
            &&& self.event_index > 0 ==> elapsed(track, self.event_index as int) < tick
        }
    }

    /// The cursor before the first tick.
    pub fn start(track: &Vec<TrackEvent>) -> (cursor: Self)
        ensures
            cursor.at(track@, 0),
            cursor.event_index == 0,
            cursor.pending_ticks == if track.len() == 0 {
                0
            } else {
                track[0].delta
            },
    {
        if track.len() == 0 {
            TrackCursor { pending_ticks: 0, event_index: 0, state: CursorState::Ended }
        } else {
            proof {
                lemma_first_end(track@, 0);
                lemma_elapsed_increases(track@, 1, last_event(track@) + 1);
                assert(elapsed(track@, 1) == track@[0].delta) by {
                    reveal_with_fuel(elapsed, 2);
                }
            }
            TrackCursor { pending_ticks: track[0].delta, event_index: 0, state: CursorState::Idle }
        }
    }

    /// Whether the track has ended.
    pub fn ended(&self) -> (ended: bool)
        ensures
            ended == (self.state == CursorState::Ended),
    {
        match self.state {
            CursorState::Ended => true,
            CursorState::Idle => false,
        }
    }
}

/// The part of one track in one tick: its events that are due fire in order,
/// the end-of-track event or the last event ends the track, and a track that
/// waits has one tick less to wait.
pub(crate) fn fire_track(
    builder: &mut TimelineBuilder,
    track: &Vec<TrackEvent>,
    number: usize,
    cursor: TrackCursor,
    Ghost(tick): Ghost<int>,
) -> (result: Result<TrackCursor, DecodeError>)
    requires
        ticking(old(builder)@),
        forall|i: int| 0 <= i < track.len() ==> (#[trigger] track[i]).wf(),
        cursor.at(track@, tick),
        0 <= tick,
    ensures
        match run(old(builder)@, track_steps(track@, number as int, tick, track.len() as int)) {
            Ok(s) => result matches Ok(next) && final(builder)@ == s && ticking(s) && next.at(
                track@,
                tick + 1,
            ) && s.time == old(builder)@.time,
            Err(e) => result == Err::<TrackCursor, DecodeError>(e),
        },
{
    let ghost before = builder@;
    let ghost end = last_event(track@);
    let ghost length = track.len() as int;
    proof {
        lemma_first_end(track@, 0);
    }
    if cursor.ended() {
        proof {
            assert forall|j: int| 0 <= j < length implies !fires_at(track@, j, tick) by {
                if j <= end {
                    lemma_elapsed_increases(track@, j + 1, end + 1);
                }
            }
            lemma_track_steps_none(track@, number as int, tick, length);
        }
        return Ok(cursor);
    }
    let mut cursor = cursor;
    proof {
        assert forall|j: int| 0 <= j < cursor.event_index implies !fires_at(track@, j, tick) by {
            lemma_elapsed_increases(track@, j + 1, cursor.event_index as int);
        }
        lemma_track_steps_none(track@, number as int, tick, cursor.event_index as int);
    }
    while !cursor.ended() && cursor.pending_ticks == 0
        invariant
            ticking(builder@),
            before == old(builder)@,
            builder@.time == before.time,
            Ok::<BuildState, DecodeError>(builder@) == run(
                before,
                track_steps(track@, number as int, tick, cursor.event_index as int),
            ),
            end == last_event(track@),
            length == track.len(),
            0 <= end < length,
            track@[end].kind == EventKind::EndOfTrack || end == length - 1,
            forall|j: int| 0 <= j < end ==> (#[trigger] track@[j]).kind != EventKind::EndOfTrack,
            forall|i: int| 0 <= i < track.len() ==> (#[trigger] track[i]).wf(),
            cursor.event_index <= length,
            cursor.event_index > 0 ==> elapsed(track@, cursor.event_index as int) <= tick,
            cursor.state == CursorState::Idle ==> {
                &&& cursor.event_index <= end
                &&& cursor.pending_ticks == elapsed(track@, cursor.event_index + 1) - tick
            },
            cursor.state == CursorState::Ended ==> {
                &&& cursor.event_index == end + 1
                &&& elapsed(track@, end + 1) == tick
            },
        decreases length - cursor.event_index,
    {
        let index = cursor.event_index;
        let kind = track[index].kind;
        let ghost so_far = track_steps(track@, number as int, tick, index as int);
        proof {
            assert(fires_at(track@, index as int, tick));
            assert(track_steps(track@, number as int, tick, index + 1) == so_far.push(
                Step::Fire { track: number as int, kind },
            ));
            lemma_run_push(before, so_far, Step::Fire { track: number as int, kind });
        }
        match builder.fire(number, kind) {
            Ok(()) => {},
            Err(e) => {
                proof {
                    lemma_track_steps_prefix(track@, number as int, tick, index + 1, length);
                    lemma_run_failed(
                        before,
                        track_steps(track@, number as int, tick, index + 1),
                        track_steps(track@, number as int, tick, length),
                    );
                }
                return Err(e);
            },
        }
        if kind == EventKind::EndOfTrack || index + 1 == track.len() {
            cursor.state = CursorState::Ended;
        }
        cursor.event_index = index + 1;
        if cursor.event_index < track.len() {
            cursor.pending_ticks = track[cursor.event_index].delta;
        }
    }
    proof {
        let index = cursor.event_index as int;
        assert forall|j: int| index <= j < length implies !fires_at(track@, j, tick) by {
            if cursor.state == CursorState::Idle {
                lemma_elapsed_increases(track@, index + 1, j + 1);
            }
        }
        lemma_track_steps_skip(track@, number as int, tick, index, length);
        if cursor.state == CursorState::Idle {
            lemma_elapsed_increases(track@, index + 1, end + 1);
        }
    }
    if !cursor.ended() {
        cursor.pending_ticks = cursor.pending_ticks - 1;
    }
    Ok(cursor)
}

} // verus!
