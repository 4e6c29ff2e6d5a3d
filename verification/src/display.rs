//! What of a timeline lies in the display window of a player.
//!
//! The window begins at the cursor and is as long as the player's display
//! range. Drawing is left to the caller; here is decided what there is to
//! draw.

use crate::bar::{bars_view, BarView};
use crate::note::{notes_view, NoteView};
use crate::player::{clamp_time, MidiPlayer, PlayerView};
use vstd::prelude::*;

verus! {

/// The lowest key of a piano with 88 keys.
pub const LOWEST_KEY: u8 = 21;

/// The highest key of a piano with 88 keys.
pub const HIGHEST_KEY: u8 = 108;

/// The span from `begin` to `end` touches the window from `from` to `to`.
pub open spec fn in_view(begin: int, end: int, from: int, to: int) -> bool {
    !(begin > to || end < from)
}

/// The indices below `upto` of the bars that touch the window, in ascending
/// order.
pub open spec fn bars_in_view(bars: Seq<BarView>, from: int, to: int, upto: int) -> Seq<usize>
    decreases upto,
{
    if upto <= 0 {
        Seq::empty()
    } else if in_view(bars[upto - 1].begin, bars[upto - 1].end, from, to) {
        bars_in_view(bars, from, to, upto - 1).push((upto - 1) as usize)
    } else {
        bars_in_view(bars, from, to, upto - 1)
    }
}

/// The note belongs to the track, its key lies between `low` and `high`, and
/// it touches the window.
pub open spec fn note_in_view(note: NoteView, track: int, low: u8, high: u8, from: int, to: int) -> bool {
    &&& note.track == track
    &&& low <= note.key <= high
    &&& in_view(note.on, note.off, from, to)
}

/// The indices below `upto` of the notes of a track that are in view, in
/// ascending order.
pub open spec fn notes_in_view(
    notes: Seq<NoteView>,
    track: int,
    low: u8,
    high: u8,
    from: int,
    to: int,
    upto: int,
) -> Seq<usize>
    decreases upto,
{
    if upto <= 0 {
        Seq::empty()
    } else if note_in_view(notes[upto - 1], track, low, high, from, to) {
        notes_in_view(notes, track, low, high, from, to, upto - 1).push((upto - 1) as usize)
    } else {
        notes_in_view(notes, track, low, high, from, to, upto - 1)
    }
}

/// The key is a white key of the keyboard.
pub open spec fn white_key(key: u8) -> bool {
    let step = key % 12;
    step == 0 || step == 2 || step == 4 || step == 5 || step == 7 || step == 9 || step == 11
}

/// Whether the key is a white key of the keyboard.
pub fn is_white_key(key: u8) -> (white: bool)
    ensures
        white == white_key(key),
{
    match key % 12 {
        0 | 2 | 4 | 5 | 7 | 9 | 11 => true,
        _ => false,
    }
}

impl PlayerView {
    /// The end of the display window: the cursor plus the display range in
    /// time units, as far as a time can hold it.
    pub open spec fn window_end(self) -> int {
        clamp_time(self.current_time + self.display_range * self.timeline.ticks_per_beat)
    }
}

impl MidiPlayer {
    /// The end of the display window.
    pub fn window_end(&self) -> (end: i128)
        ensures
            end == self@.window_end(),
    {
        let range = self.display_range();
        let scale = self.timeline().ticks_per_beat();
        assert(0 <= range * scale <= 0xFFFF_FFFF_FFFF_FFFF * 0xFFFF) by (nonlinear_arith)
            requires
                0 <= range <= 0xFFFF_FFFF_FFFF_FFFF,
                0 <= scale <= 0xFFFF,
        ;
        let length: i128 = range as i128 * scale as i128;
        match self.current_time().checked_add(length) {
            Some(end) => end,
            None => i128::MAX,
        }
    }

    /// The bars that touch the display window.
    pub fn visible_bars(&self) -> (visible: Vec<usize>)
        ensures
            visible@ == bars_in_view(
                self@.timeline.bars,
                self@.current_time,
                self@.window_end(),
                self@.timeline.bars.len() as int,
            ),
    {
        let from = self.current_time();
        let to = self.window_end();
        let bars = self.timeline().bars();
        let ghost views = bars_view(bars@);
        let mut visible: Vec<usize> = Vec::new();
        let mut i: usize = 0;
        while i < bars.len()
            invariant
                i <= bars.len(),
                views == bars_view(bars@),
                visible@ == bars_in_view(views, from as int, to as int, i as int),
            decreases bars.len() - i,
        {
            let bar = &bars[i];
            assert(bar@ == views[i as int]);
            if !(bar.begin_time() > to || bar.end_time() < from) {
                visible.push(i);
            }
            i = i + 1;
        }
        visible
    }

    /// The notes of a track with keys from `low` to `high` that touch the
    /// display window.
    pub fn visible_notes(&self, track: usize, low: u8, high: u8) -> (visible: Vec<usize>)
        ensures
            visible@ == notes_in_view(
                self@.timeline.notes,
                track as int,
                low,
                high,
                self@.current_time,
                self@.window_end(),
                self@.timeline.notes.len() as int,
            ),
    {
        let from = self.current_time();
        let to = self.window_end();
        let notes = self.timeline().notes();
        let ghost views = notes_view(notes@);
        let mut visible: Vec<usize> = Vec::new();
        let mut i: usize = 0;
        while i < notes.len()
            invariant
                i <= notes.len(),
                views == notes_view(notes@),
                visible@ == notes_in_view(views, track as int, low, high, from as int, to as int, i as int),
            decreases notes.len() - i,
        {
            let note = &notes[i];
            assert(note@ == views[i as int]);
            if note.track() == track && low <= note.key() && note.key() <= high && !(note.on_time()
                > to || note.off_time() < from) {
                visible.push(i);
            }
            i = i + 1;
        }
        visible
    }
}

} // verus!
