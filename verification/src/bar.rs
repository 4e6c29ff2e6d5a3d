//! A bar (measure) of the timeline.

use vstd::prelude::*;

verus! {

/// The end or off time of a bar or note that is still open while a timeline is
/// being built. No finished timeline holds it.
pub const OPEN_TIME: i128 = -1;

/// One bar: where it begins, where it ends, and its ordinal.
#[derive(Clone, Copy, Debug, PartialEq, Eq, Structural)]
pub struct Bar {
    begin_time: i128,
    end_time: i128,
    number: u32,
}

/// A bar as plain mathematical values.
pub struct BarView {
    pub begin: int,
    pub end: int,
    pub number: int,
}

impl View for Bar {
    type V = BarView;

    closed spec fn view(&self) -> BarView {
        BarView { begin: self.begin_time as int, end: self.end_time as int, number: self.number as int }
    }
}

impl Bar {
    pub fn new(begin_time: i128, end_time: i128, number: u32) -> (bar: Self)
        ensures
            bar@ == (BarView { begin: begin_time as int, end: end_time as int, number: number as int }),
    {
        Bar { begin_time, end_time, number }
    }

    pub fn begin_time(&self) -> (t: i128)
        ensures
            t == self@.begin,
    {
        self.begin_time
    }

    pub fn end_time(&self) -> (t: i128)
        ensures
            t == self@.end,
    {
        self.end_time
    }

    pub fn set_end_time(&mut self, end_time: i128)
        ensures
            final(self)@ == (BarView { end: end_time as int, ..old(self)@ }),
    {
        self.end_time = end_time;
    }

    pub fn number(&self) -> (n: u32)
        ensures
            n == self@.number,
    {
        self.number
    }
}

impl BarView {
    /// The bar covers `t`: it has begun and not yet ended.
    pub open spec fn contains(self, t: int) -> bool {
        self.begin <= t < self.end
    }
}

/// The number that a bar at position `index` gets: the index, as far as 32
/// bits hold it.
pub open spec fn bar_number(index: int) -> int {
    index % 0x1_0000_0000
}

/// The bars of a vector as mathematical values.
pub open spec fn bars_view(bars: Seq<Bar>) -> Seq<BarView> {
    Seq::new(bars.len(), |i: int| bars[i]@)
}

} // verus!
