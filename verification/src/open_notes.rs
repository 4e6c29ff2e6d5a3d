//! The notes that are sounding while a timeline is built.

use std::collections::HashMap;
use vstd::prelude::*;

verus! {

/// For each channel and key that is down, the index of the note it began.
/// A channel and key has at most one note here at a time.
pub struct OpenNoteIndex {
    slots: HashMap<u16, usize>,
}

/// The place of a channel and key in the table.
pub closed spec fn slot_of(channel: u8, key: u8) -> u16 {
    (channel as int * 256 + key as int) as u16
}

impl View for OpenNoteIndex {
    type V = Map<(u8, u8), int>;

    closed spec fn view(&self) -> Map<(u8, u8), int> {
        Map::new(
            |p: (u8, u8)| self.slots@.contains_key(slot_of(p.0, p.1)),
            |p: (u8, u8)| self.slots@[slot_of(p.0, p.1)] as int,
        )
    }
}

fn slot(channel: u8, key: u8) -> (s: u16)
    ensures
        s == slot_of(channel, key),
{
    let c: u16 = channel as u16;
    let k: u16 = key as u16;
    c * 256 + k
}

impl OpenNoteIndex {
    /// No key is down.
    pub fn new() -> (index: Self)
        ensures
            index@ == Map::<(u8, u8), int>::empty(),
    {
        let index = OpenNoteIndex { slots: HashMap::new() };
        assert(index@ =~= Map::<(u8, u8), int>::empty());
        index
    }

    /// The note of a channel and key that is down, if it is.
    pub fn get(&self, channel: u8, key: u8) -> (found: Option<usize>)
        ensures
            match found {
                Some(id) => self@.contains_key((channel, key)) && self@[(channel, key)] == id,
                None => !self@.contains_key((channel, key)),
            },
    {
        let s = slot(channel, key);
        match self.slots.get(&s) {
            Some(id) => Some(*id),
            None => None,
        }
    }

    /// Records that the key is down on the channel with note `id`, and
    /// returns the note that was recorded for it before, if any.
    pub fn insert(&mut self, channel: u8, key: u8, id: usize) -> (before: Option<usize>)
        ensures
            final(self)@ == old(self)@.insert((channel, key), id as int),
            match before {
                Some(b) => old(self)@.contains_key((channel, key)) && old(self)@[(channel, key)]
                    == b,
                None => !old(self)@.contains_key((channel, key)),
            },
    {
        let s = slot(channel, key);
        let before = self.slots.insert(s, id);
        assert(self@ =~= old(self)@.insert((channel, key), id as int)) by {
            assert forall|p: (u8, u8)| p != (channel, key) implies slot_of(p.0, p.1) != s by {}
        }
        before
    }

    /// Records that the key is up on the channel, and returns the note that
    /// was recorded for it, if any.
    pub fn remove(&mut self, channel: u8, key: u8) -> (found: Option<usize>)
        ensures
            final(self)@ == old(self)@.remove((channel, key)),
            match found {
                Some(id) => old(self)@.contains_key((channel, key)) && old(self)@[(channel, key)]
                    == id,
                None => !old(self)@.contains_key((channel, key)),
            },
    {
        let s = slot(channel, key);
        let found = self.slots.remove(&s);
        assert(self@ =~= old(self)@.remove((channel, key))) by {
            assert forall|p: (u8, u8)| p != (channel, key) implies slot_of(p.0, p.1) != s by {}
        }
        found
    }
}

} // verus!
