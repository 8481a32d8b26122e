//! The scores kept in the bot's memory, by user id.

use vstd::prelude::*;

use std::collections::BTreeMap;

verus! {

/// Scores by user id.
pub struct Score(pub BTreeMap<u64, isize>);

impl Default for Score {
    fn default() -> (s: Self)
        ensures
            s.0@ == Map::<u64, isize>::empty(),
    {
        Score(BTreeMap::new())
    }
}

impl Score {
    /// The scores, to read.
    pub fn deref(&self) -> (map: &BTreeMap<u64, isize>)
        ensures
            map@ == self.0@,
    {
        &self.0
    }

    /// The scores, to change.
    pub fn deref_mut(&mut self) -> (map: &mut BTreeMap<u64, isize>)
        ensures
            *map == old(self).0,
            final(self).0 == *final(map),
    {
        &mut self.0
    }
}

} // verus!
