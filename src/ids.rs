use vstd::prelude::*;

use crate::Id;
use std::collections::HashSet;

verus! {

broadcast use vstd::std_specs::hash::group_hash_axioms;

/// Hands out unique, non-zero identifiers.
///
/// Automatic identifiers come from a cursor that never moves backwards: each
/// one is the smallest free identifier at or above the cursor. Explicit
/// identifiers can be registered as long as they are free, and any identifier
/// can be released again.
pub struct IdManager {
    next_id: Id,
    all_ids: HashSet<Id>,
}

/// Abstract state of an [`IdManager`].
pub ghost struct IdsView {
    /// Where the search for the next automatic identifier starts.
    pub cursor: u64,
    /// Identifiers currently in use.
    pub live: Set<u64>,
}

impl View for IdManager {
    type V = IdsView;

    closed spec fn view(&self) -> IdsView {
        IdsView { cursor: self.next_id, live: self.all_ids@ }
    }
}

impl IdManager {
    /// Zero is never in use and the cursor never points at it.
    pub open spec fn wf(&self) -> bool {
        &&& self@.cursor >= 1
        &&& !self@.live.contains(0)
    }

    pub fn new() -> (r: IdManager)
        ensures
            r.wf(),
            r@.cursor == 1,
            r@.live == Set::<u64>::empty(),
    {
        IdManager { next_id: 1, all_ids: HashSet::new() }
    }

    /// Allocates the smallest free identifier at or above the cursor and moves
    /// the cursor past it. Returns `None`, changing nothing, when every
    /// identifier from the cursor up to `u64::MAX - 1` is in use.
    pub fn next_id(&mut self) -> (r: Option<Id>)
        requires
            old(self).wf(),
        ensures
            final(self).wf(),
            old(self)@.cursor < u64::MAX && !old(self)@.live.contains(old(self)@.cursor) ==> r == Some(
                old(self)@.cursor,
            ),
            match r {
                Some(id) => {
                    &&& old(self)@.cursor <= id < u64::MAX
                    &&& !old(self)@.live.contains(id)
                    &&& forall|x: u64| old(self)@.cursor <= x < id ==> old(self)@.live.contains(x)
                    &&& final(self)@.live == old(self)@.live.insert(id)
                    &&& final(self)@.cursor == id + 1
                },
                None => {
                    &&& forall|x: u64| old(self)@.cursor <= x < u64::MAX ==> old(self)@.live.contains(x)
                    &&& final(self)@ == old(self)@
                },
            },
    {
        let mut candidate: u64 = self.next_id;
        while candidate < u64::MAX && self.all_ids.contains(&candidate)
            invariant
                self.wf(),
                self@ == old(self)@,
                self@.cursor <= candidate,
                forall|x: u64| self@.cursor <= x < candidate ==> self@.live.contains(x),
            decreases u64::MAX - candidate,
        {
            candidate += 1;
        }
        if candidate == u64::MAX {
            return None;
        }
        self.all_ids.insert(candidate);
        self.next_id = candidate + 1;
        Some(candidate)
    }

    /// Marks `id` as in use. Fails, changing nothing, when `id` is zero or
    /// already in use.
    pub fn register_id(&mut self, id: Id) -> (r: Option<Id>)
        requires
            old(self).wf(),
        ensures
            final(self).wf(),
            id == 0 || old(self)@.live.contains(id) ==> r is None && final(self)@ == old(self)@,
            !(id == 0 || old(self)@.live.contains(id)) ==> r == Some(id) && final(self)@ == (IdsView {
                cursor: old(self)@.cursor,
                live: old(self)@.live.insert(id),
            }),
    {
        if id == 0 || self.all_ids.contains(&id) {
            None
        } else {
            self.all_ids.insert(id);
            Some(id)
        }
    }

    /// Marks `id` as free again. The cursor does not move.
    pub fn release_id(&mut self, id: Id)
        requires
            old(self).wf(),
        ensures
            final(self).wf(),
            final(self)@.cursor == old(self)@.cursor,
            final(self)@.live == old(self)@.live.remove(id),
    {
        self.all_ids.remove(&id);
    }

    /// Whether `id` is currently in use.
    pub fn contains(&self, id: Id) -> (r: bool)
        ensures
            r == self@.live.contains(id),
    {
        self.all_ids.contains(&id)
    }
}

impl Default for IdManager {
    fn default() -> (r: IdManager)
        ensures
            r.wf(),
            r@.cursor == 1,
            r@.live == Set::<u64>::empty(),
    {
        IdManager::new()
    }
}

} // verus!
