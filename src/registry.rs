//! The directory of live duels.

use vstd::prelude::*;
use std::collections::HashMap;

verus! {

broadcast use vstd::std_specs::hash::group_hash_axioms;

/// The live duels, each under the identifier it was registered with.
/// Identifiers are handed out in increasing order and never again.
pub struct SessionRegistry<S> {
    sessions: HashMap<usize, S>,
    next_id: usize,
}

impl<S> SessionRegistry<S> {
    /// The live duels by identifier.
    pub closed spec fn sessions(&self) -> Map<usize, S> {
        self.sessions@
    }

    /// The identifier that the next registration receives; every identifier
    /// handed out so far is below it.
    pub closed spec fn next_id(&self) -> usize {
        self.next_id
    }

    pub closed spec fn wf(&self) -> bool {
        forall|id: usize| #[trigger] self.sessions@.contains_key(id) ==> id < self.next_id
    }

    /// A registry with no duel.
    pub fn new() -> (r: Self)
        ensures
            r.wf(),
            r.sessions() == Map::<usize, S>::empty(),
            r.next_id() == 0,
    {
        SessionRegistry { sessions: HashMap::new(), next_id: 0 }
    }

    /// Adds `session` under a fresh identifier, which is returned: one that
    /// no duel has held before. `None`, with nothing added, once every
    /// identifier has been handed out.
    pub fn register(&mut self, session: S) -> (r: Option<usize>)
        requires
            old(self).wf(),
        ensures
            final(self).wf(),
            match r {
                Some(id) => {
                    &&& id == old(self).next_id()
                    &&& !old(self).sessions().contains_key(id)
                    &&& final(self).sessions() == old(self).sessions().insert(id, session)
                    &&& final(self).next_id() == id + 1
                },
                None => {
                    &&& old(self).next_id() == usize::MAX
                    &&& final(self).sessions() == old(self).sessions()
                    &&& final(self).next_id() == old(self).next_id()
                },
            },
    {
        if self.next_id == usize::MAX {
            return None;
        }
        let id = self.next_id;
        self.sessions.insert(id, session);
        self.next_id = id + 1;
        Some(id)
    }

    /// The duel registered under `id`, if it is still live.
    pub fn get(&self, id: usize) -> (r: Option<&S>)
        ensures
            match r {
                Some(s) => self.sessions().contains_key(id) && *s == self.sessions()[id],
                None => !self.sessions().contains_key(id),
            },
    {
        self.sessions.get(&id)
    }

    /// Ends the duel registered under `id`, and returns it; `None` when no
    /// live duel has that identifier. The identifier is not handed out again.
    pub fn remove(&mut self, id: usize) -> (r: Option<S>)
        requires
            old(self).wf(),
        ensures
            final(self).wf(),
            final(self).sessions() == old(self).sessions().remove(id),
            final(self).next_id() == old(self).next_id(),
            match r {
                Some(s) => old(self).sessions().contains_key(id) && s == old(self).sessions()[id],
                None => !old(self).sessions().contains_key(id),
            },
    {
        self.sessions.remove(&id)
    }
}

} // verus!
