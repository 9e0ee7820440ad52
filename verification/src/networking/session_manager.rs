//! The table of open sessions, keyed by a session number.

use vstd::prelude::*;
use std::collections::HashMap;

verus! {

broadcast use vstd::std_specs::hash::group_hash_axioms;

/// The open sessions, each under its own number. `V` is whatever the
/// server keeps per session (for the server, a shared handle on the
/// connection).
pub struct SessionManager<V> {
    clients: HashMap<usize, V>,
}

impl<V> View for SessionManager<V> {
    type V = Map<usize, V>;

    closed spec fn view(&self) -> Map<usize, V> {
        self.clients@
    }
}

impl<V> SessionManager<V> {
    pub fn new() -> (m: Self)
        ensures
            m@ == Map::<usize, V>::empty(),
    {
        SessionManager { clients: HashMap::new() }
    }

    /// Adds `session` under the number after the one `get_last_session`
    /// reports, or under 0 when there is none. Since the last number
    /// reported is whichever the table walks to last, the new number may be
    /// one that is already taken, whose session is then replaced.
    pub fn new_session(&mut self, session: V)
        requires
            !old(self)@.contains_key(usize::MAX),
        ensures
            exists|id: usize|
                {
                    &&& final(self)@ == old(self)@.insert(id, session)
                    &&& old(self)@.is_empty() ==> id == 0
                    &&& !old(self)@.is_empty() ==> id >= 1 && old(self)@.contains_key((id - 1) as usize)
                },
    {
        let id = match self.get_last_session() {
            Some(last) => last + 1,
            None => 0,
        };
        self.clients.insert(id, session);
    }

    pub fn remove_session(&mut self, id: usize)
        ensures
            final(self)@ == old(self)@.remove(id),
    {
        self.clients.remove(&id);
    }

    /// The number that a walk over the table reaches last: `None` exactly
    /// when there is no session. Which number that is depends on the order
    /// in which the table is walked.
    pub fn get_last_session(&self) -> (last: Option<usize>)
        ensures
            last is None <==> self@.is_empty(),
            last matches Some(id) ==> self@.contains_key(id),
    {
        let mut last: Option<usize> = None;
        for k in it: self.clients.keys()
            invariant
                it.seq().unref().to_set() == self.clients@.dom(),
                last is None <==> it.index() == 0,
                last matches Some(id) ==> self.clients@.contains_key(id),
        {
            proof {
                assert(it.seq().unref()[it.index()] == *k);
                assert(it.seq().unref().to_set().contains(*k));
            }
            last = Some(*k);
        }

        last
    }

    pub fn get_client(&mut self, id: usize) -> (client: Option<&V>)
        ensures
            final(self)@ == old(self)@,
            client matches Some(v) ==> old(self)@.contains_key(id) && *v == old(self)@[id],
            client is None ==> !old(self)@.contains_key(id),
    {
        self.clients.get(&id)
    }
}

} // verus!
