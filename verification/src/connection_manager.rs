//! A table of the open connections of a transport, by connection id.
use vstd::prelude::*;
use std::collections::HashMap;

verus! {

broadcast use vstd::std_specs::hash::group_hash_axioms;

/// Keeps the connections of a transport by id.
pub trait ConnectionManager<T: Clone> {
    /// Records a connection under the id, replacing one recorded before.
    fn insert(&mut self, id: u32, connection: T);

    /// Forgets the connection with the id and hands it back, if there was one.
    fn remove(&mut self, id: u32) -> Option<T>;
}

/// A connection table kept in a hash map.
pub struct HashMapConnectionManager<T: Clone> {
    connections: HashMap<u32, T>,
}

impl<T: Clone> HashMapConnectionManager<T> {
    /// The connections by id.
    pub closed spec fn connections(&self) -> Map<u32, T> {
        self.connections@
    }

    /// An empty table.
    pub fn new() -> (r: Self)
        ensures
            r.connections() == Map::<u32, T>::empty(),
    {
        HashMapConnectionManager { connections: HashMap::new() }
    }
}

impl<T: Clone> Default for HashMapConnectionManager<T> {
    fn default() -> (r: Self)
        ensures
            r.connections() == Map::<u32, T>::empty(),
    {
        Self::new()
    }
}

impl<T: Clone> ConnectionManager<T> for HashMapConnectionManager<T> {
    fn insert(&mut self, id: u32, connection: T)
        ensures
            final(self).connections() == old(self).connections().insert(id, connection),
    {
        self.connections.insert(id, connection);
    }

    fn remove(&mut self, id: u32) -> (r: Option<T>)
        ensures
            final(self).connections() == old(self).connections().remove(id),
            r == (if old(self).connections().contains_key(id) {
                Some(old(self).connections()[id])
            } else {
                None::<T>
            }),
    {
        self.connections.remove(&id)
    }
}

/// Removing a connection right after inserting it hands that connection
/// back and leaves the id free, so that removing it again gives nothing.
pub proof fn law_remove_gives_back_insert<T>(m: Map<u32, T>, id: u32, connection: T)
    ensures
        m.insert(id, connection).contains_key(id),
        m.insert(id, connection)[id] == connection,
        !m.insert(id, connection).remove(id).contains_key(id),
{
}

} // verus!
