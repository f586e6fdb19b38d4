//! Entities and component storage: an entity is an id, and each component type is kept in a
//! map from entity id to component.
use vstd::prelude::*;
use std::collections::HashMap;
use std::collections::hash_map::Entry;
use vstd::std_specs::hash::spec_hash_map_iter;
use vstd::std_specs::iter::IteratorSpec;

verus! {

broadcast use vstd::std_specs::hash::group_hash_axioms;

/// An entity is only its id.
pub type EntityId = u32;

/// The marker that every component type carries; components are plain data.
pub trait Component: Send + Sync + 'static {

}

/// A game object: an entity id.
#[derive(Debug, Clone, Copy, PartialEq, Eq, Hash, Structural)]
pub struct GameObject {
    pub id: EntityId,
}

/// The components of one type, by entity.
pub struct ComponentStore<T: Component> {
    pub data: HashMap<EntityId, T>,
}

impl<T: Component> ComponentStore<T> {
    /// An empty store.
    pub fn new() -> (s: Self)
        ensures
            s.data@ == Map::<EntityId, T>::empty(),
    {
        ComponentStore { data: HashMap::new() }
    }

    /// Gives entity `id` the component `component`, in place of the one it had.
    pub fn insert(&mut self, id: EntityId, component: T)
        ensures
            final(self).data@ == old(self).data@.insert(id, component),
    {
        self.data.insert(id, component);
    }

    /// The component of entity `id`.
    pub fn get(&self, id: EntityId) -> (r: Option<&T>)
        ensures
            match r {
                Some(c) => self.data@.contains_key(id) && *c == self.data@[id],
                None => !self.data@.contains_key(id),
            },
    {
        self.data.get(&id)
    }

    /// The component of entity `id`, to change in place.
    pub fn get_mut(&mut self, id: EntityId) -> (r: Option<&mut T>)
        ensures
            match r {
                Some(c) => old(self).data@.contains_key(id) && *c == old(self).data@[id]
                    && final(self).data@ == old(self).data@.insert(id, *final(c)),
                None => !old(self).data@.contains_key(id) && final(self).data@ == old(
                    self,
                ).data@,
            },
    {
        match self.data.entry(id) {
            Entry::Occupied(e) => Some(e.into_mut()),
            Entry::Vacant(_) => None,
        }
    }

    /// Takes the component of entity `id` away.
    pub fn remove(&mut self, id: EntityId)
        ensures
            final(self).data@ == old(self).data@.remove(id),
    {
        self.data.remove(&id);
    }

    /// Every entity with its component, each once, in no particular order.
    pub fn iter(&self) -> (r: Vec<(EntityId, &T)>)
        ensures
            r@.len() == self.data@.dom().len(),
            forall|i: int|
                0 <= i < r@.len() ==> self.data@.contains_key((#[trigger] r@[i]).0) && *r@[i].1
                    == self.data@[r@[i].0],
            forall|k: EntityId| #[trigger]
                self.data@.contains_key(k) ==> exists|i: int| 0 <= i < r@.len() && r@[i].0 == k,
            forall|i: int, j: int| 0 <= i < j < r@.len() ==> (#[trigger] r@[i]).0 != (#[trigger] r@[j]).0,
    {
        let mut r: Vec<(EntityId, &T)> = Vec::new();
        let ghost s = spec_hash_map_iter(&self.data).remaining();
        for (k, v) in it: self.data.iter()
            invariant
                it.seq() == s,
                r@.len() == it.index(),
                forall|i: int|
                    0 <= i < it.index() ==> (#[trigger] r@[i]).0 == *s[i].0 && r@[i].1 == s[i].1,
        {
            r.push((*k, v));
        }
        proof {
            assert(r@.len() == s.len());
            assert forall|i: int|
                0 <= i < r@.len() implies self.data@.contains_key((#[trigger] r@[i]).0) && *r@[i].1
                == self.data@[r@[i].0] by {
                assert(self.data@.contains_key(*s[i].0));
            }
            assert forall|k: EntityId| #[trigger]
                self.data@.contains_key(k) implies exists|i: int|
                0 <= i < r@.len() && r@[i].0 == k by {
                assert(s.contains((&k, &self.data@[k])));
                let i = choose|i: int| 0 <= i < s.len() && s[i] == (&k, &self.data@[k]);
                assert(r@[i].0 == k);
            }
            assert forall|i: int, j: int| 0 <= i < j < r@.len() implies (#[trigger] r@[i]).0 != (
            #[trigger] r@[j]).0 by {
                if r@[i].0 == r@[j].0 {
                    assert(self.data@.contains_key(*s[i].0));
                    assert(self.data@.contains_key(*s[j].0));
                    assert(s[i] == s[j]);
                }
            }
        }
        r
    }
}

impl<T: Component> Default for ComponentStore<T> {
    fn default() -> (s: Self)
        ensures
            s.data@ == Map::<EntityId, T>::empty(),
    {
        Self::new()
    }
}

/// What a store answers after `insert(id, c)`: `c` for `id`; after `remove(id)`: nothing for
/// `id`; and for every other entity, what it answered before.
pub proof fn law_store_read_after_write<T: Component>(
    before: ComponentStore<T>,
    inserted: ComponentStore<T>,
    removed: ComponentStore<T>,
    id: EntityId,
    c: T,
    other: EntityId,
)
    requires
        inserted.data@ == before.data@.insert(id, c),
        removed.data@ == before.data@.remove(id),
        other != id,
    ensures
        inserted.data@.contains_key(id) && inserted.data@[id] == c,
        !removed.data@.contains_key(id),
        inserted.data@.contains_key(other) == before.data@.contains_key(other),
        removed.data@.contains_key(other) == before.data@.contains_key(other),
        before.data@.contains_key(other) ==> inserted.data@[other] == before.data@[other]
            && removed.data@[other] == before.data@[other],
{
}

} // verus!
