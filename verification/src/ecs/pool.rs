//! Entity pool of the earlier tree: issues and recycles identifiers and,
//! unlike the main pool, also owns the index from each live entity to the
//! set of component types attached to it.

use vstd::prelude::*;

use std::collections::HashMap;
use std::collections::HashSet;

use crate::ComponentType;
use crate::Entity;
use crate::MAX_ENTITIES;
use crate::support::map_get_mut;

verus! {

/// Fixed-capacity pool that also tracks each live entity's attached
/// component types.
pub struct EntitiesPool {
    ids: crate::pool::EntitiesPool,
    components: HashMap<Entity, HashSet<ComponentType>>,
}

impl EntitiesPool {
    /// The identifiers currently available.
    pub closed spec fn available_set(self) -> Set<Entity> {
        self.ids.available_set()
    }

    /// The identifiers currently in use.
    pub closed spec fn used_set(self) -> Set<Entity> {
        self.ids.taken_set()
    }

    /// Whether the index knows `e` (exactly the used entities do).
    pub closed spec fn has_entity(self, e: Entity) -> bool {
        self.components@.contains_key(e)
    }

    /// The component types attached to `e`.
    pub closed spec fn types_of(self, e: Entity) -> Set<ComponentType> {
        if self.components@.contains_key(e) {
            self.components@[e]@
        } else {
            Set::<ComponentType>::empty()
        }
    }

    /// The identifier sides are well-formed and the index holds exactly
    /// the used entities.
    pub closed spec fn wf(self) -> bool {
        &&& self.ids.wf()
        &&& (forall|e: Entity|
            #![trigger self.components@.contains_key(e)]
            self.components@.contains_key(e) <==> self.ids.taken_set().contains(e))
    }

    /// A pool in which every identifier below the capacity is available,
    /// none is used, and the index is empty.
    pub fn new() -> (r: EntitiesPool)
        ensures
            r.wf(),
            r.used_set() == Set::<Entity>::empty(),
            forall|e: Entity| r.available_set().contains(e) <==> e < MAX_ENTITIES,
            forall|e: Entity| !r.has_entity(e),
            forall|e: Entity| r.types_of(e) == Set::<ComponentType>::empty(),
    {
        let r = EntitiesPool { ids: crate::pool::EntitiesPool::new(), components: HashMap::new() };
        r
    }

    /// The index knows exactly the identifiers in use.
    pub proof fn lemma_index_used(self, e: Entity)
        requires
            self.wf(),
        ensures
            self.has_entity(e) <==> self.used_set().contains(e),
    {
    }

    /// Take a fresh identifier; it starts with an empty type set.
    pub fn get(&mut self) -> (e: Entity)
        requires
            old(self).wf(),
            old(self).used_set().len() < MAX_ENTITIES,
        ensures
            final(self).wf(),
            !old(self).used_set().contains(e),
            old(self).available_set().contains(e),
            final(self).used_set() == old(self).used_set().insert(e),
            final(self).available_set() == old(self).available_set().remove(e),
            final(self).has_entity(e),
            final(self).types_of(e) == Set::<ComponentType>::empty(),
            forall|e2: Entity|
                e2 != e ==> (final(self).has_entity(e2) == old(self).has_entity(e2) && final(self).types_of(e2) == old(self).types_of(e2)),
    {
        let e = self.ids.take();
        let empty_types: HashSet<ComponentType> = HashSet::new();
        self.components.insert(e, empty_types);
        proof {
            assert(final(self).types_of(e) =~= Set::<ComponentType>::empty());
        }
        e
    }

    /// Give an identifier back; its index entry is dropped, so a recycled
    /// identifier starts from a clean type set here, while any component
    /// values stored elsewhere are deliberately left in place.
    pub fn give_back(&mut self, e: Entity)
        requires
            old(self).wf(),
            old(self).used_set().contains(e),
        ensures
            final(self).wf(),
            final(self).used_set() == old(self).used_set().remove(e),
            final(self).available_set() == old(self).available_set().insert(e),
            !final(self).has_entity(e),
            forall|e2: Entity|
                e2 != e ==> (final(self).has_entity(e2) == old(self).has_entity(e2) && final(self).types_of(e2) == old(self).types_of(e2)),
    {
        self.ids.back(e);
        self.components.remove(&e);
    }

    /// Record component type `t` as attached to `e`.  Attaching to an
    /// entity that is not in use is a caller error and is ruled out.
    pub fn add_component_type(&mut self, e: Entity, t: ComponentType)
        requires
            old(self).wf(),
            old(self).used_set().contains(e),
        ensures
            final(self).wf(),
            final(self).used_set() == old(self).used_set(),
            final(self).available_set() == old(self).available_set(),
            final(self).types_of(e) == old(self).types_of(e).insert(t),
            forall|e2: Entity|
                e2 != e ==> (final(self).has_entity(e2) == old(self).has_entity(e2) && final(self).types_of(e2) == old(self).types_of(e2)),
    {
        let slot = map_get_mut(&mut self.components, &e);
        match slot {
            Some(s) => {
                s.insert(t);
            },
            None => {},
        }
    }

    /// The set of types attached to `e`, or absent when `e` is not in use.
    pub fn get_component_types(&self, e: Entity) -> (r: Option<&HashSet<ComponentType>>)
        ensures
            match r {
                Some(s) => self.has_entity(e) && s@ == self.types_of(e),
                None => !self.has_entity(e),
            },
    {
        self.components.get(&e)
    }
}

} // verus!
