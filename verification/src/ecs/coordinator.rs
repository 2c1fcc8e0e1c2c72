//! The facade of the earlier tree.  Here the pool owns the
//! entity-to-types index, so attaching a component updates the pool's
//! index, then storage, then system membership; and systems run directly,
//! one by tag or all at once, with no deferred commands.

use vstd::prelude::*;

use crate::ComponentType;
use crate::Entity;
use crate::MAX_ENTITIES;
use crate::SystemType;
use crate::ecs::component::ComponentManager;
use crate::ecs::pool::EntitiesPool;
use crate::ecs::system::System;
use crate::ecs::system::SystemManager;
use crate::support::set_clone;

verus! {

/// The single facade over pool, component storage and system registry of
/// the earlier tree.
pub struct Coordinator<S: System> {
    pool: EntitiesPool,
    cm: ComponentManager<S::Value>,
    sm: SystemManager<S>,
}

impl<S: System> Coordinator<S> {
    /// The identifiers currently in use.
    pub closed spec fn used(self) -> Set<Entity> {
        self.pool.used_set()
    }

    /// The identifiers currently available.
    pub closed spec fn available(self) -> Set<Entity> {
        self.pool.available_set()
    }

    /// The set of registered component-type tags.
    pub closed spec fn registered(self) -> Set<ComponentType> {
        self.cm.registered()
    }

    /// The contents of the storage container for tag `t`.
    pub closed spec fn comp(self, t: ComponentType) -> Map<Entity, S::Value> {
        self.cm.comp(t)
    }

    /// The set of tags the pool's index holds for `e`.
    pub closed spec fn types_of(self, e: Entity) -> Set<ComponentType> {
        self.pool.types_of(e)
    }

    /// How many systems are registered.
    pub closed spec fn n_systems(self) -> nat {
        self.sm.n_systems()
    }

    /// The tag of the `i`-th registered system.
    pub closed spec fn tag(self, i: int) -> SystemType {
        self.sm.tag(i)
    }

    /// The signature of the `i`-th registered system.
    pub closed spec fn sig(self, i: int) -> Set<ComponentType> {
        self.sm.sig(i)
    }

    /// The membership set of the `i`-th registered system.
    pub closed spec fn members_of(self, i: int) -> Set<Entity> {
        self.sm.members(i)
    }

    /// Whether some registered system carries tag `st`.
    pub open spec fn has_tag(self, st: SystemType) -> bool {
        exists|i: int| 0 <= i < self.n_systems() && self.tag(i) == st
    }

    /// The three parts are each well-formed.
    pub closed spec fn wf(self) -> bool {
        &&& self.pool.wf()
        &&& self.cm.wf()
        &&& self.sm.wf()
    }

    /// A fresh world: a full pool, no registered types, no systems.
    pub fn new() -> (r: Coordinator<S>)
        ensures
            r.wf(),
            r.used() == Set::<Entity>::empty(),
            forall|e: Entity| r.available().contains(e) <==> e < MAX_ENTITIES,
            r.registered() == Set::<ComponentType>::empty(),
            forall|e: Entity| r.types_of(e) == Set::<ComponentType>::empty(),
            r.n_systems() == 0,
    {
        let r = Coordinator {
            pool: EntitiesPool::new(),
            cm: ComponentManager::new(),
            sm: SystemManager::new(),
        };
        r
    }

    /// Take a fresh entity from the pool; it starts with an empty type
    /// set.
    pub fn get_entity(&mut self) -> (e: Entity)
        requires
            old(self).wf(),
            old(self).used().len() < MAX_ENTITIES,
        ensures
            final(self).wf(),
            !old(self).used().contains(e),
            old(self).available().contains(e),
            final(self).used() == old(self).used().insert(e),
            final(self).available() == old(self).available().remove(e),
            final(self).types_of(e) == Set::<ComponentType>::empty(),
            forall|e2: Entity| e2 != e ==> final(self).types_of(e2) == old(self).types_of(e2),
            final(self).cm_state() == old(self).cm_state(),
            final(self).sm_state() == old(self).sm_state(),
    {
        self.pool.get()
    }

    /// Idempotently register component-type tag `t`.
    pub fn register_component(&mut self, t: ComponentType)
        requires
            old(self).wf(),
        ensures
            final(self).wf(),
            final(self).registered() == old(self).registered().insert(t),
            !old(self).registered().contains(t) ==> final(self).comp(t) == Map::<
                Entity,
                S::Value,
            >::empty(),
            forall|t2: ComponentType|
                old(self).registered().contains(t2) ==> final(self).comp(t2) == old(self).comp(t2),
            final(self).pool_state() == old(self).pool_state(),
            final(self).sm_state() == old(self).sm_state(),
    {
        self.cm.register(t);
    }

    /// Attach `c` to `e` under tag `t`: record `t` in the pool's index for
    /// `e`, store the value (silently skipped when `t` is unregistered, as
    /// this tree's storage does), then bring every system's membership up
    /// to date with `e`'s new type set.  Attaching to an entity that is
    /// not in use is a caller error and is ruled out.
    pub fn add_component(&mut self, t: ComponentType, e: Entity, c: S::Value)
        requires
            old(self).wf(),
            old(self).used().contains(e),
        ensures
            final(self).wf(),
            final(self).registered() == old(self).registered(),
            final(self).used() == old(self).used(),
            final(self).available() == old(self).available(),
            old(self).registered().contains(t) ==> final(self).comp(t) == old(self).comp(t).insert(
                e,
                c,
            ),
            forall|t2: ComponentType|
                t2 != t && old(self).registered().contains(t2) ==> final(self).comp(t2) == old(
                    self,
                ).comp(t2),
            final(self).types_of(e) == old(self).types_of(e).insert(t),
            forall|e2: Entity| e2 != e ==> final(self).types_of(e2) == old(self).types_of(e2),
            final(self).n_systems() == old(self).n_systems(),
            forall|i: int|
                0 <= i < old(self).n_systems() ==> final(self).tag(i) == old(self).tag(i)
                    && final(self).sig(i) == old(self).sig(i),
            forall|i: int|
                0 <= i < old(self).n_systems() ==> final(self).members_of(i) == (if old(self).sig(
                    i,
                ).subset_of(old(self).types_of(e).insert(t)) {
                    old(self).members_of(i).insert(e)
                } else {
                    old(self).members_of(i)
                }),
    {
        self.pool.add_component_type(e, t);
        self.cm.add(t, e, c);
        let types_ref = self.pool.get_component_types(e);
        match types_ref {
            Some(s) => {
                let types = set_clone(s);
                self.sm.add_component(e, &types);
            },
            None => {
                proof {
                    self.pool.lemma_index_used(e);
                    assert(false);
                }
            },
        }
    }

    /// Mutable access to the value of tag `t` stored for `e`, or absent.
    pub fn get_component(&mut self, t: ComponentType, e: &Entity) -> (r: Option<&mut S::Value>)
        requires
            old(self).wf(),
            old(self).registered().contains(t),
        ensures
            final(self).wf(),
            final(self).registered() == old(self).registered(),
            forall|t2: ComponentType|
                t2 != t && old(self).registered().contains(t2) ==> final(self).comp(t2) == old(
                    self,
                ).comp(t2),
            final(self).pool_state() == old(self).pool_state(),
            final(self).sm_state() == old(self).sm_state(),
            !old(self).comp(t).contains_key(*e) ==> r.is_none() && final(self).comp(t) == old(
                self,
            ).comp(t),
            old(self).comp(t).contains_key(*e) ==> r.is_some() && *r.unwrap() == old(self).comp(
                t,
            )[*e] && final(self).comp(t) == old(self).comp(t).insert(*e, *final(r.unwrap())),
    {
        self.cm.get(t, e)
    }

    /// Register `system` under tag `st` and report the tag it stands
    /// under.  Entities that gained their components earlier are not
    /// retroactively evaluated against it.
    pub fn register_system(&mut self, st: SystemType, system: S) -> (r: SystemType)
        requires
            old(self).wf(),
        ensures
            final(self).wf(),
            r == st,
            final(self).has_tag(st),
            final(self).pool_state() == old(self).pool_state(),
            final(self).cm_state() == old(self).cm_state(),
    {
        proof {
            if old(self).sm.has_tag(st) {
                let i = old(self).sm.tag_index(st);
                assert(0 <= i < old(self).n_systems() && old(self).tag(i) == st);
            }
        }
        let r = self.sm.register(st, system);
        proof {
            if old(self).sm.has_tag(st) {
                let i = old(self).sm.tag_index(st);
                assert(final(self).tag(i) == st);
            } else {
                assert(final(self).tag(old(self).sm.n_systems() as int) == st);
            }
        }
        r
    }

    /// Run the step of the system registered under `st` against component
    /// storage.
    pub fn apply(&mut self, st: SystemType)
        requires
            old(self).wf(),
            old(self).has_tag(st),
        ensures
            final(self).wf(),
            final(self).registered() == old(self).registered(),
            final(self).pool_state() == old(self).pool_state(),
            final(self).sm_state() == old(self).sm_state(),
    {
        proof {
            let i = choose|i: int| 0 <= i < old(self).n_systems() && old(self).tag(i) == st;
            assert(old(self).sm.tag(i) == st);
        }
        self.sm.apply(st, &mut self.cm);
    }

    /// Run every registered system's step once.
    pub fn kick_all_systems(&mut self)
        requires
            old(self).wf(),
        ensures
            final(self).wf(),
            final(self).registered() == old(self).registered(),
            final(self).pool_state() == old(self).pool_state(),
            final(self).sm_state() == old(self).sm_state(),
    {
        self.sm.kick_all_systems(&mut self.cm);
    }

    /// The pool part of the state.
    pub closed spec fn pool_state(self) -> EntitiesPool {
        self.pool
    }

    /// The storage part of the state.
    pub closed spec fn cm_state(self) -> ComponentManager<S::Value> {
        self.cm
    }

    /// The system-registry part of the state.
    pub closed spec fn sm_state(self) -> SystemManager<S> {
        self.sm
    }
}

} // verus!
