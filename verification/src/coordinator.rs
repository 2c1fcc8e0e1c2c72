//! The facade composing the entity pool, the component storage registry and
//! the system registry.
//!
//! All world mutation flows through the coordinator: entity creation,
//! component attachment (which updates storage and then system membership in
//! one logical step) and system execution.  Execution is two-phase: every
//! system's step runs against storage first, and only then are the deferred
//! commands the steps returned run against the coordinator, in collection
//! order, so no step observes another step's deferred mutation.

use vstd::prelude::*;

use crate::ComponentType;
use crate::Entity;
use crate::MAX_ENTITIES;
use crate::SystemType;
use crate::component::ComponentManager;
use crate::pool::EntitiesPool;
use crate::pool::back_transition;
use crate::pool::take_transition;
use crate::system::Command;
use crate::system::System;
use crate::system::SystemManager;

verus! {

/// The single facade over pool, component storage and system registry.
pub struct Coordinator<S: System> {
    pool: EntitiesPool,
    cm: ComponentManager<S::Value>,
    sm: SystemManager<S>,
}

impl<S: System> Coordinator<S> {
    /// The identifiers currently taken from the pool.
    pub closed spec fn taken(self) -> Set<Entity> {
        self.pool.taken_set()
    }

    /// The identifiers currently available in the pool.
    pub closed spec fn available(self) -> Set<Entity> {
        self.pool.available_set()
    }

    /// The taken identifiers in the order the iteration accessor reports.
    pub closed spec fn taken_seq(self) -> Seq<Entity> {
        self.pool.taken_seq()
    }

    /// The set of registered component-type tags.
    pub closed spec fn registered(self) -> Set<ComponentType> {
        self.cm.registered()
    }

    /// The contents of the storage container for tag `t`.
    pub closed spec fn comp(self, t: ComponentType) -> Map<Entity, S::Value> {
        self.cm.comp(t)
    }

    /// The set of tags currently attached to `e`.
    pub closed spec fn types_of(self, e: Entity) -> Set<ComponentType> {
        self.cm.types_of(e)
    }

    /// What a lookup of tag `t` on entity `e` returns, as a value.
    pub open spec fn get_spec(self, t: ComponentType, e: Entity) -> Option<S::Value> {
        if self.comp(t).contains_key(e) {
            Some(self.comp(t)[e])
        } else {
            None
        }
    }

    /// How many systems are registered.
    pub closed spec fn n_systems(self) -> nat {
        self.sm.n_systems()
    }

    /// The tag of the `i`-th registered system.
    pub closed spec fn tag(self, i: int) -> SystemType {
        self.sm.tag(i)
    }

    /// The signature of the `i`-th registered system.
    pub closed spec fn sig(self, i: int) -> Set<ComponentType> {
        self.sm.sig(i)
    }

    /// The membership set of the `i`-th registered system.
    pub closed spec fn members_of(self, i: int) -> Set<Entity> {
        self.sm.members(i)
    }

    /// Whether some registered system carries tag `st`.
    pub open spec fn has_tag(self, st: SystemType) -> bool {
        exists|i: int| 0 <= i < self.n_systems() && self.tag(i) == st
    }

    /// The position of the system carrying tag `st`.
    pub open spec fn tag_index(self, st: SystemType) -> int {
        choose|i: int| 0 <= i < self.n_systems() && self.tag(i) == st
    }

    /// Every membership is justified: an entity accepted by a system has a
    /// type set covering that system's signature.
    pub closed spec fn members_sound(self) -> bool {
        forall|i: int, e: Entity|
            0 <= i < self.sm.n_systems() && (#[trigger] self.sm.members(i).contains(e))
                ==> self.sm.sig(i).subset_of(self.cm.types_of(e))
    }

    /// The three parts are each well-formed and memberships are justified.
    pub closed spec fn wf(self) -> bool {
        &&& self.pool.wf()
        &&& self.cm.wf()
        &&& self.sm.wf()
        &&& self.members_sound()
    }

    /// A fresh world: a full pool, no registered types, no systems.
    pub fn new() -> (r: Coordinator<S>)
        ensures
            r.wf(),
            r.taken() == Set::<Entity>::empty(),
            r.taken_seq() == Seq::<Entity>::empty(),
            forall|e: Entity| r.available().contains(e) <==> e < MAX_ENTITIES,
            r.registered() == Set::<ComponentType>::empty(),
            forall|e: Entity| r.types_of(e) == Set::<ComponentType>::empty(),
            r.n_systems() == 0,
    {
        Coordinator {
            pool: EntitiesPool::new(),
            cm: ComponentManager::new(),
            sm: SystemManager::new(),
        }
    }

    /// Take a fresh entity from the pool.  Storage, index and systems are
    /// untouched.
    pub fn entity_take(&mut self) -> (e: Entity)
        requires
            old(self).wf(),
            old(self).taken().len() < MAX_ENTITIES,
        ensures
            final(self).wf(),
            take_transition(old(self).pool_state(), final(self).pool_state(), e),
            final(self).cm_state() == old(self).cm_state(),
            final(self).sm_state() == old(self).sm_state(),
    {
        self.pool.take()
    }

    /// Give an entity back to the pool.  As in the source design, the
    /// entity's stored components, its type set and its memberships are
    /// deliberately left in place, so a recycled identifier can resurface
    /// with them.
    pub fn entity_back(&mut self, e: Entity)
        requires
            old(self).wf(),
            old(self).taken().contains(e),
        ensures
            final(self).wf(),
            back_transition(old(self).pool_state(), final(self).pool_state(), e),
            final(self).cm_state() == old(self).cm_state(),
            final(self).sm_state() == old(self).sm_state(),
    {
        self.pool.back(e)
    }

    /// Iteration accessor over the currently taken entities.
    pub fn entities_iter(&self) -> (r: &Vec<Entity>)
        ensures
            r@ == self.taken_seq(),
    {
        self.pool.taken_iter()
    }

    /// Idempotently register component-type tag `t`.
    pub fn register_component(&mut self, t: ComponentType)
        requires
            old(self).wf(),
        ensures
            final(self).wf(),
            final(self).registered() == old(self).registered().insert(t),
            !old(self).registered().contains(t) ==> final(self).comp(t) == Map::<
                Entity,
                S::Value,
            >::empty(),
            forall|t2: ComponentType|
                old(self).registered().contains(t2) ==> final(self).comp(t2) == old(self).comp(t2),
            forall|e: Entity| final(self).types_of(e) == old(self).types_of(e),
            final(self).pool_state() == old(self).pool_state(),
            final(self).sm_state() == old(self).sm_state(),
    {
        self.cm.register(t);
        proof {
            assert forall|i: int, e: Entity|
                0 <= i < self.sm.n_systems() && (#[trigger] self.sm.members(i).contains(e))
                    implies self.sm.sig(i).subset_of(self.cm.types_of(e)) by {
                assert(old(self).sm.sig(i).subset_of(old(self).cm.types_of(e)));
            }
        }
    }

    /// Attach `c` to `e` under tag `t`: update storage and the entity's
    /// type set, then bring every system's membership up to date with the
    /// new type set, in one logical step.  Afterwards `e` belongs to a
    /// system exactly when that system's signature is covered by `e`'s
    /// types.
    pub fn add_component(&mut self, t: ComponentType, e: Entity, c: S::Value)
        requires
            old(self).wf(),
            old(self).registered().contains(t),
        ensures
            final(self).wf(),
            final(self).registered() == old(self).registered(),
            final(self).comp(t) == old(self).comp(t).insert(e, c),
            forall|t2: ComponentType|
                t2 != t && old(self).registered().contains(t2) ==> final(self).comp(t2) == old(self).comp(t2),
            final(self).types_of(e) == old(self).types_of(e).insert(t),
            forall|e2: Entity| e2 != e ==> final(self).types_of(e2) == old(self).types_of(e2),
            final(self).pool_state() == old(self).pool_state(),
            final(self).n_systems() == old(self).n_systems(),
            forall|i: int|
                0 <= i < old(self).n_systems() ==> final(self).tag(i) == old(self).tag(i) && final(self).sig(i) == old(self).sig(i),
            forall|i: int|
                0 <= i < old(self).n_systems() ==> final(self).members_of(i) == (if old(self).sig(
                    i,
                ).subset_of(old(self).types_of(e).insert(t)) {
                    old(self).members_of(i).insert(e)
                } else {
                    old(self).members_of(i)
                }),
            forall|i: int|
                0 <= i < old(self).n_systems() ==> (final(self).members_of(i).contains(e) <==> final(self).sig(i).subset_of(final(self).types_of(e))),
    {
        self.cm.add(t, e, c);
        let types = self.cm.get_component_types(e);
        self.sm.add_component(e, &types);
        proof {
            let pre = *old(self);
            assert forall|i: int, e2: Entity|
                0 <= i < self.sm.n_systems() && (#[trigger] self.sm.members(i).contains(e2))
                    implies self.sm.sig(i).subset_of(self.cm.types_of(e2)) by {
                if e2 == e {
                    if pre.sm.members(i).contains(e) {
                        assert(pre.sm.sig(i).subset_of(pre.cm.types_of(e)));
                        assert(pre.cm.types_of(e).subset_of(self.cm.types_of(e)));
                    } else {
                        assert(pre.sm.sig(i).subset_of(self.cm.types_of(e)));
                    }
                } else {
                    assert(self.sm.members(i) == (if pre.sm.sig(i).subset_of(types@) {
                        pre.sm.members(i).insert(e)
                    } else {
                        pre.sm.members(i)
                    }));
                    assert(pre.sm.members(i).contains(e2));
                    assert(pre.sm.sig(i).subset_of(pre.cm.types_of(e2)));
                }
            }
            assert forall|i: int|
                0 <= i < pre.n_systems() implies (final(self).members_of(i).contains(e) <==> final(self).sig(i).subset_of(final(self).types_of(e))) by {
                if final(self).members_of(i).contains(e) {
                    assert(self.sm.members(i).contains(e));
                }
            }
        }
    }

    /// The value of tag `t` stored for `e`, or absent.
    pub fn get(&self, t: ComponentType, e: &Entity) -> (r: Option<&S::Value>)
        requires
            self.wf(),
            self.registered().contains(t),
        ensures
            r is Some <==> self.get_spec(t, *e) is Some,
            r is Some ==> *r.unwrap() == self.get_spec(t, *e).unwrap(),
    {
        self.cm.get(t, e)
    }

    /// Mutable access to the value of tag `t` stored for `e`, or absent.
    /// Only that stored value can change through the returned reference.
    pub fn get_mut(&mut self, t: ComponentType, e: &Entity) -> (r: Option<&mut S::Value>)
        requires
            old(self).wf(),
            old(self).registered().contains(t),
        ensures
            final(self).wf(),
            final(self).registered() == old(self).registered(),
            forall|e2: Entity| final(self).types_of(e2) == old(self).types_of(e2),
            forall|t2: ComponentType|
                t2 != t && old(self).registered().contains(t2) ==> final(self).comp(t2)
                    == old(self).comp(t2),
            final(self).pool_state() == old(self).pool_state(),
            final(self).sm_state() == old(self).sm_state(),
            !old(self).comp(t).contains_key(*e) ==> r.is_none()
                && final(self).comp(t) == old(self).comp(t),
            old(self).comp(t).contains_key(*e) ==> r.is_some()
                && *r.unwrap() == old(self).comp(t)[*e]
                && final(self).comp(t) == old(self).comp(t).insert(*e, *final(r.unwrap())),
    {
        proof {
            let pre = *self;
            assert forall|post: Coordinator<S>|
                (post.pool == pre.pool && post.sm == pre.sm && post.cm.wf()
                    && post.cm.registered() == pre.cm.registered() && (forall|e2: Entity|
                    post.cm.types_of(e2) == pre.cm.types_of(e2))) implies #[trigger] post.wf() by {
                assert forall|i: int, e2: Entity|
                    0 <= i < post.sm.n_systems() && (#[trigger] post.sm.members(i).contains(e2))
                        implies post.sm.sig(i).subset_of(post.cm.types_of(e2)) by {
                    assert(pre.sm.members(i).contains(e2));
                    assert(pre.sm.sig(i).subset_of(pre.cm.types_of(e2)));
                }
            }
        }
        self.cm.get_mut(t, e)
    }

    /// Register `system` under tag `st`.  The system starts with an empty
    /// membership set; entities that gained their components earlier are
    /// not retroactively evaluated against it (a deliberate gap of this
    /// design, preserved from the source).
    pub fn register_system(&mut self, st: SystemType, system: S)
        requires
            old(self).wf(),
            system.members() == Set::<Entity>::empty(),
        ensures
            final(self).wf(),
            final(self).pool_state() == old(self).pool_state(),
            final(self).cm_state() == old(self).cm_state(),
            final(self).has_tag(st),
            old(self).has_tag(st) ==> {
                let i = old(self).tag_index(st);
                &&& final(self).n_systems() == old(self).n_systems()
                &&& (forall|j: int|
                    0 <= j < old(self).n_systems() && j != i ==> final(self).tag(j) == old(self).tag(j) && final(self).sig(j) == old(self).sig(j) && final(self).members_of(j)
                        == old(self).members_of(j))
                &&& final(self).tag(i) == st
                &&& final(self).sig(i) == system.signature()
                &&& final(self).members_of(i) == Set::<Entity>::empty()
            },
            !old(self).has_tag(st) ==> {
                let n = old(self).n_systems() as int;
                &&& final(self).n_systems() == old(self).n_systems() + 1
                &&& (forall|j: int|
                    0 <= j < old(self).n_systems() ==> final(self).tag(j) == old(self).tag(j)
                        && final(self).sig(j) == old(self).sig(j) && final(self).members_of(j)
                        == old(self).members_of(j))
                &&& final(self).tag(n) == st
                &&& final(self).sig(n) == system.signature()
                &&& final(self).members_of(n) == Set::<Entity>::empty()
            },
    {
        proof {
            if old(self).has_tag(st) {
                let i = old(self).tag_index(st);
                assert(0 <= i < old(self).sm.n_systems() && old(self).sm.tag(i) == st);
                assert(old(self).sm.has_tag(st));
            }
            if old(self).sm.has_tag(st) {
                let i = old(self).sm.tag_index(st);
                assert(0 <= i < old(self).n_systems() && old(self).tag(i) == st);
                assert(old(self).has_tag(st));
                assert(old(self).tag_index(st) == old(self).sm.tag_index(st)) by {
                    let a = old(self).tag_index(st);
                    let b = old(self).sm.tag_index(st);
                    assert(0 <= a < old(self).n_systems() && old(self).tag(a) == st);
                    assert(0 <= b < old(self).sm.n_systems() && old(self).sm.tag(b) == st);
                    if a != b {
                        old(self).sm.lemma_tags_unique(a, b);
                    }
                }
            }
        }
        self.sm.register(st, system);
        proof {
            let pre = *old(self);
            assert forall|i: int, e2: Entity|
                0 <= i < self.sm.n_systems() && (#[trigger] self.sm.members(i).contains(e2))
                    implies self.sm.sig(i).subset_of(self.cm.types_of(e2)) by {
                if pre.sm.has_tag(st) {
                    let k = pre.sm.tag_index(st);
                    if i == k {
                        assert(self.sm.members(i) == system.members());
                        assert(false);
                    } else {
                        assert(pre.sm.members(i).contains(e2));
                    }
                } else {
                    if i == pre.sm.n_systems() as int {
                        assert(self.sm.members(i) == system.members());
                        assert(false);
                    } else {
                        assert(pre.sm.members(i).contains(e2));
                    }
                }
            }
            if pre.sm.has_tag(st) {
                let k = pre.sm.tag_index(st);
                assert(final(self).tag(k) == st);
                assert(final(self).has_tag(st));
            } else {
                assert(final(self).tag(pre.n_systems() as int) == st);
                assert(final(self).has_tag(st));
            }
        }
    }

    /// Run every system's step, collecting the deferred command each step
    /// returned, then run those commands against the world in collection
    /// order.  No step observes another step's deferred mutation: every
    /// command runs strictly after the last step.  Taken entities,
    /// attached-type sets and memberships only grow.
    pub fn apply_all(&mut self)
        requires
            old(self).wf(),
        ensures
            final(self).wf(),
            final(self).registered() == old(self).registered(),
            final(self).n_systems() == old(self).n_systems(),
            forall|i: int|
                0 <= i < old(self).n_systems() ==> final(self).tag(i) == old(self).tag(i) && final(self).sig(i) == old(self).sig(i),
            old(self).taken().subset_of(final(self).taken()),
            forall|e: Entity| old(self).types_of(e).subset_of(final(self).types_of(e)),
            forall|i: int|
                0 <= i < old(self).n_systems() ==> old(self).members_of(i).subset_of(
                    final(self).members_of(i),
                ),
    {
        let mut cmds = self.sm.apply_all(&mut self.cm);
        proof {
            assert forall|i: int, e2: Entity|
                0 <= i < self.sm.n_systems() && (#[trigger] self.sm.members(i).contains(e2))
                    implies self.sm.sig(i).subset_of(self.cm.types_of(e2)) by {
                assert(old(self).sm.members(i).contains(e2));
                assert(old(self).sm.sig(i).subset_of(old(self).cm.types_of(e2)));
            }
        }
        while cmds.len() > 0
            invariant
                self.wf(),
                self.registered() == old(self).registered(),
                self.n_systems() == old(self).n_systems(),
                forall|i: int|
                    0 <= i < old(self).n_systems() ==> self.tag(i) == old(self).tag(i) && self.sig(
                        i,
                    ) == old(self).sig(i),
                old(self).taken().subset_of(self.taken()),
                forall|e: Entity| old(self).types_of(e).subset_of(self.types_of(e)),
                forall|i: int|
                    0 <= i < old(self).n_systems() ==> old(self).members_of(i).subset_of(
                        self.members_of(i),
                    ),
            decreases cmds.len(),
        {
            let ghost mid = *self;
            let cmd = cmds.remove(0);
            match cmd {
                Command::Nothing => {},
                Command::Spawn { t, value } => {
                    let _ok = self.run_spawn(t, value);
                },
                Command::Attach { e, t, value } => {
                    let _ok = self.run_attach(e, t, value);
                },
            }
            proof {
                assert(old(self).taken().subset_of(self.taken()));
                assert forall|e: Entity|
                    old(self).types_of(e).subset_of(self.types_of(e)) by {
                    assert(mid.types_of(e).subset_of(self.types_of(e)));
                }
                assert forall|i: int|
                    0 <= i < old(self).n_systems() implies old(self).members_of(i).subset_of(
                    self.members_of(i)) by {
                    assert(mid.members_of(i).subset_of(self.members_of(i)));
                }
            }
        }
    }

    /// Run one deferred spawn command: take a fresh entity and attach
    /// `value` to it under tag `t`.  The command needs a free entity and a
    /// registered tag; otherwise it is refused and the world is unchanged,
    /// and `ok` says which happened.
    fn run_spawn(&mut self, t: ComponentType, value: S::Value) -> (ok: bool)
        requires
            old(self).wf(),
        ensures
            final(self).wf(),
            final(self).registered() == old(self).registered(),
            final(self).n_systems() == old(self).n_systems(),
            forall|i: int|
                0 <= i < old(self).n_systems() ==> final(self).tag(i) == old(self).tag(i)
                    && final(self).sig(i) == old(self).sig(i),
            old(self).taken().subset_of(final(self).taken()),
            forall|e2: Entity| old(self).types_of(e2).subset_of(final(self).types_of(e2)),
            forall|i: int|
                0 <= i < old(self).n_systems() ==> old(self).members_of(i).subset_of(
                    final(self).members_of(i),
                ),
            if (old(self).registered().contains(t) && old(self).taken().len() < MAX_ENTITIES) {
                ok && (exists|e: Entity|
                    !old(self).taken().contains(e) && final(self).taken() == old(self).taken().insert(e) && final(self).comp(t) == old(self).comp(t).insert(e, value)
                        && final(self).types_of(e) == old(self).types_of(e).insert(t))
            } else {
                !ok && *final(self) == *old(self)
            },
    {
        proof {
            old(self).pool.lemma_taken_len();
        }
        if self.cm.is_registered(t) && self.pool.taken_len() < MAX_ENTITIES as usize {
            let e = self.entity_take();
            self.add_component(t, e, value);
            proof {
                assert(!old(self).taken().contains(e));
                assert(self.taken() == old(self).taken().insert(e));
                assert(self.comp(t) == old(self).comp(t).insert(e, value));
                assert(self.types_of(e) == old(self).types_of(e).insert(t));
                assert(exists|e2: Entity|
                    !old(self).taken().contains(e2) && self.taken() == old(self).taken().insert(e2)
                        && self.comp(t) == old(self).comp(t).insert(e2, value) && self.types_of(e2)
                        == old(self).types_of(e2).insert(t));
            }
            true
        } else {
            false
        }
    }

    /// Run one deferred attach command: attach `value` to `e` under tag
    /// `t`.  The command needs a registered tag; otherwise it is refused
    /// and the world is unchanged, and `ok` says which happened.
    fn run_attach(&mut self, e: Entity, t: ComponentType, value: S::Value) -> (ok: bool)
        requires
            old(self).wf(),
        ensures
            final(self).wf(),
            final(self).registered() == old(self).registered(),
            final(self).n_systems() == old(self).n_systems(),
            forall|i: int|
                0 <= i < old(self).n_systems() ==> final(self).tag(i) == old(self).tag(i)
                    && final(self).sig(i) == old(self).sig(i),
            old(self).taken().subset_of(final(self).taken()),
            forall|e2: Entity| old(self).types_of(e2).subset_of(final(self).types_of(e2)),
            forall|i: int|
                0 <= i < old(self).n_systems() ==> old(self).members_of(i).subset_of(
                    final(self).members_of(i),
                ),
            if old(self).registered().contains(t) {
                ok && final(self).comp(t) == old(self).comp(t).insert(e, value) && final(self).types_of(e) == old(self).types_of(e).insert(t) && final(self).taken() == old(self).taken()
            } else {
                !ok && *final(self) == *old(self)
            },
    {
        if self.cm.is_registered(t) {
            self.add_component(t, e, value);
            true
        } else {
            false
        }
    }

    /// The pool part of the state, for stating pool transitions.
    pub closed spec fn pool_state(self) -> EntitiesPool {
        self.pool
    }

    /// The storage part of the state.
    pub closed spec fn cm_state(self) -> ComponentManager<S::Value> {
        self.cm
    }

    /// The system-registry part of the state.
    pub closed spec fn sm_state(self) -> SystemManager<S> {
        self.sm
    }
}

/// Membership soundness: in a well-formed world, an entity accepted by a
/// system has a type set covering that system's signature.  Together with
/// the final clause of `add_component`'s contract this gives signature
/// membership: right after a component is attached to `e`, `e` belongs to a
/// system exactly when its signature is a subset of `e`'s attached types.
pub proof fn lemma_members_sound<S: System>(c: Coordinator<S>, i: int, e: Entity)
    requires
        c.wf(),
        0 <= i < c.n_systems(),
        c.members_of(i).contains(e),
    ensures
        c.sig(i).subset_of(c.types_of(e)),
{
}

} // verus!
