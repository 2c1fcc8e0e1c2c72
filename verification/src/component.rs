//! Per-type component storage and the registry that routes calls to it.
//!
//! A [`ComponentArray`] maps entities to component values of one concrete
//! type.  A [`ComponentManager`] owns one array per registered component
//! type, keyed by a runtime [`ComponentType`] tag, together with an index
//! from each entity to the set of tags currently attached to it.  The
//! manager's well-formedness ties the index to the arrays: an entity's set
//! holds exactly the tags whose array has a live entry for it.

use vstd::prelude::*;

use std::collections::HashMap;
use std::collections::HashSet;

use crate::ComponentType;
use crate::Entity;
use crate::support::map_get_mut;
use crate::support::set_clone;

verus! {

/// Storage container for one component type: a mapping from entity to
/// component value, keys unique, insertion order irrelevant.
pub struct ComponentArray<T> {
    components: HashMap<Entity, T>,
}

impl<T> View for ComponentArray<T> {
    type V = Map<Entity, T>;

    closed spec fn view(&self) -> Map<Entity, T> {
        self.components@
    }
}

impl<T> ComponentArray<T> {
    /// An empty container.  The name is a diagnostic label and does not
    /// affect behaviour.
    pub fn new(_name: &'static str) -> (r: ComponentArray<T>)
        ensures
            r@ == Map::<Entity, T>::empty(),
    {
        ComponentArray { components: HashMap::new() }
    }

    /// Insert-or-replace the value stored for `e`.
    pub fn add(&mut self, e: Entity, component: T)
        ensures
            final(self)@ == old(self)@.insert(e, component),
    {
        self.components.insert(e, component);
    }

    /// The value stored for `e`, or absent; absence is the expected outcome
    /// for entities lacking the component, not an error.
    pub fn get(&self, e: &Entity) -> (r: Option<&T>)
        ensures
            match r {
                Some(v) => self@.contains_key(*e) && *v == self@[*e],
                None => !self@.contains_key(*e),
            },
    {
        self.components.get(e)
    }

    /// Mutable access to the value stored for `e`, or absent.
    pub fn get_mut(&mut self, e: &Entity) -> (r: Option<&mut T>)
        ensures
            !old(self)@.contains_key(*e) ==> r.is_none() && final(self)@ == old(self)@,
            old(self)@.contains_key(*e) ==> r.is_some() && *r.unwrap() == old(self)@[*e]
                && final(self)@ == old(self)@.insert(*e, *final(r.unwrap())),
    {
        map_get_mut(&mut self.components, e)
    }

    /// Remove and return the value stored for `e`, if any.
    pub fn remove(&mut self, e: &Entity) -> (r: Option<T>)
        ensures
            final(self)@ == old(self)@.remove(*e),
            r == (if old(self)@.contains_key(*e) {
                Some(old(self)@[*e])
            } else {
                None::<T>
            }),
    {
        self.components.remove(e)
    }
}

/// Owns one storage container per registered component type and routes
/// add/get/remove calls for a tag to the container for that tag.
pub struct ComponentManager<V> {
    component_types: HashSet<ComponentType>,
    component_arrays: HashMap<ComponentType, ComponentArray<V>>,
    entity_to_component_types: HashMap<Entity, HashSet<ComponentType>>,
}

impl<V> ComponentManager<V> {
    /// The set of registered component-type tags.
    pub closed spec fn registered(self) -> Set<ComponentType> {
        self.component_types@
    }

    /// The contents of the storage container for tag `t` (meaningful for
    /// registered `t`).
    pub closed spec fn comp(self, t: ComponentType) -> Map<Entity, V> {
        self.component_arrays@[t]@
    }

    /// The set of tags currently attached to `e`; empty when the entity is
    /// not in the index.
    pub closed spec fn types_of(self, e: Entity) -> Set<ComponentType> {
        if self.entity_to_component_types@.contains_key(e) {
            self.entity_to_component_types@[e]@
        } else {
            Set::<ComponentType>::empty()
        }
    }

    /// The entity-to-types index holds exactly the tags under which each
    /// entity has a live storage entry.
    pub closed spec fn wf(self) -> bool {
        &&& (forall|t: ComponentType|
            #![trigger self.component_arrays@.contains_key(t)]
            #![trigger self.component_types@.contains(t)]
            self.component_arrays@.contains_key(t) <==> self.component_types@.contains(t))
        &&& forall|e: Entity, t: ComponentType|
            #![trigger self.types_of(e).contains(t)]
            #![trigger self.comp(t).contains_key(e)]
            self.types_of(e).contains(t) <==> (self.registered().contains(t)
                && self.comp(t).contains_key(e))
    }

    /// What `get` returns, as a value.
    pub open spec fn get_spec(self, t: ComponentType, e: Entity) -> Option<V> {
        if self.comp(t).contains_key(e) {
            Some(self.comp(t)[e])
        } else {
            None
        }
    }

    /// An empty registry: no registered types, no storage, an empty index.
    pub fn new() -> (r: ComponentManager<V>)
        ensures
            r.wf(),
            r.registered() == Set::<ComponentType>::empty(),
            forall|e: Entity| r.types_of(e) == Set::<ComponentType>::empty(),
    {
        let r = ComponentManager {
            component_types: HashSet::new(),
            component_arrays: HashMap::new(),
            entity_to_component_types: HashMap::new(),
        };
        proof {

            assert forall|e: Entity| r.types_of(e) == Set::<ComponentType>::empty() by {
                assert(r.types_of(e) =~= Set::<ComponentType>::empty());
            }
        }
        r
    }

    /// Idempotently allocate an empty storage container for tag `t`.
    /// Registering a tag that is already registered leaves its container,
    /// and everything else, untouched.
    pub fn register(&mut self, t: ComponentType)
        requires
            old(self).wf(),
        ensures
            final(self).wf(),
            final(self).registered() == old(self).registered().insert(t),
            !old(self).registered().contains(t) ==> final(self).comp(t) == Map::<Entity, V>::empty(),
            forall|t2: ComponentType|
                old(self).registered().contains(t2) ==> final(self).comp(t2) == old(self).comp(t2),
            forall|e: Entity| final(self).types_of(e) == old(self).types_of(e),
    {
        if !self.component_types.contains(&t) {
            self.component_types.insert(t);
            let arr: ComponentArray<V> = ComponentArray::new("components");
            self.component_arrays.insert(t, arr);
            proof {
                assert forall|e: Entity, t2: ComponentType| #![trigger self.types_of(e).contains(t2)]
                    #![trigger self.comp(t2).contains_key(e)]
                    self.types_of(e).contains(t2) <==> (self.registered().contains(t2)
                        && self.comp(t2).contains_key(e)) by {
                    if t2 == t {
                        assert(!old(self).types_of(e).contains(t2));
                        assert(self.comp(t) == Map::<Entity, V>::empty());
                    } else {
                        assert(old(self).types_of(e).contains(t2) <==> (old(
                            self,
                        ).registered().contains(t2) && old(self).comp(t2).contains_key(e)));
                    }
                }
            }
        } else {
            proof {
                assert(final(self).registered() =~= old(self).registered().insert(t));
            }
        }
    }

    /// Attach `component` to `e` under tag `t`, overwriting any existing
    /// value of that tag for `e`, and record `t` in `e`'s type set.
    pub fn add(&mut self, t: ComponentType, e: Entity, component: V)
        requires
            old(self).wf(),
            old(self).registered().contains(t),
        ensures
            final(self).wf(),
            add_transition(*old(self), *final(self), t, e, component),
    {
        let arr_opt = map_get_mut(&mut self.component_arrays, &t);
        let arr = arr_opt.unwrap();
        arr.add(e, component);
        let set_opt = map_get_mut(&mut self.entity_to_component_types, &e);
        match set_opt {
            Some(s) => {
                s.insert(t);
            },
            None => {
                let mut s: HashSet<ComponentType> = HashSet::new();
                s.insert(t);
                self.entity_to_component_types.insert(e, s);
            },
        }
        proof {
            let pre = *old(self);
            assert(self.types_of(e) =~= pre.types_of(e).insert(t));
            assert forall|e2: Entity| e2 != e implies self.types_of(e2) == pre.types_of(e2) by {
                assert(self.types_of(e2) =~= pre.types_of(e2));
            }
            assert forall|e2: Entity, t2: ComponentType| #![trigger self.types_of(e2).contains(t2)]
                #![trigger self.comp(t2).contains_key(e2)]
                self.types_of(e2).contains(t2) <==> (self.registered().contains(t2)
                    && self.comp(t2).contains_key(e2)) by {
                assert(pre.types_of(e2).contains(t2) <==> (pre.registered().contains(t2)
                    && pre.comp(t2).contains_key(e2)));
                if t2 == t {
                    assert(self.comp(t).contains_key(e2) <==> (e2 == e
                        || pre.comp(t).contains_key(e2)));
                } else {
                    assert(self.comp(t2) == pre.comp(t2)) by {
                        assert(self.component_arrays@[t2] == pre.component_arrays@[t2]);
                    }
                }
            }
        }
    }

    /// Whether tag `t` has been registered.
    pub fn is_registered(&self, t: ComponentType) -> (r: bool)
        ensures
            r == self.registered().contains(t),
    {
        self.component_types.contains(&t)
    }

    /// The value of tag `t` stored for `e`, or absent.
    pub fn get(&self, t: ComponentType, e: &Entity) -> (r: Option<&V>)
        requires
            self.wf(),
            self.registered().contains(t),
        ensures
            r is Some <==> self.get_spec(t, *e) is Some,
            r is Some ==> *r.unwrap() == self.get_spec(t, *e).unwrap(),
    {
        let arr_opt = self.component_arrays.get(&t);
        let arr = arr_opt.unwrap();
        arr.get(e)
    }

    /// Mutable access to the value of tag `t` stored for `e`, or absent.
    /// Only the stored value can change through the returned reference:
    /// the registered tags and the entity index stay as they were.
    pub fn get_mut(&mut self, t: ComponentType, e: &Entity) -> (r: Option<&mut V>)
        requires
            old(self).wf(),
            old(self).registered().contains(t),
        ensures
            final(self).wf(),
            final(self).registered() == old(self).registered(),
            forall|e2: Entity| final(self).types_of(e2) == old(self).types_of(e2),
            forall|t2: ComponentType|
                t2 != t && old(self).registered().contains(t2) ==> final(self).comp(t2)
                    == old(self).comp(t2),
            !old(self).comp(t).contains_key(*e) ==> r.is_none()
                && final(self).comp(t) == old(self).comp(t),
            old(self).comp(t).contains_key(*e) ==> r.is_some()
                && *r.unwrap() == old(self).comp(t)[*e]
                && final(self).comp(t) == old(self).comp(t).insert(*e, *final(r.unwrap())),
    {
        proof {
            let pre = *self;
            assert forall|post: ComponentManager<V>|
                (post.component_types@ == pre.component_types@
                    && post.entity_to_component_types@ == pre.entity_to_component_types@
                    && post.component_arrays@.contains_key(t) && (forall|t2: ComponentType|
                    t2 != t ==> (post.component_arrays@.contains_key(t2)
                        <==> pre.component_arrays@.contains_key(t2))) && (forall|t2: ComponentType|
                    t2 != t && pre.component_arrays@.contains_key(t2)
                        ==> post.component_arrays@[t2] == pre.component_arrays@[t2]) && (
                forall|e2: Entity|
                    post.comp(t).contains_key(e2) <==> pre.comp(t).contains_key(e2))) implies #[trigger] post.wf() by {
                assert forall|e2: Entity, t2: ComponentType|
                    #![trigger post.types_of(e2).contains(t2)]
                    #![trigger post.comp(t2).contains_key(e2)]
                    post.types_of(e2).contains(t2) <==> (post.registered().contains(t2)
                        && post.comp(t2).contains_key(e2)) by {
                    assert(pre.types_of(e2).contains(t2) <==> (pre.registered().contains(t2)
                        && pre.comp(t2).contains_key(e2)));
                    assert(post.types_of(e2) == pre.types_of(e2));
                }
            }
        }
        let arr_opt = map_get_mut(&mut self.component_arrays, &t);
        let arr = arr_opt.unwrap();
        arr.get_mut(e)
    }

    /// Remove and return the value of tag `t` stored for `e`, and drop `t`
    /// from `e`'s type set.
    pub fn remove(&mut self, t: ComponentType, e: &Entity) -> (r: Option<V>)
        requires
            old(self).wf(),
            old(self).registered().contains(t),
        ensures
            final(self).wf(),
            remove_transition(*old(self), *final(self), t, *e, r),
    {
        let set_opt = map_get_mut(&mut self.entity_to_component_types, e);
        match set_opt {
            Some(s) => {
                s.remove(&t);
            },
            None => {},
        }
        let arr_opt = map_get_mut(&mut self.component_arrays, &t);
        let arr = arr_opt.unwrap();
        let r = arr.remove(e);
        proof {
            let pre = *old(self);
            assert(self.types_of(*e) =~= pre.types_of(*e).remove(t));
            assert forall|e2: Entity| e2 != *e implies self.types_of(e2) == pre.types_of(e2) by {
                assert(self.types_of(e2) =~= pre.types_of(e2));
            }
            assert forall|e2: Entity, t2: ComponentType| #![trigger self.types_of(e2).contains(t2)]
                #![trigger self.comp(t2).contains_key(e2)]
                self.types_of(e2).contains(t2) <==> (self.registered().contains(t2)
                    && self.comp(t2).contains_key(e2)) by {
                assert(pre.types_of(e2).contains(t2) <==> (pre.registered().contains(t2)
                    && pre.comp(t2).contains_key(e2)));
                if t2 != t {
                    assert(self.component_arrays@[t2] == pre.component_arrays@[t2]);
                }
            }
        }
        r
    }

    /// The set of tags currently attached to `e`; an entity unknown to the
    /// index yields an empty set rather than an error.
    pub fn get_component_types(&self, e: Entity) -> (r: HashSet<ComponentType>)
        ensures
            r@ == self.types_of(e),
    {
        match self.entity_to_component_types.get(&e) {
            Some(s) => set_clone(s),
            None => HashSet::new(),
        }
    }
}

/// What one `add` call does to the registry.
pub open spec fn add_transition<V>(
    pre: ComponentManager<V>,
    post: ComponentManager<V>,
    t: ComponentType,
    e: Entity,
    v: V,
) -> bool {
    &&& post.registered() == pre.registered()
    &&& post.comp(t) == pre.comp(t).insert(e, v)
    &&& (forall|t2: ComponentType|
        t2 != t && pre.registered().contains(t2) ==> post.comp(t2) == pre.comp(t2))
    &&& post.types_of(e) == pre.types_of(e).insert(t)
    &&& (forall|e2: Entity| e2 != e ==> post.types_of(e2) == pre.types_of(e2))
}

/// What one `remove` call does to the registry, and what it returns.
pub open spec fn remove_transition<V>(
    pre: ComponentManager<V>,
    post: ComponentManager<V>,
    t: ComponentType,
    e: Entity,
    r: Option<V>,
) -> bool {
    &&& post.registered() == pre.registered()
    &&& post.comp(t) == pre.comp(t).remove(e)
    &&& (forall|t2: ComponentType|
        t2 != t && pre.registered().contains(t2) ==> post.comp(t2) == pre.comp(t2))
    &&& post.types_of(e) == pre.types_of(e).remove(t)
    &&& (forall|e2: Entity| e2 != e ==> post.types_of(e2) == pre.types_of(e2))
    &&& r == pre.get_spec(t, e)
}

/// Storage round-trip: after adding value `v` for `(t, e)`, a get returns
/// exactly `v`; a remove then returns exactly `v`, and a get afterwards
/// returns absent.
pub proof fn lemma_storage_round_trip<V>(
    c0: ComponentManager<V>,
    c1: ComponentManager<V>,
    c2: ComponentManager<V>,
    t: ComponentType,
    e: Entity,
    v: V,
    r: Option<V>,
)
    requires
        add_transition(c0, c1, t, e, v),
        remove_transition(c1, c2, t, e, r),
    ensures
        c1.get_spec(t, e) == Some(v),
        r == Some(v),
        c2.get_spec(t, e) == None::<V>,
{
}

} // verus!
