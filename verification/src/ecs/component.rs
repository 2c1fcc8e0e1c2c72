//! Component storage of the earlier tree.  Containers work as in the main
//! tree, but lookups hand back mutable access directly and the registry
//! keeps no entity-to-types index: the pool owns that here.

use vstd::prelude::*;

use std::collections::HashMap;
use std::collections::HashSet;

use crate::ComponentType;
use crate::Entity;
use crate::support::map_get_mut;

verus! {

/// Storage container for one component type, with a diagnostic name.
pub struct ComponentArray<T> {
    name: &'static str,
    components: HashMap<Entity, T>,
}

impl<T> View for ComponentArray<T> {
    type V = Map<Entity, T>;

    closed spec fn view(&self) -> Map<Entity, T> {
        self.components@
    }
}

impl<T> ComponentArray<T> {
    /// The diagnostic label given at construction.
    pub closed spec fn spec_name(self) -> Seq<char> {
        self.name@
    }

    /// An empty container labelled `name`.
    pub fn new(name: &'static str) -> (r: ComponentArray<T>)
        ensures
            r@ == Map::<Entity, T>::empty(),
            r.spec_name() == name@,
    {
        ComponentArray { name, components: HashMap::new() }
    }

    /// Insert-or-replace the value stored for `entity`.
    pub fn add(&mut self, entity: Entity, component: T)
        ensures
            final(self)@ == old(self)@.insert(entity, component),
            final(self).spec_name() == old(self).spec_name(),
    {
        self.components.insert(entity, component);
    }

    /// Mutable access to the value stored for `entity`, or absent.
    pub fn get(&mut self, entity: &Entity) -> (r: Option<&mut T>)
        ensures
            final(self).spec_name() == old(self).spec_name(),
            !old(self)@.contains_key(*entity) ==> r.is_none() && final(self)@ == old(self)@,
            old(self)@.contains_key(*entity) ==> r.is_some() && *r.unwrap() == old(self)@[*entity]
                && final(self)@ == old(self)@.insert(*entity, *final(r.unwrap())),
    {
        map_get_mut(&mut self.components, entity)
    }

    /// Remove and return the value stored for `entity`, if any.
    pub fn remove(&mut self, entity: &Entity) -> (r: Option<T>)
        ensures
            final(self)@ == old(self)@.remove(*entity),
            final(self).spec_name() == old(self).spec_name(),
            r == (if old(self)@.contains_key(*entity) {
                Some(old(self)@[*entity])
            } else {
                None::<T>
            }),
    {
        self.components.remove(entity)
    }
}

/// Owns one container per registered component type, keyed by tag.
pub struct ComponentManager<V> {
    component_types: HashSet<ComponentType>,
    component_arrays: HashMap<ComponentType, ComponentArray<V>>,
}

impl<V> ComponentManager<V> {
    /// The set of registered component-type tags.
    pub closed spec fn registered(self) -> Set<ComponentType> {
        self.component_types@
    }

    /// The contents of the container for tag `t` (meaningful for
    /// registered `t`).
    pub closed spec fn comp(self, t: ComponentType) -> Map<Entity, V> {
        self.component_arrays@[t]@
    }

    /// There is a container exactly for each registered tag.
    pub closed spec fn wf(self) -> bool {
        forall|t: ComponentType|
            #![trigger self.component_arrays@.contains_key(t)]
            #![trigger self.component_types@.contains(t)]
            self.component_arrays@.contains_key(t) <==> self.component_types@.contains(t)
    }

    /// What a lookup of tag `t` on entity `e` finds, as a value.
    pub open spec fn get_spec(self, t: ComponentType, e: Entity) -> Option<V> {
        if self.comp(t).contains_key(e) {
            Some(self.comp(t)[e])
        } else {
            None
        }
    }

    /// An empty registry.
    pub fn new() -> (r: ComponentManager<V>)
        ensures
            r.wf(),
            r.registered() == Set::<ComponentType>::empty(),
    {
        ComponentManager { component_types: HashSet::new(), component_arrays: HashMap::new() }
    }

    /// Idempotently allocate an empty container for tag `t`.
    pub fn register(&mut self, t: ComponentType)
        requires
            old(self).wf(),
        ensures
            final(self).wf(),
            final(self).registered() == old(self).registered().insert(t),
            !old(self).registered().contains(t) ==> final(self).comp(t) == Map::<Entity, V>::empty(),
            forall|t2: ComponentType|
                old(self).registered().contains(t2) ==> final(self).comp(t2) == old(self).comp(t2),
    {
        if !self.component_types.contains(&t) {
            self.component_types.insert(t);
            let arr: ComponentArray<V> = ComponentArray::new("components");
            self.component_arrays.insert(t, arr);
        } else {
            proof {
                assert(final(self).registered() =~= old(self).registered().insert(t));
            }
        }
    }

    /// Attach `component` to `entity` under tag `t`.  An unregistered tag
    /// is silently ignored, as in the design this tree keeps.
    pub fn add(&mut self, t: ComponentType, entity: Entity, component: V)
        requires
            old(self).wf(),
        ensures
            final(self).wf(),
            final(self).registered() == old(self).registered(),
            old(self).registered().contains(t) ==> final(self).comp(t) == old(self).comp(t).insert(
                entity,
                component,
            ),
            !old(self).registered().contains(t) ==> *final(self) == *old(self),
            forall|t2: ComponentType|
                t2 != t && old(self).registered().contains(t2) ==> final(self).comp(t2) == old(self).comp(t2),
    {
        if self.component_types.contains(&t) {
            let arr_opt = map_get_mut(&mut self.component_arrays, &t);
            let arr = arr_opt.unwrap();
            arr.add(entity, component);
        }
    }

    /// Mutable access to the value of tag `t` stored for `entity`, or
    /// absent.  Only the stored value can change through the returned
    /// reference.
    pub fn get(&mut self, t: ComponentType, entity: &Entity) -> (r: Option<&mut V>)
        requires
            old(self).wf(),
            old(self).registered().contains(t),
        ensures
            final(self).wf(),
            final(self).registered() == old(self).registered(),
            forall|t2: ComponentType|
                t2 != t && old(self).registered().contains(t2) ==> final(self).comp(t2) == old(self).comp(t2),
            !old(self).comp(t).contains_key(*entity) ==> r.is_none() && final(self).comp(t) == old(self).comp(t),
            old(self).comp(t).contains_key(*entity) ==> r.is_some() && *r.unwrap() == old(self).comp(t)[*entity] && final(self).comp(t) == old(self).comp(t).insert(
                *entity,
                *final(r.unwrap()),
            ),
    {
        let arr_opt = map_get_mut(&mut self.component_arrays, &t);
        let arr = arr_opt.unwrap();
        arr.get(entity)
    }

    /// Remove and return the value of tag `t` stored for `entity`.
    pub fn remove(&mut self, t: ComponentType, entity: &Entity) -> (r: Option<V>)
        requires
            old(self).wf(),
            old(self).registered().contains(t),
        ensures
            final(self).wf(),
            final(self).registered() == old(self).registered(),
            final(self).comp(t) == old(self).comp(t).remove(*entity),
            forall|t2: ComponentType|
                t2 != t && old(self).registered().contains(t2) ==> final(self).comp(t2) == old(self).comp(t2),
            r == old(self).get_spec(t, *entity),
    {
        let arr_opt = map_get_mut(&mut self.component_arrays, &t);
        let arr = arr_opt.unwrap();
        arr.remove(entity)
    }
}

} // verus!
