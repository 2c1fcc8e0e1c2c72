//! Systems of the earlier tree: a step borrows the system immutably, runs
//! against component storage and returns nothing, so there is no deferred
//! command here; a separate call drives every registered system at once.

use vstd::prelude::*;

use std::collections::HashSet;

use crate::ComponentType;
use crate::Entity;
use crate::SystemType;
use crate::ecs::component::ComponentManager;
use crate::support::idx_mut;
use crate::support::set_clone;
use crate::support::set_is_subset;

verus! {

/// A registered behaviour with a fixed signature and a membership set.
pub trait System: Sized {
    /// The component value type of the world this system runs in.
    type Value;

    /// The component-type signature this system requires.  An
    /// implementation whose contracts are verified overrides this with its
    /// actual signature.
    open spec fn signature(&self) -> Set<ComponentType> {
        Set::empty()
    }

    /// The entities currently accepted into this system's membership set.
    /// An implementation whose contracts are verified overrides this with
    /// its actual membership view.
    open spec fn members(&self) -> Set<Entity> {
        Set::empty()
    }

    /// Accept `e` into the membership set.
    fn add(&mut self, e: Entity)
        ensures
            final(self).members() == old(self).members().insert(e),
            final(self).signature() == old(self).signature(),
    ;

    /// Reject `e` from the membership set.
    fn remove(&mut self, e: Entity)
        ensures
            final(self).members() == old(self).members().remove(e),
            final(self).signature() == old(self).signature(),
    ;

    /// Report the required signature.
    fn get_component_types(&self) -> (r: &HashSet<ComponentType>)
        ensures
            r@ == self.signature(),
    ;

    /// Execute one step against component storage.  A step may read and
    /// rewrite stored component values but registers nothing new.
    fn apply(&self, cm: &mut ComponentManager<Self::Value>)
        requires
            old(cm).wf(),
        ensures
            final(cm).wf(),
            final(cm).registered() == old(cm).registered(),
    ;
}

/// One registered system with its tag and captured signature.
struct SystemEntry<S> {
    tag: SystemType,
    types: HashSet<ComponentType>,
    system: S,
}

/// Owns all registered systems, keyed by a [`SystemType`] tag.
pub struct SystemManager<S: System> {
    entries: Vec<SystemEntry<S>>,
}

impl<S: System> SystemManager<S> {
    /// How many systems are registered.
    pub closed spec fn n_systems(self) -> nat {
        self.entries@.len()
    }

    /// The tag of the `i`-th registered system.
    pub closed spec fn tag(self, i: int) -> SystemType {
        self.entries@[i].tag
    }

    /// The signature of the `i`-th registered system.
    pub closed spec fn sig(self, i: int) -> Set<ComponentType> {
        self.entries@[i].system.signature()
    }

    /// The membership set of the `i`-th registered system.
    pub closed spec fn members(self, i: int) -> Set<Entity> {
        self.entries@[i].system.members()
    }

    /// Whether some registered system carries tag `st`.
    pub open spec fn has_tag(self, st: SystemType) -> bool {
        exists|i: int| 0 <= i < self.n_systems() && self.tag(i) == st
    }

    /// The position of the system carrying tag `st`.
    pub open spec fn tag_index(self, st: SystemType) -> int {
        choose|i: int| 0 <= i < self.n_systems() && self.tag(i) == st
    }

    /// Tags are unique and each captured signature matches its system's.
    pub closed spec fn wf(self) -> bool {
        &&& (forall|i: int, j: int|
            #![trigger self.entries@[i].tag, self.entries@[j].tag]
            0 <= i < j < self.entries@.len() ==> self.entries@[i].tag != self.entries@[j].tag)
        &&& (forall|i: int|
            0 <= i < self.entries@.len() ==> (#[trigger] self.entries@[i].types)@
                == self.entries@[i].system.signature())
    }

    /// Distinct positions carry distinct tags.
    pub proof fn lemma_tags_unique(self, a: int, b: int)
        requires
            self.wf(),
            0 <= a < self.n_systems(),
            0 <= b < self.n_systems(),
            a != b,
        ensures
            self.tag(a) != self.tag(b),
    {
        if a < b {
            assert(self.entries@[a].tag != self.entries@[b].tag);
        } else {
            assert(self.entries@[b].tag != self.entries@[a].tag);
        }
    }

    /// An empty registry.
    pub fn new() -> (r: SystemManager<S>)
        ensures
            r.wf(),
            r.n_systems() == 0,
    {
        SystemManager { entries: Vec::new() }
    }

    /// Store `system` under tag `st`, capturing its declared signature,
    /// and report the tag it stands under.  A system already registered
    /// under the same tag is replaced.
    pub fn register(&mut self, st: SystemType, system: S) -> (r: SystemType)
        requires
            old(self).wf(),
        ensures
            final(self).wf(),
            r == st,
            final(self).has_tag(st),
            old(self).has_tag(st) ==> {
                let i = old(self).tag_index(st);
                &&& final(self).n_systems() == old(self).n_systems()
                &&& (forall|j: int|
                    0 <= j < old(self).n_systems() && j != i ==> final(self).tag(j) == old(
                        self,
                    ).tag(j) && final(self).sig(j) == old(self).sig(j) && final(self).members(j)
                        == old(self).members(j))
                &&& final(self).tag(i) == st
                &&& final(self).sig(i) == system.signature()
                &&& final(self).members(i) == system.members()
            },
            !old(self).has_tag(st) ==> {
                let n = old(self).n_systems() as int;
                &&& final(self).n_systems() == old(self).n_systems() + 1
                &&& (forall|j: int|
                    0 <= j < old(self).n_systems() ==> final(self).tag(j) == old(self).tag(j)
                        && final(self).sig(j) == old(self).sig(j) && final(self).members(j) == old(
                        self,
                    ).members(j))
                &&& final(self).tag(n) == st
                &&& final(self).sig(n) == system.signature()
                &&& final(self).members(n) == system.members()
            },
    {
        let types = set_clone(system.get_component_types());
        let entry = SystemEntry { tag: st, types, system };
        let n = self.entries.len();
        let mut i: usize = 0;
        while i < n
            invariant
                i <= n,
                n == self.entries@.len(),
                *self == *old(self),
                old(self).wf(),
                forall|j: int| 0 <= j < i ==> old(self).tag(j) != st,
                entry.tag == st,
                entry.types@ == entry.system.signature(),
                entry.system.signature() == system.signature(),
                entry.system.members() == system.members(),
            decreases n - i,
        {
            if self.entries[i].tag == st {
                proof {
                    assert(old(self).tag(i as int) == st);
                    assert(old(self).has_tag(st));
                    let j = old(self).tag_index(st);
                    assert(0 <= j < old(self).n_systems() && old(self).tag(j) == st);
                    if j != i as int {
                        old(self).lemma_tags_unique(i as int, j);
                    }
                }
                let slot = idx_mut(&mut self.entries, i);
                *slot = entry;
                proof {
                    let pre = *old(self);
                    assert forall|a: int, b: int|
                        0 <= a < b < self.entries@.len() implies self.entries@[a].tag
                        != self.entries@[b].tag by {
                        assert(pre.entries@[a].tag != pre.entries@[b].tag);
                        assert(pre.entries@[i as int].tag == st);
                    }
                    assert forall|k: int|
                        0 <= k < self.entries@.len() implies #[trigger] (self.entries@[k].types)@
                        == self.entries@[k].system.signature() by {
                        assert(pre.entries@[k].types@ == pre.entries@[k].system.signature());
                    }
                    assert forall|j: int|
                        0 <= j < pre.n_systems() && j != i as int implies self.tag(j) == pre.tag(j)
                        && self.sig(j) == pre.sig(j) && self.members(j) == pre.members(j) by {
                        assert(self.entries@[j] == pre.entries@[j]);
                    }
                    assert(self.tag(i as int) == st);
                    assert(self.has_tag(st));
                }
                return st;
            }
            i = i + 1;
        }
        self.entries.push(entry);
        proof {
            let pre = *old(self);
            if pre.has_tag(st) {
                let j = pre.tag_index(st);
                assert(0 <= j < pre.n_systems() && pre.tag(j) == st);
                assert(false);
            }
            assert forall|a: int, b: int|
                0 <= a < b < self.entries@.len() implies self.entries@[a].tag
                != self.entries@[b].tag by {
                if b < pre.entries@.len() {
                    assert(pre.entries@[a].tag != pre.entries@[b].tag);
                } else {
                    assert(pre.tag(a) != st);
                }
            }
            assert forall|k: int|
                0 <= k < self.entries@.len() implies #[trigger] (self.entries@[k].types)@
                == self.entries@[k].system.signature() by {
                if k < pre.entries@.len() {
                    assert(pre.entries@[k].types@ == pre.entries@[k].system.signature());
                }
            }
            assert forall|j: int|
                0 <= j < pre.n_systems() implies self.tag(j) == pre.tag(j) && self.sig(j)
                == pre.sig(j) && self.members(j) == pre.members(j) by {
                assert(self.entries@[j] == pre.entries@[j]);
            }
            assert(self.tag(pre.n_systems() as int) == st);
            assert(self.has_tag(st));
        }
        st
    }

    /// For every registered system whose signature is covered by
    /// `component_types`, accept `e` into its membership set.
    pub fn add_component(&mut self, e: Entity, component_types: &HashSet<ComponentType>)
        requires
            old(self).wf(),
        ensures
            final(self).wf(),
            final(self).n_systems() == old(self).n_systems(),
            forall|i: int|
                0 <= i < old(self).n_systems() ==> final(self).tag(i) == old(self).tag(i)
                    && final(self).sig(i) == old(self).sig(i),
            forall|i: int|
                0 <= i < old(self).n_systems() ==> final(self).members(i) == (if old(self).sig(
                    i,
                ).subset_of(component_types@) {
                    old(self).members(i).insert(e)
                } else {
                    old(self).members(i)
                }),
    {
        let n = self.entries.len();
        let mut idx: usize = 0;
        while idx < n
            invariant
                idx <= n,
                n == self.entries@.len(),
                self.wf(),
                forall|i: int|
                    0 <= i < n ==> self.tag(i) == old(self).tag(i) && self.sig(i) == old(self).sig(
                        i,
                    ),
                forall|i: int| idx <= i < n ==> self.members(i) == old(self).members(i),
                forall|i: int|
                    0 <= i < idx ==> self.members(i) == (if old(self).sig(i).subset_of(
                        component_types@,
                    ) {
                        old(self).members(i).insert(e)
                    } else {
                        old(self).members(i)
                    }),
            decreases n - idx,
        {
            let ghost snap = *self;
            let entry = idx_mut(&mut self.entries, idx);
            let fits = set_is_subset(&entry.types, component_types);
            if fits {
                entry.system.add(e);
            }
            proof {
                assert(snap.entries@[idx as int].types@ == snap.sig(idx as int));
                assert forall|i: int|
                    0 <= i < n && i != idx implies self.members(i) == snap.members(i) && self.sig(
                    i,
                ) == snap.sig(i) && self.tag(i) == snap.tag(i) && (#[trigger] self.entries@[i])
                    == snap.entries@[i] by {}
                assert(self.sig(idx as int) == snap.sig(idx as int));
                assert(self.tag(idx as int) == snap.tag(idx as int));
                assert(self.entries@[idx as int].types@ == snap.entries@[idx as int].types@);
                assert(self.members(idx as int) == (if snap.sig(idx as int).subset_of(
                    component_types@,
                ) {
                    snap.members(idx as int).insert(e)
                } else {
                    snap.members(idx as int)
                }));
                assert forall|a: int, b: int|
                    0 <= a < b < n implies self.entries@[a].tag != self.entries@[b].tag by {
                    assert(snap.entries@[a].tag != snap.entries@[b].tag);
                }
                assert forall|k: int|
                    0 <= k < n implies #[trigger] (self.entries@[k].types)@
                    == self.entries@[k].system.signature() by {
                    assert(snap.entries@[k].types@ == snap.entries@[k].system.signature());
                }
                assert forall|i: int|
                    0 <= i < idx + 1 implies self.members(i) == (if old(self).sig(i).subset_of(
                        component_types@,
                    ) {
                        old(self).members(i).insert(e)
                    } else {
                        old(self).members(i)
                    }) by {
                    if i != idx {
                        assert(snap.members(i) == (if old(self).sig(i).subset_of(component_types@) {
                            old(self).members(i).insert(e)
                        } else {
                            old(self).members(i)
                        }));
                    }
                }
            }
            idx = idx + 1;
        }
    }

    /// Run the step of the system registered under `st` against component
    /// storage.  Calling this for a tag nobody is registered under is a
    /// caller error and is ruled out.
    pub fn apply(&self, st: SystemType, cm: &mut ComponentManager<S::Value>)
        requires
            self.wf(),
            self.has_tag(st),
            old(cm).wf(),
        ensures
            final(cm).wf(),
            final(cm).registered() == old(cm).registered(),
    {
        let n = self.entries.len();
        let mut i: usize = 0;
        while i < n
            invariant
                i <= n,
                n == self.entries@.len(),
                self.wf(),
                self.has_tag(st),
                cm.wf(),
                cm.registered() == old(cm).registered(),
            decreases n - i,
        {
            if self.entries[i].tag == st {
                self.entries[i].system.apply(cm);
                return ;
            }
            i = i + 1;
        }
    }

    /// Run every registered system's step once, in registration order.
    pub fn kick_all_systems(&self, cm: &mut ComponentManager<S::Value>)
        requires
            self.wf(),
            old(cm).wf(),
        ensures
            final(cm).wf(),
            final(cm).registered() == old(cm).registered(),
    {
        let n = self.entries.len();
        let mut i: usize = 0;
        while i < n
            invariant
                i <= n,
                n == self.entries@.len(),
                self.wf(),
                cm.wf(),
                cm.registered() == old(cm).registered(),
            decreases n - i,
        {
            self.entries[i].system.apply(cm);
            i = i + 1;
        }
    }
}

} // verus!
