//! Fixed-capacity pool of entity identifiers.
//!
//! The pool owns every identifier below [`crate::MAX_ENTITIES`].  Each one is
//! either available or taken, never both; `take` moves one from available to
//! taken and `back` moves it the other way, so an identifier can be reissued
//! once it has been given back.

use vstd::prelude::*;

use crate::Entity;
use crate::MAX_ENTITIES;

verus! {

/// Issues and recycles opaque entity identifiers, with capacity fixed at
/// construction.
pub struct EntitiesPool {
    available: Vec<Entity>,
    taken: Vec<Entity>,
}

/// One operation on the pool, for stating laws about runs of operations.
pub enum PoolOp {
    Take(Entity),
    Back(Entity),
}

impl EntitiesPool {
    /// The identifiers currently available to be taken.
    pub closed spec fn available_set(self) -> Set<Entity> {
        self.available@.to_set()
    }

    /// The identifiers currently taken out of the pool.
    pub closed spec fn taken_set(self) -> Set<Entity> {
        self.taken@.to_set()
    }

    /// The taken identifiers in the order the iteration accessor reports them.
    pub closed spec fn taken_seq(self) -> Seq<Entity> {
        self.taken@
    }

    /// Every identifier is below the capacity and is on exactly one side.
    pub closed spec fn wf(self) -> bool {
        &&& self.available@.no_duplicates()
        &&& self.taken@.no_duplicates()
        &&& (forall|e: Entity| self.available@.contains(e) ==> e < MAX_ENTITIES)
        &&& (forall|e: Entity| self.taken@.contains(e) ==> e < MAX_ENTITIES)
        &&& (forall|e: Entity| !(self.available@.contains(e) && self.taken@.contains(e)))
        &&& self.available@.len() + self.taken@.len() == MAX_ENTITIES
    }

    /// A pool in which every identifier below the capacity is available and
    /// none is taken.
    pub fn new() -> (r: EntitiesPool)
        ensures
            r.wf(),
            r.taken_set() == Set::<Entity>::empty(),
            r.taken_seq() == Seq::<Entity>::empty(),
            forall|e: Entity| r.available_set().contains(e) <==> e < MAX_ENTITIES,
    {
        let mut available: Vec<Entity> = Vec::new();
        let mut i: u32 = 0;
        while i < MAX_ENTITIES
            invariant
                i <= MAX_ENTITIES,
                available@.len() == i,
                forall|j: int| 0 <= j < i ==> available@[j] == MAX_ENTITIES - 1 - j,
            decreases MAX_ENTITIES - i,
        {
            available.push(MAX_ENTITIES - 1 - i);
            i = i + 1;
        }
        let taken: Vec<Entity> = Vec::new();
        let r = EntitiesPool { available, taken };
        proof {
            assert forall|e: Entity| e < MAX_ENTITIES implies r.available@.contains(e) by {
                assert(r.available@[MAX_ENTITIES - 1 - e] == e);
            }
            assert forall|e: Entity| r.available_set().contains(e) <==> e < MAX_ENTITIES by {
                if r.available@.contains(e) {
                    let j = choose|j: int| 0 <= j < r.available@.len() && r.available@[j] == e;
                    assert(e == MAX_ENTITIES - 1 - j);
                }
            }
            assert(r.taken_set() =~= Set::<Entity>::empty());
        }
        r
    }

    /// Removes one identifier from the available side and marks it taken.
    pub fn take(&mut self) -> (e: Entity)
        requires
            old(self).wf(),
            old(self).taken_set().len() < MAX_ENTITIES,
        ensures
            final(self).wf(),
            take_transition(*old(self), *final(self), e),
    {
        proof {
            old(self).taken@.unique_seq_to_set();
            if old(self).available@.len() == 0 {
                assert(old(self).taken@.len() == MAX_ENTITIES);
            }
        }
        let e_opt = self.available.pop();
        let e = e_opt.unwrap();
        self.taken.push(e);
        proof {
            let pre = *old(self);
            let n = pre.available@.len() as int;
            assert(pre.available@.contains(e)) by {
                assert(pre.available@[n - 1] == e);
            }
            assert forall|x: Entity| #[trigger] self.available@.contains(x) implies (
                pre.available@.contains(x) && x != e) by {
                let j = choose|j: int|
                    0 <= j < self.available@.len() && self.available@[j] == x;
                assert(pre.available@[j] == x);
                assert(pre.available@[j] != pre.available@[n - 1]);
            }
            assert forall|x: Entity|
                pre.available@.contains(x) && x != e implies #[trigger] self.available@.contains(
                x) by {
                let j = choose|j: int| 0 <= j < pre.available@.len() && pre.available@[j] == x;
                assert(j != n - 1);
                assert(self.available@[j] == x);
            }
            assert(self.available_set() =~= pre.available_set().remove(e));
            assert forall|x: Entity| #[trigger] self.taken@.contains(x) implies (
                pre.taken@.contains(x) || x == e) by {
                let j = choose|j: int| 0 <= j < self.taken@.len() && self.taken@[j] == x;
                if j < pre.taken@.len() {
                    assert(pre.taken@[j] == x);
                }
            }
            assert forall|x: Entity| pre.taken@.contains(x) implies #[trigger] self.taken@.contains(
                x) by {
                let j = choose|j: int| 0 <= j < pre.taken@.len() && pre.taken@[j] == x;
                assert(self.taken@[j] == x);
            }
            assert(self.taken@.contains(e)) by {
                assert(self.taken@[self.taken@.len() - 1] == e);
            }
            assert(self.taken_set() =~= pre.taken_set().insert(e));
        }
        e
    }

    /// Moves a taken identifier back to the available side.
    pub fn back(&mut self, e: Entity)
        requires
            old(self).wf(),
            old(self).taken_set().contains(e),
        ensures
            final(self).wf(),
            back_transition(*old(self), *final(self), e),
    {
        let idx = find_entity(&self.taken, e);
        let i = idx.unwrap();
        self.taken.remove(i);
        self.available.push(e);
        proof {
            let pre = *old(self);
            let t = pre.taken@;
            assert forall|x: Entity| #[trigger] self.taken@.contains(x) implies (t.contains(x)
                && x != e) by {
                let j = choose|j: int| 0 <= j < self.taken@.len() && self.taken@[j] == x;
                if j < i {
                    assert(t[j] == x);
                    assert(t[j] != t[i as int]);
                } else {
                    assert(t[j + 1] == x);
                    assert(t[j + 1] != t[i as int]);
                }
            }
            assert forall|x: Entity| t.contains(x) && x != e implies #[trigger] self.taken@.contains(
                x) by {
                let j = choose|j: int| 0 <= j < t.len() && t[j] == x;
                assert(j != i);
                if j < i {
                    assert(self.taken@[j] == x);
                } else {
                    assert(self.taken@[j - 1] == x);
                }
            }
            assert(self.taken_set() =~= pre.taken_set().remove(e));
            assert forall|x: Entity| #[trigger] self.available@.contains(x) implies (
                pre.available@.contains(x) || x == e) by {
                let j = choose|j: int|
                    0 <= j < self.available@.len() && self.available@[j] == x;
                if j < pre.available@.len() {
                    assert(pre.available@[j] == x);
                }
            }
            assert forall|x: Entity|
                pre.available@.contains(x) || x == e implies #[trigger] self.available@.contains(
                x) by {
                if pre.available@.contains(x) {
                    let j = choose|j: int|
                        0 <= j < pre.available@.len() && pre.available@[j] == x;
                    assert(self.available@[j] == x);
                } else {
                    assert(self.available@[self.available@.len() - 1] == x);
                }
            }
            assert(self.available_set() =~= pre.available_set().insert(e));
            assert forall|j: int, k: int|
                0 <= j < k < self.taken@.len() implies self.taken@[j] != self.taken@[k] by {
                if k < i {
                    assert(t[j] != t[k]);
                } else if j < i {
                    assert(t[j] != t[k + 1]);
                } else {
                    assert(t[j + 1] != t[k + 1]);
                }
            }
        }
    }

    /// How many identifiers are currently taken.
    pub fn taken_len(&self) -> (n: usize)
        ensures
            n == self.taken_seq().len(),
    {
        self.taken.len()
    }

    /// Under well-formedness the taken view has no duplicates, so its
    /// length as a sequence and as a set agree.
    pub proof fn lemma_taken_len(self)
        requires
            self.wf(),
        ensures
            self.taken_set().len() == self.taken_seq().len(),
    {
        self.taken@.unique_seq_to_set();
    }

    /// Iteration accessor over the currently taken identifiers.
    pub fn taken_iter(&self) -> (r: &Vec<Entity>)
        ensures
            r@ == self.taken_seq(),
    {
        &self.taken
    }
}

/// Index of the first occurrence of `e` in `v`, if any.
fn find_entity(v: &Vec<Entity>, e: Entity) -> (r: Option<usize>)
    ensures
        match r {
            Some(i) => i < v@.len() && v@[i as int] == e,
            None => !v@.contains(e),
        },
{
    let n = v.len();
    let mut i: usize = 0;
    while i < n
        invariant
            i <= n,
            n == v@.len(),
            forall|j: int| 0 <= j < i ==> v@[j] != e,
        decreases n - i,
    {
        if v[i] == e {
            return Some(i);
        }
        i = i + 1;
    }
    None
}

/// What one `take` call does: `e` moves from the available side, where it
/// must have been, to the taken side, where it must not have been.
pub open spec fn take_transition(pre: EntitiesPool, post: EntitiesPool, e: Entity) -> bool {
    &&& pre.available_set().contains(e)
    &&& !pre.taken_set().contains(e)
    &&& post.available_set() == pre.available_set().remove(e)
    &&& post.taken_set() == pre.taken_set().insert(e)
    &&& post.taken_seq() == pre.taken_seq().push(e)
}

/// What one `back` call does: `e` moves from the taken side, where it must
/// have been, to the available side.
pub open spec fn back_transition(pre: EntitiesPool, post: EntitiesPool, e: Entity) -> bool {
    &&& pre.taken_set().contains(e)
    &&& post.taken_set() == pre.taken_set().remove(e)
    &&& post.available_set() == pre.available_set().insert(e)
}

/// One step of a run of pool operations.
pub open spec fn pool_step(pre: EntitiesPool, op: PoolOp, post: EntitiesPool) -> bool {
    match op {
        PoolOp::Take(e) => take_transition(pre, post, e),
        PoolOp::Back(e) => back_transition(pre, post, e),
    }
}

/// `states` is a run of the pool under the operations `ops`.
pub open spec fn pool_trace(states: Seq<EntitiesPool>, ops: Seq<PoolOp>) -> bool {
    &&& states.len() == ops.len() + 1
    &&& (forall|i: int|
        0 <= i < ops.len() ==> pool_step(states[i], #[trigger] ops[i], states[i + 1]))
}

/// A taken identifier stays taken across any stretch of a run that never
/// gives it back.
proof fn lemma_taken_persists(states: Seq<EntitiesPool>, ops: Seq<PoolOp>, i: int, j: int, e: Entity)
    requires
        pool_trace(states, ops),
        0 <= i <= j <= ops.len(),
        states[i].taken_set().contains(e),
        forall|k: int| i <= k < j ==> ops[k] != PoolOp::Back(e),
    ensures
        states[j].taken_set().contains(e),
    decreases j - i,
{
    if i < j {
        assert(pool_step(states[i], ops[i], states[i + 1]));
        match ops[i] {
            PoolOp::Take(e2) => {
                assert(states[i + 1].taken_set().contains(e));
            },
            PoolOp::Back(e2) => {
                assert(e2 != e);
                assert(states[i + 1].taken_set().contains(e));
            },
        }
        lemma_taken_persists(states, ops, i + 1, j, e);
    }
}

/// Pool uniqueness: in any run of takes and returns, an identifier handed out
/// by one take is not handed out by a later take until some return in between
/// has given it back.
pub proof fn lemma_pool_uniqueness(
    states: Seq<EntitiesPool>,
    ops: Seq<PoolOp>,
    i: int,
    j: int,
    e: Entity,
)
    requires
        pool_trace(states, ops),
        0 <= i < j < ops.len(),
        ops[i] == PoolOp::Take(e),
        ops[j] == PoolOp::Take(e),
    ensures
        exists|k: int| i < k < j && ops[k] == PoolOp::Back(e),
{
    if !(exists|k: int| i < k < j && ops[k] == PoolOp::Back(e)) {
        assert(pool_step(states[i], ops[i], states[i + 1]));
        assert(states[i + 1].taken_set().contains(e));
        assert(forall|k: int| i + 1 <= k < j ==> ops[k] != PoolOp::Back(e));
        lemma_taken_persists(states, ops, i + 1, j, e);
        assert(pool_step(states[j], ops[j], states[j + 1]));
        assert(!states[j].taken_set().contains(e));
        assert(false);
    }
}

/// Pool round-trip: returning an identifier removes it from the taken view
/// and puts it back among the available ones, so a later take may reissue it.
pub proof fn lemma_pool_round_trip(pre: EntitiesPool, post: EntitiesPool, e: Entity)
    requires
        back_transition(pre, post, e),
    ensures
        !post.taken_set().contains(e),
        post.available_set().contains(e),
{
}

} // verus!
