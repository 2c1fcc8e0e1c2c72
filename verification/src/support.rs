//! Small helpers over the std collections that the storage and system
//! registries are built on.

use vstd::prelude::*;

use std::collections::HashMap;
use std::collections::HashSet;
use vstd::std_specs::hash::obeys_key_model;
use vstd::std_specs::hash::spec_hash_keys_iter;
use vstd::std_specs::iter::IteratorSpec;
use vstd::std_specs::iter::VerusForLoopWrapper;

verus! {

/// Relies on std's `HashMap::get_mut`: returns a mutable reference to the
/// value stored for the key, or `None` when the key is absent, leaving the
/// rest of the map as it was.
#[verifier::external_body]
pub(crate) fn map_get_mut<'a, K: std::cmp::Eq + std::hash::Hash, V>(
    m: &'a mut HashMap<K, V>,
    k: &K,
) -> (r: Option<&'a mut V>)
    requires
        obeys_key_model::<K>(),
    ensures
        !old(m)@.contains_key(*k) ==> r.is_none() && final(m)@ == old(m)@,
        old(m)@.contains_key(*k) ==> r.is_some() && *r.unwrap() == old(m)@[*k] && final(m)@ == old(
            m,
        )@.insert(*k, *final(r.unwrap())),
{
    m.get_mut(k)
}

/// Whether every element of `a` is also in `b`.
pub(crate) fn set_is_subset(a: &HashSet<u64>, b: &HashSet<u64>) -> (r: bool)
    ensures
        r == a@.subset_of(b@),
{
    let iter = a.iter();
    let mut w = VerusForLoopWrapper::new(iter, Ghost(None));
    loop
        invariant
            w.wf(),
            w.iter.decrease() is Some,
            w.snapshot@ == spec_hash_keys_iter(a),
            forall|i: int| 0 <= i < w.index() ==> b@.contains(*w.seq()[i]),
        ensures
            w.index() == w.seq().len(),
            w.snapshot@ == spec_hash_keys_iter(a),
            forall|i: int| 0 <= i < w.index() ==> b@.contains(*w.seq()[i]),
        decreases w.iter.decrease()->0,
    {
        match w.next() {
            None => {
                break ;
            },
            Some(k) => {
                if !b.contains(k) {
                    proof {
                        let all = spec_hash_keys_iter(a).remaining();
                        assert(all.unref().to_set().contains(*k)) by {
                            assert(all.unref()[w.index() - 1] == *k);
                            assert(all.unref().contains(*k));
                        }
                    }
                    return false;
                }
            },
        }
    }
    proof {
        let all = spec_hash_keys_iter(a).remaining();
        assert forall|x: u64| a@.contains(x) implies b@.contains(x) by {
            assert(all.unref().to_set().contains(x));
            assert(all.unref().contains(x));
            let i = choose|i: int| 0 <= i < all.unref().len() && all.unref()[i] == x;
            assert(*w.seq()[i] == x);
        }
    }
    true
}

/// A fresh set holding exactly the elements of `s`.
pub(crate) fn set_clone(s: &HashSet<u64>) -> (r: HashSet<u64>)
    ensures
        r@ == s@,
{
    let iter = s.iter();
    let mut w = VerusForLoopWrapper::new(iter, Ghost(None));
    let mut r: HashSet<u64> = HashSet::new();
    loop
        invariant
            w.wf(),
            w.snapshot@ == spec_hash_keys_iter(s),
            forall|x: u64|
                r@.contains(x) <==> exists|i: int| 0 <= i < w.index() && *w.seq()[i] == x,
            w.iter.decrease() is Some,
        ensures
            w.index() == w.seq().len(),
            w.snapshot@ == spec_hash_keys_iter(s),
            forall|x: u64|
                r@.contains(x) <==> exists|i: int| 0 <= i < w.index() && *w.seq()[i] == x,
        decreases w.iter.decrease()->0,
    {
        match w.next() {
            None => {
                break ;
            },
            Some(k) => {
                r.insert(*k);
                proof {
                    assert(*w.seq()[w.index() - 1] == *k);
                }
            },
        }
    }
    proof {
        let all = spec_hash_keys_iter(s).remaining();
        assert forall|x: u64| r@.contains(x) implies s@.contains(x) by {
            let i = choose|i: int| 0 <= i < w.index() && *w.seq()[i] == x;
            assert(all.unref()[i] == x);
            assert(all.unref().contains(x));
            assert(all.unref().to_set().contains(x));
        }
        assert forall|x: u64| s@.contains(x) implies r@.contains(x) by {
            assert(all.unref().to_set().contains(x));
            assert(all.unref().contains(x));
            let i = choose|i: int| 0 <= i < all.unref().len() && all.unref()[i] == x;
            assert(*w.seq()[i] == x);
        }
        assert(r@ =~= s@);
    }
    r
}

/// Mutable access to the second component of one pair in a vector.
pub(crate) fn pair_value_mut<A, B>(v: &mut Vec<(A, B)>, i: usize) -> (r: &mut B)
    requires
        i < old(v).len(),
    ensures
        *r == old(v)@[i as int].1,
        final(v)@ == old(v)@.update(i as int, (old(v)@[i as int].0, *final(r))),
{
    &mut v[i].1
}

/// Mutable access to one element of a vector.
pub(crate) fn idx_mut<T>(v: &mut Vec<T>, i: usize) -> (r: &mut T)
    requires
        i < old(v).len(),
    ensures
        *r == old(v)@[i as int],
        final(v)@ == old(v)@.update(i as int, *final(r)),
{
    &mut v[i]
}

} // verus!
