//! Named global values, looked up by string key.

use vstd::prelude::*;

use crate::support::idx_mut;
use crate::support::pair_value_mut;

verus! {

/// A mapping from names to values, with insert-or-replace and lookup.
pub struct Globals<V> {
    globals: Vec<(String, V)>,
}

impl<V> Globals<V> {
    /// Whether some value is stored under the name `k`.
    pub closed spec fn has_key(self, k: Seq<char>) -> bool {
        exists|i: int| 0 <= i < self.globals@.len() && self.globals@[i].0@ == k
    }

    /// The position of the entry named `k`.
    pub closed spec fn key_index(self, k: Seq<char>) -> int {
        choose|i: int| 0 <= i < self.globals@.len() && self.globals@[i].0@ == k
    }

    /// The value stored under the name `k` (meaningful when `has_key`).
    pub closed spec fn value_of(self, k: Seq<char>) -> V {
        self.globals@[self.key_index(k)].1
    }

    /// Names are unique.
    pub closed spec fn wf(self) -> bool {
        forall|i: int, j: int|
            #![trigger self.globals@[i].0, self.globals@[j].0]
            0 <= i < j < self.globals@.len() ==> self.globals@[i].0@ != self.globals@[j].0@
    }

    /// An entry named `k` at position `j` is the one every lookup of `k`
    /// finds.
    proof fn lemma_key_at(self, k: Seq<char>, j: int)
        requires
            self.wf(),
            0 <= j < self.globals@.len(),
            self.globals@[j].0@ == k,
        ensures
            self.has_key(k),
            self.key_index(k) == j,
    {
        assert(self.has_key(k));
        let i = self.key_index(k);
        assert(0 <= i < self.globals@.len() && self.globals@[i].0@ == k);
        if i < j {
            assert(self.globals@[i].0@ != self.globals@[j].0@);
        } else if j < i {
            assert(self.globals@[j].0@ != self.globals@[i].0@);
        }
    }

    /// An empty store.
    pub fn new() -> (r: Globals<V>)
        ensures
            r.wf(),
            forall|k: Seq<char>| !r.has_key(k),
    {
        Globals { globals: Vec::new() }
    }

    /// Store `c` under `name`, replacing any value already stored there.
    pub fn add(&mut self, name: &str, c: V)
        requires
            old(self).wf(),
        ensures
            final(self).wf(),
            final(self).has_key(name@),
            final(self).value_of(name@) == c,
            forall|k: Seq<char>|
                k != name@ ==> (final(self).has_key(k) <==> old(self).has_key(k)),
            forall|k: Seq<char>|
                k != name@ && old(self).has_key(k) ==> final(self).value_of(k) == old(
                    self,
                ).value_of(k),
    {
        let key = name.to_owned();
        let found = find_key(&self.globals, &key);
        match found {
            Some(i) => {
                let slot = idx_mut(&mut self.globals, i);
                *slot = (key, c);
                proof {
                    let pre = *old(self);
                    let n = pre.globals@.len() as int;
                    assert forall|a: int, b: int|
                        #![trigger self.globals@[a].0, self.globals@[b].0]
                        0 <= a < b < self.globals@.len() implies self.globals@[a].0@
                        != self.globals@[b].0@ by {
                        assert(pre.globals@[a].0@ != pre.globals@[b].0@);
                    }
                    self.lemma_key_at(name@, i as int);
                    assert forall|k: Seq<char>| k != name@ implies (self.has_key(k)
                        <==> pre.has_key(k)) by {
                        if pre.has_key(k) {
                            let j = choose|j: int| 0 <= j < n && pre.globals@[j].0@ == k;
                            assert(self.globals@[j].0@ == k);
                        }
                        if self.has_key(k) {
                            let j = choose|j: int|
                                0 <= j < self.globals@.len() && self.globals@[j].0@ == k;
                            assert(pre.globals@[j].0@ == k);
                        }
                    }
                    assert forall|k: Seq<char>|
                        k != name@ && pre.has_key(k) implies self.value_of(k) == pre.value_of(
                        k) by {
                        let j = choose|j: int| 0 <= j < n && pre.globals@[j].0@ == k;
                        pre.lemma_key_at(k, j);
                        self.lemma_key_at(k, j);
                    }
                }
            },
            None => {
                let ghost n = self.globals@.len() as int;
                self.globals.push((key, c));
                proof {
                    let pre = *old(self);
                    assert forall|a: int, b: int|
                        #![trigger self.globals@[a].0, self.globals@[b].0]
                        0 <= a < b < self.globals@.len() implies self.globals@[a].0@
                        != self.globals@[b].0@ by {
                        if b < n {
                            assert(pre.globals@[a].0@ != pre.globals@[b].0@);
                        } else {
                            assert(pre.globals@[a].0@ != key@);
                        }
                    }
                    self.lemma_key_at(name@, n);
                    assert forall|k: Seq<char>| k != name@ implies (self.has_key(k)
                        <==> pre.has_key(k)) by {
                        if pre.has_key(k) {
                            let j = choose|j: int| 0 <= j < n && pre.globals@[j].0@ == k;
                            assert(self.globals@[j].0@ == k);
                        }
                        if self.has_key(k) {
                            let j = choose|j: int|
                                0 <= j < self.globals@.len() && self.globals@[j].0@ == k;
                            assert(pre.globals@[j].0@ == k);
                        }
                    }
                    assert forall|k: Seq<char>|
                        k != name@ && pre.has_key(k) implies self.value_of(k) == pre.value_of(
                        k) by {
                        let j = choose|j: int| 0 <= j < n && pre.globals@[j].0@ == k;
                        pre.lemma_key_at(k, j);
                        self.lemma_key_at(k, j);
                    }
                }
            },
        }
    }

    /// The value stored under `name`, or absent when nothing is stored
    /// there; absence is an expected outcome, not an error.
    pub fn get(&self, name: &str) -> (r: Option<&V>)
        requires
            self.wf(),
        ensures
            r is Some <==> self.has_key(name@),
            r is Some ==> *r.unwrap() == self.value_of(name@),
    {
        let key = name.to_owned();
        let found = find_key(&self.globals, &key);
        match found {
            Some(i) => {
                proof {
                    self.lemma_key_at(name@, i as int);
                }
                Some(&self.globals[i].1)
            },
            None => {
                proof {
                    if self.has_key(name@) {
                        let j = choose|j: int|
                            0 <= j < self.globals@.len() && self.globals@[j].0@ == name@;
                        assert(self.globals@[j].0@ != key@);
                    }
                }
                None
            },
        }
    }

    /// Mutable access to the value stored under `name`, or absent.  Only
    /// that value can change through the returned reference.
    #[verifier::rlimit(50)]
    pub fn get_mut(&mut self, name: &str) -> (r: Option<&mut V>)
        requires
            old(self).wf(),
        ensures
            final(self).wf(),
            !old(self).has_key(name@) ==> r.is_none() && *final(self) == *old(self),
            old(self).has_key(name@) ==> r.is_some() && *r.unwrap() == old(self).value_of(name@),
            old(self).has_key(name@) ==> final(self).has_key(name@) && final(self).value_of(name@)
                == *final(r.unwrap()),
            old(self).has_key(name@) ==> (forall|k: Seq<char>|
                k != name@ ==> (final(self).has_key(k) <==> old(self).has_key(k))),
            old(self).has_key(name@) ==> (forall|k: Seq<char>|
                k != name@ && old(self).has_key(k) ==> final(self).value_of(k) == old(
                    self,
                ).value_of(k)),
    {
        let key = name.to_owned();
        let found = find_key(&self.globals, &key);
        match found {
            Some(i) => {
                proof {
                    let pre = *old(self);
                    pre.lemma_key_at(name@, i as int);
                    let n = pre.globals@.len() as int;
                    let fin = *final(self);
                    let hyp = fin.globals@ == pre.globals@.update(
                        i as int,
                        (pre.globals@[i as int].0, fin.globals@[i as int].1),
                    );
                    assert(hyp ==> fin.wf() && fin.has_key(name@) && fin.value_of(name@)
                        == fin.globals@[i as int].1 && (forall|k: Seq<char>|
                        #![trigger fin.has_key(k)]
                        k != name@ ==> (fin.has_key(k) <==> pre.has_key(k))) && (forall|
                        k: Seq<char>,
                    |
                        #![trigger fin.value_of(k)]
                        k != name@ && pre.has_key(k) ==> fin.value_of(k) == pre.value_of(
                            k,
                        ))) by {
                        if hyp {
                            assert forall|a: int, b: int|
                                #![trigger fin.globals@[a].0, fin.globals@[b].0]
                                0 <= a < b < fin.globals@.len() implies fin.globals@[a].0@
                                != fin.globals@[b].0@ by {
                                assert(pre.globals@[a].0@ != pre.globals@[b].0@);
                            }
                            fin.lemma_key_at(name@, i as int);
                            assert forall|k: Seq<char>| k != name@ implies (fin.has_key(k)
                                <==> pre.has_key(k)) by {
                                if pre.has_key(k) {
                                    let j = choose|j: int| 0 <= j < n && pre.globals@[j].0@ == k;
                                    assert(fin.globals@[j].0@ == k);
                                }
                                if fin.has_key(k) {
                                    let j = choose|j: int|
                                        0 <= j < fin.globals@.len() && fin.globals@[j].0@ == k;
                                    assert(pre.globals@[j].0@ == k);
                                }
                            }
                            assert forall|k: Seq<char>|
                                k != name@ && pre.has_key(k) implies fin.value_of(k)
                                == pre.value_of(k) by {
                                let j = choose|j: int| 0 <= j < n && pre.globals@[j].0@ == k;
                                pre.lemma_key_at(k, j);
                                fin.lemma_key_at(k, j);
                            }
                        }
                    }
                }
                Some(pair_value_mut(&mut self.globals, i))
            },
            None => {
                proof {
                    if self.has_key(name@) {
                        let j = choose|j: int|
                            0 <= j < self.globals@.len() && self.globals@[j].0@ == name@;
                        assert(self.globals@[j].0@ != key@);
                    }
                }
                None
            },
        }
    }
}

/// Index of the entry whose name equals `key`, if any.
fn find_key<V>(v: &Vec<(String, V)>, key: &String) -> (r: Option<usize>)
    ensures
        match r {
            Some(i) => i < v@.len() && v@[i as int].0@ == key@,
            None => forall|i: int| 0 <= i < v@.len() ==> v@[i].0@ != key@,
        },
{
    let n = v.len();
    let mut i: usize = 0;
    while i < n
        invariant
            i <= n,
            n == v@.len(),
            forall|j: int| 0 <= j < i ==> v@[j].0@ != key@,
        decreases n - i,
    {
        if v[i].0 == *key {
            return Some(i);
        }
        i = i + 1;
    }
    None
}

} // verus!
