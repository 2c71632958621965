//! The resource registry: at most one instance per registered type key,
//! independent of entities, viewed as a map from type key to instance.

use vstd::prelude::*;

verus! {

use crate::entity::{find_key, keys_unique, key_index, lemma_key_index_valid, lemma_key_index_of};

/// Holds at most one instance per distinct type key. Registering is itself
/// the declaration: no separate registration step exists for resources.
pub struct ResourceRegistry<R> {
    keys: Vec<u64>,
    instances: Vec<R>,
}

impl<R> View for ResourceRegistry<R> {
    type V = Map<u64, R>;

    closed spec fn view(&self) -> Map<u64, R> {
        Map::new(
            |k: u64| self.keys@.contains(k),
            |k: u64| self.instances@[key_index(self.keys@, k)],
        )
    }
}

impl<R> ResourceRegistry<R> {
    /// One instance per key, keys distinct.
    pub closed spec fn wf(self) -> bool {
        &&& self.keys@.len() == self.instances@.len()
        &&& keys_unique(self.keys@)
    }

    /// Stores or replaces the single instance held under `key`.
    pub fn register(&mut self, key: u64, resource: R)
        requires
            old(self).wf(),
        ensures
            final(self).wf(),
            final(self)@ == old(self)@.insert(key, resource),
    {
        let ghost pre = *old(self);
        match find_key(&self.keys, key) {
            Some(at) => {
                proof {
                    lemma_key_index_of(pre.keys@, at as int);
                }
                self.instances.set(at, resource);
                proof {
                    assert(self@ =~= pre@.insert(key, resource)) by {
                        assert forall|k: u64| #[trigger] self.keys@.contains(k) && k != key implies
                            self@[k] == pre@[k] by {
                            lemma_key_index_valid(pre.keys@, k);
                        }
                    }
                }
            },
            None => {
                self.keys.push(key);
                self.instances.push(resource);
                proof {
                    assert forall|k: u64| #[trigger] self.keys@.contains(k) implies
                        pre.keys@.contains(k) || k == key by {
                        let at = choose|i: int|
                            0 <= i < self.keys@.len() && self.keys@[i] == k;
                        if at < pre.keys@.len() {
                            assert(pre.keys@.contains(k));
                        }
                    }
                    assert forall|k: u64|
                        pre.keys@.contains(k) || k == key implies #[trigger] self.keys@.contains(
                        k,
                    ) by {
                        if pre.keys@.contains(k) {
                            lemma_key_index_valid(pre.keys@, k);
                            assert(self.keys@[key_index(pre.keys@, k)] == k);
                        } else {
                            assert(self.keys@[pre.keys@.len() as int] == key);
                        }
                    }
                    assert(keys_unique(self.keys@)) by {
                        assert forall|i: int, j: int|
                            0 <= i < j < self.keys@.len() implies self.keys@[i]
                            != self.keys@[j] by {
                            if j == pre.keys@.len() {
                                assert(pre.keys@[i] == self.keys@[i]);
                                if self.keys@[i] == key {
                                    assert(pre.keys@.contains(key));
                                }
                            }
                        }
                    }
                    assert(self@ =~= pre@.insert(key, resource)) by {
                        assert forall|k: u64| #[trigger] self.keys@.contains(k) && k != key implies
                            self@[k] == pre@[k] by {
                            lemma_key_index_valid(pre.keys@, k);
                            lemma_key_index_of(self.keys@, key_index(pre.keys@, k));
                        }
                        lemma_key_index_of(self.keys@, pre.keys@.len() as int);
                    }
                }
            },
        }
    }

    /// Shared access to the instance under `key`; absence is an explicit
    /// empty answer, never a fabricated default.
    pub fn get(&self, key: u64) -> (r: Option<&R>)
        requires
            self.wf(),
        ensures
            match r {
                Some(resource) => self@.contains_key(key) && *resource == self@[key],
                None => !self@.contains_key(key),
            },
    {
        match find_key(&self.keys, key) {
            Some(at) => {
                proof {
                    lemma_key_index_of(self.keys@, at as int);
                }
                Some(&self.instances[at])
            },
            None => None,
        }
    }

    /// Exclusive access to the instance under `key`. The registry afterwards
    /// holds whatever value the caller leaves behind the returned handle;
    /// nothing else changes.
    pub fn get_mut(&mut self, key: u64) -> (r: Option<&mut R>)
        requires
            old(self).wf(),
        ensures
            final(self).wf(),
            match r {
                Some(resource) => {
                    &&& old(self)@.contains_key(key)
                    &&& *resource == old(self)@[key]
                    &&& final(self)@ == old(self)@.insert(key, *final(resource))
                },
                None => !old(self)@.contains_key(key) && final(self)@ == old(self)@,
            },
    {
        let ghost pre = *old(self);
        match find_key(&self.keys, key) {
            Some(at) => {
                proof {
                    lemma_key_index_of(pre.keys@, at as int);
                    assert forall|k: u64| #[trigger] pre.keys@.contains(k) implies 0 <= key_index(
                        pre.keys@,
                        k,
                    ) < pre.keys@.len() && pre.keys@[key_index(pre.keys@, k)] == k by {
                        lemma_key_index_valid(pre.keys@, k);
                    }
                }
                let resource = &mut self.instances[at];
                Some(resource)
            },
            None => None,
        }
    }

    /// Removes and returns the instance under `key`, if one is present.
    pub fn delete(&mut self, key: u64) -> (r: Option<R>)
        requires
            old(self).wf(),
        ensures
            final(self).wf(),
            final(self)@ == old(self)@.remove(key),
            match r {
                Some(resource) => old(self)@.contains_key(key) && resource == old(self)@[key],
                None => !old(self)@.contains_key(key),
            },
    {
        let ghost pre = *old(self);
        match find_key(&self.keys, key) {
            Some(at) => {
                proof {
                    lemma_key_index_of(pre.keys@, at as int);
                }
                self.keys.remove(at);
                let resource = self.instances.remove(at);
                proof {
                    assert(keys_unique(self.keys@)) by {
                        assert forall|i: int, j: int|
                            0 <= i < j < self.keys@.len() implies self.keys@[i]
                            != self.keys@[j] by {
                            let pi: int = if i < at { i } else { i + 1 };
                            let pj: int = if j < at { j } else { j + 1 };
                            assert(self.keys@[i] == pre.keys@[pi]);
                            assert(self.keys@[j] == pre.keys@[pj]);
                        }
                    }
                    assert(self@ =~= pre@.remove(key)) by {
                        assert forall|k: u64| #[trigger] self.keys@.contains(k) implies
                            pre.keys@.contains(k) && k != key by {
                            let i = choose|i: int|
                                0 <= i < self.keys@.len() && self.keys@[i] == k;
                            let pi: int = if i < at { i } else { i + 1 };
                            assert(pre.keys@[pi] == k);
                            if k == key {
                                lemma_key_index_of(pre.keys@, pi);
                            }
                        }
                        assert forall|k: u64|
                            pre.keys@.contains(k) && k != key implies #[trigger] self.keys@.contains(
                            k,
                        ) by {
                            lemma_key_index_valid(pre.keys@, k);
                            let pi = key_index(pre.keys@, k);
                            if pi < at {
                                assert(self.keys@[pi] == k);
                            } else {
                                assert(pre.keys@[at as int] == key);
                                assert(self.keys@[pi - 1] == k);
                            }
                        }
                        assert forall|k: u64| #[trigger] self.keys@.contains(k) implies self@[k]
                            == pre@[k] by {
                            let i = choose|i: int|
                                0 <= i < self.keys@.len() && self.keys@[i] == k;
                            lemma_key_index_of(self.keys@, i);
                            let pi: int = if i < at { i } else { i + 1 };
                            assert(pre.keys@[pi] == k);
                            lemma_key_index_of(pre.keys@, pi);
                            assert(self.instances@[i] == pre.instances@[pi]);
                        }
                    }
                }
                Some(resource)
            },
            None => {
                proof {
                    assert(self@ =~= pre@.remove(key));
                }
                None
            },
        }
    }
}

impl<R> Default for ResourceRegistry<R> {
    /// An empty registry holding no instance under any key.
    fn default() -> (r: Self)
        ensures
            r.wf(),
            r@ == Map::<u64, R>::empty(),
    {
        let r = ResourceRegistry { keys: Vec::new(), instances: Vec::new() };
        proof {
            assert(r@ =~= Map::<u64, R>::empty());
        }
        r
    }
}

/// Deleting a resource removes its key, so a later lookup of that key finds
/// nothing; registering the key anew afterwards stores the new instance.
pub proof fn lemma_delete_then_reregister<R>(resources: Map<u64, R>, key: u64, resource: R)
    ensures
        !resources.remove(key).contains_key(key),
        resources.remove(key).insert(key, resource).contains_key(key),
        resources.remove(key).insert(key, resource)[key] == resource,
{
}

} // verus!
