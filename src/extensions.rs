use vstd::prelude::*;

use crate::keyed::{lemma_append, lemma_last_match, lemma_no_match, lemma_replace, map_of};

verus! {

/// The identity of a stored type: each distinct type that is kept in a store has a
/// key of its own, and two types never share one.
pub type TypeKey = u64;

/// A store that holds at most one value per type, addressed by the type's key.
pub struct Extensions<V> {
    inner: Vec<(TypeKey, V)>,
}

impl<V> View for Extensions<V> {
    type V = Map<TypeKey, V>;

    closed spec fn view(&self) -> Map<TypeKey, V> {
        map_of(self.inner@)
    }
}

impl<V> Extensions<V> {
    pub fn new() -> (r: Self)
        ensures
            r@ == Map::<TypeKey, V>::empty(),
    {
        let r = Extensions { inner: Vec::new() };
        assert(r.inner@.len() == 0);
        r
    }

    /// Position of the last pair with key `key`, if any.
    fn position(&self, key: TypeKey) -> (r: Option<usize>)
        ensures
            match r {
                Some(i) => i < self.inner@.len() && self.inner@[i as int].0 == key && forall|j: int|
                    i < j < self.inner@.len() ==> (#[trigger] self.inner@[j]).0 != key,
                None => forall|j: int|
                    0 <= j < self.inner@.len() ==> (#[trigger] self.inner@[j]).0 != key,
            },
    {
        let mut i: usize = self.inner.len();
        while i > 0
            invariant
                i <= self.inner@.len(),
                forall|j: int| i <= j < self.inner@.len() ==> (#[trigger] self.inner@[j]).0 != key,
            decreases i,
        {
            if self.inner[i - 1].0 == key {
                return Some(i - 1);
            }
            i = i - 1;
        }
        None
    }

    /// Stores `val` under `key`; gives back the value that was stored under `key`
    /// before, if there was one. Values under other keys are untouched.
    pub fn insert(&mut self, key: TypeKey, val: V) -> (r: Option<V>)
        ensures
            final(self)@ == old(self)@.insert(key, val),
            old(self)@.contains_key(key) ==> r == Some(old(self)@[key]),
            !old(self)@.contains_key(key) ==> r is None,
    {
        let ghost s = self.inner@;
        match self.position(key) {
            Some(i) => {
                proof {
                    lemma_last_match(s, key, i as int);
                    lemma_replace(s, i as int, key, val);
                }
                let (_, prev) = self.inner.remove(i);
                self.inner.push((key, val));
                Some(prev)
            },
            None => {
                proof {
                    lemma_no_match(s, key);
                    lemma_append(s, key, val);
                }
                self.inner.push((key, val));
                None
            },
        }
    }

    /// The value stored under `key`, if any.
    pub fn get(&self, key: TypeKey) -> (r: Option<&V>)
        ensures
            match r {
                Some(v) => self@.contains_key(key) && *v == self@[key],
                None => !self@.contains_key(key),
            },
    {
        match self.position(key) {
            Some(i) => {
                proof {
                    lemma_last_match(self.inner@, key, i as int);
                }
                Some(&self.inner[i].1)
            },
            None => {
                proof {
                    lemma_no_match(self.inner@, key);
                }
                None
            },
        }
    }
}

impl<V> Default for Extensions<V> {
    fn default() -> (r: Self)
        ensures
            r@ == Map::<TypeKey, V>::empty(),
    {
        Self::new()
    }
}

/// Storing under one key never changes what is stored under another.
pub proof fn lemma_insert_keeps_other_keys<V>(m: Map<TypeKey, V>, t: TypeKey, u: TypeKey, val: V)
    requires
        t != u,
    ensures
        m.insert(t, val).contains_key(u) == m.contains_key(u),
        m.contains_key(u) ==> m.insert(t, val)[u] == m[u],
{
}

/// A second value under the same key is what a later lookup sees, and the first
/// is what the second insertion hands back.
pub proof fn lemma_second_insert_replaces<V>(m: Map<TypeKey, V>, t: TypeKey, first: V, second: V)
    ensures
        m.insert(t, first).contains_key(t),
        m.insert(t, first)[t] == first,
        m.insert(t, first).insert(t, second).contains_key(t),
        m.insert(t, first).insert(t, second)[t] == second,
{
}

} // verus!
