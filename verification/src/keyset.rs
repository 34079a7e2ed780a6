//! Finite sets of keys: the keys of a combination, and the keys that are held down.

use crate::key::Key;
use vstd::prelude::*;

verus! {

/// A finite set of keys. The order in which keys were put in is not part of the value: two
/// sets are the same when they hold the same keys.
#[derive(Debug)]
pub struct KeySet {
    keys: Vec<Key>,
}

impl View for KeySet {
    type V = Set<Key>;

    closed spec fn view(&self) -> Set<Key> {
        self.keys@.to_set()
    }
}

impl KeySet {
    #[verifier::type_invariant]
    spec fn distinct(self) -> bool {
        self.keys@.no_duplicates()
    }

    /// The empty set.
    pub fn new() -> (s: KeySet)
        ensures
            s@ == Set::<Key>::empty(),
    {
        let s = KeySet { keys: Vec::new() };
        assert(s.keys@.to_set() =~= Set::<Key>::empty());
        s
    }

    /// The number of keys in the set.
    pub fn len(&self) -> (n: usize)
        ensures
            self@.finite(),
            n == self@.len(),
    {
        proof {
            use_type_invariant(self);
            self.keys@.unique_seq_to_set();
        }
        self.keys.len()
    }

    pub fn is_empty(&self) -> (r: bool)
        ensures
            r == (self@ == Set::<Key>::empty()),
    {
        proof {
            use_type_invariant(self);
            self.keys@.unique_seq_to_set();
            if self.keys@.len() > 0 {
                assert(self.keys@.to_set().contains(self.keys@[0]));
            } else {
                assert(self.keys@.to_set() =~= Set::<Key>::empty());
            }
        }
        self.keys.len() == 0
    }

    /// Whether `key` is in the set.
    pub fn contains(&self, key: Key) -> (r: bool)
        ensures
            r == self@.contains(key),
    {
        let mut i: usize = 0;
        while i < self.keys.len()
            invariant
                i <= self.keys.len(),
                forall|j: int| 0 <= j < i ==> self.keys@[j] != key,
            decreases self.keys.len() - i,
        {
            if self.keys[i] == key {
                return true;
            }
            i += 1;
        }
        false
    }

    /// Puts `key` into the set, and says whether it was new.
    pub fn insert(&mut self, key: Key) -> (added: bool)
        ensures
            final(self)@ == old(self)@.insert(key),
            added == !old(self)@.contains(key),
    {
        proof {
            use_type_invariant(&*self);
        }
        if self.contains(key) {
            assert(self@.insert(key) =~= self@);
            false
        } else {
            let mut keys = self.elements();
            keys.push(key);
            *self = KeySet { keys };
            assert(self.keys@.to_set() =~= old(self).keys@.to_set().insert(key)) by {
                assert forall|k: Key| self.keys@.to_set().contains(k) implies old(
                    self,
                ).keys@.to_set().insert(key).contains(k) by {
                    let j = choose|j: int| 0 <= j < self.keys@.len() && self.keys@[j] == k;
                    if j < old(self).keys@.len() {
                        assert(old(self).keys@[j] == k);
                    }
                }
                assert forall|k: Key|
                    old(self).keys@.to_set().insert(key).contains(k) implies self.keys@.to_set().contains(
                    k,
                ) by {
                    if k == key {
                        assert(self.keys@[self.keys@.len() - 1] == k);
                    } else {
                        let j = choose|j: int|
                            0 <= j < old(self).keys@.len() && old(self).keys@[j] == k;
                        assert(self.keys@[j] == k);
                    }
                }
            }
            true
        }
    }

    /// Takes `key` out of the set, and says whether it was there.
    pub fn remove(&mut self, key: Key) -> (removed: bool)
        ensures
            final(self)@ == old(self)@.remove(key),
            removed == old(self)@.contains(key),
    {
        proof {
            use_type_invariant(&*self);
        }
        let mut i: usize = 0;
        while i < self.keys.len()
            invariant
                i <= self.keys.len(),
                self.keys == old(self).keys,
                self.keys@.no_duplicates(),
                forall|j: int| 0 <= j < i ==> self.keys@[j] != key,
            decreases self.keys.len() - i,
        {
            if self.keys[i] == key {
                let mut keys = self.elements();
                keys.remove(i);
                proof {
                    let before = old(self).keys@;
                    let after = keys@;
                    assert(after =~= before.remove(i as int));
                    assert forall|a: int, b: int|
                        0 <= a < after.len() && 0 <= b < after.len() && a != b implies after[a]
                        != after[b] by {
                        let a0 = if a < i { a } else { a + 1 };
                        let b0 = if b < i { b } else { b + 1 };
                        assert(after[a] == before[a0] && after[b] == before[b0]);
                    }
                    assert forall|k: Key| after.to_set().contains(k) implies before.to_set().remove(
                        key,
                    ).contains(k) by {
                        let j = choose|j: int| 0 <= j < after.len() && after[j] == k;
                        let j0 = if j < i { j } else { j + 1 };
                        assert(before[j0] == k);
                        assert(before[i as int] == key);
                    }
                    assert forall|k: Key|
                        before.to_set().remove(key).contains(k) implies after.to_set().contains(
                        k,
                    ) by {
                        let j = choose|j: int| 0 <= j < before.len() && before[j] == k;
                        let j1 = if j < i { j } else { j - 1 };
                        assert(after[j1] == k);
                    }
                    assert(after.to_set() =~= before.to_set().remove(key));
                }
                *self = KeySet { keys };
                return true;
            }
            i += 1;
        }
        assert(self@.remove(key) =~= self@);
        false
    }

    /// Whether every key of `other` is in this set.
    pub fn includes(&self, other: &KeySet) -> (r: bool)
        ensures
            r == other@.subset_of(self@),
    {
        let mut i: usize = 0;
        while i < other.keys.len()
            invariant
                i <= other.keys.len(),
                forall|j: int| 0 <= j < i ==> self@.contains(other.keys@[j]),
            decreases other.keys.len() - i,
        {
            if !self.contains(other.keys[i]) {
                assert(other@.contains(other.keys@[i as int]));
                return false;
            }
            i += 1;
        }
        true
    }

    /// Whether the two sets hold the same keys.
    pub fn same(&self, other: &KeySet) -> (r: bool)
        ensures
            r == (self@ == other@),
    {
        let r = self.includes(other) && other.includes(self);
        assert(r == (self@ =~= other@));
        r
    }

    fn elements(&self) -> (keys: Vec<Key>)
        ensures
            keys@ == self.keys@,
    {
        let mut keys: Vec<Key> = Vec::new();
        let mut i: usize = 0;
        while i < self.keys.len()
            invariant
                i <= self.keys.len(),
                keys@ == self.keys@.take(i as int),
            decreases self.keys.len() - i,
        {
            keys.push(self.keys[i]);
            i += 1;
        }
        assert(keys@ =~= self.keys@);
        keys
    }
}

} // verus!
